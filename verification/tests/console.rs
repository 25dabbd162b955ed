//! What the command line tool understands and says.

use seedcore::console::{
    delegation_lines, demo_lines, flag, map_lines, op_budget, parse_command, seed_from,
    stress_lines, summary_lines, Command,
};
use seedcore::{scenario, RunReport};

fn args(words: &[&str]) -> Vec<String> {
    words.iter().map(|w| w.to_string()).collect()
}

#[test]
fn flags_take_the_word_after_their_first_mention() {
    let line = args(&["run", "--seed", "7", "--seed", "8", "--pairs"]);
    assert_eq!(flag(&line, "--seed"), Some("7"));
    assert_eq!(flag(&line, "--pairs"), None);
    assert_eq!(flag(&line, "--burst"), None);
    assert_eq!(seed_from(&line, 1), 7);
    assert_eq!(seed_from(&args(&["--seed", "x"]), 5), 5);
    assert_eq!(seed_from(&args(&["--seed", "18446744073709551615"]), 5), u64::MAX);
    assert_eq!(seed_from(&args(&["--seed", "18446744073709551616"]), 5), 5);
    assert_eq!(seed_from(&args(&["--seed", "+12"]), 5), 12);
    assert_eq!(seed_from(&args(&["--seed", "-12"]), 5), 5);
    assert_eq!(seed_from(&args(&["--seed", ""]), 5), 5);
}

#[test]
fn the_budget_comes_from_the_setting() {
    assert_eq!(op_budget(None, 256), 256);
    assert_eq!(op_budget(Some("1000000"), 256), 1_000_000);
    assert_eq!(op_budget(Some("many"), 256), 256);
}

#[test]
fn commands_are_recognized() {
    assert_eq!(parse_command(&[]), Command::Demo { seed: 1 });
    assert_eq!(parse_command(&args(&["demo", "--seed", "4"])), Command::Demo { seed: 4 });
    assert_eq!(
        parse_command(&args(&["run"])),
        Command::Run { seed: 1, pairs: 3, burst: 3 }
    );
    assert_eq!(
        parse_command(&args(&["run", "--seed", "42", "--pairs", "4", "--burst", "2"])),
        Command::Run { seed: 42, pairs: 4, burst: 2 }
    );
    assert_eq!(
        parse_command(&args(&["run", "--pairs", "4294967296"])),
        Command::Run { seed: 1, pairs: 3, burst: 3 }
    );
    assert_eq!(parse_command(&args(&["delegate"])), Command::Delegate);
    for word in ["help", "-h", "--help"] {
        assert_eq!(parse_command(&args(&[word])), Command::Help);
    }
    assert_eq!(parse_command(&args(&["--seed", "3"])), Command::Unknown);
}

#[test]
fn the_map_shows_every_capability() {
    let lines = map_lines(&scenario::demo(1));
    assert_eq!(
        lines,
        args(&[
            "== address spaces and capabilities ==",
            "task#0 filesystem",
            "    slot 0: endpoint#0 [recv]",
            "    slot 1: region#0 [read|write] <- address space",
            "    slot 2: region#1 [read|write] <- address space",
            "task#1 console",
            "    slot 0: endpoint#1 [recv]",
            "task#2 app",
            "    slot 0: endpoint#0 [send]",
            "    slot 1: endpoint#2 [recv]",
            "    slot 2: endpoint#2 [send|grant]",
            "    slot 3: region#0 [read|write] <- address space",
            "    slot 4: endpoint#1 [send]",
            "",
        ])
    );
    let stressed = map_lines(&scenario::stress(1, 1, 1));
    assert_eq!(stressed[7], "task#2 rogue");
    assert_eq!(stressed[8], "    (no capabilities: cannot touch any kernel object)");
}

#[test]
fn the_summary_counts_the_run() {
    let report = scenario::demo(1).run(256);
    assert_eq!(
        summary_lines(&report)[4..9].to_vec(),
        args(&[
            "IPC rendezvous    3",
            "cap transfers     1",
            "memory reads      2",
            "memory writes     2",
            "denied syscalls   2",
        ])
    );
    let stuck = RunReport { deadlocked: true, ops_executed: 12, ..RunReport::default() };
    let lines = summary_lines(&stuck);
    assert_eq!(lines[0], "== summary ==");
    assert_eq!(lines[1], "ops executed      12");
    assert_eq!(
        lines[9],
        "note: run ended with threads still blocked (no progress possible)"
    );
}

#[test]
fn a_session_shows_map_trace_and_summary() {
    let lines = demo_lines(1, 256);
    let heading = lines.iter().position(|l| l == "== trace ==").unwrap();
    assert_eq!(heading, 14);
    assert_eq!(lines[heading + 1], "[t  1] dispatch thread#0 (task#0)");
    assert_eq!(lines[heading + 2], "        thread#0 blocks on recv endpoint#0");
    let mut k = scenario::demo(1);
    k.run(256);
    assert_eq!(lines[heading + 1 + k.trace().len()], "");
    assert_eq!(lines[heading + 2 + k.trace().len()], "== summary ==");
    assert_eq!(lines, demo_lines(1, u64::MAX));
    assert_eq!(lines, demo_lines(77, 256));
}

#[test]
fn stress_sessions_are_reproducible_unless_too_large() {
    let once = stress_lines(42, 4, 3, 4096).unwrap();
    assert_eq!(stress_lines(42, 4, 3, 4096).unwrap(), once);
    assert_ne!(stress_lines(43, 4, 3, 4096).unwrap(), once);
    assert_eq!(stress_lines(42, 4, 3, u64::MAX).unwrap(), once);
    assert!(stress_lines(42, u32::MAX, 3, 4096).is_none());
    assert!(stress_lines(42, 0x8000_0000, 3, 4096).is_none());
    let short = stress_lines(42, 4, 200_000, 64).unwrap();
    assert!(short.iter().any(|l| l == "ops executed      64"));
}

#[test]
fn delegation_narrows_and_revocation_cascades() {
    assert_eq!(
        delegation_lines(),
        args(&[
            "== capability delegation ==",
            "owner  holds region#0 [read|write] (root)",
            "editor holds a minted copy [read|write] derived from the owner",
            "viewer holds a minted copy [read] derived from the editor (write dropped)",
            "",
            "== access before revocation ==",
            "owner   slot 0: read ok, write ok",
            "editor  slot 0: read ok, write ok",
            "viewer  slot 0: read ok, write denied",
            "",
            "== revoke the editor capability (transitive) ==",
            "removed 2 capabilities: the editor copy and everything derived from it",
            "",
            "== access after revocation ==",
            "owner   slot 0: read ok, write ok",
            "editor  slot 0: read denied, write denied",
            "viewer  slot 0: read denied, write denied",
        ])
    );
}
