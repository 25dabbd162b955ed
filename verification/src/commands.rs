//! The laws of the command line.
//!
//! The first word says what to do. A setting is the word behind the first mention
//! of its name, wherever in the line that stands, and a setting that is missing or
//! is no number has its default.

use crate::console::Command;
use vstd::prelude::*;

verus! {

/// A setting counts wherever it stands: it is the word behind the first mention of
/// its name, whatever comes before and after.
pub proof fn law_a_setting_counts_wherever_it_stands(
    before: Seq<Seq<char>>,
    name: Seq<char>,
    value: Seq<char>,
    after: Seq<Seq<char>>,
)
    requires
        !before.contains(name),
    ensures
        crate::console::flag_value(before + seq![name, value] + after, name) == Some(value),
{
    let args = before + seq![name, value] + after;
    let at = before.len() as int;
    assert(args[at] == name && args[at + 1] == value);
    assert forall|j: int| 0 <= j < at implies (#[trigger] args[j]) != name by {
        assert(args[j] == before[j]);
    }
    assert(crate::console::first_named(args, name, at));
    assert forall|i: int| #[trigger] crate::console::first_named(args, name, i) implies i == at by {
        if i < at {
            assert(args[i] == before[i]);
        }
    }
}

/// A setting that is not mentioned is missing, and so is one that is mentioned
/// last and has nothing behind it.
pub proof fn law_a_setting_can_be_missing(before: Seq<Seq<char>>, name: Seq<char>)
    requires
        !before.contains(name),
    ensures
        crate::console::flag_value(before, name) is None,
        crate::console::flag_value(before.push(name), name) is None,
{
    let args = before.push(name);
    assert forall|i: int| #[trigger] crate::console::first_named(before, name, i) implies false by {
        assert(before[i] == name);
    }
    assert forall|i: int| #[trigger] crate::console::first_named(args, name, i) implies i
        == before.len() by {
        if i < before.len() {
            assert(args[i] == before[i]);
        }
    }
}

/// A setting that is missing or is no number in range has its default, and one
/// that is a number has that number.
pub proof fn law_a_setting_has_a_default(text: Seq<char>, max: u64, default: u64)
    ensures
        crate::console::number_or(None, max, default) == default,
        crate::text::number(text, max) is None ==> crate::console::number_or(
            Some(text),
            max,
            default,
        ) == default,
        crate::text::number(text, max) matches Some(n) ==> crate::console::number_or(
            Some(text),
            max,
            default,
        ) == n,
{
}

/// The command names are pairwise different.
proof fn lemma_names_differ()
    ensures
        "demo"@ != "run"@,
        "demo"@ != "delegate"@,
        "demo"@ != "help"@,
        "demo"@ != "-h"@,
        "demo"@ != "--help"@,
        "run"@ != "delegate"@,
        "run"@ != "help"@,
        "run"@ != "-h"@,
        "run"@ != "--help"@,
        "delegate"@ != "help"@,
        "delegate"@ != "-h"@,
        "delegate"@ != "--help"@,
{
    reveal_strlit("demo");
    reveal_strlit("run");
    reveal_strlit("delegate");
    reveal_strlit("help");
    reveal_strlit("-h");
    reveal_strlit("--help");
    assert("demo"@.len() == 4 && "demo"@[0] == 'd');
    assert("help"@.len() == 4 && "help"@[0] == 'h');
    assert("run"@.len() == 3);
    assert("delegate"@.len() == 8);
    assert("-h"@.len() == 2);
    assert("--help"@.len() == 6);
}

/// The first word is the command, and nothing behind it makes it another one. With
/// no word at all it is the demo.
pub proof fn law_the_first_word_is_the_command(args: Seq<Seq<char>>)
    ensures
        ({
            let command = crate::console::command_of(args);
            let word = args[0];
            &&& args.len() == 0 ==> command is Demo
            &&& args.len() > 0 ==> {
                &&& command is Demo <==> word == "demo"@
                &&& command is Run <==> word == "run"@
                &&& command is Delegate <==> word == "delegate"@
                &&& command is Help <==> word == "help"@ || word == "-h"@ || word == "--help"@
            }
        }),
{
    lemma_names_differ();
}

/// The seed that a command asks for, if it asks for one.
pub open spec fn seed_of(command: Command) -> Option<u64> {
    match command {
        Command::Demo { seed } => Some(seed),
        Command::Run { seed, .. } => Some(seed),
        _ => None,
    }
}

/// The seed of a command is the number behind the first mention of it, wherever in
/// the line that stands, and 1 if that is no number.
pub proof fn law_the_seed_counts_wherever_it_stands(
    before: Seq<Seq<char>>,
    value: Seq<char>,
    after: Seq<Seq<char>>,
)
    requires
        before.len() > 0,
        before[0] == "demo"@ || before[0] == "run"@,
        !before.contains("--seed"@),
    ensures
        ({
            let args = before + seq!["--seed"@, value] + after;
            seed_of(crate::console::command_of(args)) == Some(
                match crate::text::number(value, u64::MAX) {
                    Some(seed) => seed,
                    None => 1,
                },
            )
        }),
{
    let args = before + seq!["--seed"@, value] + after;
    assert(args[0] == before[0]);
    lemma_names_differ();
    law_a_setting_counts_wherever_it_stands(before, "--seed"@, value, after);
}

/// A command that mentions no seed, or has nothing behind it, has seed 1.
pub proof fn law_the_seed_can_be_missing(args: Seq<Seq<char>>)
    requires
        args.len() == 0 || args[0] == "demo"@ || args[0] == "run"@,
        !args.contains("--seed"@),
    ensures
        seed_of(crate::console::command_of(args)) == Some(1u64),
        args.len() > 0 ==> seed_of(crate::console::command_of(args.push("--seed"@))) == Some(
            1u64,
        ),
{
    lemma_names_differ();
    law_a_setting_can_be_missing(args, "--seed"@);
    if args.len() > 0 {
        assert(args.push("--seed"@)[0] == args[0]);
    }
}

/// The size of a stress run is what stands behind the first mention of each
/// setting, wherever in the line that is, and 3 if that is no number that fits.
pub proof fn law_the_sizes_count_wherever_they_stand(
    before: Seq<Seq<char>>,
    value: Seq<char>,
    after: Seq<Seq<char>>,
)
    requires
        before.len() > 0,
        before[0] == "run"@,
    ensures
        ({
            let size = match crate::text::number(value, u32::MAX as u64) {
                Some(size) => size,
                None => 3,
            };
            let pairs = crate::console::command_of(before + seq!["--pairs"@, value] + after);
            let burst = crate::console::command_of(before + seq!["--burst"@, value] + after);
            &&& !before.contains("--pairs"@) ==> pairs is Run && pairs->pairs == size
            &&& !before.contains("--burst"@) ==> burst is Run && burst->burst == size
        }),
{
    lemma_names_differ();
    let (a, b) = (
        before + seq!["--pairs"@, value] + after,
        before + seq!["--burst"@, value] + after,
    );
    assert(a[0] == before[0] && b[0] == before[0]);
    if !before.contains("--pairs"@) {
        law_a_setting_counts_wherever_it_stands(before, "--pairs"@, value, after);
    }
    if !before.contains("--burst"@) {
        law_a_setting_counts_wherever_it_stands(before, "--burst"@, value, after);
    }
    crate::text::law_a_bound_only_cuts_off(value, u32::MAX as u64, u32::MAX as u64);
}

/// The sizes of a stress run are 3 and 3 where the line does not say otherwise.
pub proof fn law_the_sizes_can_be_missing(args: Seq<Seq<char>>)
    requires
        args.len() > 0,
        args[0] == "run"@,
    ensures
        ({
            let command = crate::console::command_of(args);
            &&& command is Run
            &&& !args.contains("--pairs"@) ==> command->pairs == 3
            &&& !args.contains("--burst"@) ==> command->burst == 3
        }),
{
    lemma_names_differ();
    if !args.contains("--pairs"@) {
        law_a_setting_can_be_missing(args, "--pairs"@);
    }
    if !args.contains("--burst"@) {
        law_a_setting_can_be_missing(args, "--burst"@);
    }
}

/// A numeral is none of the names of settings, which differ among themselves.
proof fn lemma_numerals_are_no_names(n: nat)
    ensures
        crate::text::decimal(n) != "--seed"@,
        crate::text::decimal(n) != "--pairs"@,
        crate::text::decimal(n) != "--burst"@,
        "--seed"@ != "--pairs"@,
        "--seed"@ != "--burst"@,
        "--pairs"@ != "--burst"@,
        "run"@ != "--seed"@,
        "run"@ != "--pairs"@,
        "run"@ != "--burst"@,
{
    reveal_strlit("--seed");
    reveal_strlit("--pairs");
    reveal_strlit("--burst");
    reveal_strlit("run");
    assert("--seed"@[0] == '-' && "--seed"@[2] == 's');
    assert("--pairs"@[0] == '-' && "--pairs"@[2] == 'p');
    assert("--burst"@[0] == '-' && "--burst"@[2] == 'b');
    assert("run"@[0] == 'r');
    crate::text::law_a_numeral_is_read_back(n, u64::MAX);
    crate::text::law_a_numeral_is_canonical(n, 0);
    let row = crate::text::decimal_digits();
    assert(!row.contains('-')) by {
        assert forall|i: int| 0 <= i < row.len() implies row[i] != '-' by {}
    }
    if crate::text::decimal(n).len() == 0 {
        assert(crate::text::decimal(n) =~= Seq::empty());
        crate::text::law_where_reading_begins('0', u64::MAX);
    }
}

/// A command line is read back: whatever the seed and the sizes, the line that
/// spells them out asks for them, in whatever order it does so.
pub proof fn law_a_command_line_is_read_back(seed: u64, pairs: u32, burst: u32)
    ensures
        ({
            let s = seq!["--seed"@, crate::text::decimal(seed as nat)];
            let p = seq!["--pairs"@, crate::text::decimal(pairs as nat)];
            let b = seq!["--burst"@, crate::text::decimal(burst as nat)];
            let run = Command::Run { seed, pairs, burst };
            &&& crate::console::command_of(seq!["run"@] + s + p + b) == run
            &&& crate::console::command_of(seq!["run"@] + s + b + p) == run
            &&& crate::console::command_of(seq!["run"@] + p + s + b) == run
            &&& crate::console::command_of(seq!["run"@] + p + b + s) == run
            &&& crate::console::command_of(seq!["run"@] + b + s + p) == run
            &&& crate::console::command_of(seq!["run"@] + b + p + s) == run
        }),
{
    let s = seq!["--seed"@, crate::text::decimal(seed as nat)];
    let p = seq!["--pairs"@, crate::text::decimal(pairs as nat)];
    let b = seq!["--burst"@, crate::text::decimal(burst as nat)];
    lemma_read_back(s, p, b, seed, pairs, burst);
    lemma_read_back(s, b, p, seed, pairs, burst);
    lemma_read_back(p, s, b, seed, pairs, burst);
    lemma_read_back(p, b, s, seed, pairs, burst);
    lemma_read_back(b, s, p, seed, pairs, burst);
    lemma_read_back(b, p, s, seed, pairs, burst);
}

/// One order of the settings.
proof fn lemma_read_back(
    x: Seq<Seq<char>>,
    y: Seq<Seq<char>>,
    z: Seq<Seq<char>>,
    seed: u64,
    pairs: u32,
    burst: u32,
)
    requires
        ({
            let s = seq!["--seed"@, crate::text::decimal(seed as nat)];
            let p = seq!["--pairs"@, crate::text::decimal(pairs as nat)];
            let b = seq!["--burst"@, crate::text::decimal(burst as nat)];
            ||| x == s && y == p && z == b
            ||| x == s && y == b && z == p
            ||| x == p && y == s && z == b
            ||| x == p && y == b && z == s
            ||| x == b && y == s && z == p
            ||| x == b && y == p && z == s
        }),
    ensures
        crate::console::command_of(seq!["run"@] + x + y + z) == (Command::Run {
            seed,
            pairs,
            burst,
        }),
{
    let args = seq!["run"@] + x + y + z;
    assert(args.len() == 7 && args[0] == "run"@);
    assert(args[1] == x[0] && args[2] == x[1] && args[3] == y[0] && args[4] == y[1] && args[5]
        == z[0] && args[6] == z[1]);
    lemma_names_differ();
    lemma_numerals_are_no_names(seed as nat);
    lemma_numerals_are_no_names(pairs as nat);
    lemma_numerals_are_no_names(burst as nat);
    lemma_found(args, "--seed"@, crate::text::decimal(seed as nat));
    lemma_found(args, "--pairs"@, crate::text::decimal(pairs as nat));
    lemma_found(args, "--burst"@, crate::text::decimal(burst as nat));
    crate::text::law_a_numeral_is_read_back(seed as nat, u64::MAX);
    crate::text::law_a_numeral_is_read_back(pairs as nat, u32::MAX as u64);
    crate::text::law_a_numeral_is_read_back(burst as nat, u32::MAX as u64);
}

/// A setting that is mentioned once is found.
proof fn lemma_found(args: Seq<Seq<char>>, name: Seq<char>, value: Seq<char>)
    requires
        args.len() == 7,
        args[0] != name,
        args[2] != name,
        args[4] != name,
        args[6] != name,
        ({
            ||| args[1] == name && args[2] == value && args[3] != name && args[5] != name
            ||| args[3] == name && args[4] == value && args[1] != name && args[5] != name
            ||| args[5] == name && args[6] == value && args[1] != name && args[3] != name
        }),
    ensures
        crate::console::flag_value(args, name) == Some(value),
{
    let at: int = if args[1] == name {
        1
    } else if args[3] == name {
        3
    } else {
        5
    };
    assert(crate::console::first_named(args, name, at));
    assert forall|i: int| #[trigger] crate::console::first_named(args, name, i) implies i == at by {
        assert(args[i] == name);
    }
}

/// A seed is looked up the same way whatever is asked for: it is the number behind
/// the first mention of it, and the default if there is none.
pub proof fn law_a_seed_is_looked_up(
    before: Seq<Seq<char>>,
    value: Seq<char>,
    after: Seq<Seq<char>>,
    default: u64,
)
    requires
        !before.contains("--seed"@),
    ensures
        crate::text::number(value, u64::MAX) matches Some(seed) ==> crate::console::seed_in(
            before + seq!["--seed"@, value] + after,
            default,
        ) == seed,
        crate::text::number(value, u64::MAX) is None ==> crate::console::seed_in(
            before + seq!["--seed"@, value] + after,
            default,
        ) == default,
        crate::console::seed_in(before, default) == default,
        crate::console::seed_in(before.push("--seed"@), default) == default,
{
    law_a_setting_counts_wherever_it_stands(before, "--seed"@, value, after);
    law_a_setting_can_be_missing(before, "--seed"@);
}

/// A command that has a seed has the one that is looked up in the whole line.
pub proof fn law_a_command_has_the_seed_of_its_line(args: Seq<Seq<char>>)
    ensures
        seed_of(crate::console::command_of(args)) matches Some(seed) ==> seed
            == crate::console::seed_in(args, 1),
{
}

/// The cap on the ops is the number that the setting gives, whatever it is, and the
/// default where there is no setting or it is no number.
pub proof fn law_a_budget_is_what_is_set(setting: Seq<char>, n: u64, default: u64)
    ensures
        crate::console::budget_in(None, default) == default,
        crate::console::budget_in(Some(crate::text::decimal(n as nat)), default) == n,
        crate::text::number(setting, u64::MAX) is None ==> crate::console::budget_in(
            Some(setting),
            default,
        ) == default,
        crate::text::number(setting, u64::MAX) matches Some(budget) ==> crate::console::budget_in(
            Some(setting),
            default,
        ) == budget,
{
    crate::text::law_a_numeral_is_read_back(n as nat, u64::MAX);
}

} // verus!
