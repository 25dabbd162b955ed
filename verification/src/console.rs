//! The command line tool, apart from reading arguments and printing.
//!
//! Everything the tool says is computed here: what a command line asks for, the
//! map of address spaces and capabilities, the trace, the summary of a run, and
//! the demonstration of delegation and transitive revocation.

use crate::capability::{CapEntry, CapSlot, Capability, ObjectRef, Rights, TableView};
use crate::kernel::{Kernel, RunReport};
use crate::scenario::{demo, stress};
use crate::scheduler::Policy;
use crate::state::{KernelView, TaskView};
use crate::text::{decimal_text, pad_right_text, parse_number, same_text};
use crate::trace::EventView;
use crate::{RegionId, TaskId, ThreadId};
use vstd::prelude::*;

verus! {

/// The characters of a row of strings.
pub open spec fn lines_view(lines: Seq<String>) -> Seq<Seq<char>> {
    lines.map_values(|line: String| line@)
}

// -- arguments ----------------------------------------------------------------

/// What a command line asks for.
#[derive(Debug, Clone, Copy, PartialEq, Eq)]
pub enum Command {
    /// Run the guided demo.
    Demo { seed: u64 },
    /// Run the stress scenario.
    Run { seed: u64, pairs: u32, burst: u32 },
    /// Show delegation and transitive revocation.
    Delegate,
    /// Show the usage message.
    Help,
    /// The command is not known.
    Unknown,
}

/// Whether an argument is the first of its name.
pub open spec fn first_named(args: Seq<Seq<char>>, name: Seq<char>, at: int) -> bool {
    &&& 0 <= at < args.len()
    &&& args[at] == name
    &&& forall|j: int| 0 <= j < at ==> (#[trigger] args[j]) != name
}

/// The argument that follows the first one of a name.
pub open spec fn flag_value(args: Seq<Seq<char>>, name: Seq<char>) -> Option<Seq<char>> {
    if exists|at: int| #[trigger] first_named(args, name, at) && at + 1 < args.len() {
        let at = choose|at: int| #[trigger] first_named(args, name, at) && at + 1 < args.len();
        Some(args[at + 1])
    } else {
        None
    }
}

/// The number that a text gives, if it gives one in range, or else a default.
pub open spec fn number_or(text: Option<Seq<char>>, max: u64, default: u64) -> u64 {
    match text {
        None => default,
        Some(text) => match crate::text::number(text, max) {
            None => default,
            Some(value) => value,
        },
    }
}

/// The argument that follows the first one of a name, if there is one.
pub fn flag<'a>(args: &'a [String], name: &str) -> (value: Option<&'a str>)
    ensures
        (match value {
            Some(value) => Some(value@),
            None => None,
        }) == flag_value(lines_view(args@), name@),
{
    let ghost texts = lines_view(args@);
    let mut at: usize = 0;
    while at < args.len()
        invariant
            at <= args.len(),
            texts == lines_view(args@),
            forall|j: int| 0 <= j < at ==> (#[trigger] texts[j]) != name@,
        decreases args.len() - at,
    {
        if same_text(args[at].as_str(), name) {
            proof {
                assert(texts[at as int] == name@);
                assert(first_named(texts, name@, at as int));
                assert forall|i: int| #[trigger] first_named(texts, name@, i) implies i == at by {
                    if i < at {
                        assert(texts[i] != name@);
                    }
                }
            }
            if at + 1 < args.len() {
                let value = args[at + 1].as_str();
                proof {
                    assert(texts[at + 1] == value@);
                }
                return Some(value);
            }
            return None;
        }
        proof {
            assert(texts[at as int] != name@);
        }
        at = at + 1;
    }
    None
}

/// The number that a text gives, or a default.
fn parse_or(text: Option<&str>, max: u64, default: u64) -> (value: u64)
    requires
        default <= max,
    ensures
        value == number_or(
            match text {
                Some(text) => Some(text@),
                None => None,
            },
            max,
            default,
        ),
        value <= max,
{
    match text {
        Some(text) => match parse_number(text, max) {
            Some(value) => value,
            None => default,
        },
        None => default,
    }
}

/// The seed that a command line names, or a default.
pub open spec fn seed_in(args: Seq<Seq<char>>, default: u64) -> u64 {
    number_or(flag_value(args, "--seed"@), u64::MAX, default)
}

/// The cap on the number of ops that a setting names, or a default.
pub open spec fn budget_in(setting: Option<Seq<char>>, default: u64) -> u64 {
    number_or(setting, u64::MAX, default)
}

/// The seed that a command line names, or a default.
pub fn seed_from(args: &[String], default: u64) -> (seed: u64)
    ensures
        seed == seed_in(lines_view(args@), default),
        seed == number_or(flag_value(lines_view(args@), "--seed"@), u64::MAX, default),
{
    parse_or(flag(args, "--seed"), u64::MAX, default)
}

/// The cap on the number of ops, from the setting that overrides it, or a
/// default.
pub fn op_budget(setting: Option<&str>, default: u64) -> (budget: u64)
    ensures
        budget == budget_in(
            match setting {
                Some(text) => Some(text@),
                None => None,
            },
            default,
        ),
        budget == number_or(
            match setting {
                Some(text) => Some(text@),
                None => None,
            },
            u64::MAX,
            default,
        ),
{
    parse_or(setting, u64::MAX, default)
}

/// What a command line asks for. With no command it is the demo.
pub open spec fn command_of(args: Seq<Seq<char>>) -> Command {
    let seed = number_or(flag_value(args, "--seed"@), u64::MAX, 1);
    if args.len() == 0 || args[0] == "demo"@ {
        Command::Demo { seed }
    } else if args[0] == "run"@ {
        Command::Run {
            seed,
            pairs: number_or(flag_value(args, "--pairs"@), u32::MAX as u64, 3) as u32,
            burst: number_or(flag_value(args, "--burst"@), u32::MAX as u64, 3) as u32,
        }
    } else if args[0] == "delegate"@ {
        Command::Delegate
    } else if args[0] == "help"@ || args[0] == "-h"@ || args[0] == "--help"@ {
        Command::Help
    } else {
        Command::Unknown
    }
}

/// Read a command line.
pub fn parse_command(args: &[String]) -> (command: Command)
    ensures
        command == command_of(lines_view(args@)),
{
    let seed: u64 = seed_from(args, 1);
    if args.len() == 0 {
        return Command::Demo { seed };
    }
    let name = args[0].as_str();
    proof {
        assert(lines_view(args@)[0] == name@);
    }
    if same_text(name, "demo") {
        Command::Demo { seed }
    } else if same_text(name, "run") {
        let pairs: u64 = parse_or(flag(args, "--pairs"), u32::MAX as u64, 3);
        let burst: u64 = parse_or(flag(args, "--burst"), u32::MAX as u64, 3);
        Command::Run { seed, pairs: pairs as u32, burst: burst as u32 }
    } else if same_text(name, "delegate") {
        Command::Delegate
    } else if same_text(name, "help") || same_text(name, "-h") || same_text(name, "--help") {
        Command::Help
    } else {
        Command::Unknown
    }
}

// -- the map ------------------------------------------------------------------

/// The line of a slot.
pub open spec fn slot_text(slot: CapSlot, cap: Capability) -> Seq<char> {
    "    slot "@ + crate::text::decimal(slot as nat) + ": "@ + cap.text()
        + if cap.object is Region {
        " <- address space"@
    } else {
        ""@
    }
}

/// The lines of the slots below a number, in order.
pub open spec fn slots_text(table: TableView, below: nat) -> Seq<Seq<char>>
    decreases below,
{
    if below == 0 {
        Seq::empty()
    } else {
        let slot = (below - 1) as CapSlot;
        let before = slots_text(table, (below - 1) as nat);
        match table.get(slot) {
            Some(cap) => before.push(slot_text(slot, cap)),
            None => before,
        }
    }
}

/// The lines of a task: its name, and the capabilities it holds.
pub open spec fn task_text(task: TaskView) -> Seq<Seq<char>> {
    let title = "task#"@ + crate::text::decimal(task.id as nat) + " "@ + task.name;
    let none = "    (no capabilities: cannot touch any kernel object)"@;
    if task.caps.slots == Map::<CapSlot, CapEntry>::empty() {
        seq![title, none]
    } else {
        seq![title] + slots_text(task.caps, task.caps.next)
    }
}

/// The lines of a row of tasks.
pub open spec fn tasks_text(tasks: Seq<TaskView>) -> Seq<Seq<char>>
    decreases tasks.len(),
{
    if tasks.len() == 0 {
        Seq::empty()
    } else {
        tasks_text(tasks.drop_last()) + task_text(tasks.last())
    }
}

/// The map of address spaces and capabilities.
pub open spec fn map_text(k: KernelView) -> Seq<Seq<char>> {
    seq!["== address spaces and capabilities =="@] + tasks_text(k.tasks) + seq![""@]
}

/// One more line.
proof fn lemma_line(lines: Seq<String>, line: String)
    ensures
        lines_view(lines.push(line)) == lines_view(lines).push(line@),
{
    assert(lines_view(lines.push(line)) =~= lines_view(lines).push(line@));
}

/// Render the line of a slot.
fn slot_line(slot: CapSlot, cap: Capability) -> (line: String)
    ensures
        line@ == slot_text(slot, cap),
{
    let mut line = "    slot ".to_owned();
    let number = decimal_text(slot as u64);
    line.append(number.as_str());
    line.append(": ");
    let shown = cap.to_string();
    line.append(shown.as_str());
    match cap.object {
        ObjectRef::Region(_) => line.append(" <- address space"),
        _ => line.append(""),
    }
    line
}

/// Render the map of address spaces and capabilities.
pub fn map_lines(k: &Kernel) -> (lines: Vec<String>)
    requires
        k.wf(),
    ensures
        lines_view(lines@) == map_text(k@),
{
    let mut lines: Vec<String> = Vec::new();
    lines.push("== address spaces and capabilities ==".to_owned());
    let tasks = k.tasks();
    let ghost views = k@.tasks;
    let ghost title = seq!["== address spaces and capabilities =="@];
    let mut at: usize = 0;
    proof {
        assert(views.take(0) =~= Seq::empty());
        assert(lines_view(lines@) =~= title + tasks_text(views.take(0)));
    }
    while at < tasks.len()
        invariant
            at <= tasks.len(),
            k.wf(),
            views == k@.tasks,
            views == tasks@.map_values(|t: crate::kernel::Task| t@),
            title == seq!["== address spaces and capabilities =="@],
            lines_view(lines@) == title + tasks_text(views.take(at as int)),
        decreases tasks.len() - at,
    {
        let task = &tasks[at];
        let ghost before = lines_view(lines@);
        proof {
            assert(task@ == views[at as int]);
            reveal(KernelView::wf);
            assert(k@.sizes_wf());
            assert(k@.tasks[(at as TaskId) as int].id == at);
            assert(k@.table(at as TaskId).wf());
        }
        let mut name = "task#".to_owned();
        let number = decimal_text(task.id as u64);
        name.append(number.as_str());
        name.append(" ");
        name.append(task.name.as_str());
        let ghost shown = name@;
        proof {
            lemma_line(lines@, name);
        }
        lines.push(name);
        if task.caps.is_empty() {
            let none = "    (no capabilities: cannot touch any kernel object)".to_owned();
            proof {
                lemma_line(lines@, none);
            }
            lines.push(none);
            proof {
                assert(lines_view(lines@) =~= before + task_text(task@));
            }
        } else {
            let last: CapSlot = task.caps.high_water();
            let mut slot: CapSlot = 0;
            proof {
                assert(lines_view(lines@) =~= before.push(shown) + slots_text(task.caps@, 0));
            }
            while slot < last
                invariant
                    slot <= last,
                    last == task.caps@.next,
                    lines_view(lines@) == before.push(shown) + slots_text(
                        task.caps@,
                        slot as nat,
                    ),
                decreases last - slot,
            {
                if let Some(cap) = task.caps.get(slot) {
                    let line = slot_line(slot, cap);
                    let ghost so_far = slots_text(task.caps@, slot as nat);
                    proof {
                        lemma_line(lines@, line);
                        assert((before.push(shown) + so_far).push(line@) =~= before.push(shown)
                            + so_far.push(line@));
                    }
                    lines.push(line);
                }
                slot = slot + 1;
            }
            proof {
                let rest = slots_text(task.caps@, task.caps@.next);
                assert(slot == last);
                assert(task_text(task@) == seq![shown] + rest);
                assert(before.push(shown) + rest =~= before + (seq![shown] + rest));
                assert(lines_view(lines@) =~= before + task_text(task@));
            }
        }
        proof {
            assert(views.take(at + 1).drop_last() =~= views.take(at as int));
            assert(title + tasks_text(views.take(at + 1)) =~= before + task_text(task@));
        }
        at = at + 1;
    }
    let blank = "".to_owned();
    proof {
        assert(views.take(at as int) =~= views);
        lemma_line(lines@, blank);
    }
    lines.push(blank);
    proof {
        assert(lines_view(lines@) =~= map_text(k@));
    }
    lines
}

// -- the summary --------------------------------------------------------------

/// The summary of a run.
pub open spec fn summary_text(report: RunReport) -> Seq<Seq<char>> {
    let counts = seq![
        "== summary =="@,
        "ops executed      "@ + crate::text::decimal(report.ops_executed as nat),
        "context switches  "@ + crate::text::decimal(report.context_switches as nat),
        "final tick        "@ + crate::text::decimal(report.final_tick as nat),
        "IPC rendezvous    "@ + crate::text::decimal(report.rendezvous as nat),
        "cap transfers     "@ + crate::text::decimal(report.cap_transfers as nat),
        "memory reads      "@ + crate::text::decimal(report.mem_reads as nat),
        "memory writes     "@ + crate::text::decimal(report.mem_writes as nat),
        "denied syscalls   "@ + crate::text::decimal(report.denials as nat),
    ];
    if report.deadlocked {
        counts.push("note: run ended with threads still blocked (no progress possible)"@)
    } else {
        counts
    }
}

/// Render a count with its label.
fn count_line(label: &str, count: u64) -> (line: String)
    ensures
        line@ == label@ + crate::text::decimal(count as nat),
{
    let mut line = label.to_owned();
    let number = decimal_text(count);
    line.append(number.as_str());
    line
}

/// Render the summary of a run.
pub fn summary_lines(report: &RunReport) -> (lines: Vec<String>)
    ensures
        lines_view(lines@) == summary_text(*report),
{
    let mut lines: Vec<String> = Vec::new();
    lines.push("== summary ==".to_owned());
    lines.push(count_line("ops executed      ", report.ops_executed));
    lines.push(count_line("context switches  ", report.context_switches));
    lines.push(count_line("final tick        ", report.final_tick));
    lines.push(count_line("IPC rendezvous    ", report.rendezvous));
    lines.push(count_line("cap transfers     ", report.cap_transfers));
    lines.push(count_line("memory reads      ", report.mem_reads));
    lines.push(count_line("memory writes     ", report.mem_writes));
    lines.push(count_line("denied syscalls   ", report.denials));
    if report.deadlocked {
        lines.push(
            "note: run ended with threads still blocked (no progress possible)".to_owned(),
        );
    }
    proof {
        assert(lines_view(lines@) =~= summary_text(*report));
    }
    lines
}

// -- a whole session ----------------------------------------------------------

/// The lines of a trace.
pub open spec fn trace_text(trace: Seq<EventView>) -> Seq<Seq<char>> {
    trace.map_values(|event: EventView| event.text())
}

/// What the tool says about a run from one state to another.
pub open spec fn session_text(before: KernelView, after: KernelView, report: RunReport) -> Seq<
    Seq<char>,
> {
    map_text(before) + seq!["== trace =="@] + trace_text(after.trace) + seq![""@] + summary_text(
        report,
    )
}

/// Whether some lines are what the tool says about a run from a state.
pub open spec fn shows_run(lines: Seq<Seq<char>>, before: KernelView, max_ops: nat) -> bool {
    let after = before.run(max_ops);
    exists|report: RunReport| #[trigger]
        crate::kernel::summarizes(
            report,
            after,
            before.trace.len(),
            before.ops_run(max_ops),
        ) && lines == session_text(before, after, report)
}

/// Run a kernel and render everything about it: the map, the trace and the
/// summary.
pub fn run_lines(kernel: Kernel, max_ops: u64) -> (lines: Vec<String>)
    requires
        kernel.wf(),
        kernel@.can_run(max_ops as nat),
    ensures
        shows_run(lines_view(lines@), kernel@, max_ops as nat),
{
    let ghost before = kernel@;
    let mut k = kernel;
    let mut lines = map_lines(&k);
    let heading = "== trace ==".to_owned();
    proof {
        lemma_line(lines@, heading);
    }
    lines.push(heading);
    let report = k.run(max_ops);
    let events = k.trace();
    let ghost opening = lines_view(lines@);
    let mut at: usize = 0;
    proof {
        assert(trace_text(k@.trace.take(0)) =~= Seq::empty());
        assert(opening + trace_text(k@.trace.take(0)) =~= opening);
    }
    while at < events.len()
        invariant
            at <= events.len(),
            crate::trace::trace_view(events@) == k@.trace,
            lines_view(lines@) == opening + trace_text(k@.trace.take(at as int)),
        decreases events.len() - at,
    {
        let line = events[at].to_string();
        proof {
            lemma_line(lines@, line);
            assert(k@.trace[at as int] == events@[at as int]@);
            assert(k@.trace.take(at + 1) =~= k@.trace.take(at as int).push(k@.trace[at as int]));
            assert(trace_text(k@.trace.take(at + 1)) =~= trace_text(
                k@.trace.take(at as int),
            ).push(line@));
            assert(opening + trace_text(k@.trace.take(at as int)).push(line@) =~= (opening
                + trace_text(k@.trace.take(at as int))).push(line@));
        }
        lines.push(line);
        at = at + 1;
    }
    let blank = "".to_owned();
    proof {
        assert(k@.trace.take(at as int) =~= k@.trace);
        lemma_line(lines@, blank);
    }
    lines.push(blank);
    let mut summary = summary_lines(&report);
    let ghost (body, last) = (lines@, summary@);
    lines.append(&mut summary);
    proof {
        assert(lines_view(lines@) =~= lines_view(body) + lines_view(last));
        assert(lines_view(lines@) =~= session_text(before, before.run(max_ops as nat), report));
    }
    lines
}

/// Run the guided demo and render it.
pub fn demo_lines(seed: u64, max_ops: u64) -> (lines: Vec<String>)
    ensures
        shows_run(lines_view(lines@), crate::scenario::demo_view(seed), max_ops as nat),
{
    let k = demo(seed);
    proof {
        assert(k@.can_run(max_ops as nat));
    }
    run_lines(k, max_ops)
}

/// Whether the tasks and threads of the stress scenario can be numbered: two of
/// each for every couple, and one for the rogue.
pub open spec fn stress_feasible(pairs: u32) -> bool {
    2 * crate::scenario::at_least_one(pairs) + 1 <= u32::MAX
}

/// Run the stress scenario and render it, unless it has more tasks than there are
/// numbers for.
pub fn stress_lines(seed: u64, pairs: u32, burst: u32, max_ops: u64) -> (lines: Option<
    Vec<String>,
>)
    ensures
        lines is Some <==> stress_feasible(pairs),
        lines is Some ==> shows_run(
            lines_view((lines->0)@),
            crate::scenario::stress_view(
                seed,
                crate::scenario::at_least_one(pairs),
                crate::scenario::at_least_one(burst),
            ),
            max_ops as nat,
        ),
{
    if pairs > (u32::MAX - 1) / 2 {
        return None;
    }
    let k = stress(seed, pairs, burst);
    proof {
        assert(k@.can_run(max_ops as nat));
    }
    Some(run_lines(k, max_ops))
}

// -- delegation ---------------------------------------------------------------

/// The line that says what a task can do with a slot.
pub open spec fn access_text(
    who: Seq<char>,
    slot: CapSlot,
    can_read: bool,
    can_write: bool,
) -> Seq<char> {
    crate::text::pad_right(who, 7) + " slot "@ + crate::text::decimal(slot as nat) + ": "@
        + if can_read {
        "read ok"@
    } else {
        "read denied"@
    } + ", "@ + if can_write {
        "write ok"@
    } else {
        "write denied"@
    }
}

/// Try to read and to write through a slot, and say how it went.
pub fn report_access(k: &mut Kernel, who: &str, thread: ThreadId, slot: CapSlot) -> (line: String)
    requires
        old(k).wf(),
    ensures
        line@ == access_text(
            who@,
            slot,
            old(k)@.sys_read(thread, slot, 0) is Ok,
            old(k)@.sys_write_answer(thread, slot, 0) is Ok,
        ),
        final(k)@ == old(k)@.sys_write(thread, slot, 0, 1),
        final(k).wf(),
{
    let read: &'static str = match k.sys_read(thread, slot, 0) {
        Ok(_) => "read ok",
        Err(_) => "read denied",
    };
    let write: &'static str = match k.sys_write(thread, slot, 0, 1) {
        Ok(_) => "write ok",
        Err(_) => "write denied",
    };
    let mut line = pad_right_text(who.to_owned(), 7);
    line.append(" slot ");
    let number = decimal_text(slot as u64);
    line.append(number.as_str());
    line.append(": ");
    line.append(read);
    line.append(", ");
    line.append(write);
    line
}

/// The objects of the demonstration: an owner, an editor and a viewer, each with
/// a thread that does nothing, and a region.
pub open spec fn delegation_objects() -> KernelView {
    KernelView::boot(1, Policy::RoundRobin).create_task("owner"@).create_task(
        "editor"@,
    ).create_task("viewer"@).create_region(0, 8).spawn_thread(
        0,
        "owner"@,
        0,
        Seq::empty(),
    ).spawn_thread(1, "editor"@, 0, Seq::empty()).spawn_thread(2, "viewer"@, 0, Seq::empty())
}

/// The owner holds the region, the editor a full copy, and the viewer a copy of
/// that without the write right.
pub open spec fn delegation_view() -> KernelView {
    delegation_objects().grant(0, ObjectRef::Region(0), full_access()).mint(
        0,
        0,
        1,
        Rights::none(),
    ).mint(1, 0, 2, Rights::write())
}

/// The right to read and write.
pub open spec fn full_access() -> Rights {
    Rights::read().union(Rights::write())
}

/// The demonstration of delegation and transitive revocation: the copies narrow,
/// and revoking the editor's takes the viewer's with it and leaves the owner's.
pub open spec fn delegation_text() -> Seq<Seq<char>> {
    seq![
        "== capability delegation =="@,
        "owner  holds region#"@ + crate::text::decimal(0) + " ["@ + full_access().text()
            + "] (root)"@,
        "editor holds a minted copy ["@ + full_access().text() + "] derived from the owner"@,
        "viewer holds a minted copy ["@ + Rights::read().text()
            + "] derived from the editor (write dropped)"@,
        ""@,
        "== access before revocation =="@,
        access_text("owner"@, 0, true, true),
        access_text("editor"@, 0, true, true),
        access_text("viewer"@, 0, true, false),
        ""@,
        "== revoke the editor capability (transitive) =="@,
        "removed "@ + crate::text::decimal(2)
            + " capabilities: the editor copy and everything derived from it"@,
        ""@,
        "== access after revocation =="@,
        access_text("owner"@, 0, true, true),
        access_text("editor"@, 0, false, false),
        access_text("viewer"@, 0, false, false),
    ]
}

/// Which rights the three copies carry.
proof fn lemma_delegated_rights()
    ensures
        full_access().minus(Rights::none()) == full_access(),
        full_access().minus(Rights::write()) == Rights::read(),
        full_access().contains(Rights::read()),
        full_access().contains(Rights::write()),
        Rights::read().contains(Rights::read()),
        !Rights::read().contains(Rights::write()),
{
    assert((8u32 | 16u32) & !0u32 == 8u32 | 16u32) by (bit_vector);
    assert((8u32 | 16u32) & !16u32 == 8u32) by (bit_vector);
    assert((8u32 | 16u32) & 8u32 == 8u32) by (bit_vector);
    assert((8u32 | 16u32) & 16u32 == 16u32) by (bit_vector);
    assert(8u32 & 8u32 == 8u32) by (bit_vector);
    assert(8u32 & 16u32 == 0u32) by (bit_vector);
}

/// Whether a state holds the three copies of the demonstration, or, once the
/// editor's was revoked, the owner's alone.
pub open spec fn delegated(k: KernelView, revoked: bool) -> bool {
    &&& k.tasks.len() == 3
    &&& k.threads.len() == 3
    &&& forall|i: int|
        0 <= i < 3 ==> (#[trigger] k.threads[i]).task == i && k.threads[i].pending is None
    &&& k.regions.len() == 1
    &&& k.regions[0].data.len() == 8
    &&& k.table(0).slots == map![0u32 => CapEntry {
        cap: Capability { object: ObjectRef::Region(0), rights: full_access() },
        id: 0,
    }]
    &&& k.table(1).slots == if revoked {
        Map::empty()
    } else {
        map![0u32 => CapEntry {
            cap: Capability { object: ObjectRef::Region(0), rights: full_access() },
            id: 1,
        }]
    }
    &&& k.table(2).slots == if revoked {
        Map::empty()
    } else {
        map![0u32 => CapEntry {
            cap: Capability { object: ObjectRef::Region(0), rights: Rights::read() },
            id: 2,
        }]
    }
    &&& !revoked ==> k.cdt == map![0u64 => None, 1u64 => Some(0u64), 2u64 => Some(1u64)]
}

/// What each of the three can do.
proof fn lemma_delegated_access(k: KernelView, revoked: bool)
    requires
        delegated(k, revoked),
    ensures
        k.sys_read(0, 0, 0) is Ok,
        k.sys_write_answer(0, 0, 0) is Ok,
        k.sys_read(1, 0, 0) is Ok <==> !revoked,
        k.sys_write_answer(1, 0, 0) is Ok <==> !revoked,
        k.sys_read(2, 0, 0) is Ok <==> !revoked,
        k.sys_write_answer(2, 0, 0) is Err,
{
    lemma_delegated_rights();
    assert(k.threads[0].task == 0);
    assert(k.threads[1].task == 1);
    assert(k.threads[2].task == 2);
}

/// Writing a byte changes nothing that the demonstration looks at.
proof fn lemma_delegated_write(
    k: KernelView,
    revoked: bool,
    thread: ThreadId,
    slot: CapSlot,
)
    requires
        delegated(k, revoked),
    ensures
        delegated(k.sys_write(thread, slot, 0, 1), revoked),
{
    let n = k.sys_write(thread, slot, 0, 1);
    assert(n.tasks == k.tasks);
    assert(n.threads == k.threads);
}

/// The demonstration starts with three copies.
proof fn lemma_delegated_start()
    ensures
        delegated(delegation_view(), false),
{
    lemma_delegated_rights();
    let objects = delegation_objects();
    assert(objects.table(0).slots =~= Map::empty());
    assert(objects.table(1).slots =~= Map::empty());
    assert(objects.table(2).slots =~= Map::empty());
    let granted = objects.grant(0, ObjectRef::Region(0), full_access());
    let root = CapEntry {
        cap: Capability { object: ObjectRef::Region(0), rights: full_access() },
        id: 0,
    };
    assert(granted.held(0, 0) == Some(root));
    let edited = granted.mint(0, 0, 1, Rights::none());
    let copy = CapEntry {
        cap: Capability { object: ObjectRef::Region(0), rights: full_access() },
        id: 1,
    };
    assert(edited.held(1, 0) == Some(copy));
    let k = delegation_view();
    assert(k.table(0).slots =~= map![0u32 => root]);
    assert(k.table(1).slots =~= map![0u32 => copy]);
    assert(k.table(2).slots =~= map![0u32 => CapEntry {
        cap: Capability { object: ObjectRef::Region(0), rights: Rights::read() },
        id: 2,
    }]);
    assert(k.cdt =~= map![0u64 => None, 1u64 => Some(0u64), 2u64 => Some(1u64)]);
}

/// Revoking the editor's copy takes the viewer's too: two capabilities go.
proof fn lemma_delegated_revoke(k: KernelView)
    requires
        delegated(k, false),
    ensures
        delegated(k.revoke_tree(1, 0), true),
        k.live_count() - k.revoke_tree(1, 0).live_count() == 2,
{
    let n = k.revoke_tree(1, 0);
    assert(k.cap_id(1, 0) == Some(1u64));
    reveal_with_fuel(crate::state::descends, 3);
    assert(crate::state::descends(k.cdt, 1, 1));
    assert(crate::state::descends(k.cdt, 2, 1));
    assert(!crate::state::descends(k.cdt, 0, 1));
    assert(n.tasks.len() == 3);
    assert(n.table(0).slots =~= k.table(0).slots);
    assert(n.table(1).slots =~= Map::empty());
    assert(n.table(2).slots =~= Map::empty());
    assert(crate::state::flight_count(k.threads) == crate::state::flight_count(n.threads)) by {
        reveal_with_fuel(crate::state::flight_count, 4);
    }
    assert(crate::state::held_count(k.tasks) == 3) by {
        lemma_held_by_three(k.tasks);
        assert(k.table(0).slots.dom() =~= set![0u32]);
        assert(k.table(1).slots.dom() =~= set![0u32]);
        assert(k.table(2).slots.dom() =~= set![0u32]);
    }
    assert(crate::state::held_count(n.tasks) == 1) by {
        lemma_held_by_three(n.tasks);
        assert(n.table(0).slots.dom() =~= set![0u32]);
        assert(n.table(1).slots.dom() =~= Set::<u32>::empty());
        assert(n.table(2).slots.dom() =~= Set::<u32>::empty());
    }
}

/// What three tasks hold together.
proof fn lemma_held_by_three(tasks: Seq<TaskView>)
    requires
        tasks.len() == 3,
    ensures
        crate::state::held_count(tasks) == tasks[0].caps.slots.len() + tasks[1].caps.slots.len()
            + tasks[2].caps.slots.len(),
{
    reveal_with_fuel(crate::state::held_count, 4);
    assert(tasks.drop_last().drop_last().drop_last().len() == 0);
}

/// Show capability delegation and transitive revocation.
///
/// An owner holds full rights to a region. It delegates a copy to an editor, and
/// the editor sub delegates a read only copy to a viewer. Revoking the editor
/// capability then cascades: the viewer copy, derived from it, dies too, while
/// the owner keeps its own access.
pub fn delegation_lines() -> (lines: Vec<String>)
    ensures
        lines_view(lines@) == delegation_text(),
{
    let mut k = Kernel::new(1);
    let owner: TaskId = k.create_task("owner");
    let editor: TaskId = k.create_task("editor");
    let viewer: TaskId = k.create_task("viewer");
    let region: RegionId = k.create_region(owner, 8);

    let owner_th: ThreadId = k.spawn_thread(owner, "owner", 0, Vec::new());
    let editor_th: ThreadId = k.spawn_thread(editor, "editor", 0, Vec::new());
    let viewer_th: ThreadId = k.spawn_thread(viewer, "viewer", 0, Vec::new());
    proof {
        assert(crate::thread::program_view(Seq::empty()) =~= Seq::empty());
        assert(k@ == delegation_objects());
    }
    let full = Rights::read() | Rights::write();
    let root: CapSlot = k.grant(owner, ObjectRef::Region(region), full);
    let mut lines: Vec<String> = Vec::new();
    let minted = k.mint(owner, root, editor, Rights::none());
    proof {
        lemma_delegated_start();
        lemma_delegated_rights();
    }
    if let Ok((editor_cap, er)) = minted {
        // The viewer copy drops the write right: delegation can only narrow.
        if let Ok((viewer_cap, vr)) = k.mint(editor, editor_cap, viewer, Rights::write()) {
            proof {
                assert(k@ == delegation_view());
            }
            lines.push("== capability delegation ==".to_owned());
            let mut first = "owner  holds region#".to_owned();
            let number = decimal_text(region as u64);
            first.append(number.as_str());
            first.append(" [");
            let shown = full.to_string();
            first.append(shown.as_str());
            first.append("] (root)");
            lines.push(first);
            lines.push(bracketed("editor holds a minted copy [", er, "] derived from the owner"));
            lines.push(
                bracketed(
                    "viewer holds a minted copy [",
                    vr,
                    "] derived from the editor (write dropped)",
                ),
            );
            lines.push("".to_owned());

            lines.push("== access before revocation ==".to_owned());
            proof {
                lemma_delegated_access(k@, false);
                lemma_delegated_write(k@, false, owner_th, root);
            }
            lines.push(report_access(&mut k, "owner", owner_th, root));
            proof {
                lemma_delegated_access(k@, false);
                lemma_delegated_write(k@, false, editor_th, editor_cap);
            }
            lines.push(report_access(&mut k, "editor", editor_th, editor_cap));
            proof {
                lemma_delegated_access(k@, false);
                lemma_delegated_write(k@, false, viewer_th, viewer_cap);
            }
            lines.push(report_access(&mut k, "viewer", viewer_th, viewer_cap));
            lines.push("".to_owned());

            proof {
                lemma_delegated_revoke(k@);
            }
            let removed: usize = k.revoke_tree(editor, editor_cap);
            lines.push("== revoke the editor capability (transitive) ==".to_owned());
            let mut count = "removed ".to_owned();
            let digits = decimal_text(removed as u64);
            count.append(digits.as_str());
            count.append(" capabilities: the editor copy and everything derived from it");
            lines.push(count);
            lines.push("".to_owned());

            lines.push("== access after revocation ==".to_owned());
            proof {
                lemma_delegated_access(k@, true);
                lemma_delegated_write(k@, true, owner_th, root);
            }
            lines.push(report_access(&mut k, "owner", owner_th, root));
            proof {
                lemma_delegated_access(k@, true);
                lemma_delegated_write(k@, true, editor_th, editor_cap);
            }
            lines.push(report_access(&mut k, "editor", editor_th, editor_cap));
            proof {
                lemma_delegated_access(k@, true);
            }
            lines.push(report_access(&mut k, "viewer", viewer_th, viewer_cap));
        }
    }
    proof {
        assert(lines_view(lines@) =~= delegation_text());
    }
    lines
}

/// Render a set of rights between two texts.
fn bracketed(before: &str, rights: Rights, after: &str) -> (line: String)
    ensures
        line@ == before@ + rights.text() + after@,
{
    let mut line = before.to_owned();
    let shown = rights.to_string();
    line.append(shown.as_str());
    line.append(after);
    line
}

/// A stress run is feasible as long as two tasks for each couple and one for the
/// rogue can be numbered, and a run without couples or messages has one of each.
pub proof fn law_a_stress_run_needs_numbers_for_its_tasks(pairs: u32)
    ensures
        crate::scenario::at_least_one(pairs) >= 1,
        pairs >= 1 ==> crate::scenario::at_least_one(pairs) == pairs,
        pairs <= 1 ==> crate::scenario::at_least_one(pairs) == 1,
        stress_feasible(pairs) <==> pairs <= 0x7fff_ffff,
{
}

} // verus!
