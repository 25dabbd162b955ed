//! The laws of the report.
//!
//! The report of a run counts what the run put on record and nothing else, says
//! how long the run took, and tells a deadlock from a run that ended well or was
//! cut short.

use crate::actions::Action;
use crate::kernel::RunReport;
use crate::state::KernelView;
use crate::trace::EventView;
use vstd::prelude::*;

verus! {

/// Whether a report is the report of a run from a state.
pub open spec fn reports(report: RunReport, k: KernelView, max_ops: nat) -> bool {
    crate::kernel::summarizes(report, k.run(max_ops), k.trace.len(), k.ops_run(max_ops))
}

/// The places in a trace, from one on, that hold an event of a kind.
pub open spec fn places(
    trace: Seq<EventView>,
    from: nat,
    kind: spec_fn(EventView) -> bool,
) -> Set<int> {
    Set::new(|i: int| from <= i < trace.len() && kind(trace[i]))
}

/// Counting places counts the events there.
proof fn lemma_places(trace: Seq<EventView>, from: nat, kind: spec_fn(EventView) -> bool)
    requires
        from <= trace.len(),
    ensures
        places(trace, from, kind).finite(),
        places(trace, from, kind).len() == crate::state::tally(trace.skip(from as int), kind),
    decreases trace.len() - from,
{
    let all = places(trace, from, kind);
    let seen = trace.skip(from as int);
    if seen.len() == 0 {
        assert(all =~= Set::empty());
    } else {
        let before = trace.drop_last();
        let last = trace.len() - 1;
        lemma_places(before, from, kind);
        assert(before.skip(from as int) =~= seen.drop_last());
        let rest = places(before, from, kind);
        if kind(trace.last()) {
            assert(all =~= rest.insert(last));
            assert(!rest.contains(last));
        } else {
            assert(all =~= rest);
        }
    }
}

/// The report counts what happened: each of its counts is the number of places
/// in the trace of the run, and of no earlier one, that hold an event of the kind
/// it is named after.
pub proof fn law_the_report_counts_what_happened(k: KernelView, max_ops: nat, report: RunReport)
    requires
        k.sound(),
        k.run_safe(max_ops),
        reports(report, k, max_ops),
    ensures
        ({
            let (trace, from) = (k.run(max_ops).trace, k.trace.len());
            &&& report.rendezvous == places(trace, from, |e: EventView| e is Rendezvous).len()
            &&& report.cap_transfers == places(
                trace,
                from,
                |e: EventView| e is CapTransfer,
            ).len()
            &&& report.denials == places(trace, from, |e: EventView| e is Denied).len()
            &&& report.mem_reads == places(trace, from, |e: EventView| e is MemRead).len()
            &&& report.mem_writes == places(trace, from, |e: EventView| e is MemWrite).len()
        }),
{
    let (trace, from) = (k.run(max_ops).trace, k.trace.len());
    crate::history::lemma_run(k, max_ops);
    lemma_places(trace, from, |e: EventView| e is Rendezvous);
    lemma_places(trace, from, |e: EventView| e is CapTransfer);
    lemma_places(trace, from, |e: EventView| e is Denied);
    lemma_places(trace, from, |e: EventView| e is MemRead);
    lemma_places(trace, from, |e: EventView| e is MemWrite);
}

/// How far time goes in a run.
proof fn lemma_run_time(k: KernelView, max_ops: nat)
    requires
        k.wf(),
        k.run_safe(max_ops),
    ensures
        ({
            let (n, ops) = (k.run(max_ops), k.ops_run(max_ops));
            &&& n.clock == k.clock + ops
            &&& n.sched.switches == k.sched.switches + ops
            &&& ops <= max_ops
            &&& ops == max_ops || n.sched.ready.len() == 0
        }),
    decreases max_ops,
{
    if max_ops > 0 && k.sched.ready.len() > 0 {
        crate::rendezvous::lemma_about_to(k);
        crate::turns::law_every_turn_is_accounted_for(k, k.next_thread());
        crate::soundness::lemma_tick(k);
        lemma_run_time(k.tick(), (max_ops - 1) as nat);
    }
}

/// The ticks on record are as many as the dispatches.
proof fn lemma_ticks_are_dispatches(trace: Seq<EventView>, from: nat)
    requires
        from <= trace.len(),
    ensures
        crate::history::ticks(trace).len() == crate::history::ticks(
            trace.take(from as int),
        ).len() + crate::state::tally(trace.skip(from as int), |e: EventView| e is Dispatch),
    decreases trace.len() - from,
{
    if from < trace.len() {
        let before = trace.drop_last();
        lemma_ticks_are_dispatches(before, from);
        assert(before.take(from as int) =~= trace.take(from as int));
        assert(trace.skip(from as int).drop_last() =~= before.skip(from as int));
    } else {
        assert(trace.take(from as int) =~= trace);
    }
}

/// The report says how long the run took. The ops executed are the dispatches
/// that the run put on record, and as many ticks passed; no more are executed than
/// asked for, and fewer only where nobody is ready any more. The final tick and
/// the number of context switches are what they were before the run and as many
/// more.
pub proof fn law_the_report_says_how_long_it_took(k: KernelView, max_ops: nat, report: RunReport)
    requires
        k.sound(),
        k.run_safe(max_ops),
        reports(report, k, max_ops),
    ensures
        ({
            let n = k.run(max_ops);
            &&& report.ops_executed == places(
                n.trace,
                k.trace.len(),
                |e: EventView| e is Dispatch,
            ).len()
            &&& report.ops_executed <= max_ops
            &&& report.ops_executed < max_ops ==> n.sched.ready.len() == 0
            &&& report.final_tick == k.clock + report.ops_executed
            &&& report.context_switches == k.sched.switches + report.ops_executed
        }),
{
    let n = k.run(max_ops);
    let from = k.trace.len();
    lemma_run_time(k, max_ops);
    crate::history::lemma_run(k, max_ops);
    lemma_places(n.trace, from, |e: EventView| e is Dispatch);
    lemma_ticks_are_dispatches(n.trace, from);
    assert(n.trace.take(from as int) =~= k.trace);
}

/// Switches are counted by the clock: whatever happens, one goes up when the other
/// does. A kernel starts with both at zero, so it always has made as many context
/// switches as ticks have passed.
pub proof fn law_switches_keep_pace_with_the_clock(k: KernelView, script: Seq<Action>)
    requires
        k.sound(),
        k.allows_all(script),
    ensures
        k.after_all(script).sched.switches - k.sched.switches == k.after_all(script).clock
            - k.clock,
    decreases script.len(),
{
    if script.len() > 0 {
        let m = k.after(script[0]);
        crate::actions::lemma_action(k, script[0]);
        if let Action::Run { max_ops } = script[0] {
            lemma_run_time(k, max_ops);
        }
        law_switches_keep_pace_with_the_clock(m, script.drop_first());
    }
}

/// A kernel that was used in whatever way since it booted reports as many context
/// switches as dispatches are on record, and the same number as final tick.
pub proof fn law_context_switches_are_all_dispatches(
    seed: u64,
    policy: crate::scheduler::Policy,
    script: Seq<Action>,
    max_ops: nat,
    report: RunReport,
)
    requires
        KernelView::boot(seed, policy).allows_all(script),
        KernelView::boot(seed, policy).after_all(script).run_safe(max_ops),
        reports(report, KernelView::boot(seed, policy).after_all(script), max_ops),
    ensures
        ({
            let n = KernelView::boot(seed, policy).after_all(script).run(max_ops);
            &&& report.context_switches == places(n.trace, 0, |e: EventView| e is Dispatch).len()
            &&& report.context_switches == report.final_tick
        }),
{
    let start = KernelView::boot(seed, policy);
    let k = start.after_all(script);
    let n = k.run(max_ops);
    crate::soundness::lemma_boot(seed, policy);
    crate::history::lemma_boot(seed, policy);
    crate::actions::law_the_invariant_always_holds(start, script);
    law_switches_keep_pace_with_the_clock(start, script);
    lemma_run_time(k, max_ops);
    crate::history::lemma_run(k, max_ops);
    lemma_places(n.trace, 0, |e: EventView| e is Dispatch);
    lemma_ticks_are_dispatches(n.trace, 0);
    assert(n.trace.take(0) =~= Seq::empty());
}

/// A deadlock is reported if and only if nobody is ready and some thread is
/// neither finished nor past the end of its program. That is so exactly when
/// somebody is left waiting at an endpoint, to send or to receive.
pub proof fn law_a_deadlock_is_somebody_left_waiting(
    k: KernelView,
    max_ops: nat,
    report: RunReport,
)
    requires
        k.sound(),
        k.run_safe(max_ops),
        reports(report, k, max_ops),
    ensures
        ({
            let n = k.run(max_ops);
            &&& report.deadlocked <==> n.sched.ready.len() == 0 && exists|i: int|
                0 <= i < n.threads.len() && !((#[trigger] n.threads[i]).state is Exited)
                    && n.threads[i].pc < n.threads[i].program.len()
            &&& report.deadlocked <==> n.sched.ready.len() == 0 && exists|i: int|
                0 <= i < n.threads.len() && ((#[trigger] n.threads[i]).state is BlockedSend
                    || n.threads[i].state is BlockedRecv)
        }),
{
    let n = k.run(max_ops);
    crate::soundness::lemma_run(k, max_ops);
    reveal(KernelView::wf);
    if n.sched.ready.len() == 0 {
        assert forall|i: int| 0 <= i < n.threads.len() implies (!((
        #[trigger] n.threads[i]).state is Exited) && n.threads[i].pc < n.threads[i].program.len()
            <==> n.threads[i].state is BlockedSend || n.threads[i].state is BlockedRecv) by {
            let tid = i as crate::ThreadId;
            assert(n.thread_wf(tid, None));
        }
        if exists|i: int|
            0 <= i < n.threads.len() && ((#[trigger] n.threads[i]).state is BlockedSend
                || n.threads[i].state is BlockedRecv) {
            let i = choose|i: int|
                0 <= i < n.threads.len() && ((#[trigger] n.threads[i]).state is BlockedSend
                    || n.threads[i].state is BlockedRecv);
            assert(!n.threads[i].is_done());
        }
    }
}

/// A sender that nobody receives from is a deadlock, and so is a receiver that
/// nobody sends to: whoever waits when nobody is ready makes the run one.
pub proof fn law_whoever_waits_in_vain_is_a_deadlock(
    k: KernelView,
    max_ops: nat,
    report: RunReport,
    tid: crate::ThreadId,
)
    requires
        k.sound(),
        k.run_safe(max_ops),
        reports(report, k, max_ops),
        k.run(max_ops).sched.ready.len() == 0,
        k.run(max_ops).has_thread(tid),
        ({
            let state = k.run(max_ops).threads[tid as int].state;
            state is BlockedSend || state is BlockedRecv
        }),
    ensures
        report.deadlocked,
{
    law_a_deadlock_is_somebody_left_waiting(k, max_ops, report);
    let n = k.run(max_ops);
    assert(n.threads[tid as int].state is BlockedSend || n.threads[tid as int].state
        is BlockedRecv);
}

/// A run in which every thread finishes is no deadlock, nor is one that was cut
/// short while somebody is ready.
pub proof fn law_a_completed_run_is_no_deadlock(k: KernelView, max_ops: nat, report: RunReport)
    requires
        k.sound(),
        k.run_safe(max_ops),
        reports(report, k, max_ops),
        ({
            let n = k.run(max_ops);
            ||| n.sched.ready.len() > 0
            ||| forall|i: int|
                0 <= i < n.threads.len() ==> (#[trigger] n.threads[i]).state is Exited
        }),
    ensures
        !report.deadlocked,
{
    law_a_deadlock_is_somebody_left_waiting(k, max_ops, report);
}

/// Tallies add up.
proof fn lemma_tally_splits(
    trace: Seq<EventView>,
    first: nat,
    middle: nat,
    kind: spec_fn(EventView) -> bool,
)
    requires
        first <= middle <= trace.len(),
    ensures
        crate::state::tally(trace.skip(first as int), kind) == crate::state::tally(
            trace.take(middle as int).skip(first as int),
            kind,
        ) + crate::state::tally(trace.skip(middle as int), kind),
    decreases trace.len() - middle,
{
    if middle < trace.len() {
        let before = trace.drop_last();
        lemma_tally_splits(before, first, middle, kind);
        assert(trace.skip(first as int).drop_last() =~= before.skip(first as int));
        assert(trace.skip(middle as int).drop_last() =~= before.skip(middle as int));
        assert(before.take(middle as int) =~= trace.take(middle as int));
    } else {
        assert(trace.take(middle as int) =~= trace);
        assert(trace.skip(middle as int) =~= Seq::empty());
    }
}

/// Reports add up: two runs in a row report together what one run of both reports.
pub proof fn law_reports_add_up(
    k: KernelView,
    first: nat,
    second: nat,
    one: RunReport,
    two: RunReport,
    whole: RunReport,
)
    requires
        k.sound(),
        k.run_safe(first + second),
        reports(one, k, first),
        reports(two, k.run(first), second),
        reports(whole, k, first + second),
    ensures
        whole.ops_executed == one.ops_executed + two.ops_executed,
        whole.rendezvous == one.rendezvous + two.rendezvous,
        whole.cap_transfers == one.cap_transfers + two.cap_transfers,
        whole.denials == one.denials + two.denials,
        whole.mem_reads == one.mem_reads + two.mem_reads,
        whole.mem_writes == one.mem_writes + two.mem_writes,
        whole.context_switches == two.context_switches,
        whole.final_tick == two.final_tick,
        whole.deadlocked == two.deadlocked,
{
    let (m, n) = (k.run(first), k.run(first + second));
    crate::progress::law_runs_compose(k, first, second);
    lemma_run_safe_splits(k, first, second);
    crate::soundness::lemma_run(k, first);
    crate::history::lemma_run(k, first);
    crate::history::lemma_run(m, second);
    let (from, middle) = (k.trace.len(), m.trace.len());
    assert(n.trace.take(middle as int) =~= m.trace);
    lemma_tally_splits(n.trace, from, middle, |e: EventView| e is Rendezvous);
    lemma_tally_splits(n.trace, from, middle, |e: EventView| e is CapTransfer);
    lemma_tally_splits(n.trace, from, middle, |e: EventView| e is Denied);
    lemma_tally_splits(n.trace, from, middle, |e: EventView| e is MemRead);
    lemma_tally_splits(n.trace, from, middle, |e: EventView| e is MemWrite);
}

/// A safe run is safe in two parts.
proof fn lemma_run_safe_splits(k: KernelView, first: nat, second: nat)
    requires
        k.run_safe(first + second),
    ensures
        k.run_safe(first),
        k.run(first).run_safe(second),
    decreases first,
{
    if first > 0 && k.sched.ready.len() > 0 {
        lemma_run_safe_splits(k.tick(), (first - 1) as nat, second);
    }
}

} // verus!
