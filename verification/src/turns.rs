//! The laws of one turn.
//!
//! A turn dispatches the next thread, lets it execute one op, and puts it back at
//! the end of the line if it can go on. The laws here speak of the ops that
//! involve nobody else, and of what every turn has in common: time and
//! accounting.

use crate::capability::{CapSlot, Rights};
use crate::ipc::MsgView;
use crate::state::KernelView;
use crate::thread::{OpView, ThreadView};
use crate::trace::EventView;
use crate::{EndpointId, RegionId, ThreadId};
use vstd::prelude::*;

verus! {

/// Whether a turn involved nobody but the next thread: tables, endpoints,
/// capabilities and all other threads are as they were, and the turn is on record
/// as a dispatch and one event.
pub open spec fn alone(k: KernelView, n: KernelView, event: EventView) -> bool {
    let tid = k.next_thread();
    &&& n.tasks == k.tasks
    &&& n.endpoints == k.endpoints
    &&& n.cdt == k.cdt
    &&& n.next_cap_id == k.next_cap_id
    &&& n.rng == k.rng
    &&& n.threads.len() == k.threads.len()
    &&& forall|u: int|
        0 <= u < k.threads.len() && u != tid ==> (#[trigger] n.threads[u]) == k.threads[u]
    &&& n.threads[tid as int].pending is None
    &&& n.threads[tid as int].reply_to == k.threads[tid as int].reply_to
    &&& n.trace == k.trace + seq![k.dispatch_event(), event]
}

/// Whether a thread is one op further, ready and last in line.
pub open spec fn goes_on(k: KernelView, n: KernelView) -> bool {
    let tid = k.next_thread();
    &&& n.threads[tid as int].pc == k.threads[tid as int].pc + 1
    &&& n.threads[tid as int].state is Ready
    &&& n.sched.ready == k.others_ready().push(k.entry_of(tid))
}

/// A thread that computes burns exactly the cycles that its op names, and goes on.
pub proof fn law_computing_burns_its_cycles(k: KernelView, cycles: u32)
    requires
        k.wf(),
        k.about_to(OpView::Compute(cycles)),
    ensures
        ({
            let n = k.tick();
            let tid = k.next_thread();
            &&& alone(k, n, EventView::Compute { thread: tid, cycles })
            &&& goes_on(k, n)
            &&& n.threads[tid as int].cycles == k.threads[tid as int].cycles + cycles
            &&& n.regions == k.regions
        }),
{
    crate::rendezvous::lemma_about_to(k);
    let n = k.tick();
    assert(n.trace =~= k.trace + seq![k.dispatch_event(), n.trace.last()]);
}

/// A thread that may read a byte reads it as it is, changes nothing, and goes on.
pub proof fn law_reading_finds_the_byte(
    k: KernelView,
    mem: CapSlot,
    offset: usize,
    region: RegionId,
)
    requires
        k.wf(),
        k.about_to(OpView::Read { mem, offset }),
        k.may_access(k.next_thread(), mem, region, offset, Rights::read()),
    ensures
        ({
            let n = k.tick();
            let value = k.regions[region as int].data[offset as int];
            &&& alone(
                k,
                n,
                EventView::MemRead { thread: k.next_thread(), region, offset, value },
            )
            &&& goes_on(k, n)
            &&& n.regions == k.regions
        }),
{
    crate::rendezvous::lemma_about_to(k);
    let n = k.tick();
    let up = k.take_up();
    assert(up.may_access(k.next_thread(), mem, region, offset, Rights::read()));
    crate::authority::law_read_iff_authorized(up, k.next_thread(), mem, offset);
    assert(n.trace =~= k.trace + seq![k.dispatch_event(), n.trace.last()]);
}

/// A thread that may write a byte stores its value there and changes no other
/// byte of any region, and goes on.
pub proof fn law_writing_stores_the_byte(
    k: KernelView,
    mem: CapSlot,
    offset: usize,
    value: u8,
    region: RegionId,
    other: RegionId,
    at: int,
)
    requires
        k.wf(),
        k.about_to(OpView::Write { mem, offset, value }),
        k.may_access(k.next_thread(), mem, region, offset, Rights::write()),
    ensures
        ({
            let n = k.tick();
            &&& alone(
                k,
                n,
                EventView::MemWrite { thread: k.next_thread(), region, offset, value },
            )
            &&& goes_on(k, n)
            &&& n.regions.len() == k.regions.len()
            &&& n.regions[region as int].data[offset as int] == value
            &&& k.has_region(other) ==> {
                &&& n.regions[other as int].data.len() == k.regions[other as int].data.len()
                &&& n.regions[other as int].id == k.regions[other as int].id
                &&& n.regions[other as int].owner == k.regions[other as int].owner
                &&& 0 <= at < k.regions[other as int].data.len() && (other != region || at
                    != offset) ==> n.regions[other as int].data[at]
                    == k.regions[other as int].data[at]
            }
        }),
{
    crate::rendezvous::lemma_about_to(k);
    let n = k.tick();
    let up = k.take_up();
    assert(up.may_access(k.next_thread(), mem, region, offset, Rights::write()));
    crate::authority::law_write_iff_authorized(up, k.next_thread(), mem, offset, value);
    crate::authority::lemma_reach(up, k.next_thread(), mem, Rights::write());
    assert(n.trace =~= k.trace + seq![k.dispatch_event(), n.trace.last()]);
}

/// A thread that may not read leaves a mark with the reason that the read is
/// answered, and nothing else.
pub proof fn law_a_refused_read_only_leaves_a_mark(k: KernelView, mem: CapSlot, offset: usize)
    requires
        k.wf(),
        k.about_to(OpView::Read { mem, offset }),
        k.sys_read(k.next_thread(), mem, offset) is Err,
    ensures
        crate::messages::only_marked(
            k,
            k.tick(),
            "read"@,
            k.sys_read(k.next_thread(), mem, offset)->Err_0,
        ),
{
    crate::rendezvous::lemma_about_to(k);
    let n = k.tick();
    let up = k.take_up();
    assert(up.resolve(k.next_task(), mem, "region", Rights::read()) == k.resolve(
        k.next_task(),
        mem,
        "region",
        Rights::read(),
    ));
    assert(up.sys_read(k.next_thread(), mem, offset) == k.sys_read(
        k.next_thread(),
        mem,
        offset,
    ));
    assert(n.trace =~= k.trace + seq![k.dispatch_event(), n.trace.last()]);
}

/// A thread that may not write leaves a mark with the reason that the write is
/// answered, and nothing else.
pub proof fn law_a_refused_write_only_leaves_a_mark(
    k: KernelView,
    mem: CapSlot,
    offset: usize,
    value: u8,
)
    requires
        k.wf(),
        k.about_to(OpView::Write { mem, offset, value }),
        k.sys_write_answer(k.next_thread(), mem, offset) is Err,
    ensures
        crate::messages::only_marked(
            k,
            k.tick(),
            "write"@,
            k.sys_write_answer(k.next_thread(), mem, offset)->Err_0,
        ),
{
    crate::rendezvous::lemma_about_to(k);
    let n = k.tick();
    let up = k.take_up();
    assert(up.resolve(k.next_task(), mem, "region", Rights::write()) == k.resolve(
        k.next_task(),
        mem,
        "region",
        Rights::write(),
    ));
    assert(up.sys_write_answer(k.next_thread(), mem, offset) == k.sys_write_answer(
        k.next_thread(),
        mem,
        offset,
    ));
    assert(n.trace =~= k.trace + seq![k.dispatch_event(), n.trace.last()]);
}

/// A thread that exits, or that has run off the end of its program, is finished:
/// it stays where it is, leaves the line for good, and says so once.
pub proof fn law_a_finished_thread_leaves_the_line(k: KernelView)
    requires
        k.wf(),
        k.sched.ready.len() > 0,
        ({
            let thread = k.threads[k.next_thread() as int];
            thread.pc >= thread.program.len() || thread.program[thread.pc as int] is Exit
        }),
    ensures
        ({
            let n = k.tick();
            let tid = k.next_thread();
            &&& alone(k, n, EventView::Exit { thread: tid })
            &&& n.threads[tid as int].state is Exited
            &&& n.threads[tid as int].pc == k.threads[tid as int].pc
            &&& n.sched.ready == k.others_ready()
            &&& n.regions == k.regions
        }),
{
    crate::rendezvous::lemma_about_to(k);
    let n = k.tick();
    assert(n.trace =~= k.trace + seq![k.dispatch_event(), n.trace.last()]);
}

// -- accounting ---------------------------------------------------------------

/// The cycles that an op burns.
pub open spec fn cost(thread: ThreadView) -> nat {
    match thread.current_op() {
        Some(OpView::Compute(cycles)) => cycles as nat,
        _ => 0,
    }
}

/// What the step of a thread leaves alone: time and dispatches, who each thread
/// is, and the cycles of all but a thread that computes.
proof fn lemma_step_accounts(k: KernelView, tid: ThreadId)
    requires
        k.has_thread(tid),
        k.busy_wf(Some(tid), 1),
    ensures
        ({
            let n = k.step(tid);
            &&& n.threads.len() == k.threads.len()
            &&& n.clock == k.clock
            &&& n.rng == k.rng
            &&& n.sched.switches == k.sched.switches
            &&& n.sched.policy == k.sched.policy
            &&& forall|u: int|
                0 <= u < k.threads.len() ==> {
                    &&& (#[trigger] n.threads[u]).dispatches == k.threads[u].dispatches
                    &&& n.threads[u].priority == k.threads[u].priority
                    &&& n.threads[u].program == k.threads[u].program
                    &&& n.threads[u].cycles == k.threads[u].cycles + if u == tid {
                        cost(k.threads[u])
                    } else {
                        0
                    }
                }
        }),
{
    assert forall|ep: EndpointId| k.has_endpoint(ep) implies {
        &&& (#[trigger] k.endpoints[ep as int]).receivers.len() > 0 ==> k.has_thread(
            k.endpoints[ep as int].receivers[0],
        )
        &&& k.endpoints[ep as int].senders.len() > 0 ==> k.has_thread(
            k.endpoints[ep as int].senders[0],
        )
    } by {
        assert(k.endpoint_wf(ep));
    }
    match k.threads[tid as int].current_op() {
        Some(OpView::Send { ep, msg }) => {
            lemma_send_accounts(k, tid, ep, msg, false);
        },
        Some(OpView::Reply { msg }) => {
            if let Some(slot) = k.threads[tid as int].reply_to {
                lemma_send_accounts(k, tid, slot, msg, true);
            }
        },
        _ => {},
    }
}

/// What a send leaves alone.
proof fn lemma_send_accounts(
    k: KernelView,
    tid: ThreadId,
    ep_slot: CapSlot,
    msg: MsgView,
    consume_reply: bool,
)
    requires
        k.has_thread(tid),
        forall|ep: EndpointId|
            k.has_endpoint(ep) && (#[trigger] k.endpoints[ep as int]).receivers.len() > 0
                ==> k.has_thread(k.endpoints[ep as int].receivers[0]),
    ensures
        ({
            let n = k.do_send(tid, ep_slot, msg, consume_reply);
            &&& n.threads.len() == k.threads.len()
            &&& n.clock == k.clock
            &&& n.rng == k.rng
            &&& n.sched.switches == k.sched.switches
            &&& n.sched.policy == k.sched.policy
            &&& forall|u: int|
                0 <= u < k.threads.len() ==> {
                    &&& (#[trigger] n.threads[u]).dispatches == k.threads[u].dispatches
                    &&& n.threads[u].priority == k.threads[u].priority
                    &&& n.threads[u].program == k.threads[u].program
                    &&& n.threads[u].cycles == k.threads[u].cycles
                }
        }),
{
    let task = k.threads[tid as int].task;
    let answer = k.resolve(task, ep_slot, "endpoint", Rights::send());
    if answer is Ok {
        let ep = answer->Ok_0.number();
        if k.has_endpoint(ep) {
            assert(k.endpoints[ep as int].receivers.len() > 0 ==> k.has_thread(
                k.endpoints[ep as int].receivers[0],
            ));
        }
    }
}

/// Every turn is accounted for: the clock and the number of switches go up by
/// one, the thread that ran was dispatched once more and no other was, it burned
/// the cycles of its op and no other burned any, and nobody's priority or program
/// changes, nor does the policy.
pub proof fn law_every_turn_is_accounted_for(k: KernelView, u: ThreadId)
    requires
        k.wf(),
        k.sched.ready.len() > 0,
        k.has_thread(u),
    ensures
        ({
            let n = k.tick();
            let (was, is) = (k.threads[u as int], n.threads[u as int]);
            &&& n.clock == k.clock + 1
            &&& n.sched.switches == k.sched.switches + 1
            &&& n.sched.policy == k.sched.policy
            &&& n.rng == k.rng
            &&& is.dispatches == was.dispatches + if u == k.next_thread() {
                1nat
            } else {
                0
            }
            &&& is.cycles == was.cycles + if u == k.next_thread() {
                cost(was)
            } else {
                0
            }
            &&& is.priority == was.priority
            &&& is.program == was.program
        }),
{
    crate::rendezvous::lemma_about_to(k);
    let up = k.take_up();
    assert(up.busy_wf(Some(k.next_thread()), 1)) by {
        reveal(KernelView::wf);
        crate::soundness::lemma_take_up(k);
    }
    lemma_step_accounts(up, k.next_thread());
    assert(up.threads[u as int].program == k.threads[u as int].program);
}

/// The thread that an event dispatches.
pub open spec fn dispatch_of(u: ThreadId) -> spec_fn(EventView) -> bool {
    |e: EventView| e matches EventView::Dispatch { thread, .. } && thread == u
}

/// The cycles on record that a thread burned.
pub open spec fn burned(trace: Seq<EventView>, u: ThreadId) -> nat
    decreases trace.len(),
{
    if trace.len() == 0 {
        0
    } else {
        burned(trace.drop_last(), u) + match trace.last() {
            EventView::Compute { thread, cycles } => if thread == u {
                cycles as nat
            } else {
                0
            },
            _ => 0,
        }
    }
}

/// One more event in the books.
proof fn lemma_books_push(trace: Seq<EventView>, event: EventView, u: ThreadId)
    ensures
        crate::state::tally(trace.push(event), dispatch_of(u)) == crate::state::tally(
            trace,
            dispatch_of(u),
        ) + if dispatch_of(u)(event) {
            1nat
        } else {
            0nat
        },
        burned(trace.push(event), u) == burned(trace, u) + match event {
            EventView::Compute { thread, cycles } => if thread == u {
                cycles as nat
            } else {
                0
            },
            _ => 0,
        },
{
    assert(trace.push(event).drop_last() =~= trace);
}

/// What a step leaves in the books.
proof fn lemma_step_books(k: KernelView, tid: ThreadId, u: ThreadId)
    requires
        k.has_thread(tid),
    ensures
        crate::state::tally(k.step(tid).trace, dispatch_of(u)) == crate::state::tally(
            k.trace,
            dispatch_of(u),
        ),
        burned(k.step(tid).trace, u) == burned(k.trace, u) + if u == tid {
            cost(k.threads[tid as int])
        } else {
            0
        },
{
    let n = k.step(tid);
    let one = n.trace.last();
    if n.trace.len() == k.trace.len() + 1 {
        assert(n.trace =~= k.trace.push(one));
        lemma_books_push(k.trace, one, u);
    } else {
        let first = n.trace[k.trace.len() as int];
        assert(n.trace =~= k.trace.push(first).push(one));
        lemma_books_push(k.trace, first, u);
        lemma_books_push(k.trace.push(first), one, u);
    }
}

/// A run keeps the books: it dispatches each thread as often as it puts on record,
/// and each thread burns the cycles that it puts on record.
pub proof fn law_a_run_keeps_the_books(k: KernelView, max_ops: nat, u: ThreadId)
    requires
        k.wf(),
        k.run_safe(max_ops),
        k.has_thread(u),
    ensures
        ({
            let n = k.run(max_ops);
            let (was, is) = (k.threads[u as int], n.threads[u as int]);
            &&& is.dispatches - was.dispatches == crate::state::tally(n.trace, dispatch_of(u))
                - crate::state::tally(k.trace, dispatch_of(u))
            &&& is.cycles - was.cycles == burned(n.trace, u) - burned(k.trace, u)
        }),
    decreases max_ops,
{
    if max_ops > 0 && k.sched.ready.len() > 0 {
        let n = k.tick();
        let tid = k.next_thread();
        let up = k.take_up();
        crate::rendezvous::lemma_about_to(k);
        crate::soundness::lemma_tick(k);
        law_every_turn_is_accounted_for(k, u);
        lemma_books_push(k.trace, k.dispatch_event(), u);
        lemma_step_books(up, tid, u);
        assert(n.trace == up.step(tid).trace);
        law_a_run_keeps_the_books(n, (max_ops - 1) as nat, u);
    }
}

} // verus!
