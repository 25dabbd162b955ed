//! What the trace says about each thread.
//!
//! The trace records how every op of every program came out. The events that
//! complete an op of a thread, in order, match the ops before its program
//! counter one for one: a compute step burned its cycles, a memory access took
//! place or was denied, a send or a receive met its partner or was denied. No op
//! is lost and none happens twice, so a message is delivered exactly once.

use crate::state::KernelView;
use crate::thread::{OpView, PendingView, ThreadState};
use crate::trace::EventView;
use crate::{EndpointId, ThreadId};
use vstd::prelude::*;

verus! {

/// Whether an event completes an op of a thread.
pub open spec fn concerns(event: EventView, tid: ThreadId) -> bool {
    match event {
        EventView::Compute { thread, .. } => thread == tid,
        EventView::MemRead { thread, .. } => thread == tid,
        EventView::MemWrite { thread, .. } => thread == tid,
        EventView::Denied { thread, .. } => thread == tid,
        EventView::Rendezvous { sender, receiver, .. } => sender == tid || receiver == tid,
        _ => false,
    }
}

/// The events of a trace that complete an op of a thread, in order.
pub open spec fn deeds(trace: Seq<EventView>, tid: ThreadId) -> Seq<EventView>
    decreases trace.len(),
{
    if trace.len() == 0 {
        Seq::empty()
    } else {
        let before = deeds(trace.drop_last(), tid);
        if concerns(trace.last(), tid) {
            before.push(trace.last())
        } else {
            before
        }
    }
}

/// Whether a refused syscall completes an op: a reply is refused as a send, or
/// as a reply when there is nobody to reply to.
pub open spec fn denies(event: EventView, tid: ThreadId, syscall: Seq<char>) -> bool {
    event matches EventView::Denied { thread, syscall: s, .. } && thread == tid && s == syscall
}

/// Whether an event is the delivery of a message from a thread to another.
pub open spec fn delivers(event: EventView, tid: ThreadId, label: u64, bytes: nat) -> bool {
    event matches EventView::Rendezvous { sender, receiver, label: l, bytes: b, .. } && sender
        == tid && receiver != tid && l == label && b == bytes
}

/// Whether an event is the outcome of an op executed by a thread. The end of a
/// thread leaves its op in place, so nothing is the outcome of an exit.
pub open spec fn completes(event: EventView, tid: ThreadId, op: OpView) -> bool {
    match op {
        OpView::Compute(cycles) => event == (EventView::Compute { thread: tid, cycles }),
        OpView::Read { mem, offset } => denies(event, tid, "read"@) || (
        event matches EventView::MemRead { thread, offset: o, .. } && thread == tid && o == offset),
        OpView::Write { mem, offset, value } => denies(event, tid, "write"@) || (
        event matches EventView::MemWrite { thread, offset: o, value: v, .. } && thread == tid && o
            == offset && v == value),
        OpView::Send { ep, msg } => denies(event, tid, "send"@) || delivers(
            event,
            tid,
            msg.label,
            msg.bytes.len(),
        ),
        OpView::Reply { msg } => denies(event, tid, "send"@) || denies(event, tid, "reply"@)
            || delivers(event, tid, msg.label, msg.bytes.len()),
        OpView::Recv { ep } => denies(event, tid, "recv"@) || (
        event matches EventView::Rendezvous { sender, receiver, .. } && receiver == tid && sender
            != tid),
        OpView::Exit => false,
    }
}

impl KernelView {
    /// The trace accounts for every op that a thread is past, and for no other.
    pub open spec fn accounted(self, tid: ThreadId) -> bool {
        let done = deeds(self.trace, tid);
        if self.has_thread(tid) {
            let thread = self.threads[tid as int];
            &&& done.len() == thread.pc
            &&& thread.pc <= thread.program.len()
            &&& forall|i: int|
                0 <= i < thread.pc ==> completes(#[trigger] done[i], tid, thread.program[i])
        } else {
            done.len() == 0
        }
    }

    /// The dispatches on record bear the ticks from 1 to the present, in order and
    /// without gaps.
    pub open spec fn timed(self) -> bool {
        &&& ticks(self.trace).len() == self.clock
        &&& forall|i: int| 0 <= i < self.clock ==> (#[trigger] ticks(self.trace)[i]) == i + 1
    }

    /// The trace accounts for all threads and for every tick.
    pub open spec fn recorded(self) -> bool {
        &&& forall|tid: ThreadId| #[trigger] self.accounted(tid)
        &&& self.timed()
    }
}

/// The ticks of the dispatches in a trace, in order.
pub open spec fn ticks(trace: Seq<EventView>) -> Seq<nat>
    decreases trace.len(),
{
    if trace.len() == 0 {
        Seq::empty()
    } else {
        let before = ticks(trace.drop_last());
        match trace.last() {
            EventView::Dispatch { tick, .. } => before.push(tick),
            _ => before,
        }
    }
}

/// One more event, and the ticks.
pub proof fn lemma_ticks_push()
    ensures
        forall|trace: Seq<EventView>, event: EventView| #[trigger]
            ticks(trace.push(event)) == match event {
                EventView::Dispatch { tick, .. } => ticks(trace).push(tick),
                _ => ticks(trace),
            },
{
    assert forall|trace: Seq<EventView>, event: EventView| #[trigger]
        ticks(trace.push(event)) == match event {
            EventView::Dispatch { tick, .. } => ticks(trace).push(tick),
            _ => ticks(trace),
        } by {
        assert(trace.push(event).drop_last() =~= trace);
    }
}

/// Whether no time passed between two states.
pub open spec fn timeless(k: KernelView, n: KernelView) -> bool {
    n.clock == k.clock && ticks(n.trace) == ticks(k.trace)
}

/// Whether one tick passed between two states, and its dispatch is on record.
pub open spec fn punctual(k: KernelView, n: KernelView) -> bool {
    n.clock == k.clock + 1 && ticks(n.trace) == ticks(k.trace).push(n.clock)
}

/// One more event.
pub proof fn lemma_deeds_push(trace: Seq<EventView>, event: EventView, tid: ThreadId)
    ensures
        deeds(trace.push(event), tid) == if concerns(event, tid) {
            deeds(trace, tid).push(event)
        } else {
            deeds(trace, tid)
        },
{
    assert(trace.push(event).drop_last() =~= trace);
}

/// Whether between two states a thread stayed where it was, or moved past one op
/// whose outcome was put on record.
pub open spec fn logged(k: KernelView, n: KernelView, tid: ThreadId) -> bool {
    let (was, is) = (k.threads[tid as int], n.threads[tid as int]);
    let (before, after) = (deeds(k.trace, tid), deeds(n.trace, tid));
    if k.has_thread(tid) {
        &&& is.program == was.program
        &&& {
            ||| is.pc == was.pc && after == before
            ||| {
                &&& is.pc == was.pc + 1
                &&& was.pc < was.program.len()
                &&& after.len() == before.len() + 1
                &&& after == before.push(after.last())
                &&& completes(after.last(), tid, was.program[was.pc as int])
            }
        }
    } else {
        after == before
    }
}

/// Whether all threads are logged and the trace only grew.
pub open spec fn chronicled(k: KernelView, n: KernelView) -> bool {
    &&& n.threads.len() == k.threads.len()
    &&& k.trace.is_prefix_of(n.trace)
    &&& forall|tid: ThreadId| #[trigger] logged(k, n, tid)
}

/// What is logged stays accounted for.
pub proof fn lemma_chronicled(k: KernelView, n: KernelView)
    requires
        k.recorded(),
        chronicled(k, n),
        timeless(k, n) || punctual(k, n),
    ensures
        n.recorded(),
{
    assert forall|tid: ThreadId| #[trigger] n.accounted(tid) by {
        assert(k.accounted(tid));
        assert(logged(k, n, tid));
        if k.has_thread(tid) {
            let (was, is) = (k.threads[tid as int], n.threads[tid as int]);
            let (before, after) = (deeds(k.trace, tid), deeds(n.trace, tid));
            assert forall|i: int| 0 <= i < is.pc implies completes(
                #[trigger] after[i],
                tid,
                is.program[i],
            ) by {
                if i < was.pc {
                    assert(after[i] == before[i]);
                }
            }
        }
    }
}

/// A refused syscall is logged.
proof fn lemma_deny(
    k: KernelView,
    tid: ThreadId,
    syscall: Seq<char>,
    err: crate::error::KernelError,
)
    requires
        k.has_thread(tid),
        k.threads[tid as int].current_op() is Some,
        forall|event: EventView|
            denies(event, tid, syscall) ==> #[trigger] completes(
                event,
                tid,
                k.threads[tid as int].current_op()->0,
            ),
    ensures
        chronicled(k, k.deny(tid, syscall, err).advance(tid)),
        timeless(k, k.deny(tid, syscall, err).advance(tid)),
{
    lemma_ticks_push();
    let n = k.deny(tid, syscall, err).advance(tid);
    let event = EventView::Denied { thread: tid, syscall, reason: err.text() };
    assert forall|u: ThreadId| #[trigger] logged(k, n, u) by {
        lemma_deeds_push(k.trace, event, u);
        if u == tid {
            assert(denies(event, tid, syscall));
            assert(completes(event, tid, k.threads[tid as int].current_op()->0));
        }
    }
}

/// A rendezvous is logged for both sides.
proof fn lemma_deliver(
    k: KernelView,
    m: KernelView,
    tid: ThreadId,
    sender: ThreadId,
    receiver: ThreadId,
    partner: ThreadId,
    ep: EndpointId,
    msg: PendingView,
)
    requires
        k.has_thread(tid),
        k.has_thread(partner),
        tid != partner,
        (sender == tid && receiver == partner) || (sender == partner && receiver == tid),
        crate::soundness::sends(k.threads[sender as int], msg.label, msg.bytes),
        k.threads[receiver as int].current_op() is Some,
        k.threads[receiver as int].current_op()->0 is Recv,
        m.trace == k.trace,
        m.clock == k.clock,
        m.threads.len() == k.threads.len(),
        forall|u: ThreadId|
            k.has_thread(u) ==> (#[trigger] m.threads[u as int]).program
                == k.threads[u as int].program && m.threads[u as int].pc == k.threads[u as int].pc,
    ensures
        chronicled(k, m.deliver(sender, receiver, ep, msg, partner).advance(tid)),
        timeless(k, m.deliver(sender, receiver, ep, msg, partner).advance(tid)),
{
    lemma_ticks_push();
    let n = m.deliver(sender, receiver, ep, msg, partner).advance(tid);
    let event = EventView::Rendezvous {
        sender,
        receiver,
        endpoint: ep,
        label: msg.label,
        bytes: msg.bytes.len(),
    };
    let met = k.trace.push(event);
    assert forall|u: ThreadId| #[trigger] logged(k, n, u) by {
        lemma_deeds_push(k.trace, event, u);
        if msg.cap is Some {
            let moved = EventView::CapTransfer {
                from: m.threads[sender as int].task,
                to: m.threads[receiver as int].task,
                object: msg.cap->0.cap.object,
                rights: msg.cap->0.cap.rights,
                new_slot: m.table(m.threads[receiver as int].task).next_slot(),
            };
            lemma_deeds_push(met, moved, u);
            assert(n.trace == met.push(moved));
        } else {
            assert(n.trace == met);
        }
        if k.has_thread(u) {
            assert(m.threads[u as int].program == k.threads[u as int].program);
        }
    }
}

/// A message that meets an endpoint is logged.
proof fn lemma_post(k: KernelView, tid: ThreadId, ep: EndpointId, msg: PendingView)
    requires
        k.sched_wf(Some(tid)),
        k.has_endpoint(ep),
        crate::soundness::sends(k.threads[tid as int], msg.label, msg.bytes),
    ensures
        chronicled(k, k.post(tid, ep, msg)),
        timeless(k, k.post(tid, ep, msg)),
{
    lemma_ticks_push();
    let n = k.post(tid, ep, msg);
    let endpoint = k.endpoints[ep as int];
    assert(k.endpoint_wf(ep));
    assert(k.thread_wf(tid, Some(tid)));
    if endpoint.receivers.len() > 0 {
        let receiver = endpoint.receivers[0];
        assert(k.threads[receiver as int].state == ThreadState::BlockedRecv(ep));
        assert(k.thread_wf(receiver, Some(tid)));
        let m = k.with_endpoint(
            ep,
            crate::ipc::EndpointView { receivers: endpoint.receivers.drop_first(), ..endpoint },
        );
        lemma_deliver(k, m, tid, tid, receiver, receiver, ep, msg);
    } else {
        assert forall|u: ThreadId| #[trigger] logged(k, n, u) by {
            lemma_deeds_push(k.trace, EventView::BlockSend { thread: tid, endpoint: ep }, u);
        }
    }
}

/// A send is logged.
proof fn lemma_send(
    k: KernelView,
    tid: ThreadId,
    ep_slot: crate::capability::CapSlot,
    msg: crate::ipc::MsgView,
    consume_reply: bool,
)
    requires
        k.busy_wf(Some(tid), 1),
        k.send_safe(tid, ep_slot, msg),
        crate::soundness::sends(k.threads[tid as int], msg.label, msg.bytes),
    ensures
        chronicled(k, k.do_send(tid, ep_slot, msg, consume_reply)),
        timeless(k, k.do_send(tid, ep_slot, msg, consume_reply)),
{
    lemma_ticks_push();
    let task = k.threads[tid as int].task;
    let answer = k.resolve(task, ep_slot, "endpoint", crate::capability::Rights::send());
    if answer is Err {
        lemma_deny(k, tid, "send"@, answer->Err_0);
    } else if k.send_refusal(task, answer->Ok_0, msg.transfer) is Some {
        lemma_deny(k, tid, "send"@, k.send_refusal(task, answer->Ok_0, msg.transfer)->0);
    } else {
        let gone = k.departed(tid, ep_slot, msg.transfer, consume_reply);
        crate::soundness::lemma_departed(k, tid, ep_slot, msg, consume_reply);
        let sent = k.resolved_msg(task, msg);
        lemma_post(gone, tid, answer->Ok_0.number(), sent);
        let n = gone.post(tid, answer->Ok_0.number(), sent);
        assert forall|u: ThreadId| #[trigger] logged(k, n, u) by {
            assert(logged(gone, n, u));
            if u != tid && k.has_thread(u) {
                assert(gone.threads[u as int] == k.threads[u as int]);
            }
        }
    }
}

/// A receive is logged.
proof fn lemma_recv(k: KernelView, tid: ThreadId, ep_slot: crate::capability::CapSlot)
    requires
        k.busy_wf(Some(tid), 1),
        k.recv_safe(tid, ep_slot),
        k.threads[tid as int].current_op() is Some,
        k.threads[tid as int].current_op()->0 is Recv,
    ensures
        chronicled(k, k.do_recv(tid, ep_slot)),
        timeless(k, k.do_recv(tid, ep_slot)),
{
    lemma_ticks_push();
    let n = k.do_recv(tid, ep_slot);
    let task = k.threads[tid as int].task;
    let answer = k.reach_endpoint(task, ep_slot, crate::capability::Rights::recv());
    if answer is Err {
        lemma_deny(k, tid, "recv"@, answer->Err_0);
    } else {
        let ep = answer->Ok_0;
        let endpoint = k.endpoints[ep as int];
        assert(k.endpoint_wf(ep));
        assert(k.thread_wf(tid, Some(tid)));
        if endpoint.senders.len() > 0 {
            let sender = endpoint.senders[0];
            assert(k.threads[sender as int].state == ThreadState::BlockedSend(ep));
            assert(k.thread_wf(sender, Some(tid)));
            let m = k.with_endpoint(
                ep,
                crate::ipc::EndpointView { senders: endpoint.senders.drop_first(), ..endpoint },
            ).with_thread(sender, k.threads[sender as int].relieved());
            let msg = k.threads[sender as int].pending->0;
            lemma_deliver(k, m, tid, sender, tid, sender, ep, msg);
        } else {
            assert forall|u: ThreadId| #[trigger] logged(k, n, u) by {
                lemma_deeds_push(k.trace, EventView::BlockRecv { thread: tid, endpoint: ep }, u);
            }
        }
    }
}

/// A step of a thread is logged.
pub proof fn lemma_step(k: KernelView, tid: ThreadId)
    requires
        k.busy_wf(Some(tid), 1),
        k.step_safe(tid),
    ensures
        chronicled(k, k.step(tid)),
        timeless(k, k.step(tid)),
{
    lemma_ticks_push();
    let n = k.step(tid);
    let thread = k.threads[tid as int];
    match thread.current_op() {
        None => {
            assert forall|u: ThreadId| #[trigger] logged(k, n, u) by {
                lemma_deeds_push(k.trace, EventView::Exit { thread: tid }, u);
            }
        },
        Some(op) => match op {
            OpView::Compute(cycles) => {
                assert forall|u: ThreadId| #[trigger] logged(k, n, u) by {
                    lemma_deeds_push(k.trace, EventView::Compute { thread: tid, cycles }, u);
                }
            },
            OpView::Read { mem, offset } => {
                match k.sys_read(tid, mem, offset) {
                    Ok(value) => {
                        let event = EventView::MemRead {
                            thread: tid,
                            region: k.region_id(tid, mem),
                            offset,
                            value,
                        };
                        assert forall|u: ThreadId| #[trigger] logged(k, n, u) by {
                            lemma_deeds_push(k.trace, event, u);
                        }
                    },
                    Err(e) => {
                        lemma_deny(k, tid, "read"@, e);
                    },
                }
            },
            OpView::Write { mem, offset, value } => {
                match k.sys_write_answer(tid, mem, offset) {
                    Ok(_) => {
                        let event = EventView::MemWrite {
                            thread: tid,
                            region: k.region_id(tid, mem),
                            offset,
                            value,
                        };
                        assert forall|u: ThreadId| #[trigger] logged(k, n, u) by {
                            lemma_deeds_push(k.trace, event, u);
                        }
                    },
                    Err(e) => {
                        lemma_deny(k, tid, "write"@, e);
                    },
                }
            },
            OpView::Send { ep, msg } => {
                lemma_send(k, tid, ep, msg, false);
            },
            OpView::Reply { msg } => {
                match thread.reply_to {
                    Some(slot) => {
                        lemma_send(k, tid, slot, msg, true);
                    },
                    None => {
                        lemma_deny(k, tid, "reply"@, crate::error::KernelError::NoReplyCapability);
                    },
                }
            },
            OpView::Recv { ep } => {
                lemma_recv(k, tid, ep);
            },
            OpView::Exit => {
                assert forall|u: ThreadId| #[trigger] logged(k, n, u) by {
                    lemma_deeds_push(k.trace, EventView::Exit { thread: tid }, u);
                }
            },
        },
    }
}

/// One turn of the run loop is logged.
pub proof fn lemma_tick(k: KernelView)
    requires
        k.wf(),
        k.sched.ready.len() > 0,
        k.tick_safe(),
    ensures
        chronicled(k, k.tick()),
        punctual(k, k.tick()),
{
    lemma_ticks_push();
    reveal(KernelView::wf);
    let tid = k.next_thread();
    let up = k.take_up();
    let stepped = up.step(tid);
    let n = stepped.put_back(tid);
    crate::soundness::lemma_take_up(k);
    lemma_step(up, tid);
    let event = EventView::Dispatch {
        tick: k.clock + 1,
        thread: tid,
        task: k.threads[tid as int].task,
    };
    assert forall|u: ThreadId| #[trigger] logged(k, n, u) by {
        lemma_deeds_push(k.trace, event, u);
        assert(logged(up, stepped, u));
    }
}

/// A run is recorded, and the trace only grows.
pub proof fn lemma_run(k: KernelView, max_ops: nat)
    requires
        k.wf(),
        k.run_safe(max_ops),
        k.recorded(),
    ensures
        k.run(max_ops).recorded(),
        k.trace.is_prefix_of(k.run(max_ops).trace),
    decreases max_ops,
{
    if max_ops > 0 && k.sched.ready.len() > 0 {
        lemma_tick(k);
        lemma_chronicled(k, k.tick());
        crate::soundness::lemma_tick(k);
        lemma_run(k.tick(), (max_ops - 1) as nat);
    }
}

/// At boot nothing has happened.
pub proof fn lemma_boot(seed: u64, policy: crate::scheduler::Policy)
    ensures
        KernelView::boot(seed, policy).recorded(),
{
}

/// What touches neither the trace nor how far a thread has come stays recorded.
pub proof fn lemma_unchanged(k: KernelView, n: KernelView)
    requires
        k.recorded(),
        n.threads.len() == k.threads.len(),
        forall|u: ThreadId|
            k.has_thread(u) ==> crate::soundness::eased(
                k.threads[u as int],
                #[trigger] n.threads[u as int],
            ),
        n.trace == k.trace,
        n.clock == k.clock,
    ensures
        n.recorded(),
{
    assert forall|tid: ThreadId| #[trigger] n.accounted(tid) by {
        assert(k.accounted(tid));
        if k.has_thread(tid) {
            assert(crate::soundness::eased(k.threads[tid as int], n.threads[tid as int]));
        }
    }
}

/// A new thread has done nothing.
pub proof fn lemma_spawn(
    k: KernelView,
    task: crate::TaskId,
    name: Seq<char>,
    priority: u8,
    program: Seq<OpView>,
)
    requires
        k.recorded(),
        k.threads.len() < u32::MAX,
    ensures
        k.spawn_thread(task, name, priority, program).recorded(),
{
    let n = k.spawn_thread(task, name, priority, program);
    assert forall|tid: ThreadId| #[trigger] n.accounted(tid) by {
        assert(k.accounted(tid));
        if k.has_thread(tid) {
            assert(n.threads[tid as int] == k.threads[tid as int]);
        }
    }
}

// -- the laws -----------------------------------------------------------------

/// Time has no gaps: every dispatch on record bears the tick after the one before
/// it, the first one bears tick 1, and the last one the present.
pub proof fn law_dispatches_count_the_ticks(k: KernelView, i: int)
    requires
        k.recorded(),
        0 <= i < ticks(k.trace).len(),
    ensures
        ticks(k.trace).len() == k.clock,
        ticks(k.trace)[i] == i + 1,
{
}

/// Every op that a thread is past happened exactly once: the events that
/// complete its ops are as many as the ops it is past, in the same order, and
/// each is the outcome of its op.
pub proof fn law_every_op_happens_exactly_once(k: KernelView, tid: ThreadId, i: int)
    requires
        k.recorded(),
        k.has_thread(tid),
        0 <= i < k.threads[tid as int].pc,
    ensures
        deeds(k.trace, tid).len() == k.threads[tid as int].pc,
        completes(deeds(k.trace, tid)[i], tid, k.threads[tid as int].program[i]),
{
    assert(k.accounted(tid));
}

/// Whether an event is the delivery of a message that a thread sent.
pub open spec fn sent_by(tid: ThreadId) -> spec_fn(EventView) -> bool {
    |event: EventView| event matches EventView::Rendezvous { sender, .. } && sender == tid
}

/// Whether an event is the delivery of a message to a thread.
pub open spec fn received_by(tid: ThreadId) -> spec_fn(EventView) -> bool {
    |event: EventView| event matches EventView::Rendezvous { receiver, .. } && receiver == tid
}

/// The number of sends and replies among the first ops of a program that were
/// not denied.
pub open spec fn sends_done(program: Seq<OpView>, done: Seq<EventView>, count: nat) -> nat
    decreases count,
{
    if count == 0 {
        0
    } else {
        let last = (count - 1) as nat;
        let op = program[last as int];
        sends_done(program, done, last) + if (op is Send || op is Reply) && !(done[last as int]
            is Denied) {
            1nat
        } else {
            0nat
        }
    }
}

/// The number of receives among the first ops of a program that were not denied.
pub open spec fn receives_done(program: Seq<OpView>, done: Seq<EventView>, count: nat) -> nat
    decreases count,
{
    if count == 0 {
        0
    } else {
        let last = (count - 1) as nat;
        receives_done(program, done, last) + if program[last as int] is Recv && !(
        done[last as int] is Denied) {
            1nat
        } else {
            0nat
        }
    }
}

/// Messages are neither lost nor duplicated: the deliveries on record from a
/// thread are exactly as many as the sends it got past without a denial, and the
/// deliveries on record to it exactly as many as its receives.
pub proof fn law_messages_are_delivered_exactly_once(k: KernelView, tid: ThreadId)
    requires
        k.recorded(),
        k.has_thread(tid),
    ensures
        ({
            let thread = k.threads[tid as int];
            let done = deeds(k.trace, tid);
            &&& crate::state::tally(k.trace, sent_by(tid)) == sends_done(
                thread.program,
                done,
                thread.pc,
            )
            &&& crate::state::tally(k.trace, received_by(tid)) == receives_done(
                thread.program,
                done,
                thread.pc,
            )
        }),
{
    let thread = k.threads[tid as int];
    let done = deeds(k.trace, tid);
    assert(k.accounted(tid));
    lemma_deeds_miss_nothing(k.trace, tid, sent_by(tid));
    lemma_deeds_miss_nothing(k.trace, tid, received_by(tid));
    lemma_done(k, tid, thread.pc);
    assert(done.take(thread.pc as int) =~= done);
}

/// The events that complete ops of a thread include every event of a kind that
/// concerns it.
proof fn lemma_deeds_miss_nothing(
    trace: Seq<EventView>,
    tid: ThreadId,
    kind: spec_fn(EventView) -> bool,
)
    requires
        forall|event: EventView| #[trigger] kind(event) ==> concerns(event, tid),
    ensures
        crate::state::tally(trace, kind) == crate::state::tally(deeds(trace, tid), kind),
    decreases trace.len(),
{
    if trace.len() > 0 {
        lemma_deeds_miss_nothing(trace.drop_last(), tid, kind);
        let before = deeds(trace.drop_last(), tid);
        assert(before.push(trace.last()).drop_last() =~= before);
    }
}

/// Counting deliveries over the first ops of a thread.
proof fn lemma_done(k: KernelView, tid: ThreadId, count: nat)
    requires
        k.accounted(tid),
        k.has_thread(tid),
        count <= k.threads[tid as int].pc,
    ensures
        ({
            let thread = k.threads[tid as int];
            let done = deeds(k.trace, tid);
            &&& crate::state::tally(done.take(count as int), sent_by(tid)) == sends_done(
                thread.program,
                done,
                count,
            )
            &&& crate::state::tally(done.take(count as int), received_by(tid)) == receives_done(
                thread.program,
                done,
                count,
            )
        }),
    decreases count,
{
    let thread = k.threads[tid as int];
    let done = deeds(k.trace, tid);
    if count > 0 {
        lemma_done(k, tid, (count - 1) as nat);
        assert(done.take(count as int).drop_last() =~= done.take(count - 1));
        assert(completes(done[count - 1], tid, thread.program[count - 1]));
    }
}

} // verus!
