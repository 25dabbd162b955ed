//! The laws of synchronous IPC.
//!
//! A send and a receive on the same endpoint must meet. Whichever arrives first
//! blocks, and the second completes both. A capability carried by a message
//! moves: it leaves the sender and appears at the receiver, unchanged. The laws
//! speak of one turn of the run loop, in which the next ready thread executes
//! its current op.

use crate::capability::{CapEntry, CapSlot, ObjectRef, Rights};
use crate::error::KernelError;
use crate::ipc::MsgView;
use crate::soundness::Place;
use crate::state::KernelView;
use crate::thread::{OpView, PendingView, ThreadState};
use crate::trace::EventView;
use crate::{EndpointId, TaskId, ThreadId};
use vstd::prelude::*;

verus! {

impl KernelView {
    /// Whether the next thread is about to execute an op.
    pub open spec fn about_to(self, op: OpView) -> bool {
        &&& self.sched.ready.len() > 0
        &&& self.threads[self.next_thread() as int].current_op() == Some(op)
    }

    /// The task of the next thread.
    pub open spec fn next_task(self) -> TaskId {
        self.threads[self.next_thread() as int].task
    }

    /// Whether the next thread is about to send a message on an endpoint, and
    /// may: it holds the endpoint with the send right, and what the message is to
    /// carry with the grant right.
    pub open spec fn may_send(self, slot: CapSlot, msg: MsgView, ep: EndpointId) -> bool {
        &&& self.about_to(OpView::Send { ep: slot, msg })
        &&& self.has_endpoint(ep)
        &&& self.holds(self.next_task(), slot, ObjectRef::Endpoint(ep), Rights::send())
        &&& self.transfer_refusal(self.next_task(), msg.transfer) is None
    }

    /// Whether the next thread is about to receive on an endpoint, and may.
    pub open spec fn may_recv(self, slot: CapSlot, ep: EndpointId) -> bool {
        &&& self.about_to(OpView::Recv { ep: slot })
        &&& self.has_endpoint(ep)
        &&& self.holds(self.next_task(), slot, ObjectRef::Endpoint(ep), Rights::recv())
    }

    /// The event of the next dispatch.
    pub open spec fn dispatch_event(self) -> EventView {
        EventView::Dispatch {
            tick: self.clock + 1,
            thread: self.next_thread(),
            task: self.next_task(),
        }
    }
}

/// At no endpoint do a sender and a receiver wait at the same time.
pub proof fn law_at_most_one_side_waits(k: KernelView, ep: EndpointId)
    requires
        k.wf(),
        k.has_endpoint(ep),
    ensures
        k.endpoints[ep as int].senders.len() == 0 || k.endpoints[ep as int].receivers.len() == 0,
{
    reveal(KernelView::wf);
    assert(k.endpoint_wf(ep));
}

/// A sender that arrives first blocks: it waits in the queue of the endpoint
/// with its message, at the same op.
pub proof fn law_an_early_sender_blocks(
    k: KernelView,
    slot: CapSlot,
    msg: MsgView,
    ep: EndpointId,
)
    requires
        k.wf(),
        k.may_send(slot, msg, ep),
        k.endpoints[ep as int].receivers.len() == 0,
    ensures
        ({
            let n = k.tick();
            let tid = k.next_thread();
            let thread = n.threads[tid as int];
            &&& thread.state == ThreadState::BlockedSend(ep)
            &&& thread.pc == k.threads[tid as int].pc
            &&& thread.pending == Some(k.resolved_msg(k.next_task(), msg))
            &&& n.endpoints[ep as int].senders == k.endpoints[ep as int].senders.push(tid)
            &&& n.trace == k.trace.push(k.dispatch_event()).push(
                EventView::BlockSend { thread: tid, endpoint: ep },
            )
        }),
{
    lemma_about_to(k);
    lemma_kind(k, slot, ep, Rights::send());
}

/// A receiver that arrives first blocks: it waits in the queue of the endpoint,
/// at the same op.
pub proof fn law_an_early_receiver_blocks(k: KernelView, slot: CapSlot, ep: EndpointId)
    requires
        k.wf(),
        k.may_recv(slot, ep),
        k.endpoints[ep as int].senders.len() == 0,
    ensures
        ({
            let n = k.tick();
            let tid = k.next_thread();
            let thread = n.threads[tid as int];
            &&& thread.state == ThreadState::BlockedRecv(ep)
            &&& thread.pc == k.threads[tid as int].pc
            &&& n.endpoints[ep as int].receivers == k.endpoints[ep as int].receivers.push(tid)
            &&& n.trace == k.trace.push(k.dispatch_event()).push(
                EventView::BlockRecv { thread: tid, endpoint: ep },
            )
        }),
{
    lemma_about_to(k);
    lemma_kind(k, slot, ep, Rights::recv());
}

/// A sender that finds a receiver waiting completes the rendezvous with the one
/// that waited longest: both are past their ops and ready, and the delivery is
/// on record once.
pub proof fn law_a_send_wakes_the_receiver(
    k: KernelView,
    slot: CapSlot,
    msg: MsgView,
    ep: EndpointId,
)
    requires
        k.wf(),
        k.may_send(slot, msg, ep),
        k.endpoints[ep as int].receivers.len() > 0,
    ensures
        ({
            let n = k.tick();
            let sender = k.next_thread();
            let receiver = k.endpoints[ep as int].receivers[0];
            &&& met(k, n, sender, receiver)
            &&& n.endpoints[ep as int].receivers
                == k.endpoints[ep as int].receivers.drop_first()
            &&& n.trace == delivered(
                k,
                sender,
                receiver,
                ep,
                k.resolved_msg(k.next_task(), msg),
            )
        }),
{
    lemma_about_to(k);
    lemma_kind(k, slot, ep, Rights::send());
    lemma_first_receiver(k, ep);
}

/// A receiver that finds a sender waiting completes the rendezvous with the one
/// that waited longest: both are past their ops and ready, and the delivery is
/// on record once, with the message that the sender parked with.
pub proof fn law_a_receive_wakes_the_sender(k: KernelView, slot: CapSlot, ep: EndpointId)
    requires
        k.wf(),
        k.may_recv(slot, ep),
        k.endpoints[ep as int].senders.len() > 0,
    ensures
        ({
            let n = k.tick();
            let sender = k.endpoints[ep as int].senders[0];
            let receiver = k.next_thread();
            let msg = k.threads[sender as int].pending->0;
            &&& met(k, n, sender, receiver)
            &&& n.endpoints[ep as int].senders == k.endpoints[ep as int].senders.drop_first()
            &&& k.threads[sender as int].pending is Some
            &&& crate::soundness::sends(k.threads[sender as int], msg.label, msg.bytes)
            &&& n.trace == delivered(k, sender, receiver, ep, msg)
        }),
{
    lemma_about_to(k);
    lemma_kind(k, slot, ep, Rights::recv());
    lemma_first_sender(k, ep);
}

/// The trace after a turn in which a message was delivered: the dispatch, the
/// delivery, and the transfer of the capability it carried, if any.
pub open spec fn delivered(
    k: KernelView,
    sender: ThreadId,
    receiver: ThreadId,
    ep: EndpointId,
    msg: PendingView,
) -> Seq<EventView> {
    let base = k.trace.push(k.dispatch_event()).push(
        EventView::Rendezvous {
            sender,
            receiver,
            endpoint: ep,
            label: msg.label,
            bytes: msg.bytes.len(),
        },
    );
    let to = k.threads[receiver as int].task;
    match msg.cap {
        None => base,
        Some(entry) => base.push(
            EventView::CapTransfer {
                from: k.threads[sender as int].task,
                to,
                object: entry.cap.object,
                rights: entry.cap.rights,
                new_slot: k.table(to).next_slot(),
            },
        ),
    }
}

/// Whether two threads met: both are ready, and each is one op further.
pub open spec fn met(k: KernelView, n: KernelView, sender: ThreadId, receiver: ThreadId) -> bool {
    &&& sender != receiver
    &&& n.threads[sender as int].state is Ready
    &&& n.threads[receiver as int].state is Ready
    &&& n.threads[sender as int].pc == k.threads[sender as int].pc + 1
    &&& n.threads[receiver as int].pc == k.threads[receiver as int].pc + 1
    &&& n.threads[sender as int].pending is None
}

/// A message that carries a capability to a waiting receiver moves it: the
/// sender's slot is empty, and the receiver has, in a new slot, the capability
/// with the same identity, object and rights. The transfer is on record.
pub proof fn law_a_transfer_moves_the_capability(
    k: KernelView,
    slot: CapSlot,
    msg: MsgView,
    ep: EndpointId,
)
    requires
        k.wf(),
        k.may_send(slot, msg, ep),
        msg.transfer is Some,
        k.endpoints[ep as int].receivers.len() > 0,
        k.tick_safe(),
    ensures
        ({
            let n = k.tick();
            let from = k.next_task();
            let receiver = k.endpoints[ep as int].receivers[0];
            let to = k.threads[receiver as int].task;
            let entry = k.held(from, msg.transfer->0)->0;
            let new_slot = k.table(to).next_slot();
            &&& k.held(from, msg.transfer->0) is Some
            &&& n.held(from, msg.transfer->0) is None
            &&& k.held(to, new_slot) is None
            &&& n.held(to, new_slot) == Some(entry)
            &&& n.trace.last() == (EventView::CapTransfer {
                from,
                to,
                object: entry.cap.object,
                rights: entry.cap.rights,
                new_slot,
            })
        }),
{
    lemma_about_to(k);
    lemma_kind(k, slot, ep, Rights::send());
    lemma_first_receiver(k, ep);
    let receiver = k.endpoints[ep as int].receivers[0];
    crate::soundness::lemma_table_wf(k, k.threads[receiver as int].task);
    crate::soundness::lemma_table_wf(k, k.next_task());
}

/// A message that carries a capability to an endpoint where nobody waits takes
/// it out of the sender's table at once: it travels with the parked message.
pub proof fn law_a_parked_message_holds_the_capability(
    k: KernelView,
    slot: CapSlot,
    msg: MsgView,
    ep: EndpointId,
)
    requires
        k.wf(),
        k.may_send(slot, msg, ep),
        msg.transfer is Some,
        k.endpoints[ep as int].receivers.len() == 0,
    ensures
        ({
            let n = k.tick();
            let from = k.next_task();
            &&& k.held(from, msg.transfer->0) is Some
            &&& n.held(from, msg.transfer->0) is None
            &&& n.at(None, Place::Flight { sender: k.next_thread() }) == k.held(
                from,
                msg.transfer->0,
            )
        }),
{
    lemma_about_to(k);
    lemma_kind(k, slot, ep, Rights::send());
}

/// A capability in flight arrives with its message: the receiver has, in a new
/// slot, the capability with the same identity, object and rights, and it is no
/// longer in flight.
pub proof fn law_a_parked_capability_arrives(k: KernelView, slot: CapSlot, ep: EndpointId)
    requires
        k.wf(),
        k.may_recv(slot, ep),
        k.endpoints[ep as int].senders.len() > 0,
        k.at(None, Place::Flight { sender: k.endpoints[ep as int].senders[0] }) is Some,
        k.tick_safe(),
    ensures
        ({
            let n = k.tick();
            let sender = k.endpoints[ep as int].senders[0];
            let to = k.next_task();
            let new_slot = k.table(to).next_slot();
            &&& k.held(to, new_slot) is None
            &&& n.held(to, new_slot) == k.at(None, Place::Flight { sender })
            &&& n.at(None, Place::Flight { sender }) is None
        }),
{
    lemma_about_to(k);
    lemma_kind(k, slot, ep, Rights::recv());
    lemma_first_sender(k, ep);
    crate::soundness::lemma_table_wf(k, k.next_task());
}

/// A capability without the grant right cannot be given away: the send is
/// denied, every table stays as it was, and the sender moves on.
pub proof fn law_a_transfer_needs_the_grant_right(
    k: KernelView,
    slot: CapSlot,
    msg: MsgView,
    ep: EndpointId,
)
    requires
        k.wf(),
        k.about_to(OpView::Send { ep: slot, msg }),
        k.holds(k.next_task(), slot, ObjectRef::Endpoint(ep), Rights::send()),
        msg.transfer is Some,
        k.held(k.next_task(), msg.transfer->0) is Some,
        !k.held(k.next_task(), msg.transfer->0)->0.cap.rights.contains(Rights::grant()),
    ensures
        ({
            let n = k.tick();
            let tid = k.next_thread();
            let refusal = KernelError::MissingRight {
                slot: msg.transfer->0,
                needed: Rights::grant(),
            };
            &&& n.tasks == k.tasks
            &&& n.endpoints == k.endpoints
            &&& n.threads[tid as int].pc == k.threads[tid as int].pc + 1
            &&& n.trace == k.trace.push(k.dispatch_event()).push(
                EventView::Denied { thread: tid, syscall: "send"@, reason: refusal.text() },
            )
        }),
{
    lemma_about_to(k);
    lemma_kind(k, slot, ep, Rights::send());
}

/// A reply capability serves once: after a reply its slot is empty, and the
/// thread has nobody to reply to until it receives another.
pub proof fn law_a_reply_capability_is_one_shot(
    k: KernelView,
    slot: CapSlot,
    msg: MsgView,
    ep: EndpointId,
)
    requires
        k.wf(),
        k.about_to(OpView::Reply { msg }),
        k.threads[k.next_thread() as int].reply_to == Some(slot),
        k.has_endpoint(ep),
        k.holds(k.next_task(), slot, ObjectRef::Endpoint(ep), Rights::send()),
        k.transfer_refusal(k.next_task(), msg.transfer) is None,
    ensures
        k.tick().held(k.next_task(), slot) is None,
        k.tick().threads[k.next_thread() as int].reply_to is None,
{
    lemma_about_to(k);
    lemma_kind(k, slot, ep, Rights::send());
    crate::soundness::lemma_table_wf(k, k.next_task());
    assert(slot < k.table(k.next_task()).next);
    if k.endpoints[ep as int].receivers.len() > 0 {
        lemma_first_receiver(k, ep);
    }
}

/// An endpoint capability with the send right that comes with a message becomes
/// the receiver's reply capability.
pub proof fn law_a_received_endpoint_becomes_the_reply_capability(
    k: KernelView,
    slot: CapSlot,
    ep: EndpointId,
    entry: CapEntry,
)
    requires
        k.wf(),
        k.may_recv(slot, ep),
        k.endpoints[ep as int].senders.len() > 0,
        k.at(None, Place::Flight { sender: k.endpoints[ep as int].senders[0] }) == Some(entry),
        entry.cap.object is Endpoint,
        entry.cap.rights.contains(Rights::send()),
    ensures
        k.tick().threads[k.next_thread() as int].reply_to == Some(
            k.table(k.next_task()).next_slot(),
        ),
{
    lemma_about_to(k);
    lemma_kind(k, slot, ep, Rights::recv());
    lemma_first_sender(k, ep);
}

// -- what a turn looks like ---------------------------------------------------

/// Dispatching changes neither tables nor ops nor queues of endpoints.
pub proof fn lemma_about_to(k: KernelView)
    requires
        k.wf(),
        k.sched.ready.len() > 0,
    ensures
        k.has_thread(k.next_thread()),
        k.threads[k.next_thread() as int].state is Ready,
        k.threads[k.next_thread() as int].pending is None,
        k.take_up().tasks == k.tasks,
        k.take_up().endpoints == k.endpoints,
        k.take_up().threads == k.threads.update(
            k.next_thread() as int,
            k.threads[k.next_thread() as int].dispatched(),
        ),
        k.take_up().trace == k.trace.push(k.dispatch_event()),
{
    reveal(KernelView::wf);
    crate::soundness::lemma_take_up(k);
    assert(k.thread_wf(k.next_thread(), None));
}

/// A slot that holds an endpoint with a right resolves to it.
pub proof fn lemma_kind(k: KernelView, slot: CapSlot, ep: EndpointId, needed: Rights)
    requires
        k.holds(k.next_task(), slot, ObjectRef::Endpoint(ep), needed),
    ensures
        k.take_up().resolve(k.next_task(), slot, "endpoint", needed) == Ok::<
            ObjectRef,
            KernelError,
        >(ObjectRef::Endpoint(ep)),
{
    assert(k.take_up().tasks == k.tasks);
}

/// The receiver that waited longest is another thread, parked at a receive.
pub proof fn lemma_first_receiver(k: KernelView, ep: EndpointId)
    requires
        k.wf(),
        k.sched.ready.len() > 0,
        k.has_endpoint(ep),
        k.endpoints[ep as int].receivers.len() > 0,
    ensures
        ({
            let first = k.endpoints[ep as int].receivers[0];
            &&& k.has_thread(first)
            &&& first != k.next_thread()
            &&& k.threads[first as int].state == ThreadState::BlockedRecv(ep)
            &&& k.has_task(k.threads[first as int].task)
        }),
{
    reveal(KernelView::wf);
    crate::soundness::lemma_take_up(k);
    assert(k.endpoint_wf(ep));
    let first = k.endpoints[ep as int].receivers[0];
    assert(k.threads[first as int].state == ThreadState::BlockedRecv(ep));
    assert(k.thread_wf(first, None));
}

/// The sender that waited longest is another thread, parked with its message.
pub proof fn lemma_first_sender(k: KernelView, ep: EndpointId)
    requires
        k.wf(),
        k.sched.ready.len() > 0,
        k.has_endpoint(ep),
        k.endpoints[ep as int].senders.len() > 0,
    ensures
        ({
            let first = k.endpoints[ep as int].senders[0];
            &&& k.has_thread(first)
            &&& first != k.next_thread()
            &&& k.threads[first as int].state == ThreadState::BlockedSend(ep)
            &&& crate::soundness::holds_message(k.threads[first as int])
        }),
{
    reveal(KernelView::wf);
    crate::soundness::lemma_take_up(k);
    assert(k.endpoint_wf(ep));
    let first = k.endpoints[ep as int].senders[0];
    assert(k.threads[first as int].state == ThreadState::BlockedSend(ep));
    assert(k.thread_wf(first, None));
}

} // verus!
