//! The laws of one message.
//!
//! A send and a reply are the same thing but for the capability they go through:
//! a reply uses its capability up. Both hand over what they name, to whoever
//! waited longest or to the one who comes, and leave everything else alone. A
//! message that is refused leaves a mark on the trace and nothing else.

use crate::capability::{CapSlot, ObjectRef, Rights};
use crate::error::KernelError;
use crate::ipc::MsgView;
use crate::soundness::Place;
use crate::state::KernelView;
use crate::thread::{OpView, ThreadState};
use crate::trace::EventView;
use crate::{EndpointId, TaskId, ThreadId};
use vstd::prelude::*;

verus! {

impl KernelView {
    /// Whether the next thread is about to send a message through a slot, or to
    /// reply through it.
    pub open spec fn about_to_post(self, slot: CapSlot, msg: MsgView, reply: bool) -> bool {
        if reply {
            &&& self.about_to(OpView::Reply { msg })
            &&& self.threads[self.next_thread() as int].reply_to == Some(slot)
        } else {
            self.about_to(OpView::Send { ep: slot, msg })
        }
    }

    /// Whether the next thread is about to send a message, or to reply, and may:
    /// the slot holds the endpoint with the send right, and what the message names
    /// is held with the grant right.
    pub open spec fn may_post(
        self,
        slot: CapSlot,
        msg: MsgView,
        ep: EndpointId,
        reply: bool,
    ) -> bool {
        &&& self.about_to_post(slot, msg, reply)
        &&& self.has_endpoint(ep)
        &&& self.holds(self.next_task(), slot, ObjectRef::Endpoint(ep), Rights::send())
        &&& msg.transfer matches Some(given) ==> {
            &&& self.held(self.next_task(), given) is Some
            &&& self.held(self.next_task(), given)->0.cap.rights.contains(Rights::grant())
        }
    }

    /// The ready queue without the next thread.
    pub open spec fn others_ready(self) -> Seq<(ThreadId, u8)> {
        self.sched.ready.remove(self.sched.next_index())
    }

    /// A thread as an entry of the ready queue.
    pub open spec fn entry_of(self, tid: ThreadId) -> (ThreadId, u8) {
        (tid, self.threads[tid as int].priority)
    }
}

/// What a dispatch and the resolution of a slot come to, for a message.
proof fn lemma_posting(k: KernelView, slot: CapSlot, msg: MsgView, ep: EndpointId, reply: bool)
    requires
        k.wf(),
        k.may_post(slot, msg, ep, reply),
    ensures
        k.take_up().send_refusal(k.next_task(), ObjectRef::Endpoint(ep), msg.transfer) is None,
        k.has_task(k.next_task()),
        slot < k.table(k.next_task()).next,
        msg.transfer is Some ==> msg.transfer->0 < k.table(k.next_task()).next,
{
    crate::rendezvous::lemma_about_to(k);
    crate::rendezvous::lemma_kind(k, slot, ep, Rights::send());
    crate::soundness::lemma_table_wf(k, k.next_task());
    assert(k.table(k.next_task()).slots.contains_key(slot));
}

/// A message that finds a receiver waiting meets the one that waited longest,
/// whether it is sent or a reply. Both threads are one op further and ready, the
/// receiver first in line; the delivery is on record once, with the label and the
/// size of the message; and no other thread, endpoint or byte of memory changes.
pub proof fn law_a_message_meets_the_longest_waiting_receiver(
    k: KernelView,
    slot: CapSlot,
    msg: MsgView,
    ep: EndpointId,
    reply: bool,
    other: ThreadId,
    other_ep: EndpointId,
)
    requires
        k.wf(),
        k.may_post(slot, msg, ep, reply),
        k.endpoints[ep as int].receivers.len() > 0,
        k.tick_safe(),
    ensures
        ({
            let n = k.tick();
            let sender = k.next_thread();
            let receiver = k.endpoints[ep as int].receivers[0];
            let at = k.trace.len() as int;
            &&& crate::rendezvous::met(k, n, sender, receiver)
            &&& other != sender && other != receiver && k.has_thread(other)
                ==> n.threads[other as int] == k.threads[other as int]
            &&& n.sched.ready == k.others_ready().push(k.entry_of(receiver)).push(
                k.entry_of(sender),
            )
            &&& seq![receiver] + n.endpoints[ep as int].receivers
                == k.endpoints[ep as int].receivers
            &&& n.endpoints[ep as int].senders.len() == 0
            &&& other_ep != ep && k.has_endpoint(other_ep) ==> n.endpoints[other_ep as int]
                == k.endpoints[other_ep as int]
            &&& n.regions == k.regions
            &&& n.trace.len() == at + if msg.transfer is Some {
                3int
            } else {
                2int
            }
            &&& k.trace.is_prefix_of(n.trace)
            &&& n.trace[at] == k.dispatch_event()
            &&& n.trace[at + 1] == (EventView::Rendezvous {
                sender,
                receiver,
                endpoint: ep,
                label: msg.label,
                bytes: msg.bytes.len(),
            })
        }),
{
    crate::rendezvous::lemma_about_to(k);
    crate::rendezvous::lemma_kind(k, slot, ep, Rights::send());
    lemma_posting(k, slot, msg, ep, reply);
    crate::rendezvous::lemma_first_receiver(k, ep);
    crate::rendezvous::law_at_most_one_side_waits(k, ep);
    let n = k.tick();
    let receiver = k.endpoints[ep as int].receivers[0];
    assert(seq![receiver] + n.endpoints[ep as int].receivers =~= k.endpoints[ep as int].receivers);
}

/// A message hands over the capability that it names, whether it is sent or a
/// reply: the sender's slot is empty, the receiver's task holds the same entry,
/// with identity, object and rights, in a slot that was free, and the transfer is
/// the last thing on record.
pub proof fn law_a_message_hands_over_its_capability(
    k: KernelView,
    slot: CapSlot,
    msg: MsgView,
    ep: EndpointId,
    reply: bool,
)
    requires
        k.wf(),
        k.may_post(slot, msg, ep, reply),
        msg.transfer is Some,
        k.endpoints[ep as int].receivers.len() > 0,
        k.tick_safe(),
    ensures
        ({
            let n = k.tick();
            let from = k.next_task();
            let to = k.threads[k.endpoints[ep as int].receivers[0] as int].task;
            let entry = k.held(from, msg.transfer->0)->0;
            let new_slot = k.table(to).next_slot();
            &&& n.held(from, msg.transfer->0) is None
            &&& k.held(to, new_slot) is None
            &&& n.held(to, new_slot) == Some(entry)
            &&& n.table(to).next == k.table(to).next + 1
            &&& n.trace.last() == (EventView::CapTransfer {
                from,
                to,
                object: entry.cap.object,
                rights: entry.cap.rights,
                new_slot,
            })
        }),
{
    crate::rendezvous::lemma_about_to(k);
    crate::rendezvous::lemma_kind(k, slot, ep, Rights::send());
    lemma_posting(k, slot, msg, ep, reply);
    crate::rendezvous::lemma_first_receiver(k, ep);
    let receiver = k.endpoints[ep as int].receivers[0];
    crate::soundness::lemma_table_wf(k, k.threads[receiver as int].task);
}

/// A message moves nothing but what it names. Every other slot of every task
/// keeps what it held; a reply uses its capability up, a send keeps it.
pub proof fn law_a_message_moves_nothing_else(
    k: KernelView,
    slot: CapSlot,
    msg: MsgView,
    ep: EndpointId,
    reply: bool,
    task: TaskId,
    kept: CapSlot,
)
    requires
        k.wf(),
        k.may_post(slot, msg, ep, reply),
        k.tick_safe(),
    ensures
        ({
            let n = k.tick();
            let from = k.next_task();
            let waiting = k.endpoints[ep as int].receivers.len() > 0;
            let to = k.threads[k.endpoints[ep as int].receivers[0] as int].task;
            let given = task == from && msg.transfer == Some(kept);
            let used = task == from && reply && kept == slot;
            let landed = waiting && msg.transfer is Some && task == to && kept == k.table(
                to,
            ).next_slot();
            &&& given || used ==> n.held(task, kept) is None
            &&& !given && !used && !landed ==> n.held(task, kept) == k.held(task, kept)
            &&& n.threads[k.next_thread() as int].reply_to == if reply {
                None
            } else {
                k.threads[k.next_thread() as int].reply_to
            }
            &&& n.next_cap_id == k.next_cap_id
            &&& n.cdt == k.cdt
        }),
{
    crate::rendezvous::lemma_about_to(k);
    crate::rendezvous::lemma_kind(k, slot, ep, Rights::send());
    lemma_posting(k, slot, msg, ep, reply);
    if k.endpoints[ep as int].receivers.len() > 0 {
        crate::rendezvous::lemma_first_receiver(k, ep);
        let receiver = k.endpoints[ep as int].receivers[0];
        crate::soundness::lemma_table_wf(k, k.threads[receiver as int].task);
    }
}

/// What a message leaves its receiver to reply through: an endpoint capability
/// with the send right that came along, and otherwise what it had before.
pub proof fn law_a_waiting_receiver_can_reply(
    k: KernelView,
    slot: CapSlot,
    msg: MsgView,
    ep: EndpointId,
    reply: bool,
)
    requires
        k.wf(),
        k.may_post(slot, msg, ep, reply),
        k.endpoints[ep as int].receivers.len() > 0,
        k.tick_safe(),
    ensures
        ({
            let n = k.tick();
            let receiver = k.endpoints[ep as int].receivers[0];
            let to = k.threads[receiver as int].task;
            let now = n.threads[receiver as int].reply_to;
            if msg.transfer is Some && k.held(k.next_task(), msg.transfer->0)->0.cap.object
                is Endpoint && k.held(k.next_task(), msg.transfer->0)->0.cap.rights.contains(
                Rights::send(),
            ) {
                now == Some(k.table(to).next_slot())
            } else {
                now == k.threads[receiver as int].reply_to
            }
        }),
{
    crate::rendezvous::lemma_about_to(k);
    crate::rendezvous::lemma_kind(k, slot, ep, Rights::send());
    lemma_posting(k, slot, msg, ep, reply);
    crate::rendezvous::lemma_first_receiver(k, ep);
}

/// A message that finds nobody waits, whether it is sent or a reply: its sender
/// parks at the same op, last in the queue of the endpoint, and holds the label,
/// the payload and the capability that the message names, which has left its slot.
pub proof fn law_a_message_waits_for_its_receiver(
    k: KernelView,
    slot: CapSlot,
    msg: MsgView,
    ep: EndpointId,
    reply: bool,
    other: ThreadId,
    other_ep: EndpointId,
)
    requires
        k.wf(),
        k.may_post(slot, msg, ep, reply),
        k.endpoints[ep as int].receivers.len() == 0,
    ensures
        ({
            let n = k.tick();
            let sender = k.next_thread();
            let thread = n.threads[sender as int];
            let at = k.trace.len() as int;
            &&& thread.state == ThreadState::BlockedSend(ep)
            &&& thread.pc == k.threads[sender as int].pc
            &&& thread.pending is Some
            &&& (thread.pending->0).label == msg.label
            &&& (thread.pending->0).bytes == msg.bytes
            &&& msg.transfer is None ==> (thread.pending->0).cap is None
            &&& msg.transfer matches Some(given) ==> {
                &&& n.held(k.next_task(), given) is None
                &&& (thread.pending->0).cap == k.held(k.next_task(), given)
                &&& n.at(None, Place::Flight { sender }) == k.held(k.next_task(), given)
            }
            &&& other != sender && k.has_thread(other) ==> n.threads[other as int]
                == k.threads[other as int]
            &&& n.sched.ready == k.others_ready()
            &&& n.endpoints[ep as int].senders == k.endpoints[ep as int].senders + seq![sender]
            &&& n.endpoints[ep as int].receivers.len() == 0
            &&& other_ep != ep && k.has_endpoint(other_ep) ==> n.endpoints[other_ep as int]
                == k.endpoints[other_ep as int]
            &&& n.regions == k.regions
            &&& n.trace.len() == at + 2
            &&& k.trace.is_prefix_of(n.trace)
            &&& n.trace[at] == k.dispatch_event()
            &&& n.trace[at + 1] == (EventView::BlockSend { thread: sender, endpoint: ep })
        }),
{
    crate::rendezvous::lemma_about_to(k);
    crate::rendezvous::lemma_kind(k, slot, ep, Rights::send());
    lemma_posting(k, slot, msg, ep, reply);
    let n = k.tick();
    assert(n.endpoints[ep as int].senders =~= k.endpoints[ep as int].senders + seq![
        k.next_thread(),
    ]);
}

/// A receive that finds a sender waiting takes the message of the one that waited
/// longest. Both threads are one op further and ready, the sender first in line;
/// the delivery is on record once, with the label and the size of that message;
/// and no other thread, endpoint or byte of memory changes.
pub proof fn law_a_receiver_takes_the_longest_waiting_message(
    k: KernelView,
    slot: CapSlot,
    ep: EndpointId,
    other: ThreadId,
    other_ep: EndpointId,
)
    requires
        k.wf(),
        k.may_recv(slot, ep),
        k.endpoints[ep as int].senders.len() > 0,
        k.tick_safe(),
    ensures
        ({
            let n = k.tick();
            let sender = k.endpoints[ep as int].senders[0];
            let receiver = k.next_thread();
            let msg = k.threads[sender as int].pending->0;
            let at = k.trace.len() as int;
            &&& k.threads[sender as int].pending is Some
            &&& crate::rendezvous::met(k, n, sender, receiver)
            &&& other != sender && other != receiver && k.has_thread(other)
                ==> n.threads[other as int] == k.threads[other as int]
            &&& n.sched.ready == k.others_ready().push(k.entry_of(sender)).push(
                k.entry_of(receiver),
            )
            &&& seq![sender] + n.endpoints[ep as int].senders == k.endpoints[ep as int].senders
            &&& n.endpoints[ep as int].receivers.len() == 0
            &&& other_ep != ep && k.has_endpoint(other_ep) ==> n.endpoints[other_ep as int]
                == k.endpoints[other_ep as int]
            &&& n.regions == k.regions
            &&& n.trace.len() == at + if msg.cap is Some {
                3int
            } else {
                2int
            }
            &&& k.trace.is_prefix_of(n.trace)
            &&& n.trace[at] == k.dispatch_event()
            &&& n.trace[at + 1] == (EventView::Rendezvous {
                sender,
                receiver,
                endpoint: ep,
                label: msg.label,
                bytes: msg.bytes.len(),
            })
        }),
{
    crate::rendezvous::lemma_about_to(k);
    crate::rendezvous::lemma_kind(k, slot, ep, Rights::recv());
    crate::rendezvous::lemma_first_sender(k, ep);
    crate::rendezvous::law_at_most_one_side_waits(k, ep);
    let n = k.tick();
    let sender = k.endpoints[ep as int].senders[0];
    assert(seq![sender] + n.endpoints[ep as int].senders =~= k.endpoints[ep as int].senders);
}

/// What a receive brings: the capability in the message, if it carries one, lands
/// in the next slot of the receiver's task, and every other slot keeps what it
/// held. An endpoint with the send right becomes what the receiver replies
/// through, and nothing else does.
pub proof fn law_a_receiver_gets_what_the_message_carries(
    k: KernelView,
    slot: CapSlot,
    ep: EndpointId,
    task: TaskId,
    kept: CapSlot,
)
    requires
        k.wf(),
        k.may_recv(slot, ep),
        k.endpoints[ep as int].senders.len() > 0,
        k.tick_safe(),
    ensures
        ({
            let n = k.tick();
            let sender = k.endpoints[ep as int].senders[0];
            let to = k.next_task();
            let new_slot = k.table(to).next_slot();
            let cap = k.at(None, Place::Flight { sender });
            let landed = cap is Some && task == to && kept == new_slot;
            &&& !landed ==> n.held(task, kept) == k.held(task, kept)
            &&& cap matches Some(entry) ==> {
                &&& k.held(to, new_slot) is None
                &&& n.held(to, new_slot) == Some(entry)
                &&& n.trace.last() == (EventView::CapTransfer {
                    from: k.threads[sender as int].task,
                    to,
                    object: entry.cap.object,
                    rights: entry.cap.rights,
                    new_slot,
                })
            }
            &&& n.at(None, Place::Flight { sender }) is None
            &&& n.threads[k.next_thread() as int].reply_to == if cap is Some
                && cap->0.cap.object is Endpoint && cap->0.cap.rights.contains(Rights::send()) {
                Some(new_slot)
            } else {
                k.threads[k.next_thread() as int].reply_to
            }
            &&& n.threads[sender as int].reply_to == k.threads[sender as int].reply_to
            &&& n.next_cap_id == k.next_cap_id
            &&& n.cdt == k.cdt
        }),
{
    crate::rendezvous::lemma_about_to(k);
    crate::rendezvous::lemma_kind(k, slot, ep, Rights::recv());
    crate::rendezvous::lemma_first_sender(k, ep);
    crate::soundness::lemma_table_wf(k, k.next_task());
}

/// A receive that finds nobody waits: the receiver parks at the same op, last in
/// the queue of the endpoint, and nothing else changes.
pub proof fn law_a_receiver_waits_for_a_message(
    k: KernelView,
    slot: CapSlot,
    ep: EndpointId,
    other: ThreadId,
    other_ep: EndpointId,
)
    requires
        k.wf(),
        k.may_recv(slot, ep),
        k.endpoints[ep as int].senders.len() == 0,
    ensures
        ({
            let n = k.tick();
            let receiver = k.next_thread();
            let (was, is) = (k.threads[receiver as int], n.threads[receiver as int]);
            let at = k.trace.len() as int;
            &&& is.state == ThreadState::BlockedRecv(ep)
            &&& is.pc == was.pc
            &&& is.reply_to == was.reply_to
            &&& n.tasks == k.tasks
            &&& n.regions == k.regions
            &&& other != receiver && k.has_thread(other) ==> n.threads[other as int]
                == k.threads[other as int]
            &&& n.sched.ready == k.others_ready()
            &&& n.endpoints[ep as int].receivers == k.endpoints[ep as int].receivers + seq![
                receiver,
            ]
            &&& n.endpoints[ep as int].senders.len() == 0
            &&& other_ep != ep && k.has_endpoint(other_ep) ==> n.endpoints[other_ep as int]
                == k.endpoints[other_ep as int]
            &&& n.trace.len() == at + 2
            &&& k.trace.is_prefix_of(n.trace)
            &&& n.trace[at] == k.dispatch_event()
            &&& n.trace[at + 1] == (EventView::BlockRecv { thread: receiver, endpoint: ep })
        }),
{
    crate::rendezvous::lemma_about_to(k);
    crate::rendezvous::lemma_kind(k, slot, ep, Rights::recv());
    let n = k.tick();
    assert(n.endpoints[ep as int].receivers =~= k.endpoints[ep as int].receivers + seq![
        k.next_thread(),
    ]);
}

// -- refusals -----------------------------------------------------------------

/// Whether a turn left a mark and nothing else: the next thread is one op further
/// and last in line, the refusal is on record with its reason, and tables,
/// endpoints, memory and all other threads are as they were.
pub open spec fn only_marked(
    k: KernelView,
    n: KernelView,
    syscall: Seq<char>,
    reason: KernelError,
) -> bool {
    let tid = k.next_thread();
    let (was, is) = (k.threads[tid as int], n.threads[tid as int]);
    &&& n.tasks == k.tasks
    &&& n.endpoints == k.endpoints
    &&& n.regions == k.regions
    &&& n.cdt == k.cdt
    &&& n.next_cap_id == k.next_cap_id
    &&& n.rng == k.rng
    &&& n.threads.len() == k.threads.len()
    &&& forall|u: int|
        0 <= u < k.threads.len() && u != tid ==> (#[trigger] n.threads[u]) == k.threads[u]
    &&& is.pc == was.pc + 1
    &&& is.state is Ready
    &&& is.pending is None
    &&& is.reply_to == was.reply_to
    &&& is.cycles == was.cycles
    &&& n.sched.ready == k.others_ready().push(k.entry_of(tid))
    &&& n.trace == k.trace + seq![
        k.dispatch_event(),
        EventView::Denied { thread: tid, syscall, reason: reason.text() },
    ]
}

/// A message through a slot that does not hold an endpoint with the send right is
/// refused, with the reason that the slot gives, and leaves only a mark. That a
/// reply capability is gone is no exception.
pub proof fn law_a_message_needs_the_send_right(
    k: KernelView,
    slot: CapSlot,
    msg: MsgView,
    reply: bool,
)
    requires
        k.wf(),
        k.about_to_post(slot, msg, reply),
        k.resolve(k.next_task(), slot, "endpoint", Rights::send()) is Err,
    ensures
        only_marked(
            k,
            k.tick(),
            "send"@,
            k.resolve(k.next_task(), slot, "endpoint", Rights::send())->Err_0,
        ),
{
    crate::rendezvous::lemma_about_to(k);
    let n = k.tick();
    assert(k.take_up().resolve(k.next_task(), slot, "endpoint", Rights::send()) == k.resolve(
        k.next_task(),
        slot,
        "endpoint",
        Rights::send(),
    ));
    assert(n.trace =~= k.trace + seq![k.dispatch_event(), n.trace.last()]);
}

/// A message can only hand over what its sender holds with the grant right. It is
/// refused otherwise, whether it is sent or a reply, and leaves only a mark: the
/// capability stays, and so does the reply capability.
pub proof fn law_a_message_hands_over_only_what_may_be_given(
    k: KernelView,
    slot: CapSlot,
    msg: MsgView,
    ep: EndpointId,
    reply: bool,
    given: CapSlot,
)
    requires
        k.wf(),
        k.about_to_post(slot, msg, reply),
        k.holds(k.next_task(), slot, ObjectRef::Endpoint(ep), Rights::send()),
        msg.transfer == Some(given),
        k.held(k.next_task(), given) is None || !k.held(
            k.next_task(),
            given,
        )->0.cap.rights.contains(Rights::grant()),
    ensures
        only_marked(
            k,
            k.tick(),
            "send"@,
            if k.held(k.next_task(), given) is None {
                KernelError::NoSuchCapability { slot: given }
            } else {
                KernelError::MissingRight { slot: given, needed: Rights::grant() }
            },
        ),
{
    crate::rendezvous::lemma_about_to(k);
    crate::rendezvous::lemma_kind(k, slot, ep, Rights::send());
    let n = k.tick();
    assert(n.trace =~= k.trace + seq![k.dispatch_event(), n.trace.last()]);
}

/// A message to an endpoint that does not exist is refused, if what it names may
/// be given at all, and leaves only a mark: what it names stays with the sender.
pub proof fn law_a_message_needs_an_endpoint(
    k: KernelView,
    slot: CapSlot,
    msg: MsgView,
    ep: EndpointId,
    reply: bool,
)
    requires
        k.wf(),
        k.about_to_post(slot, msg, reply),
        k.holds(k.next_task(), slot, ObjectRef::Endpoint(ep), Rights::send()),
        !k.has_endpoint(ep),
        msg.transfer matches Some(given) ==> k.held(k.next_task(), given) is Some && k.held(
            k.next_task(),
            given,
        )->0.cap.rights.contains(Rights::grant()),
    ensures
        only_marked(
            k,
            k.tick(),
            "send"@,
            KernelError::NoSuchObject { object: ObjectRef::Endpoint(ep) },
        ),
{
    crate::rendezvous::lemma_about_to(k);
    crate::rendezvous::lemma_kind(k, slot, ep, Rights::send());
    let n = k.tick();
    assert(n.trace =~= k.trace + seq![k.dispatch_event(), n.trace.last()]);
}

/// A thread that received no reply capability cannot reply: it is refused and
/// leaves only a mark.
pub proof fn law_a_reply_needs_a_reply_capability(k: KernelView, msg: MsgView)
    requires
        k.wf(),
        k.about_to(OpView::Reply { msg }),
        k.threads[k.next_thread() as int].reply_to is None,
    ensures
        only_marked(k, k.tick(), "reply"@, KernelError::NoReplyCapability),
{
    crate::rendezvous::lemma_about_to(k);
    let n = k.tick();
    assert(n.trace =~= k.trace + seq![k.dispatch_event(), n.trace.last()]);
}

/// A receive through a slot that does not hold an existing endpoint with the
/// receive right is refused and leaves only a mark.
pub proof fn law_a_receive_needs_the_receive_right(k: KernelView, slot: CapSlot)
    requires
        k.wf(),
        k.about_to(OpView::Recv { ep: slot }),
        forall|ep: EndpointId|
            #![trigger k.has_endpoint(ep)]
            !k.may_recv(slot, ep),
    ensures
        ({
            let answer = k.resolve(k.next_task(), slot, "endpoint", Rights::recv());
            only_marked(
                k,
                k.tick(),
                "recv"@,
                match answer {
                    Err(e) => e,
                    Ok(object) => KernelError::NoSuchObject { object },
                },
            )
        }),
{
    crate::rendezvous::lemma_about_to(k);
    let n = k.tick();
    let answer = k.resolve(k.next_task(), slot, "endpoint", Rights::recv());
    assert(k.take_up().resolve(k.next_task(), slot, "endpoint", Rights::recv()) == answer);
    if answer is Ok {
        crate::soundness::lemma_resolved(k, k.next_task(), slot, "endpoint", Rights::recv());
        let ep = answer->Ok_0.number();
        if k.has_endpoint(ep) {
            assert(k.may_recv(slot, ep));
        }
    }
    assert(n.trace =~= k.trace + seq![k.dispatch_event(), n.trace.last()]);
}

} // verus!
