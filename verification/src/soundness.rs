//! The invariants of the microkernel state.
//!
//! Two groups of facts hold of every state the kernel can be in. The first is
//! about scheduling: every thread is in exactly the queue its state says, a
//! parked sender holds its message, and an endpoint never has waiting senders
//! and waiting receivers at once. The second is about authority: every live slot
//! was handed out, every capability has an identity of its own wherever it
//! lives, and a derived capability is younger than its source.

use crate::capability::{CapEntry, CapId, CapSlot, Capability, ObjectRef, Rights};
use crate::error::KernelError;
use crate::ipc::{EndpointView, MsgView};
use crate::scheduler::Policy;
use crate::state::KernelView;
use crate::thread::{OpView, PendingView, ThreadState, ThreadView};
use crate::trace::EventView;
use crate::{EndpointId, TaskId, ThreadId};
use vstd::prelude::*;

verus! {

/// The current op of a thread sends a message with this label and payload.
pub open spec fn sends(thread: ThreadView, label: u64, bytes: Seq<u8>) -> bool {
    match thread.current_op() {
        Some(OpView::Send { ep, msg }) => msg.label == label && msg.bytes == bytes,
        Some(OpView::Reply { msg }) => msg.label == label && msg.bytes == bytes,
        _ => false,
    }
}

/// A message carries nothing, or a capability that may be given away.
pub open spec fn may_travel(msg: PendingView) -> bool {
    msg.cap is Some ==> (msg.cap->0).cap.rights.contains(Rights::grant())
}

/// The message that a parked sender holds is the one its current op names, and
/// carries only what may be given away.
pub open spec fn holds_message(thread: ThreadView) -> bool {
    &&& thread.pending is Some
    &&& sends(thread, thread.pending->0.label, thread.pending->0.bytes)
    &&& may_travel(thread.pending->0)
}

/// Where a capability can be.
pub enum Place {
    /// In a slot of a task.
    Slot { task: TaskId, slot: CapSlot },
    /// In the message of a parked sender.
    Flight { sender: ThreadId },
    /// On its way inside the kernel.
    Hand,
}

/// No value occurs twice.
pub open spec fn distinct(queue: Seq<ThreadId>) -> bool {
    forall|i: int, j: int|
        0 <= i < j < queue.len() ==> (#[trigger] queue[i]) != (#[trigger] queue[j])
}

impl KernelView {
    // -- scheduling ----------------------------------------------------------

    /// Whether a thread is on the ready queue.
    pub open spec fn queued(self, tid: ThreadId) -> bool {
        exists|i: int| 0 <= i < self.sched.ready.len() && (#[trigger] self.sched.ready[i]).0 == tid
    }

    /// A thread is where its state says. `running` names the thread that is
    /// being executed, if any.
    pub open spec fn thread_wf(self, tid: ThreadId, running: Option<ThreadId>) -> bool {
        let thread = self.threads[tid as int];
        &&& thread.id == tid
        &&& thread.pc <= thread.program.len()
        &&& thread.dispatches <= self.clock
        &&& thread.cycles <= self.clock * 0xffff_ffff
        &&& thread.state is Running <==> running == Some(tid)
        &&& thread.pending is Some <==> thread.state is BlockedSend
        &&& match thread.state {
            ThreadState::Ready => self.queued(tid),
            ThreadState::BlockedSend(ep) => {
                &&& self.has_endpoint(ep)
                &&& self.endpoints[ep as int].senders.contains(tid)
                &&& holds_message(thread)
            },
            ThreadState::BlockedRecv(ep) => {
                &&& self.has_endpoint(ep)
                &&& self.endpoints[ep as int].receivers.contains(tid)
                &&& thread.current_op() is Some
                &&& thread.current_op()->0 is Recv
                &&& self.has_task(thread.task)
            },
            _ => true,
        }
    }

    /// An entry of the ready queue is a ready thread with its priority.
    pub open spec fn ready_wf(self, i: int) -> bool {
        let (tid, priority) = self.sched.ready[i];
        &&& self.has_thread(tid)
        &&& self.threads[tid as int].state is Ready
        &&& self.threads[tid as int].priority == priority
    }

    /// Whoever waits on an endpoint is parked there, waits once, and at most one
    /// side waits.
    pub open spec fn endpoint_wf(self, ep: EndpointId) -> bool {
        let endpoint = self.endpoints[ep as int];
        &&& forall|i: int|
            0 <= i < endpoint.senders.len() ==> self.has_thread(#[trigger] endpoint.senders[i])
                && self.threads[endpoint.senders[i] as int].state == ThreadState::BlockedSend(ep)
        &&& forall|i: int|
            0 <= i < endpoint.receivers.len() ==> self.has_thread(#[trigger] endpoint.receivers[i])
                && self.threads[endpoint.receivers[i] as int].state == ThreadState::BlockedRecv(ep)
        &&& distinct(endpoint.senders)
        &&& distinct(endpoint.receivers)
        &&& endpoint.senders.len() == 0 || endpoint.receivers.len() == 0
    }

    /// The objects are few enough to be numbered.
    pub open spec fn sizes_wf(self) -> bool {
        &&& self.tasks.len() <= u32::MAX
        &&& self.threads.len() <= u32::MAX
        &&& self.endpoints.len() <= u32::MAX
        &&& self.regions.len() <= u32::MAX
    }

    /// All threads and queues agree with each other.
    pub open spec fn sched_wf(self, running: Option<ThreadId>) -> bool {
        &&& self.sched.switches == self.clock
        &&& running is Some ==> self.has_thread(running->0)
        &&& forall|tid: ThreadId|
            self.has_thread(tid) ==> #[trigger] self.thread_wf(tid, running)
        &&& forall|i: int| 0 <= i < self.sched.ready.len() ==> #[trigger] self.ready_wf(i)
        &&& forall|i: int, j: int|
            0 <= i < j < self.sched.ready.len() ==> (#[trigger] self.sched.ready[i]).0 != (
            #[trigger] self.sched.ready[j]).0
        &&& forall|ep: EndpointId| self.has_endpoint(ep) ==> #[trigger] self.endpoint_wf(ep)
    }

    // -- authority -----------------------------------------------------------

    /// The capability at a place. `hand` is a capability that the kernel is just
    /// moving, if any.
    pub open spec fn at(self, hand: Option<CapEntry>, place: Place) -> Option<CapEntry> {
        match place {
            Place::Slot { task, slot } => self.held(task, slot),
            Place::Flight { sender } => if self.has_thread(sender)
                && self.threads[sender as int].pending is Some {
                self.threads[sender as int].pending->0.cap
            } else {
                None
            },
            Place::Hand => hand,
        }
    }

    /// Whether a capability exists anywhere.
    pub open spec fn live(self, hand: Option<CapEntry>, entry: CapEntry) -> bool {
        exists|p: Place| #[trigger] self.at(hand, p) == Some(entry)
    }

    /// No two places hold the same identity, and every identity was handed out.
    pub open spec fn unique(self, hand: Option<CapEntry>) -> bool {
        &&& forall|p: Place, q: Place|
            (#[trigger] self.at(hand, p)) is Some && (#[trigger] self.at(hand, q)) is Some
                && self.at(hand, p)->0.id == self.at(hand, q)->0.id ==> p == q
        &&& forall|p: Place|
            (#[trigger] self.at(hand, p)) is Some ==> self.at(hand, p)->0.id < self.next_cap_id
    }

    /// The tasks are numbered in order, and their live slots were handed out.
    pub open spec fn tables_wf(self) -> bool {
        forall|t: TaskId|
            self.has_task(t) ==> (#[trigger] self.tasks[t as int]).id == t && self.table(t).wf()
    }

    /// Every slot handed out was for a new identity or for a transfer, and there
    /// is at most one transfer per tick. While a thread is being executed, its
    /// tick may be `spare`.
    pub open spec fn slots_counted(self, spare: nat) -> bool {
        forall|t: TaskId|
            self.has_task(t) ==> (#[trigger] self.tasks[t as int]).caps.next + spare
                <= self.next_cap_id + self.clock
    }

    /// A derived identity is younger than its parent, and all were handed out.
    pub open spec fn tree_wf(self) -> bool {
        &&& self.next_cap_id <= u64::MAX
        &&& self.cdt.dom().finite()
        &&& forall|id: CapId| #[trigger]
            self.cdt.contains_key(id) ==> id < self.next_cap_id && (self.cdt[id] is Some
                ==> self.cdt[id]->0 < id)
    }

    /// All authority is accounted for.
    pub open spec fn caps_wf(self, hand: Option<CapEntry>) -> bool {
        &&& self.tables_wf()
        &&& self.unique(hand)
        &&& self.tree_wf()
    }

    /// The regions are numbered in order, and each thread listed under a task
    /// belongs to it.
    pub open spec fn listed_wf(self) -> bool {
        &&& forall|r: int| 0 <= r < self.regions.len() ==> (#[trigger] self.regions[r]).id == r
        &&& forall|t: TaskId, i: int|
            #![trigger self.tasks[t as int].threads[i]]
            self.has_task(t) && 0 <= i < self.tasks[t as int].threads.len() ==> {
                &&& self.has_thread(self.tasks[t as int].threads[i])
                &&& self.threads[self.tasks[t as int].threads[i] as int].task == t
            }
    }

    /// The invariant while a thread is being executed.
    pub open spec fn busy_wf(self, running: Option<ThreadId>, spare: nat) -> bool {
        &&& self.sizes_wf()
        &&& self.sched_wf(running)
        &&& self.caps_wf(None)
        &&& self.slots_counted(spare)
        &&& self.listed_wf()
    }

    /// The invariant at the end of a step of a thread.
    pub open spec fn settled(self, tid: ThreadId) -> bool {
        if self.threads[tid as int].state is Running {
            self.busy_wf(Some(tid), 0)
        } else {
            self.busy_wf(None, 0)
        }
    }

    /// The invariant of every state between two operations.
    #[verifier::opaque]
    pub open spec fn wf(self) -> bool {
        self.busy_wf(None, 0)
    }
}

// -- scheduling transitions ---------------------------------------------------

/// Dispatching keeps threads and queues in agreement.
pub proof fn lemma_take_up_sched(k: KernelView)
    requires
        k.sizes_wf(),
        k.sched_wf(None),
        k.sched.ready.len() > 0,
    ensures
        k.has_thread(k.next_thread()),
        k.take_up().sched_wf(Some(k.next_thread())),
        k.threads[k.next_thread() as int].state is Ready,
{
    let tid = k.next_thread();
    let at = k.sched.next_index();
    let n = k.take_up();
    crate::scheduler::lemma_next_index(k.sched);
    assert(k.ready_wf(at));
    assert(k.thread_wf(tid, None));
    assert forall|u: ThreadId| n.has_thread(u) implies #[trigger] n.thread_wf(u, Some(tid)) by {
        assert(k.thread_wf(u, None));
        assert(k.clock * 0xffff_ffff <= n.clock * 0xffff_ffff) by (nonlinear_arith)
            requires
                n.clock == k.clock + 1,
        ;
        if u != tid && k.threads[u as int].state is Ready {
            let i = choose|i: int|
                0 <= i < k.sched.ready.len() && (#[trigger] k.sched.ready[i]).0 == u;
            assert(i != at);
            if i < at {
                assert(n.sched.ready[i].0 == u);
            } else {
                assert(n.sched.ready[i - 1].0 == u);
            }
        }
    }
    assert forall|i: int| 0 <= i < n.sched.ready.len() implies #[trigger] n.ready_wf(i) by {
        let j = if i < at {
            i
        } else {
            i + 1
        };
        assert(k.ready_wf(j));
        assert(n.sched.ready[i] == k.sched.ready[j]);
        assert(k.sched.ready[j].0 != k.sched.ready[at].0);
    }
    assert forall|i: int, j: int| 0 <= i < j < n.sched.ready.len() implies (
    #[trigger] n.sched.ready[i]).0 != (#[trigger] n.sched.ready[j]).0 by {
        let a = if i < at {
            i
        } else {
            i + 1
        };
        let b = if j < at {
            j
        } else {
            j + 1
        };
        assert(k.sched.ready[a].0 != k.sched.ready[b].0);
    }
    assert forall|ep: EndpointId| n.has_endpoint(ep) implies #[trigger] n.endpoint_wf(ep) by {
        assert(k.endpoint_wf(ep));
    }
}

/// Whether two states agree on everything scheduling looks at, except for the
/// running thread, which stays running.
pub open spec fn quiet(k: KernelView, n: KernelView, tid: ThreadId) -> bool {
    let (was, is) = (k.threads[tid as int], n.threads[tid as int]);
    &&& n.threads.len() == k.threads.len()
    &&& forall|u: ThreadId| u != tid && k.has_thread(u) ==> n.threads[u as int] == (
    #[trigger] k.threads[u as int])
    &&& is.id == was.id
    &&& is.state is Running
    &&& is.pending == was.pending
    &&& is.pc <= is.program.len()
    &&& is.dispatches <= n.clock
    &&& is.cycles <= n.clock * 0xffff_ffff
    &&& n.sched == k.sched
    &&& n.clock == k.clock
    &&& n.endpoints == k.endpoints
    &&& n.tasks.len() == k.tasks.len()
}

/// A step that leaves its thread running and the queues alone keeps them in
/// agreement.
pub proof fn lemma_quiet_sched(k: KernelView, n: KernelView, tid: ThreadId)
    requires
        k.sched_wf(Some(tid)),
        quiet(k, n, tid),
    ensures
        n.sched_wf(Some(tid)),
{
    assert(k.thread_wf(tid, Some(tid)));
    assert forall|u: ThreadId| n.has_thread(u) implies #[trigger] n.thread_wf(u, Some(tid)) by {
        assert(k.thread_wf(u, Some(tid)));
        if u != tid {
            assert(n.threads[u as int] == k.threads[u as int]);
            if k.queued(u) {
                assert(n.queued(u));
            }
        }
    }
    assert forall|i: int| 0 <= i < n.sched.ready.len() implies #[trigger] n.ready_wf(i) by {
        assert(k.ready_wf(i));
        assert(k.sched.ready[i].0 != tid);
        assert(n.threads[k.sched.ready[i].0 as int] == k.threads[k.sched.ready[i].0 as int]);
    }
    assert forall|ep: EndpointId| n.has_endpoint(ep) implies #[trigger] n.endpoint_wf(ep) by {
        assert(k.endpoint_wf(ep));
        let endpoint = k.endpoints[ep as int];
        assert forall|i: int| 0 <= i < endpoint.senders.len() implies n.has_thread(
            #[trigger] endpoint.senders[i],
        ) && n.threads[endpoint.senders[i] as int].state == ThreadState::BlockedSend(ep) by {
            assert(k.threads[endpoint.senders[i] as int].state == ThreadState::BlockedSend(ep));
            assert(endpoint.senders[i] != tid);
        }
        assert forall|i: int| 0 <= i < endpoint.receivers.len() implies n.has_thread(
            #[trigger] endpoint.receivers[i],
        ) && n.threads[endpoint.receivers[i] as int].state == ThreadState::BlockedRecv(ep) by {
            assert(k.threads[endpoint.receivers[i] as int].state == ThreadState::BlockedRecv(ep));
            assert(endpoint.receivers[i] != tid);
        }
    }
}

/// Whether `n` differs from `k` only in that the running thread left the
/// processor in state `state`, possibly into a queue of one endpoint.
pub open spec fn left(k: KernelView, n: KernelView, tid: ThreadId, state: ThreadState) -> bool {
    let (was, is) = (k.threads[tid as int], n.threads[tid as int]);
    &&& n.threads.len() == k.threads.len()
    &&& forall|u: ThreadId| u != tid && k.has_thread(u) ==> n.threads[u as int] == (
    #[trigger] k.threads[u as int])
    &&& is.id == was.id
    &&& is.state == state
    &&& is.pc <= is.program.len()
    &&& is.dispatches <= n.clock
    &&& is.cycles <= n.clock * 0xffff_ffff
    &&& n.clock == k.clock
    &&& n.sched.switches == k.sched.switches
    &&& n.tasks.len() == k.tasks.len()
}

/// Leaving the processor keeps threads and queues in agreement: into the ready
/// queue, into a queue of an endpoint, or for good.
pub proof fn lemma_left_sched(k: KernelView, n: KernelView, tid: ThreadId, state: ThreadState)
    requires
        k.sched_wf(Some(tid)),
        left(k, n, tid, state),
        n.threads[tid as int].pending is Some <==> state is BlockedSend,
        match state {
            ThreadState::Ready => {
                &&& n.sched.ready == k.sched.ready.push((tid, n.threads[tid as int].priority))
                &&& n.endpoints == k.endpoints
            },
            ThreadState::Running => false,
            ThreadState::BlockedSend(ep) => {
                let endpoint = k.endpoints[ep as int];
                &&& n.sched.ready == k.sched.ready
                &&& k.has_endpoint(ep)
                &&& endpoint.receivers.len() == 0
                &&& n.endpoints == k.endpoints.update(
                    ep as int,
                    EndpointView { senders: endpoint.senders.push(tid), ..endpoint },
                )
                &&& holds_message(n.threads[tid as int])
            },
            ThreadState::BlockedRecv(ep) => {
                let endpoint = k.endpoints[ep as int];
                &&& n.sched.ready == k.sched.ready
                &&& k.has_endpoint(ep)
                &&& endpoint.senders.len() == 0
                &&& n.endpoints == k.endpoints.update(
                    ep as int,
                    EndpointView { receivers: endpoint.receivers.push(tid), ..endpoint },
                )
                &&& n.threads[tid as int].current_op() is Some
                &&& n.threads[tid as int].current_op()->0 is Recv
                &&& n.has_task(n.threads[tid as int].task)
            },
            ThreadState::Exited => n.sched.ready == k.sched.ready && n.endpoints == k.endpoints,
        },
    ensures
        n.sched_wf(None),
{
    assert(k.thread_wf(tid, Some(tid)));
    assert forall|i: int| 0 <= i < k.sched.ready.len() implies k.sched.ready[i].0 != tid by {
        assert(k.ready_wf(i));
    }
    assert forall|u: ThreadId| n.has_thread(u) implies #[trigger] n.thread_wf(u, None) by {
        assert(k.thread_wf(u, Some(tid)));
        if u != tid {
            assert(n.threads[u as int] == k.threads[u as int]);
            if k.queued(u) {
                let i = choose|i: int|
                    0 <= i < k.sched.ready.len() && (#[trigger] k.sched.ready[i]).0 == u;
                assert(n.sched.ready[i].0 == u);
            }
            match k.threads[u as int].state {
                ThreadState::BlockedSend(e) => {
                    let q = k.endpoints[e as int].senders;
                    let i = choose|i: int| 0 <= i < q.len() && q[i] == u;
                    assert(n.endpoints[e as int].senders[i] == u);
                },
                ThreadState::BlockedRecv(e) => {
                    let q = k.endpoints[e as int].receivers;
                    let i = choose|i: int| 0 <= i < q.len() && q[i] == u;
                    assert(n.endpoints[e as int].receivers[i] == u);
                },
                _ => {},
            }
        } else {
            match state {
                ThreadState::Ready => {
                    assert(n.sched.ready[k.sched.ready.len() as int].0 == tid);
                },
                ThreadState::BlockedSend(e) => {
                    assert(n.endpoints[e as int].senders[k.endpoints[e as int].senders.len() as int]
                        == tid);
                },
                ThreadState::BlockedRecv(e) => {
                    assert(n.endpoints[e as int].receivers[k.endpoints[e as int].receivers.len() as int]
                        == tid);
                },
                _ => {},
            }
        }
    }
    assert forall|i: int| 0 <= i < n.sched.ready.len() implies #[trigger] n.ready_wf(i) by {
        if i < k.sched.ready.len() {
            assert(k.ready_wf(i));
            assert(n.threads[k.sched.ready[i].0 as int] == k.threads[k.sched.ready[i].0 as int]);
        }
    }
    assert forall|i: int, j: int| 0 <= i < j < n.sched.ready.len() implies (
    #[trigger] n.sched.ready[i]).0 != (#[trigger] n.sched.ready[j]).0 by {
        if j < k.sched.ready.len() {
            assert(k.sched.ready[i].0 != k.sched.ready[j].0);
        }
    }
    assert forall|ep: EndpointId| n.has_endpoint(ep) implies #[trigger] n.endpoint_wf(ep) by {
        assert(k.endpoint_wf(ep));
        let was = k.endpoints[ep as int];
        let is = n.endpoints[ep as int];
        assert forall|i: int| 0 <= i < was.senders.len() implies was.senders[i] != tid by {
            assert(k.threads[was.senders[i] as int].state == ThreadState::BlockedSend(ep));
        }
        assert forall|i: int| 0 <= i < was.receivers.len() implies was.receivers[i] != tid by {
            assert(k.threads[was.receivers[i] as int].state == ThreadState::BlockedRecv(ep));
        }
        assert forall|i: int| 0 <= i < is.senders.len() implies n.has_thread(
            #[trigger] is.senders[i],
        ) && n.threads[is.senders[i] as int].state == ThreadState::BlockedSend(ep) by {
            if i < was.senders.len() {
                assert(is.senders[i] == was.senders[i]);
                assert(k.threads[was.senders[i] as int].state == ThreadState::BlockedSend(ep));
            }
        }
        assert forall|i: int| 0 <= i < is.receivers.len() implies n.has_thread(
            #[trigger] is.receivers[i],
        ) && n.threads[is.receivers[i] as int].state == ThreadState::BlockedRecv(ep) by {
            if i < was.receivers.len() {
                assert(is.receivers[i] == was.receivers[i]);
                assert(k.threads[was.receivers[i] as int].state == ThreadState::BlockedRecv(ep));
            }
        }
    }
}

/// Whether `partner` was first in a queue of `ep`, and has left it.
pub open spec fn popped(k: KernelView, n: KernelView, partner: ThreadId, ep: EndpointId) -> bool {
    let endpoint = k.endpoints[ep as int];
    ||| {
        &&& endpoint.senders.len() > 0
        &&& endpoint.senders[0] == partner
        &&& n.endpoints == k.endpoints.update(
            ep as int,
            EndpointView { senders: endpoint.senders.drop_first(), ..endpoint },
        )
    }
    ||| {
        &&& endpoint.receivers.len() > 0
        &&& endpoint.receivers[0] == partner
        &&& n.endpoints == k.endpoints.update(
            ep as int,
            EndpointView { receivers: endpoint.receivers.drop_first(), ..endpoint },
        )
    }
}

/// Whether `n` differs from `k` only in that `partner`, who was first in a queue
/// of `ep`, is ready and queued, while the running thread stays running.
pub open spec fn paired(
    k: KernelView,
    n: KernelView,
    tid: ThreadId,
    partner: ThreadId,
    ep: EndpointId,
) -> bool {
    let (was, is) = (k.threads[tid as int], n.threads[tid as int]);
    let (was_p, is_p) = (k.threads[partner as int], n.threads[partner as int]);
    &&& n.threads.len() == k.threads.len()
    &&& forall|u: ThreadId|
        u != tid && u != partner && k.has_thread(u) ==> n.threads[u as int] == (
        #[trigger] k.threads[u as int])
    &&& tid != partner
    &&& k.has_thread(partner)
    &&& is.id == was.id
    &&& is.state is Running
    &&& is.pending == was.pending
    &&& is.pc <= is.program.len()
    &&& is.dispatches <= n.clock
    &&& is.cycles <= n.clock * 0xffff_ffff
    &&& is_p.id == was_p.id
    &&& is_p.state is Ready
    &&& is_p.pending is None
    &&& is_p.pc <= is_p.program.len()
    &&& is_p.dispatches == was_p.dispatches
    &&& is_p.cycles == was_p.cycles
    &&& n.clock == k.clock
    &&& n.sched.switches == k.sched.switches
    &&& n.sched.ready == k.sched.ready.push((partner, is_p.priority))
    &&& n.tasks.len() == k.tasks.len()
    &&& k.has_endpoint(ep)
    &&& popped(k, n, partner, ep)
}

/// A rendezvous keeps threads and queues in agreement.
pub proof fn lemma_paired_sched(
    k: KernelView,
    n: KernelView,
    tid: ThreadId,
    partner: ThreadId,
    ep: EndpointId,
)
    requires
        k.sched_wf(Some(tid)),
        paired(k, n, tid, partner, ep),
    ensures
        n.sched_wf(Some(tid)),
{
    assert(k.thread_wf(tid, Some(tid)));
    assert(k.thread_wf(partner, Some(tid)));
    assert(k.endpoint_wf(ep));
    let endpoint = k.endpoints[ep as int];
    assert forall|i: int| 0 <= i < k.sched.ready.len() implies k.sched.ready[i].0 != tid
        && k.sched.ready[i].0 != partner by {
        assert(k.ready_wf(i));
    }
    assert forall|u: ThreadId| n.has_thread(u) implies #[trigger] n.thread_wf(u, Some(tid)) by {
        assert(k.thread_wf(u, Some(tid)));
        if u == partner {
            assert(n.sched.ready[k.sched.ready.len() as int].0 == partner);
        } else if u != tid {
            assert(n.threads[u as int] == k.threads[u as int]);
            if k.queued(u) {
                let i = choose|i: int|
                    0 <= i < k.sched.ready.len() && (#[trigger] k.sched.ready[i]).0 == u;
                assert(n.sched.ready[i].0 == u);
            }
            match k.threads[u as int].state {
                ThreadState::BlockedSend(e) => {
                    let q = k.endpoints[e as int].senders;
                    let i = choose|i: int| 0 <= i < q.len() && q[i] == u;
                    let r = n.endpoints[e as int].senders;
                    if r.len() < q.len() {
                        assert(r[i - 1] == u);
                    } else {
                        assert(r[i] == u);
                    }
                },
                ThreadState::BlockedRecv(e) => {
                    let q = k.endpoints[e as int].receivers;
                    let i = choose|i: int| 0 <= i < q.len() && q[i] == u;
                    let r = n.endpoints[e as int].receivers;
                    if r.len() < q.len() {
                        assert(r[i - 1] == u);
                    } else {
                        assert(r[i] == u);
                    }
                },
                _ => {},
            }
        }
    }
    assert forall|i: int| 0 <= i < n.sched.ready.len() implies #[trigger] n.ready_wf(i) by {
        if i < k.sched.ready.len() {
            assert(k.ready_wf(i));
            assert(n.threads[k.sched.ready[i].0 as int] == k.threads[k.sched.ready[i].0 as int]);
        }
    }
    assert forall|i: int, j: int| 0 <= i < j < n.sched.ready.len() implies (
    #[trigger] n.sched.ready[i]).0 != (#[trigger] n.sched.ready[j]).0 by {
        if j < k.sched.ready.len() {
            assert(k.sched.ready[i].0 != k.sched.ready[j].0);
        }
    }
    assert forall|e: EndpointId| n.has_endpoint(e) implies #[trigger] n.endpoint_wf(e) by {
        assert(k.endpoint_wf(e));
        let was = k.endpoints[e as int];
        let is = n.endpoints[e as int];
        let shift_s: int = was.senders.len() - is.senders.len();
        let shift_r: int = was.receivers.len() - is.receivers.len();
        assert forall|i: int| 0 <= i < is.senders.len() implies n.has_thread(
            #[trigger] is.senders[i],
        ) && n.threads[is.senders[i] as int].state == ThreadState::BlockedSend(e) by {
            assert(is.senders[i] == was.senders[i + shift_s]);
            let u = was.senders[i + shift_s];
            assert(k.threads[u as int].state == ThreadState::BlockedSend(e));
            assert(u != tid);
            if u == partner {
                assert(e == ep);
                assert(was.senders[0] != was.senders[i + shift_s]);
            }
        }
        assert forall|i: int| 0 <= i < is.receivers.len() implies n.has_thread(
            #[trigger] is.receivers[i],
        ) && n.threads[is.receivers[i] as int].state == ThreadState::BlockedRecv(e) by {
            assert(is.receivers[i] == was.receivers[i + shift_r]);
            let u = was.receivers[i + shift_r];
            assert(k.threads[u as int].state == ThreadState::BlockedRecv(e));
            assert(u != tid);
            if u == partner {
                assert(e == ep);
                assert(was.receivers[0] != was.receivers[i + shift_r]);
            }
        }
        assert forall|i: int, j: int| 0 <= i < j < is.senders.len() implies (
        #[trigger] is.senders[i]) != (#[trigger] is.senders[j]) by {
            assert(was.senders[i + shift_s] != was.senders[j + shift_s]);
        }
        assert forall|i: int, j: int| 0 <= i < j < is.receivers.len() implies (
        #[trigger] is.receivers[i]) != (#[trigger] is.receivers[j]) by {
            assert(was.receivers[i + shift_r] != was.receivers[j + shift_r]);
        }
    }
}

// -- authority transitions ----------------------------------------------------

/// Whether every capability of `n` was in the same place in `k`, except that
/// what is at `dst` was at `src`, and has left there.
pub open spec fn moved(
    k: KernelView,
    k_hand: Option<CapEntry>,
    n: KernelView,
    n_hand: Option<CapEntry>,
    src: Place,
    dst: Place,
) -> bool {
    forall|p: Place|
        (#[trigger] n.at(n_hand, p)) is Some ==> if p == dst {
            n.at(n_hand, p) == k.at(k_hand, src)
        } else {
            p != src && n.at(n_hand, p) == k.at(k_hand, p)
        }
}

/// Moving a capability keeps identities unique and creates no authority.
pub proof fn lemma_moved(
    k: KernelView,
    k_hand: Option<CapEntry>,
    n: KernelView,
    n_hand: Option<CapEntry>,
    src: Place,
    dst: Place,
)
    requires
        k.unique(k_hand),
        n.next_cap_id >= k.next_cap_id,
        moved(k, k_hand, n, n_hand, src, dst),
    ensures
        n.unique(n_hand),
        forall|e: CapEntry| #[trigger] n.live(n_hand, e) ==> k.live(k_hand, e),
{
    assert forall|p: Place, q: Place|
        (#[trigger] n.at(n_hand, p)) is Some && (#[trigger] n.at(n_hand, q)) is Some && n.at(
            n_hand,
            p,
        )->0.id == n.at(n_hand, q)->0.id implies p == q by {
        let from_p = if p == dst {
            src
        } else {
            p
        };
        let from_q = if q == dst {
            src
        } else {
            q
        };
        assert(k.at(k_hand, from_p) == n.at(n_hand, p));
        assert(k.at(k_hand, from_q) == n.at(n_hand, q));
        assert(from_p == from_q);
    }
    assert forall|p: Place| (#[trigger] n.at(n_hand, p)) is Some implies n.at(n_hand, p)->0.id
        < n.next_cap_id by {
        let from_p = if p == dst {
            src
        } else {
            p
        };
        assert(k.at(k_hand, from_p) is Some);
    }
    assert forall|e: CapEntry| #[trigger] n.live(n_hand, e) implies k.live(k_hand, e) by {
        let p = choose|p: Place| #[trigger] n.at(n_hand, p) == Some(e);
        let from_p = if p == dst {
            src
        } else {
            p
        };
        assert(k.at(k_hand, from_p) == Some(e));
    }
}

/// Sending takes the transferred capability out of the sender's table into the
/// kernel's hand, and a reply destroys the reply capability.
pub proof fn lemma_departed_caps(
    k: KernelView,
    tid: ThreadId,
    ep_slot: CapSlot,
    msg: MsgView,
    consume_reply: bool,
)
    requires
        k.caps_wf(None),
        k.has_thread(tid),
        k.has_task(k.threads[tid as int].task),
        k.transfer_refusal(k.threads[tid as int].task, msg.transfer) is None,
    ensures
        ({
            let n = k.departed(tid, ep_slot, msg.transfer, consume_reply);
            let hand = k.resolved_msg(k.threads[tid as int].task, msg).cap;
            &&& n.caps_wf(hand)
            &&& forall|e: CapEntry| #[trigger] n.live(hand, e) ==> k.live(None, e)
        }),
{
    let task = k.threads[tid as int].task;
    let n = k.departed(tid, ep_slot, msg.transfer, consume_reply);
    let hand = k.resolved_msg(task, msg).cap;
    let src = match msg.transfer {
        None => Place::Hand,
        Some(slot) => Place::Slot { task, slot },
    };
    assert forall|p: Place| (#[trigger] n.at(hand, p)) is Some implies if p == Place::Hand {
        n.at(hand, p) == k.at(None, src)
    } else {
        p != src && n.at(hand, p) == k.at(None, p)
    } by {
        match p {
            Place::Slot { task: t, slot: s } => {
                if t != task {
                    assert(n.tasks[t as int] == k.tasks[t as int]);
                }
            },
            Place::Flight { sender } => {
                assert(n.threads[sender as int].pending == k.threads[sender as int].pending);
            },
            Place::Hand => {},
        }
    }
    lemma_moved(k, None, n, hand, src, Place::Hand);
    assert forall|t: TaskId| n.has_task(t) implies (#[trigger] n.tasks[t as int]).id == t
        && n.table(t).wf() by {
        assert(k.tasks[t as int].id == t);
        assert(k.table(t).wf());
    }
}

/// Delivery puts what the kernel has in hand into the receiver's table.
pub proof fn lemma_arrived_caps(
    k: KernelView,
    sender: ThreadId,
    receiver: ThreadId,
    entry: CapEntry,
)
    requires
        k.caps_wf(Some(entry)),
        k.has_thread(sender),
        k.has_thread(receiver),
        k.has_task(k.threads[receiver as int].task),
        k.table(k.threads[receiver as int].task).next < u32::MAX,
    ensures
        ({
            let n = k.arrived(sender, receiver, entry);
            &&& n.caps_wf(None)
            &&& forall|e: CapEntry| #[trigger] n.live(None, e) ==> k.live(Some(entry), e)
        }),
{
    let to = k.threads[receiver as int].task;
    let n = k.arrived(sender, receiver, entry);
    let slot = k.table(to).next_slot();
    let dst = Place::Slot { task: to, slot };
    assert(k.tasks[to as int].id == to && k.table(to).wf());
    assert forall|p: Place| (#[trigger] n.at(None, p)) is Some implies if p == dst {
        n.at(None, p) == k.at(Some(entry), Place::Hand)
    } else {
        p != Place::Hand && n.at(None, p) == k.at(Some(entry), p)
    } by {
        match p {
            Place::Slot { task: t, slot: s } => {
                if t != to {
                    assert(n.tasks[t as int] == k.tasks[t as int]);
                }
            },
            Place::Flight { sender: a } => {
                assert(n.threads[a as int].pending == k.threads[a as int].pending);
            },
            Place::Hand => {},
        }
    }
    lemma_moved(k, Some(entry), n, None, Place::Hand, dst);
    assert forall|t: TaskId| n.has_task(t) implies (#[trigger] n.tasks[t as int]).id == t
        && n.table(t).wf() by {
        assert(k.tasks[t as int].id == t);
        assert(k.table(t).wf());
    }
}

/// A sender that parks keeps what the kernel has in hand with its message.
pub proof fn lemma_parked_caps(
    k: KernelView,
    n: KernelView,
    tid: ThreadId,
    msg: PendingView,
)
    requires
        k.caps_wf(msg.cap),
        k.has_thread(tid),
        k.threads[tid as int].pending is None,
        n.tasks == k.tasks,
        n.threads.len() == k.threads.len(),
        forall|u: ThreadId|
            u != tid && k.has_thread(u) ==> (#[trigger] n.threads[u as int]).pending
                == k.threads[u as int].pending,
        n.threads[tid as int].pending == Some(msg),
        n.next_cap_id == k.next_cap_id,
        n.cdt == k.cdt,
    ensures
        n.caps_wf(None),
        forall|e: CapEntry| #[trigger] n.live(None, e) ==> k.live(msg.cap, e),
{
    let dst = Place::Flight { sender: tid };
    assert forall|p: Place| (#[trigger] n.at(None, p)) is Some implies if p == dst {
        n.at(None, p) == k.at(msg.cap, Place::Hand)
    } else {
        p != Place::Hand && n.at(None, p) == k.at(msg.cap, p)
    } by {
        match p {
            Place::Slot { task: t, slot: s } => {
                assert(n.held(t, s) == k.held(t, s));
            },
            Place::Flight { sender: a } => {
                if a != tid && k.has_thread(a) {
                    assert(n.threads[a as int].pending == k.threads[a as int].pending);
                }
            },
            Place::Hand => {},
        }
    }
    lemma_moved(k, msg.cap, n, None, Place::Hand, dst);
    assert forall|t: TaskId| n.has_task(t) implies (#[trigger] n.tasks[t as int]).id == t
        && n.table(t).wf() by {
        assert(k.tasks[t as int].id == t);
    }
}

/// A parked sender that is relieved leaves its capability in the kernel's hand.
pub proof fn lemma_relieved_caps(k: KernelView, n: KernelView, sender: ThreadId)
    requires
        k.caps_wf(None),
        k.has_thread(sender),
        k.threads[sender as int].pending is Some,
        n.tasks == k.tasks,
        n.threads == k.threads.update(sender as int, k.threads[sender as int].relieved()),
        n.next_cap_id == k.next_cap_id,
        n.cdt == k.cdt,
    ensures
        n.caps_wf(k.threads[sender as int].pending->0.cap),
        forall|e: CapEntry| #[trigger]
            n.live(k.threads[sender as int].pending->0.cap, e) ==> k.live(None, e),
{
    let hand = k.threads[sender as int].pending->0.cap;
    let src = Place::Flight { sender };
    assert forall|p: Place| (#[trigger] n.at(hand, p)) is Some implies if p == Place::Hand {
        n.at(hand, p) == k.at(None, src)
    } else {
        p != src && n.at(hand, p) == k.at(None, p)
    } by {
        match p {
            Place::Slot { task: t, slot: s } => {
                assert(n.held(t, s) == k.held(t, s));
            },
            Place::Flight { sender: a } => {},
            Place::Hand => {},
        }
    }
    lemma_moved(k, None, n, hand, src, Place::Hand);
    assert forall|t: TaskId| n.has_task(t) implies (#[trigger] n.tasks[t as int]).id == t
        && n.table(t).wf() by {
        assert(k.tasks[t as int].id == t);
    }
}

/// What leaves tables, messages in flight and the derivation tree alone keeps
/// all authority accounted for.
pub proof fn lemma_same_caps(k: KernelView, n: KernelView, hand: Option<CapEntry>)
    requires
        k.caps_wf(hand),
        n.tasks.len() == k.tasks.len(),
        forall|t: TaskId|
            k.has_task(t) ==> (#[trigger] n.tasks[t as int]).caps == k.tasks[t as int].caps
                && n.tasks[t as int].id == k.tasks[t as int].id,
        n.threads.len() == k.threads.len(),
        forall|u: ThreadId|
            k.has_thread(u) ==> (#[trigger] n.threads[u as int]).pending
                == k.threads[u as int].pending,
        n.next_cap_id == k.next_cap_id,
        n.cdt == k.cdt,
    ensures
        n.caps_wf(hand),
        forall|e: CapEntry| #[trigger] n.live(hand, e) ==> k.live(hand, e),
{
    assert forall|p: Place| (#[trigger] n.at(hand, p)) is Some implies if p == Place::Hand {
        n.at(hand, p) == k.at(hand, Place::Hand)
    } else {
        p != Place::Hand && n.at(hand, p) == k.at(hand, p)
    } by {
        match p {
            Place::Slot { task: t, slot: s } => {
                if k.has_task(t) {
                    assert(n.tasks[t as int].caps == k.tasks[t as int].caps);
                }
            },
            Place::Flight { sender: a } => {
                if k.has_thread(a) {
                    assert(n.threads[a as int].pending == k.threads[a as int].pending);
                }
            },
            Place::Hand => {},
        }
    }
    lemma_moved(k, hand, n, hand, Place::Hand, Place::Hand);
    assert forall|t: TaskId| n.has_task(t) implies (#[trigger] n.tasks[t as int]).id == t
        && n.table(t).wf() by {
        assert(n.tasks[t as int].caps == k.tasks[t as int].caps);
        assert(k.tasks[t as int].id == t);
    }
}

// -- whole steps --------------------------------------------------------------

/// What no step of any thread changes: which objects there are, and what each
/// thread is, owns and runs.
pub open spec fn same_shape(k: KernelView, n: KernelView) -> bool {
    &&& n.tasks.len() == k.tasks.len()
    &&& forall|t: TaskId|
        k.has_task(t) ==> {
            &&& (#[trigger] n.tasks[t as int]).id == k.tasks[t as int].id
            &&& n.tasks[t as int].name == k.tasks[t as int].name
            &&& n.tasks[t as int].threads == k.tasks[t as int].threads
        }
    &&& n.threads.len() == k.threads.len()
    &&& forall|u: ThreadId|
        k.has_thread(u) ==> {
            &&& (#[trigger] n.threads[u as int]).id == k.threads[u as int].id
            &&& n.threads[u as int].task == k.threads[u as int].task
            &&& n.threads[u as int].name == k.threads[u as int].name
            &&& n.threads[u as int].program == k.threads[u as int].program
            &&& n.threads[u as int].priority == k.threads[u as int].priority
        }
    &&& n.endpoints.len() == k.endpoints.len()
    &&& n.regions.len() == k.regions.len()
    &&& forall|r: int|
        0 <= r < k.regions.len() ==> {
            &&& (#[trigger] n.regions[r]).id == k.regions[r].id
            &&& n.regions[r].owner == k.regions[r].owner
            &&& n.regions[r].data.len() == k.regions[r].data.len()
        }
    &&& n.sched.policy == k.sched.policy
    &&& n.rng == k.rng
    &&& n.next_cap_id == k.next_cap_id
    &&& n.cdt == k.cdt
}

/// Keeping the shape keeps the numbering and the listings.
pub proof fn lemma_same_shape_listed(k: KernelView, n: KernelView)
    requires
        k.sizes_wf(),
        k.listed_wf(),
        same_shape(k, n),
    ensures
        n.sizes_wf(),
        n.listed_wf(),
{
    assert forall|t: TaskId, i: int|
        #![trigger n.tasks[t as int].threads[i]]
        n.has_task(t) && 0 <= i < n.tasks[t as int].threads.len() implies {
        &&& n.has_thread(n.tasks[t as int].threads[i])
        &&& n.threads[n.tasks[t as int].threads[i] as int].task == t
    } by {
        assert(n.tasks[t as int].threads == k.tasks[t as int].threads);
        let u = k.tasks[t as int].threads[i];
        assert(k.has_thread(u));
        assert(n.threads[u as int].task == k.threads[u as int].task);
    }
    assert forall|r: int| 0 <= r < n.regions.len() implies (#[trigger] n.regions[r]).id == r by {
        assert(k.regions[r].id == r);
    }
}

/// Keeping the shape is transitive.
pub proof fn lemma_same_shape_transitive(a: KernelView, b: KernelView, c: KernelView)
    requires
        same_shape(a, b),
        same_shape(b, c),
    ensures
        same_shape(a, c),
{
    assert forall|t: TaskId| a.has_task(t) implies {
        &&& (#[trigger] c.tasks[t as int]).id == a.tasks[t as int].id
        &&& c.tasks[t as int].name == a.tasks[t as int].name
        &&& c.tasks[t as int].threads == a.tasks[t as int].threads
    } by {
        assert(b.tasks[t as int].id == a.tasks[t as int].id);
    }
    assert forall|u: ThreadId| a.has_thread(u) implies {
        &&& (#[trigger] c.threads[u as int]).id == a.threads[u as int].id
        &&& c.threads[u as int].task == a.threads[u as int].task
        &&& c.threads[u as int].name == a.threads[u as int].name
        &&& c.threads[u as int].program == a.threads[u as int].program
        &&& c.threads[u as int].priority == a.threads[u as int].priority
    } by {
        assert(b.threads[u as int].id == a.threads[u as int].id);
    }
    assert forall|r: int| 0 <= r < a.regions.len() implies {
        &&& (#[trigger] c.regions[r]).id == a.regions[r].id
        &&& c.regions[r].owner == a.regions[r].owner
        &&& c.regions[r].data.len() == a.regions[r].data.len()
    } by {
        assert(b.regions[r].id == a.regions[r].id);
    }
}

/// No table ever hands a slot out twice: every slot that was dead stays dead.
pub open spec fn tables_grow(k: KernelView, n: KernelView) -> bool {
    &&& k.tasks.len() <= n.tasks.len()
    &&& forall|t: TaskId| #[trigger] k.has_task(t) ==> k.table(t).grows_into(n.table(t))
}

/// Growing is transitive.
pub proof fn lemma_tables_grow_transitive(a: KernelView, b: KernelView, c: KernelView)
    requires
        tables_grow(a, b),
        tables_grow(b, c),
    ensures
        tables_grow(a, c),
{
    assert forall|t: TaskId| #[trigger] a.has_task(t) implies a.table(t).grows_into(
        c.table(t),
    ) by {
        assert(b.has_task(t));
        crate::capability::law_growth_is_transitive(a.table(t), b.table(t), c.table(t));
    }
}

/// What a step promises: the shape stays, no authority appears, and the
/// invariant holds with the thread either still running or gone from the
/// processor.
pub open spec fn stepped(k: KernelView, n: KernelView, tid: ThreadId) -> bool {
    &&& same_shape(k, n)
    &&& tables_grow(k, n)
    &&& n.clock == k.clock
    &&& forall|e: CapEntry| #[trigger] n.live(None, e) ==> k.live(None, e)
    &&& n.settled(tid)
}

/// A step that only moves its own thread on, writes the trace, or changes
/// region bytes.
proof fn lemma_quiet_step(k: KernelView, n: KernelView, tid: ThreadId)
    requires
        k.busy_wf(Some(tid), 1),
        quiet(k, n, tid),
        same_shape(k, n),
        n.tasks == k.tasks,
    ensures
        stepped(k, n, tid),
{
    lemma_quiet_sched(k, n, tid);
    lemma_same_shape_listed(k, n);
    assert forall|u: ThreadId| k.has_thread(u) implies (#[trigger] n.threads[u as int]).pending
        == k.threads[u as int].pending by {
        if u != tid {
            assert(n.threads[u as int] == k.threads[u as int]);
        }
    }
    lemma_same_caps(k, n, None);
    assert forall|t: TaskId| n.has_task(t) implies (#[trigger] n.tasks[t as int]).caps.next
        <= n.next_cap_id + n.clock by {
        assert(k.tasks[t as int].caps.next + 1 <= k.next_cap_id + k.clock);
    }
}

/// A refused syscall.
proof fn lemma_deny_step(k: KernelView, tid: ThreadId, syscall: Seq<char>, err: KernelError)
    requires
        k.busy_wf(Some(tid), 1),
        k.threads[tid as int].current_op() is Some,
    ensures
        stepped(k, k.deny(tid, syscall, err).advance(tid), tid),
{
    let n = k.deny(tid, syscall, err).advance(tid);
    assert(k.thread_wf(tid, Some(tid)));
    lemma_quiet_step(k, n, tid);
}

/// The end of a thread.
proof fn lemma_exit_step(k: KernelView, tid: ThreadId)
    requires
        k.busy_wf(Some(tid), 1),
    ensures
        stepped(k, k.exit(tid), tid),
{
    let n = k.exit(tid);
    assert(k.thread_wf(tid, Some(tid)));
    lemma_left_sched(k, n, tid, ThreadState::Exited);
    lemma_same_shape_listed(k, n);
    lemma_same_caps(k, n, None);
    assert forall|t: TaskId| n.has_task(t) implies (#[trigger] n.tasks[t as int]).caps.next
        <= n.next_cap_id + n.clock by {
        assert(k.tasks[t as int].caps.next + 1 <= k.next_cap_id + k.clock);
    }
}

/// A rendezvous in which `tid` takes part and `partner` was parked.
proof fn lemma_deliver_step(
    k: KernelView,
    m: KernelView,
    tid: ThreadId,
    sender: ThreadId,
    receiver: ThreadId,
    partner: ThreadId,
    ep: EndpointId,
    msg: PendingView,
)
    requires
        k.busy_wf_in_hand(Some(tid)),
        m.caps_wf(msg.cap),
        k.threads[tid as int].current_op() is Some,
        k.has_endpoint(ep),
        k.has_thread(partner),
        k.threads[partner as int].current_op() is Some,
        tid != partner,
        (sender == tid && receiver == partner) || (sender == partner && receiver == tid),
        k.has_task(k.threads[receiver as int].task),
        msg.cap is Some ==> k.table(k.threads[receiver as int].task).next < u32::MAX,
        m.tasks == k.tasks,
        m.regions == k.regions,
        m.sched == k.sched,
        m.clock == k.clock,
        m.next_cap_id == k.next_cap_id,
        m.cdt == k.cdt,
        m.rng == k.rng,
        m.threads == k.threads.update(partner as int, k.threads[partner as int].relieved()),
        popped(k, m, partner, ep),
    ensures
        ({
            let n = m.deliver(sender, receiver, ep, msg, partner).advance(tid);
            &&& same_shape(k, n)
            &&& tables_grow(k, n)
            &&& n.clock == k.clock
            &&& n.threads[tid as int].state is Running
            &&& n.busy_wf(Some(tid), 0)
            &&& forall|e: CapEntry| #[trigger] n.live(None, e) ==> m.live(msg.cap, e)
        }),
{
    let n = m.deliver(sender, receiver, ep, msg, partner).advance(tid);
    assert(k.thread_wf(tid, Some(tid)));
    assert(k.thread_wf(partner, Some(tid)));
    assert(k.endpoint_wf(ep));
    let met = m.emit(
        EventView::Rendezvous {
            sender,
            receiver,
            endpoint: ep,
            label: msg.label,
            bytes: msg.bytes.len(),
        },
    );
    lemma_same_caps(m, met, msg.cap);
    let carried = match msg.cap {
        None => met,
        Some(entry) => met.arrived(sender, receiver, entry),
    };
    if msg.cap is Some {
        lemma_arrived_caps(met, sender, receiver, msg.cap->0);
    }
    assert(same_shape(k, n)) by {
        assert forall|u: ThreadId| k.has_thread(u) implies {
            &&& (#[trigger] n.threads[u as int]).id == k.threads[u as int].id
            &&& n.threads[u as int].task == k.threads[u as int].task
            &&& n.threads[u as int].name == k.threads[u as int].name
            &&& n.threads[u as int].program == k.threads[u as int].program
            &&& n.threads[u as int].priority == k.threads[u as int].priority
        } by {}
    }
    lemma_same_shape_listed(k, n);
    assert(paired(k, n, tid, partner, ep));
    lemma_paired_sched(k, n, tid, partner, ep);
    lemma_same_caps(carried, n, None);
    assert forall|t: TaskId| #[trigger] k.has_task(t) implies k.table(t).grows_into(
        n.table(t),
    ) by {
        assert(k.table(t).next <= n.table(t).next);
    }
    assert forall|t: TaskId| n.has_task(t) implies (#[trigger] n.tasks[t as int]).caps.next
        <= n.next_cap_id + n.clock by {
        assert(k.tasks[t as int].caps.next + 1 <= k.next_cap_id + k.clock);
    }
}

impl KernelView {
    /// The invariant in the middle of a step, apart from what the kernel has in
    /// hand.
    pub open spec fn busy_wf_in_hand(self, running: Option<ThreadId>) -> bool {
        &&& self.sizes_wf()
        &&& self.sched_wf(running)
        &&& self.slots_counted(1)
        &&& self.listed_wf()
    }
}

/// A message meets the endpoint.
proof fn lemma_post_step(k: KernelView, tid: ThreadId, ep: EndpointId, msg: PendingView)
    requires
        k.busy_wf_in_hand(Some(tid)),
        k.caps_wf(msg.cap),
        k.has_endpoint(ep),
        k.post_safe(ep, msg),
        sends(k.threads[tid as int], msg.label, msg.bytes),
        may_travel(msg),
    ensures
        ({
            let n = k.post(tid, ep, msg);
            &&& same_shape(k, n)
            &&& tables_grow(k, n)
            &&& n.clock == k.clock
            &&& forall|e: CapEntry| #[trigger] n.live(None, e) ==> k.live(msg.cap, e)
            &&& n.settled(tid)
        }),
{
    let n = k.post(tid, ep, msg);
    let endpoint = k.endpoints[ep as int];
    assert(k.thread_wf(tid, Some(tid)));
    assert(k.endpoint_wf(ep));
    if endpoint.receivers.len() > 0 {
        let receiver = endpoint.receivers[0];
        assert(k.threads[receiver as int].state == ThreadState::BlockedRecv(ep));
        assert(k.thread_wf(receiver, Some(tid)));
        let m = k.with_endpoint(
            ep,
            EndpointView { receivers: endpoint.receivers.drop_first(), ..endpoint },
        );
        assert(m.threads =~= k.threads.update(
            receiver as int,
            k.threads[receiver as int].relieved(),
        ));
        lemma_same_caps(k, m, msg.cap);
        lemma_deliver_step(k, m, tid, tid, receiver, receiver, ep, msg);
    } else {
        lemma_left_sched(k, n, tid, ThreadState::BlockedSend(ep));
        lemma_same_shape_listed(k, n);
        lemma_parked_caps(k, n, tid, msg);
        assert forall|t: TaskId| n.has_task(t) implies (#[trigger] n.tasks[t as int]).caps.next
            <= n.next_cap_id + n.clock by {
            assert(k.tasks[t as int].caps.next + 1 <= k.next_cap_id + k.clock);
        }
    }
}

/// A receiver meets the endpoint.
proof fn lemma_accept_step(k: KernelView, tid: ThreadId, ep: EndpointId)
    requires
        k.busy_wf(Some(tid), 1),
        k.has_endpoint(ep),
        k.has_task(k.threads[tid as int].task),
        k.endpoints[ep as int].senders.len() > 0
            && k.threads[k.endpoints[ep as int].senders[0] as int].pending->0.cap is Some
            ==> k.table(k.threads[tid as int].task).next < u32::MAX,
        k.threads[tid as int].current_op() is Some,
        k.threads[tid as int].current_op()->0 is Recv,
    ensures
        stepped(k, k.accept(tid, ep), tid),
{
    let n = k.accept(tid, ep);
    let endpoint = k.endpoints[ep as int];
    assert(k.thread_wf(tid, Some(tid)));
    assert(k.endpoint_wf(ep));
    if endpoint.senders.len() > 0 {
        let sender = endpoint.senders[0];
        assert(k.threads[sender as int].state == ThreadState::BlockedSend(ep));
        assert(k.thread_wf(sender, Some(tid)));
        let msg = k.threads[sender as int].pending->0;
        let m = k.with_endpoint(
            ep,
            EndpointView { senders: endpoint.senders.drop_first(), ..endpoint },
        ).with_thread(sender, k.threads[sender as int].relieved());
        lemma_relieved_caps(k, m, sender);
        lemma_deliver_step(k, m, tid, sender, tid, sender, ep, msg);
    } else {
        lemma_left_sched(k, n, tid, ThreadState::BlockedRecv(ep));
        lemma_same_shape_listed(k, n);
        lemma_same_caps(k, n, None);
        assert forall|t: TaskId| n.has_task(t) implies (#[trigger] n.tasks[t as int]).caps.next
            <= n.next_cap_id + n.clock by {
            assert(k.tasks[t as int].caps.next + 1 <= k.next_cap_id + k.clock);
        }
    }
}

/// A send, or a reply.
proof fn lemma_send_step(
    k: KernelView,
    tid: ThreadId,
    ep_slot: CapSlot,
    msg: MsgView,
    consume_reply: bool,
)
    requires
        k.busy_wf(Some(tid), 1),
        k.send_safe(tid, ep_slot, msg),
        sends(k.threads[tid as int], msg.label, msg.bytes),
    ensures
        stepped(k, k.do_send(tid, ep_slot, msg, consume_reply), tid),
{
    let task = k.threads[tid as int].task;
    assert(k.thread_wf(tid, Some(tid)));
    match k.resolve(task, ep_slot, "endpoint", Rights::send()) {
        Err(e) => {
            lemma_deny_step(k, tid, "send"@, e);
        },
        Ok(object) => {
            match k.send_refusal(task, object, msg.transfer) {
                Some(e) => {
                    lemma_deny_step(k, tid, "send"@, e);
                },
                None => {
                    let m = k.departed(tid, ep_slot, msg.transfer, consume_reply);
                    let sent = k.resolved_msg(task, msg);
                    let ep = object.number();
                    let n = m.post(tid, ep, sent);
                    lemma_departed_caps(k, tid, ep_slot, msg, consume_reply);
                    assert(quiet(k, m, tid));
                    lemma_quiet_sched(k, m, tid);
                    assert(same_shape(k, m)) by {
                        assert forall|u: ThreadId| k.has_thread(u) implies {
                            &&& (#[trigger] m.threads[u as int]).id == k.threads[u as int].id
                            &&& m.threads[u as int].task == k.threads[u as int].task
                            &&& m.threads[u as int].name == k.threads[u as int].name
                            &&& m.threads[u as int].program == k.threads[u as int].program
                            &&& m.threads[u as int].priority == k.threads[u as int].priority
                        } by {}
                    }
                    lemma_same_shape_listed(k, m);
                    assert forall|t: TaskId| m.has_task(t) implies (
                    #[trigger] m.tasks[t as int]).caps.next + 1 <= m.next_cap_id + m.clock by {
                        assert(k.tasks[t as int].caps.next + 1 <= k.next_cap_id + k.clock);
                    }
                    assert(m.post_safe(ep, sent)) by {
                        if m.endpoints[ep as int].receivers.len() > 0 && sent.cap is Some {
                            let receiver = k.endpoints[ep as int].receivers[0];
                            assert(k.endpoint_wf(ep));
                            assert(k.has_thread(receiver));
                            assert(k.thread_wf(receiver, Some(tid)));
                            let to = k.threads[receiver as int].task;
                            assert(m.threads[receiver as int].task == to);
                            assert(m.table(to).next == k.table(to).next);
                        }
                    }
                    lemma_post_step(m, tid, ep, sent);
                    lemma_same_shape_transitive(k, m, n);
                    assert(tables_grow(k, m));
                    lemma_tables_grow_transitive(k, m, n);
                },
            }
        },
    }
}

/// Executing one op keeps the invariant and creates no authority.
pub proof fn lemma_step(k: KernelView, tid: ThreadId)
    requires
        k.busy_wf(Some(tid), 1),
        k.step_safe(tid),
        k.threads[tid as int].current_op() matches Some(OpView::Compute(cycles))
            ==> k.threads[tid as int].cycles + cycles <= k.clock * 0xffff_ffff,
    ensures
        stepped(k, k.step(tid), tid),
{
    let thread = k.threads[tid as int];
    let n = k.step(tid);
    assert(k.thread_wf(tid, Some(tid)));
    match thread.current_op() {
        None => {
            lemma_exit_step(k, tid);
        },
        Some(op) => {
            match op {
                OpView::Compute(cycles) => {
                    lemma_quiet_step(k, n, tid);
                },
                OpView::Read { mem, offset } => {
                    lemma_quiet_step(k, n, tid);
                },
                OpView::Write { mem, offset, value } => {
                    lemma_quiet_step(k, n, tid);
                },
                OpView::Send { ep, msg } => {
                    lemma_send_step(k, tid, ep, msg, false);
                },
                OpView::Reply { msg } => {
                    match thread.reply_to {
                        Some(slot) => {
                            lemma_send_step(k, tid, slot, msg, true);
                        },
                        None => {
                            lemma_deny_step(k, tid, "reply"@, KernelError::NoReplyCapability);
                        },
                    }
                },
                OpView::Recv { ep } => {
                    match k.reach_endpoint(thread.task, ep, Rights::recv()) {
                        Err(e) => {
                            lemma_deny_step(k, tid, "recv"@, e);
                        },
                        Ok(number) => {
                            lemma_accept_step(k, tid, number);
                        },
                    }
                },
                OpView::Exit => {
                    lemma_exit_step(k, tid);
                },
            }
        },
    }
}

// -- whole turns of the run loop ----------------------------------------------

/// Dispatching keeps the invariant and spares a tick for the step.
pub proof fn lemma_take_up(k: KernelView)
    requires
        k.busy_wf(None, 0),
        k.sched.ready.len() > 0,
    ensures
        k.has_thread(k.next_thread()),
        k.threads[k.next_thread() as int].state is Ready,
        k.take_up().busy_wf(Some(k.next_thread()), 1),
        same_shape(k, k.take_up()),
        tables_grow(k, k.take_up()),
        forall|e: CapEntry| #[trigger] k.take_up().live(None, e) ==> k.live(None, e),
        k.take_up().threads[k.next_thread() as int].current_op() matches Some(
            OpView::Compute(cycles),
        ) ==> k.take_up().threads[k.next_thread() as int].cycles + cycles <= k.take_up().clock
            * 0xffff_ffff,
{
    let n = k.take_up();
    let tid = k.next_thread();
    lemma_take_up_sched(k);
    assert(k.thread_wf(tid, None));
    lemma_same_shape_listed(k, n);
    lemma_same_caps(k, n, None);
    assert forall|t: TaskId| n.has_task(t) implies (#[trigger] n.tasks[t as int]).caps.next + 1
        <= n.next_cap_id + n.clock by {
        assert(k.tasks[t as int].caps.next + 0 <= k.next_cap_id + k.clock);
    }
    assert(k.clock * 0xffff_ffff + 0xffff_ffff == n.clock * 0xffff_ffff) by (nonlinear_arith)
        requires
            n.clock == k.clock + 1,
    ;
}

/// Putting a running thread back on the ready queue keeps the invariant.
pub proof fn lemma_put_back(k: KernelView, tid: ThreadId)
    requires
        k.settled(tid),
        k.has_thread(tid),
    ensures
        k.put_back(tid).busy_wf(None, 0),
        same_shape(k, k.put_back(tid)),
        tables_grow(k, k.put_back(tid)),
        forall|e: CapEntry| #[trigger] k.put_back(tid).live(None, e) ==> k.live(None, e),
{
    let n = k.put_back(tid);
    if k.threads[tid as int].state is Running {
        assert(k.thread_wf(tid, Some(tid)));
        lemma_left_sched(k, n, tid, ThreadState::Ready);
        lemma_same_shape_listed(k, n);
        lemma_same_caps(k, n, None);
        assert forall|t: TaskId| n.has_task(t) implies (#[trigger] n.tasks[t as int]).caps.next + 0
            <= n.next_cap_id + n.clock by {
            assert(k.tasks[t as int].caps.next + 0 <= k.next_cap_id + k.clock);
        }
    }
}

/// What a turn of the run loop, and so a whole run, promises.
pub open spec fn turned(k: KernelView, n: KernelView) -> bool {
    &&& n.wf()
    &&& same_shape(k, n)
    &&& tables_grow(k, n)
    &&& forall|e: CapEntry| #[trigger] n.live(None, e) ==> k.live(None, e)
}

/// One turn of the run loop keeps the invariant, creates no object and no
/// authority, and revives no dead slot.
pub proof fn lemma_tick(k: KernelView)
    requires
        k.wf(),
        k.sched.ready.len() > 0,
        k.tick_safe(),
    ensures
        k.has_thread(k.next_thread()),
        turned(k, k.tick()),
{
    reveal(KernelView::wf);
    let tid = k.next_thread();
    let up = k.take_up();
    let done = up.step(tid);
    lemma_take_up(k);
    lemma_step(up, tid);
    lemma_put_back(done, tid);
    lemma_same_shape_transitive(k, up, done);
    lemma_same_shape_transitive(k, done, k.tick());
    lemma_tables_grow_transitive(k, up, done);
    lemma_tables_grow_transitive(k, done, k.tick());
}

/// A run keeps the invariant, creates no object and no authority, and revives
/// no dead slot.
pub proof fn lemma_run(k: KernelView, max_ops: nat)
    requires
        k.wf(),
        k.run_safe(max_ops),
    ensures
        turned(k, k.run(max_ops)),
    decreases max_ops,
{
    if max_ops > 0 && k.sched.ready.len() > 0 {
        let n = k.tick();
        let end = n.run((max_ops - 1) as nat);
        lemma_tick(k);
        lemma_run(n, (max_ops - 1) as nat);
        lemma_same_shape_transitive(k, n, end);
        lemma_tables_grow_transitive(k, n, end);
    }
}

// -- privileged operations ----------------------------------------------------

/// The state at boot satisfies the invariant.
pub proof fn lemma_boot(seed: u64, policy: Policy)
    ensures
        KernelView::boot(seed, policy).wf(),
{
    reveal(KernelView::wf);
}

/// Creating a task keeps the invariant.
pub proof fn lemma_create_task(k: KernelView, name: Seq<char>)
    requires
        k.wf(),
        k.tasks.len() < u32::MAX,
    ensures
        k.create_task(name).wf(),
        tables_grow(k, k.create_task(name)),
        forall|e: CapEntry| #[trigger] k.create_task(name).live(None, e) ==> k.live(None, e),
{
    reveal(KernelView::wf);
    let n = k.create_task(name);
    assert(n.sched_wf(None)) by {
        assert forall|tid: ThreadId| n.has_thread(tid) implies #[trigger] n.thread_wf(
            tid,
            None,
        ) by {
            assert(k.thread_wf(tid, None));
            if k.queued(tid) {
                assert(n.queued(tid));
            }
        }
        assert forall|i: int| 0 <= i < n.sched.ready.len() implies #[trigger] n.ready_wf(i) by {
            assert(k.ready_wf(i));
        }
        assert forall|ep: EndpointId| n.has_endpoint(ep) implies #[trigger] n.endpoint_wf(ep) by {
            assert(k.endpoint_wf(ep));
        }
    }
    assert forall|t: TaskId| n.has_task(t) implies (#[trigger] n.tasks[t as int]).id == t
        && n.table(t).wf() by {
        if k.has_task(t) {
            assert(k.tasks[t as int].id == t);
        }
    }
    assert forall|t: TaskId| n.has_task(t) implies (#[trigger] n.tasks[t as int]).caps.next + 0
        <= n.next_cap_id + n.clock by {
        if k.has_task(t) {
            assert(k.tasks[t as int].caps.next + 0 <= k.next_cap_id + k.clock);
        }
    }
    assert(moved(k, None, n, None, Place::Hand, Place::Hand)) by {
        assert forall|p: Place| (#[trigger] n.at(None, p)) is Some implies p != Place::Hand
            && n.at(None, p) == k.at(None, p) by {
            match p {
                Place::Slot { task: t, slot: s } => {
                    if k.has_task(t) {
                        assert(n.tasks[t as int] == k.tasks[t as int]);
                    }
                },
                Place::Flight { sender: a } => {},
                Place::Hand => {},
            }
        }
    }
    lemma_moved(k, None, n, None, Place::Hand, Place::Hand);
    assert forall|t: TaskId, i: int|
        #![trigger n.tasks[t as int].threads[i]]
        n.has_task(t) && 0 <= i < n.tasks[t as int].threads.len() implies {
        &&& n.has_thread(n.tasks[t as int].threads[i])
        &&& n.threads[n.tasks[t as int].threads[i] as int].task == t
    } by {
        if k.has_task(t) {
            assert(n.tasks[t as int] == k.tasks[t as int]);
            assert(k.has_thread(k.tasks[t as int].threads[i]));
        }
    }
}

/// Creating an endpoint keeps the invariant.
pub proof fn lemma_create_endpoint(k: KernelView)
    requires
        k.wf(),
        k.endpoints.len() < u32::MAX,
    ensures
        k.create_endpoint().wf(),
        tables_grow(k, k.create_endpoint()),
        forall|e: CapEntry| #[trigger] k.create_endpoint().live(None, e) ==> k.live(None, e),
{
    reveal(KernelView::wf);
    let n = k.create_endpoint();
    assert(n.sched_wf(None)) by {
        assert forall|tid: ThreadId| n.has_thread(tid) implies #[trigger] n.thread_wf(
            tid,
            None,
        ) by {
            assert(k.thread_wf(tid, None));
            if k.queued(tid) {
                assert(n.queued(tid));
            }
        }
        assert forall|i: int| 0 <= i < n.sched.ready.len() implies #[trigger] n.ready_wf(i) by {
            assert(k.ready_wf(i));
        }
        assert forall|ep: EndpointId| n.has_endpoint(ep) implies #[trigger] n.endpoint_wf(ep) by {
            if k.has_endpoint(ep) {
                assert(k.endpoint_wf(ep));
                assert(n.endpoints[ep as int] == k.endpoints[ep as int]);
            }
        }
    }
    lemma_same_caps(k, n, None);
    assert(n.slots_counted(0)) by {
        assert forall|t: TaskId| n.has_task(t) implies (#[trigger] n.tasks[t as int]).caps.next + 0
            <= n.next_cap_id + n.clock by {
            assert(k.tasks[t as int].caps.next + 0 <= k.next_cap_id + k.clock);
        }
    }
    assert(n.listed_wf()) by {
        assert forall|t: TaskId, i: int|
            #![trigger n.tasks[t as int].threads[i]]
            n.has_task(t) && 0 <= i < n.tasks[t as int].threads.len() implies {
            &&& n.has_thread(n.tasks[t as int].threads[i])
            &&& n.threads[n.tasks[t as int].threads[i] as int].task == t
        } by {
            assert(k.has_thread(k.tasks[t as int].threads[i]));
        }
        assert forall|r: int| 0 <= r < n.regions.len() implies (#[trigger] n.regions[r]).id == r by {
            assert(k.regions[r].id == r);
        }
    }
}

/// Changing nothing but region contents, the generator or the trace keeps the
/// invariant.
pub proof fn lemma_same_but_regions(k: KernelView, n: KernelView)
    requires
        k.wf(),
        n.tasks == k.tasks,
        n.threads == k.threads,
        n.endpoints == k.endpoints,
        n.sched == k.sched,
        n.clock == k.clock,
        n.next_cap_id == k.next_cap_id,
        n.cdt == k.cdt,
        n.regions.len() <= u32::MAX,
        forall|r: int| 0 <= r < n.regions.len() ==> (#[trigger] n.regions[r]).id == r,
    ensures
        n.wf(),
        tables_grow(k, n),
        forall|e: CapEntry| #[trigger] n.live(None, e) ==> k.live(None, e),
{
    reveal(KernelView::wf);
    assert(n.sched_wf(None)) by {
        assert forall|tid: ThreadId| n.has_thread(tid) implies #[trigger] n.thread_wf(
            tid,
            None,
        ) by {
            assert(k.thread_wf(tid, None));
            if k.queued(tid) {
                assert(n.queued(tid));
            }
        }
        assert forall|i: int| 0 <= i < n.sched.ready.len() implies #[trigger] n.ready_wf(i) by {
            assert(k.ready_wf(i));
        }
        assert forall|ep: EndpointId| n.has_endpoint(ep) implies #[trigger] n.endpoint_wf(ep) by {
            assert(k.endpoint_wf(ep));
        }
    }
    lemma_same_caps(k, n, None);
    assert(n.slots_counted(0)) by {
        assert forall|t: TaskId| n.has_task(t) implies (#[trigger] n.tasks[t as int]).caps.next + 0
            <= n.next_cap_id + n.clock by {
            assert(k.tasks[t as int].caps.next + 0 <= k.next_cap_id + k.clock);
        }
    }
    assert(n.listed_wf()) by {
        assert forall|t: TaskId, i: int|
            #![trigger n.tasks[t as int].threads[i]]
            n.has_task(t) && 0 <= i < n.tasks[t as int].threads.len() implies {
            &&& n.has_thread(n.tasks[t as int].threads[i])
            &&& n.threads[n.tasks[t as int].threads[i] as int].task == t
        } by {
            assert(k.has_thread(k.tasks[t as int].threads[i]));
        }
    }
}

/// Creating a region keeps the invariant.
pub proof fn lemma_create_region(k: KernelView, owner: TaskId, len: usize)
    requires
        k.wf(),
        k.regions.len() < u32::MAX,
    ensures
        k.create_region(owner, len).wf(),
        tables_grow(k, k.create_region(owner, len)),
        forall|e: CapEntry| #[trigger] k.create_region(owner, len).live(None, e) ==> k.live(None, e),
{
    let n = k.create_region(owner, len);
    assert forall|r: int| 0 <= r < n.regions.len() implies (#[trigger] n.regions[r]).id == r by {
        reveal(KernelView::wf);
        if r < k.regions.len() {
            assert(k.regions[r].id == r);
        }
    }
    lemma_same_but_regions(k, n);
}

/// A write keeps the invariant.
pub proof fn lemma_sys_write(
    k: KernelView,
    thread: ThreadId,
    mem: CapSlot,
    offset: usize,
    value: u8,
)
    requires
        k.wf(),
    ensures
        k.sys_write(thread, mem, offset, value).wf(),
        tables_grow(k, k.sys_write(thread, mem, offset, value)),
        forall|e: CapEntry| #[trigger] k.sys_write(thread, mem, offset, value).live(None, e) ==> k.live(None, e),
{
    let n = k.sys_write(thread, mem, offset, value);
    assert(n.regions.len() == k.regions.len());
    assert forall|r: int| 0 <= r < n.regions.len() implies (#[trigger] n.regions[r]).id == r by {
        reveal(KernelView::wf);
        assert(k.regions[r].id == r);
    }
    assert(n.regions.len() <= u32::MAX) by {
        reveal(KernelView::wf);
    }
    lemma_same_but_regions(k, n);
}

/// Nothing that scheduling looks at changed.
proof fn lemma_same_sched(k: KernelView, n: KernelView)
    requires
        k.sched_wf(None),
        n.threads.len() == k.threads.len(),
        forall|u: ThreadId|
            k.has_thread(u) ==> eased(k.threads[u as int], #[trigger] n.threads[u as int]),
        n.endpoints == k.endpoints,
        n.sched == k.sched,
        n.clock == k.clock,
        n.tasks.len() == k.tasks.len(),
    ensures
        n.sched_wf(None),
{
    assert forall|tid: ThreadId| n.has_thread(tid) implies #[trigger] n.thread_wf(tid, None) by {
        assert(k.thread_wf(tid, None));
        assert(eased(k.threads[tid as int], n.threads[tid as int]));
        if k.queued(tid) {
            assert(n.queued(tid));
        }
    }
    assert forall|i: int| 0 <= i < n.sched.ready.len() implies #[trigger] n.ready_wf(i) by {
        assert(k.ready_wf(i));
        let tid = k.sched.ready[i].0;
        assert(eased(k.threads[tid as int], n.threads[tid as int]));
    }
    assert forall|ep: EndpointId| n.has_endpoint(ep) implies #[trigger] n.endpoint_wf(ep) by {
        assert(k.endpoint_wf(ep));
        let endpoint = n.endpoints[ep as int];
        assert forall|i: int| 0 <= i < endpoint.senders.len() implies n.has_thread(
            #[trigger] endpoint.senders[i],
        ) && n.threads[endpoint.senders[i] as int].state == ThreadState::BlockedSend(ep) by {
            let tid = endpoint.senders[i];
            assert(eased(k.threads[tid as int], n.threads[tid as int]));
        }
        assert forall|i: int| 0 <= i < endpoint.receivers.len() implies n.has_thread(
            #[trigger] endpoint.receivers[i],
        ) && n.threads[endpoint.receivers[i] as int].state == ThreadState::BlockedRecv(ep) by {
            let tid = endpoint.receivers[i];
            assert(eased(k.threads[tid as int], n.threads[tid as int]));
        }
    }
}

/// Whether a thread is as it was, except that its message may have lost the
/// capability it carried.
pub open spec fn eased(was: ThreadView, is: ThreadView) -> bool {
    &&& is == (ThreadView { pending: is.pending, ..was })
    &&& is.pending is Some <==> was.pending is Some
    &&& is.pending is Some ==> {
        &&& (is.pending->0).label == (was.pending->0).label
        &&& (is.pending->0).bytes == (was.pending->0).bytes
        &&& (is.pending->0).cap is None || (is.pending->0).cap == (was.pending->0).cap
    }
}

/// Only capabilities, in tables and in messages, identities and the derivation
/// tree changed.
pub open spec fn same_but_caps(k: KernelView, n: KernelView) -> bool {
    &&& n.threads.len() == k.threads.len()
    &&& forall|u: ThreadId|
        k.has_thread(u) ==> eased(k.threads[u as int], #[trigger] n.threads[u as int])
    &&& n.endpoints == k.endpoints
    &&& n.regions == k.regions
    &&& n.sched == k.sched
    &&& n.rng == k.rng
    &&& n.clock == k.clock
    &&& n.trace == k.trace
    &&& n.tasks.len() == k.tasks.len()
    &&& forall|t: TaskId|
        k.has_task(t) ==> {
            &&& (#[trigger] n.tasks[t as int]).id == k.tasks[t as int].id
            &&& n.tasks[t as int].name == k.tasks[t as int].name
            &&& n.tasks[t as int].threads == k.tasks[t as int].threads
        }
}

/// An operation on capabilities keeps the invariant if it keeps its part of it.
proof fn lemma_same_but_caps(k: KernelView, n: KernelView)
    requires
        k.wf(),
        same_but_caps(k, n),
        n.caps_wf(None),
        n.slots_counted(0),
    ensures
        n.wf(),
{
    reveal(KernelView::wf);
    lemma_same_sched(k, n);
    assert forall|t: TaskId, i: int|
        #![trigger n.tasks[t as int].threads[i]]
        n.has_task(t) && 0 <= i < n.tasks[t as int].threads.len() implies {
        &&& n.has_thread(n.tasks[t as int].threads[i])
        &&& n.threads[n.tasks[t as int].threads[i] as int].task == t
    } by {
        assert(n.tasks[t as int].threads == k.tasks[t as int].threads);
        let u = k.tasks[t as int].threads[i];
        assert(k.has_thread(u));
        assert(eased(k.threads[u as int], n.threads[u as int]));
    }
}

/// A fresh identity in an empty place keeps identities unique.
proof fn lemma_fresh(k: KernelView, n: KernelView, dst: Place)
    requires
        k.unique(None),
        n.next_cap_id == k.next_cap_id + 1,
        forall|p: Place|
            (#[trigger] n.at(None, p)) is Some ==> if p == dst {
                n.at(None, p)->0.id == k.next_cap_id
            } else {
                n.at(None, p) == k.at(None, p)
            },
    ensures
        n.unique(None),
        forall|e: CapEntry| #[trigger]
            n.live(None, e) ==> k.live(None, e) || n.at(None, dst) == Some(e),
{
    assert forall|p: Place, q: Place|
        (#[trigger] n.at(None, p)) is Some && (#[trigger] n.at(None, q)) is Some && n.at(
            None,
            p,
        )->0.id == n.at(None, q)->0.id implies p == q by {
        assert(k.at(None, p) is Some || p == dst);
        assert(k.at(None, q) is Some || q == dst);
    }
    assert forall|p: Place| (#[trigger] n.at(None, p)) is Some implies n.at(None, p)->0.id
        < n.next_cap_id by {
        assert(k.at(None, p) is Some || p == dst);
    }
    assert forall|e: CapEntry| #[trigger] n.live(None, e) implies k.live(None, e) || n.at(None, dst)
        == Some(e) by {
        let p = choose|p: Place| #[trigger] n.at(None, p) == Some(e);
        if p != dst {
            assert(k.at(None, p) == Some(e));
        }
    }
}

/// A new capability, root or derived, in the next slot of a task keeps the
/// invariant.
proof fn lemma_installed(
    k: KernelView,
    task: TaskId,
    cap: Capability,
    parent: Option<CapId>,
)
    requires
        k.wf(),
        k.has_task(task),
        k.table(task).next < u32::MAX,
        k.next_cap_id < u64::MAX,
        parent is Some ==> parent->0 < k.next_cap_id,
    ensures
        ({
            let n = k.mint_id(parent).with_table(
                task,
                k.table(task).install(CapEntry { cap, id: k.fresh_id() }),
            );
            &&& n.wf()
            &&& tables_grow(k, n)
            &&& forall|e: CapEntry| #[trigger]
                n.live(None, e) ==> k.live(None, e) || e == (CapEntry { cap, id: k.fresh_id() })
        }),
{
    reveal(KernelView::wf);
    let entry = CapEntry { cap, id: k.fresh_id() };
    let n = k.mint_id(parent).with_table(task, k.table(task).install(entry));
    let dst = Place::Slot { task, slot: k.table(task).next_slot() };
    assert(k.tasks[task as int].id == task && k.table(task).wf());
    assert forall|p: Place| (#[trigger] n.at(None, p)) is Some implies if p == dst {
        n.at(None, p)->0.id == k.next_cap_id
    } else {
        n.at(None, p) == k.at(None, p)
    } by {
        match p {
            Place::Slot { task: t, slot: s } => {
                if t != task {
                    assert(n.tasks[t as int] == k.tasks[t as int]);
                }
            },
            Place::Flight { sender: a } => {},
            Place::Hand => {},
        }
    }
    lemma_fresh(k, n, dst);
    assert forall|t: TaskId| n.has_task(t) implies (#[trigger] n.tasks[t as int]).id == t
        && n.table(t).wf() by {
        assert(k.tasks[t as int].id == t);
        assert(k.table(t).wf());
    }
    assert forall|t: TaskId| n.has_task(t) implies (#[trigger] n.tasks[t as int]).caps.next + 0
        <= n.next_cap_id + n.clock by {
        assert(k.tasks[t as int].caps.next + 0 <= k.next_cap_id + k.clock);
    }
    lemma_same_but_caps(k, n);
}

/// A grant keeps the invariant.
pub proof fn lemma_grant(k: KernelView, task: TaskId, object: ObjectRef, rights: Rights)
    requires
        k.wf(),
        k.has_task(task),
        k.table(task).next < u32::MAX,
        k.next_cap_id < u64::MAX,
    ensures
        k.grant(task, object, rights).wf(),
        tables_grow(k, k.grant(task, object, rights)),
        forall|e: CapEntry| #[trigger]
            k.grant(task, object, rights).live(None, e) ==> k.live(None, e) || e == (CapEntry {
                cap: Capability { object, rights },
                id: k.fresh_id(),
            }),
{
    lemma_installed(k, task, Capability { object, rights }, None);
}

/// A request to derive a capability keeps the invariant.
pub proof fn lemma_mint(
    k: KernelView,
    from: TaskId,
    src_slot: CapSlot,
    to: TaskId,
    drop_mask: Rights,
)
    requires
        k.wf(),
        k.held(from, src_slot) is Some ==> k.next_cap_id < u64::MAX,
        k.held(from, src_slot) is Some && k.has_task(to) ==> k.table(to).next < u32::MAX,
    ensures
        k.mint(from, src_slot, to, drop_mask).wf(),
        tables_grow(k, k.mint(from, src_slot, to, drop_mask)),
        forall|e: CapEntry| #[trigger]
            k.mint(from, src_slot, to, drop_mask).live(None, e) ==> k.live(None, e) || (k.held(
                from,
                src_slot,
            ) is Some && e.id == k.fresh_id() && e.cap.object == k.held(
                from,
                src_slot,
            )->0.cap.object && e.cap.rights == k.held(from, src_slot)->0.cap.rights.minus(
                drop_mask,
            )),
{
    let n = k.mint(from, src_slot, to, drop_mask);
    match k.held(from, src_slot) {
        None => {},
        Some(src) => {
            assert(src.id < k.next_cap_id) by {
                reveal(KernelView::wf);
                assert(k.at(None, Place::Slot { task: from, slot: src_slot }) == Some(src));
            }
            if k.has_task(to) {
                let cap = Capability {
                    object: src.cap.object,
                    rights: src.cap.rights.minus(drop_mask),
                };
                lemma_installed(k, to, cap, Some(src.id));
            } else {
                reveal(KernelView::wf);
                assert forall|p: Place| (#[trigger] n.at(None, p)) is Some implies if p
                    == Place::Hand {
                    n.at(None, p) == k.at(None, Place::Hand)
                } else {
                    p != Place::Hand && n.at(None, p) == k.at(None, p)
                } by {}
                lemma_moved(k, None, n, None, Place::Hand, Place::Hand);
                assert(n.caps_wf(None));
                assert forall|t: TaskId| n.has_task(t) implies (
                #[trigger] n.tasks[t as int]).caps.next + 0 <= n.next_cap_id + n.clock by {
                    assert(k.tasks[t as int].caps.next + 0 <= k.next_cap_id + k.clock);
                }
                lemma_same_but_caps(k, n);
            }
        },
    }
}

/// Taking capabilities away, and forgetting identities, keeps the invariant.
proof fn lemma_shrunk(k: KernelView, n: KernelView)
    requires
        k.wf(),
        same_but_caps(k, n),
        n.next_cap_id == k.next_cap_id,
        forall|t: TaskId, s: CapSlot|
            k.has_task(t) && (#[trigger] n.table(t).slots.contains_key(s)) ==> k.table(
                t,
            ).slots.contains_key(s) && n.table(t).slots[s] == k.table(t).slots[s],
        forall|t: TaskId|
            k.has_task(t) ==> (#[trigger] n.tasks[t as int]).caps.next == k.tasks[t as int].caps.next
                && n.tasks[t as int].caps.slots.dom().finite(),
        forall|id: CapId| #[trigger]
            n.cdt.contains_key(id) ==> k.cdt.contains_key(id) && n.cdt[id] == k.cdt[id],
        n.cdt.dom().finite(),
    ensures
        n.wf(),
        tables_grow(k, n),
        forall|e: CapEntry| #[trigger] n.live(None, e) ==> k.live(None, e),
{
    reveal(KernelView::wf);
    assert forall|p: Place| (#[trigger] n.at(None, p)) is Some implies if p == Place::Hand {
        n.at(None, p) == k.at(None, Place::Hand)
    } else {
        p != Place::Hand && n.at(None, p) == k.at(None, p)
    } by {
        match p {
            Place::Slot { task: t, slot: s } => {
                assert(n.table(t).slots.contains_key(s));
            },
            Place::Flight { sender: a } => {
                assert(eased(k.threads[a as int], n.threads[a as int]));
            },
            Place::Hand => {},
        }
    }
    lemma_moved(k, None, n, None, Place::Hand, Place::Hand);
    assert forall|t: TaskId| n.has_task(t) implies (#[trigger] n.tasks[t as int]).id == t
        && n.table(t).wf() by {
        assert(k.tasks[t as int].id == t);
        assert(k.table(t).wf());
        assert(n.tasks[t as int].caps.next == k.tasks[t as int].caps.next);
        assert forall|s: CapSlot| #[trigger] n.table(t).slots.contains_key(s) implies s < n.table(
            t,
        ).next by {
            assert(k.table(t).slots.contains_key(s));
        }
    }
    assert forall|t: TaskId| n.has_task(t) implies (#[trigger] n.tasks[t as int]).caps.next + 0
        <= n.next_cap_id + n.clock by {
        assert(k.tasks[t as int].caps.next + 0 <= k.next_cap_id + k.clock);
    }
    assert(tables_grow(k, n)) by {
        assert forall|t: TaskId| #[trigger] k.has_task(t) implies k.table(t).grows_into(
            n.table(t),
        ) by {
            assert(n.tasks[t as int].caps.next == k.tasks[t as int].caps.next);
        }
    }
    lemma_same_but_caps(k, n);
}

/// Vacating one slot keeps the invariant.
pub proof fn lemma_revoke(k: KernelView, task: TaskId, slot: CapSlot)
    requires
        k.wf(),
    ensures
        k.revoke(task, slot).wf(),
        tables_grow(k, k.revoke(task, slot)),
        forall|e: CapEntry| #[trigger] k.revoke(task, slot).live(None, e) ==> k.live(None, e),
{
    reveal(KernelView::wf);
    let n = k.revoke(task, slot);
    assert forall|t: TaskId| k.has_task(t) implies (#[trigger] n.tasks[t as int]).caps.next
        == k.tasks[t as int].caps.next && n.tasks[t as int].caps.slots.dom().finite() by {
        assert(k.tasks[t as int].id == t);
        assert(k.table(t).wf());
    }
    lemma_shrunk(k, n);
}

/// Revoking a subtree keeps the invariant.
pub proof fn lemma_without_subtree(k: KernelView, root: CapId)
    requires
        k.wf(),
    ensures
        k.without_subtree(root).wf(),
        tables_grow(k, k.without_subtree(root)),
        forall|e: CapEntry| #[trigger] k.without_subtree(root).live(None, e) ==> k.live(None, e),
{
    reveal(KernelView::wf);
    let n = k.without_subtree(root);
    let doomed = |id: CapId| crate::state::descends(k.cdt, id, root);
    assert forall|t: TaskId| k.has_task(t) implies (#[trigger] n.tasks[t as int]).caps.next
        == k.tasks[t as int].caps.next && n.tasks[t as int].caps.slots.dom().finite() by {
        assert(k.tasks[t as int].id == t);
        assert(k.table(t).wf());
        assert(n.tasks[t as int].caps.slots.dom().subset_of(k.table(t).slots.dom()));
        vstd::set_lib::lemma_len_subset(n.tasks[t as int].caps.slots.dom(), k.table(t).slots.dom());
    }
    assert(n.cdt.dom().subset_of(k.cdt.dom()));
    vstd::set_lib::lemma_len_subset(n.cdt.dom(), k.cdt.dom());
    assert forall|t: TaskId, s: CapSlot|
        k.has_task(t) && (#[trigger] n.table(t).slots.contains_key(s)) implies k.table(
        t,
    ).slots.contains_key(s) && n.table(t).slots[s] == k.table(t).slots[s] by {
        assert(n.tasks[t as int].caps == k.tasks[t as int].caps.without(doomed));
    }
    lemma_shrunk(k, n);
}

/// Spawning a thread keeps the invariant.
pub proof fn lemma_spawn(
    k: KernelView,
    task: TaskId,
    name: Seq<char>,
    priority: u8,
    program: Seq<OpView>,
)
    requires
        k.wf(),
        k.threads.len() < u32::MAX,
    ensures
        k.spawn_thread(task, name, priority, program).wf(),
        tables_grow(k, k.spawn_thread(task, name, priority, program)),
        forall|e: CapEntry| #[trigger] k.spawn_thread(task, name, priority, program).live(None, e) ==> k.live(None, e),
{
    reveal(KernelView::wf);
    let n = k.spawn_thread(task, name, priority, program);
    let fresh = k.threads.len() as ThreadId;
    assert forall|i: int| 0 <= i < k.sched.ready.len() implies k.sched.ready[i].0 != fresh by {
        assert(k.ready_wf(i));
    }
    assert(n.sched_wf(None)) by {
        assert forall|tid: ThreadId| n.has_thread(tid) implies #[trigger] n.thread_wf(
            tid,
            None,
        ) by {
            if tid == fresh {
                assert(n.sched.ready[k.sched.ready.len() as int].0 == fresh);
            } else {
                assert(k.thread_wf(tid, None));
                assert(n.threads[tid as int] == k.threads[tid as int]);
                if k.queued(tid) {
                    let i = choose|i: int|
                        0 <= i < k.sched.ready.len() && (#[trigger] k.sched.ready[i]).0 == tid;
                    assert(n.sched.ready[i].0 == tid);
                }
            }
        }
        assert forall|i: int| 0 <= i < n.sched.ready.len() implies #[trigger] n.ready_wf(i) by {
            if i < k.sched.ready.len() {
                assert(k.ready_wf(i));
            }
        }
        assert forall|i: int, j: int| 0 <= i < j < n.sched.ready.len() implies (
        #[trigger] n.sched.ready[i]).0 != (#[trigger] n.sched.ready[j]).0 by {
            if j < k.sched.ready.len() {
                assert(k.sched.ready[i].0 != k.sched.ready[j].0);
            }
        }
        assert forall|ep: EndpointId| n.has_endpoint(ep) implies #[trigger] n.endpoint_wf(ep) by {
            assert(k.endpoint_wf(ep));
        }
    }
    assert forall|t: TaskId| k.has_task(t) implies (#[trigger] n.tasks[t as int]).caps
        == k.tasks[t as int].caps && n.tasks[t as int].id == k.tasks[t as int].id by {}
    assert forall|p: Place| (#[trigger] n.at(None, p)) is Some implies if p == Place::Hand {
        n.at(None, p) == k.at(None, Place::Hand)
    } else {
        p != Place::Hand && n.at(None, p) == k.at(None, p)
    } by {
        match p {
            Place::Slot { task: t, slot: s } => {
                assert(n.tasks[t as int].caps == k.tasks[t as int].caps);
            },
            Place::Flight { sender: a } => {
                if k.has_thread(a) {
                    assert(n.threads[a as int] == k.threads[a as int]);
                }
            },
            Place::Hand => {},
        }
    }
    lemma_moved(k, None, n, None, Place::Hand, Place::Hand);
    assert forall|t: TaskId| n.has_task(t) implies (#[trigger] n.tasks[t as int]).id == t
        && n.table(t).wf() by {
        assert(k.tasks[t as int].id == t);
        assert(k.table(t).wf());
    }
    assert forall|t: TaskId| n.has_task(t) implies (#[trigger] n.tasks[t as int]).caps.next + 0
        <= n.next_cap_id + n.clock by {
        assert(k.tasks[t as int].caps.next + 0 <= k.next_cap_id + k.clock);
    }
    assert forall|t: TaskId, i: int|
        #![trigger n.tasks[t as int].threads[i]]
        n.has_task(t) && 0 <= i < n.tasks[t as int].threads.len() implies {
        &&& n.has_thread(n.tasks[t as int].threads[i])
        &&& n.threads[n.tasks[t as int].threads[i] as int].task == t
    } by {
        let was = k.tasks[t as int].threads;
        if i < was.len() {
            assert(n.tasks[t as int].threads[i] == was[i]);
            assert(k.has_thread(was[i]));
        }
    }
    assert(tables_grow(k, n)) by {
        assert forall|t: TaskId| #[trigger] k.has_task(t) implies k.table(t).grows_into(
            n.table(t),
        ) by {
            assert(n.tasks[t as int].caps == k.tasks[t as int].caps);
        }
    }
}

// -- what keeps a run within the machine --------------------------------------

impl KernelView {
    /// No counter can overflow within `max_ops` ops.
    pub open spec fn counters_fit(self, max_ops: nat) -> bool {
        self.next_cap_id + self.clock + max_ops <= u32::MAX
    }

    /// A run of at most `max_ops` ops stays within the limits of the machine.
    /// The first two alternatives are easy to see and enough for it: no counter
    /// can overflow in that many ops, or in all the work there is. The third is
    /// the exact condition.
    pub open spec fn can_run(self, max_ops: nat) -> bool {
        self.counters_fit(max_ops) || self.counters_fit(self.work()) || self.run_safe(max_ops)
    }
}

/// A slot that resolves to a kind of object holds a capability of that kind with
/// the rights asked for.
pub proof fn lemma_resolved(
    k: KernelView,
    task: TaskId,
    slot: CapSlot,
    want_kind: &'static str,
    needed: Rights,
)
    requires
        k.resolve(task, slot, want_kind, needed) is Ok,
    ensures
        k.held(task, slot) is Some,
        k.held(task, slot)->0.cap.object == k.resolve(task, slot, want_kind, needed)->Ok_0,
        k.held(task, slot)->0.cap.rights.contains(needed),
        k.live(None, k.held(task, slot)->0),
        want_kind@ == "endpoint"@ ==> k.resolve(task, slot, want_kind, needed)->Ok_0 is Endpoint,
        want_kind@ == "region"@ ==> k.resolve(task, slot, want_kind, needed)->Ok_0 is Region,
{
    let object = k.resolve(task, slot, want_kind, needed)->Ok_0;
    crate::capability::lemma_kinds_differ(object, ObjectRef::Endpoint(0));
    crate::capability::lemma_kinds_differ(object, ObjectRef::Region(0));
    assert(k.at(None, Place::Slot { task, slot }) == k.held(task, slot));
}

/// A tick finds what it relies on.
proof fn lemma_tick_fits(k: KernelView)
    requires
        k.wf(),
        k.counters_fit(1),
        k.sched.ready.len() > 0,
    ensures
        k.tick_safe(),
{
    reveal(KernelView::wf);
    let tid = k.next_thread();
    let up = k.take_up();
    lemma_take_up(k);
    let thread = up.threads[tid as int];
    assert(up.thread_wf(tid, Some(tid)));
    assert forall|t: TaskId| up.has_task(t) implies up.table(t).next < u32::MAX by {
        assert(up.tasks[t as int].caps.next + 1 <= up.next_cap_id + up.clock);
    }
    match thread.current_op() {
        Some(OpView::Compute(cycles)) => {
            assert(up.clock * 0xffff_ffff <= 0xffff_ffff * 0xffff_ffff) by (nonlinear_arith)
                requires
                    0 <= up.clock <= 0xffff_ffff,
            ;
        },
        Some(OpView::Send { ep, msg }) => {
            lemma_send_fits(up, tid, ep, msg);
        },
        Some(OpView::Reply { msg }) => {
            if thread.reply_to is Some {
                lemma_send_fits(up, tid, thread.reply_to->0, msg);
            }
        },
        _ => {},
    }
}

/// A send finds what it relies on.
proof fn lemma_send_fits(k: KernelView, tid: ThreadId, ep_slot: CapSlot, msg: MsgView)
    requires
        k.sched_wf(Some(tid)),
        forall|t: TaskId| #[trigger] k.has_task(t) ==> k.table(t).next < u32::MAX,
    ensures
        k.send_safe(tid, ep_slot, msg),
{
    let task = k.threads[tid as int].task;
    if k.resolve(task, ep_slot, "endpoint", Rights::send()) is Ok {
        let ep = k.resolve(task, ep_slot, "endpoint", Rights::send())->Ok_0.number();
        if k.has_endpoint(ep) && k.endpoints[ep as int].receivers.len() > 0 {
            assert(k.endpoint_wf(ep));
            let receiver = k.endpoints[ep as int].receivers[0];
            assert(k.has_thread(receiver));
            assert(k.thread_wf(receiver, Some(tid)));
            assert(k.has_task(k.threads[receiver as int].task));
        }
    }
}

/// A run with room in the counters stays within the limits of the machine.
pub proof fn lemma_can_run(k: KernelView, max_ops: nat)
    requires
        k.wf(),
        k.can_run(max_ops),
    ensures
        k.run_safe(max_ops),
{
    if k.counters_fit(max_ops) {
        lemma_fits_run(k, max_ops);
    } else if k.counters_fit(k.work()) {
        lemma_fits_run(k, k.work());
        crate::progress::lemma_enough_is_enough(k, k.work(), max_ops);
    }
}

proof fn lemma_fits_run(k: KernelView, max_ops: nat)
    requires
        k.wf(),
        k.counters_fit(max_ops),
    ensures
        k.run_safe(max_ops),
    decreases max_ops,
{
    if max_ops > 0 && k.sched.ready.len() > 0 {
        lemma_tick_fits(k);
        lemma_tick(k);
        let n = k.tick();
        lemma_tick_clock(k);
        lemma_fits_run(n, (max_ops - 1) as nat);
    }
}

/// A tick is one tick.
pub proof fn lemma_tick_clock(k: KernelView)
    requires
        k.wf(),
        k.sched.ready.len() > 0,
        k.tick_safe(),
    ensures
        k.tick().clock == k.clock + 1,
{
    reveal(KernelView::wf);
    lemma_take_up(k);
    lemma_step(k.take_up(), k.next_thread());
}

/// The table of a task is well formed.
pub proof fn lemma_table_wf(k: KernelView, task: TaskId)
    requires
        k.wf(),
    ensures
        k.has_task(task) ==> k.table(task).wf() && k.tasks[task as int].id == task,
{
    reveal(KernelView::wf);
    if k.has_task(task) {
        assert(k.tasks[task as int].id == task);
    }
}

/// What left the sender's table leaves the queues in agreement and the tables
/// well formed.
pub proof fn lemma_departed(
    k: KernelView,
    tid: ThreadId,
    ep_slot: CapSlot,
    msg: MsgView,
    consume_reply: bool,
)
    requires
        k.busy_wf(Some(tid), 1),
        k.has_task(k.threads[tid as int].task),
        k.transfer_refusal(k.threads[tid as int].task, msg.transfer) is None,
    ensures
        ({
            let n = k.departed(tid, ep_slot, msg.transfer, consume_reply);
            &&& n.sched_wf(Some(tid))
            &&& n.tables_wf()
            &&& n.endpoints == k.endpoints
            &&& n.tasks.len() == k.tasks.len()
            &&& n.threads.len() == k.threads.len()
            &&& n.threads[tid as int].program == k.threads[tid as int].program
            &&& n.threads[tid as int].pc == k.threads[tid as int].pc
            &&& forall|t: TaskId|
                k.has_task(t) ==> (#[trigger] n.tasks[t as int]).caps.next
                    == k.tasks[t as int].caps.next
            &&& forall|u: ThreadId|
                k.has_thread(u) && u != tid ==> (#[trigger] n.threads[u as int])
                    == k.threads[u as int]
        }),
{
    let n = k.departed(tid, ep_slot, msg.transfer, consume_reply);
    assert(k.thread_wf(tid, Some(tid)));
    lemma_quiet_sched(k, n, tid);
    lemma_departed_caps(k, tid, ep_slot, msg, consume_reply);
}

/// Drawing from the generator keeps the invariant.
pub proof fn lemma_draw(k: KernelView, rng: u64)
    requires
        k.wf(),
    ensures
        k.with_rng(rng).wf(),
        tables_grow(k, k.with_rng(rng)),
        forall|e: CapEntry| #[trigger] k.with_rng(rng).live(None, e) ==> k.live(None, e),
{
    let n = k.with_rng(rng);
    assert forall|r: int| 0 <= r < n.regions.len() implies (#[trigger] n.regions[r]).id == r by {
        reveal(KernelView::wf);
        assert(k.regions[r].id == r);
    }
    assert(n.regions.len() <= u32::MAX) by {
        reveal(KernelView::wf);
    }
    lemma_same_but_regions(k, n);
}

/// No part of the invariant depends on the generator.
pub proof fn lemma_any_rng(k: KernelView)
    requires
        k.wf(),
    ensures
        forall|rng: u64| (#[trigger] k.with_rng(rng)).wf(),
{
    assert forall|rng: u64| (#[trigger] k.with_rng(rng)).wf() by {
        lemma_draw(k, rng);
    }
}

} // verus!
