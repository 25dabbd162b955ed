//! The state of the microkernel and how each operation changes it.
//!
//! [`KernelView`] is the mathematical state that the contracts of the kernel
//! speak of: the tasks with their capability tables, the threads, the endpoints,
//! the regions, the ready queue, the trace and the derivation tree. Every
//! operation is a function from a state to the next state. The kernel in
//! [`crate::kernel`] is proved to follow these functions exactly, and the laws
//! of the library are proved of them.

use crate::capability::{CapEntry, CapId, CapSlot, Capability, ObjectRef, Rights, TableView};
use crate::error::KernelError;
use crate::ipc::{EndpointView, MsgView};
use crate::memory::RegionView;
use crate::scheduler::{Policy, SchedView};
use crate::thread::{OpView, PendingView, ThreadState, ThreadView};
use crate::trace::EventView;
use crate::{EndpointId, RegionId, TaskId, ThreadId};
use vstd::prelude::*;

verus! {

/// What there is to know about a task.
#[verifier::ext_equal]
pub struct TaskView {
    /// Task identifier.
    pub id: TaskId,
    /// The name.
    pub name: Seq<char>,
    /// The capability table.
    pub caps: TableView,
    /// The threads that belong to the task.
    pub threads: Seq<ThreadId>,
}

/// The state of the microkernel. The objects of each kind are numbered from zero
/// in order of creation, and none is ever destroyed.
#[verifier::ext_equal]
pub struct KernelView {
    /// The tasks.
    pub tasks: Seq<TaskView>,
    /// The threads.
    pub threads: Seq<ThreadView>,
    /// The endpoints.
    pub endpoints: Seq<EndpointView>,
    /// The regions.
    pub regions: Seq<RegionView>,
    /// The scheduler.
    pub sched: SchedView,
    /// The state of the seeded generator.
    pub rng: u64,
    /// The current tick.
    pub clock: nat,
    /// The trace so far.
    pub trace: Seq<EventView>,
    /// The next capability identity.
    pub next_cap_id: nat,
    /// The derivation tree: the parent of each identity, or none for a root.
    pub cdt: Map<CapId, Option<CapId>>,
}

/// Whether `id` is `root` or was derived from it, over any number of steps. An
/// identity is always younger than the one it was derived from, so the way up
/// the tree ends.
pub open spec fn descends(cdt: Map<CapId, Option<CapId>>, id: CapId, root: CapId) -> bool
    decreases id,
{
    if id == root {
        true
    } else if cdt.contains_key(id) && cdt[id] is Some && cdt[id]->0 < id {
        descends(cdt, cdt[id]->0, root)
    } else {
        false
    }
}

/// The number of live capabilities in a row of tasks.
pub open spec fn held_count(tasks: Seq<TaskView>) -> nat
    decreases tasks.len(),
{
    if tasks.len() == 0 {
        0
    } else {
        held_count(tasks.drop_last()) + tasks.last().caps.slots.len()
    }
}

/// The number of capabilities in the messages of a row of threads.
pub open spec fn flight_count(threads: Seq<ThreadView>) -> nat
    decreases threads.len(),
{
    if threads.len() == 0 {
        0
    } else {
        flight_count(threads.drop_last()) + if threads.last().carries() {
            1nat
        } else {
            0nat
        }
    }
}

/// The number of events of a kind in a trace.
pub open spec fn tally(trace: Seq<EventView>, kind: spec_fn(EventView) -> bool) -> nat
    decreases trace.len(),
{
    if trace.len() == 0 {
        0
    } else {
        tally(trace.drop_last(), kind) + if kind(trace.last()) {
            1nat
        } else {
            0nat
        }
    }
}

impl KernelView {
    /// The state at boot: no object exists and nothing has happened.
    pub open spec fn boot(seed: u64, policy: Policy) -> KernelView {
        KernelView {
            tasks: Seq::empty(),
            threads: Seq::empty(),
            endpoints: Seq::empty(),
            regions: Seq::empty(),
            sched: SchedView { policy, ready: Seq::empty(), switches: 0 },
            rng: seed,
            clock: 0,
            trace: Seq::empty(),
            next_cap_id: 0,
            cdt: Map::empty(),
        }
    }

    /// Whether a task exists.
    pub open spec fn has_task(self, task: TaskId) -> bool {
        task < self.tasks.len()
    }

    /// Whether a thread exists.
    pub open spec fn has_thread(self, thread: ThreadId) -> bool {
        thread < self.threads.len()
    }

    /// Whether an endpoint exists.
    pub open spec fn has_endpoint(self, endpoint: EndpointId) -> bool {
        endpoint < self.endpoints.len()
    }

    /// Whether a region exists.
    pub open spec fn has_region(self, region: RegionId) -> bool {
        region < self.regions.len()
    }

    /// The capability table of a task.
    pub open spec fn table(self, task: TaskId) -> TableView {
        self.tasks[task as int].caps
    }

    /// The entry that a task holds in a slot, if the task exists and the slot is
    /// live.
    pub open spec fn held(self, task: TaskId, slot: CapSlot) -> Option<CapEntry> {
        if self.has_task(task) {
            self.table(task).entry(slot)
        } else {
            None
        }
    }

    /// The state with another table for one task.
    pub open spec fn with_table(self, task: TaskId, caps: TableView) -> KernelView {
        KernelView {
            tasks: self.tasks.update(
                task as int,
                TaskView { caps, ..self.tasks[task as int] },
            ),
            ..self
        }
    }

    /// The state with one thread replaced.
    pub open spec fn with_thread(self, tid: ThreadId, thread: ThreadView) -> KernelView {
        KernelView { threads: self.threads.update(tid as int, thread), ..self }
    }

    /// The state with one endpoint replaced.
    pub open spec fn with_endpoint(self, ep: EndpointId, endpoint: EndpointView) -> KernelView {
        KernelView { endpoints: self.endpoints.update(ep as int, endpoint), ..self }
    }

    /// The state with one region replaced.
    pub open spec fn with_region(self, rid: RegionId, region: RegionView) -> KernelView {
        KernelView { regions: self.regions.update(rid as int, region), ..self }
    }

    /// The state with the generator in another state.
    pub open spec fn with_rng(self, rng: u64) -> KernelView {
        KernelView { rng, ..self }
    }

    /// The state with one more event on record.
    pub open spec fn emit(self, event: EventView) -> KernelView {
        KernelView { trace: self.trace.push(event), ..self }
    }

    /// The state with a refused syscall on record.
    pub open spec fn deny(
        self,
        tid: ThreadId,
        syscall: Seq<char>,
        err: KernelError,
    ) -> KernelView {
        self.emit(EventView::Denied { thread: tid, syscall, reason: err.text() })
    }

    /// The state with one thread a step further.
    pub open spec fn advance(self, tid: ThreadId) -> KernelView {
        self.with_thread(tid, self.threads[tid as int].advanced())
    }

    /// The state with one more thread at the back of the ready queue.
    pub open spec fn enqueue(self, tid: ThreadId) -> KernelView {
        KernelView {
            sched: self.sched.enqueued(tid, self.threads[tid as int].priority),
            ..self
        }
    }

    // -- object creation -----------------------------------------------------

    /// A new task with an empty table.
    pub open spec fn create_task(self, name: Seq<char>) -> KernelView {
        KernelView {
            tasks: self.tasks.push(
                TaskView {
                    id: self.tasks.len() as TaskId,
                    name,
                    caps: TableView::empty(),
                    threads: Seq::empty(),
                },
            ),
            ..self
        }
    }

    /// A new endpoint with empty queues.
    pub open spec fn create_endpoint(self) -> KernelView {
        KernelView {
            endpoints: self.endpoints.push(
                EndpointView { senders: Seq::empty(), receivers: Seq::empty() },
            ),
            ..self
        }
    }

    /// A new zeroed region.
    pub open spec fn create_region(self, owner: TaskId, len: usize) -> KernelView {
        KernelView {
            regions: self.regions.push(
                RegionView {
                    id: self.regions.len() as RegionId,
                    owner,
                    data: Seq::new(len as nat, |i: int| 0u8),
                },
            ),
            ..self
        }
    }

    /// A new ready thread.
    pub open spec fn spawn_thread(
        self,
        task: TaskId,
        name: Seq<char>,
        priority: u8,
        program: Seq<OpView>,
    ) -> KernelView {
        let tid = self.threads.len() as ThreadId;
        let thread = ThreadView {
            id: tid,
            task,
            name,
            state: ThreadState::Ready,
            program,
            pc: 0,
            priority,
            cycles: 0,
            dispatches: 0,
            pending: None,
            reply_to: None,
        };
        KernelView {
            tasks: if self.has_task(task) {
                self.tasks.update(
                    task as int,
                    TaskView {
                        threads: self.tasks[task as int].threads.push(tid),
                        ..self.tasks[task as int]
                    },
                )
            } else {
                self.tasks
            },
            threads: self.threads.push(thread),
            sched: self.sched.enqueued(tid, priority),
            ..self
        }
    }

    // -- capabilities --------------------------------------------------------

    /// The identity that the next capability gets.
    pub open spec fn fresh_id(self) -> CapId {
        self.next_cap_id as CapId
    }

    /// A fresh identity on record, with its parent in the derivation tree.
    pub open spec fn mint_id(self, parent: Option<CapId>) -> KernelView {
        KernelView {
            next_cap_id: self.next_cap_id + 1,
            cdt: self.cdt.insert(self.fresh_id(), parent),
            ..self
        }
    }

    /// A root capability in the next slot of a task.
    pub open spec fn grant(self, task: TaskId, object: ObjectRef, rights: Rights) -> KernelView {
        let entry = CapEntry { cap: Capability { object, rights }, id: self.fresh_id() };
        self.mint_id(None).with_table(task, self.table(task).install(entry))
    }

    /// What a request to derive a capability is answered.
    pub open spec fn mint_answer(
        self,
        from: TaskId,
        src_slot: CapSlot,
        to: TaskId,
        drop_mask: Rights,
    ) -> Result<(CapSlot, Rights), KernelError> {
        if !self.has_task(from) {
            Err(KernelError::NoSuchObject { object: ObjectRef::Task(from) })
        } else if self.held(from, src_slot) is None {
            Err(KernelError::NoSuchCapability { slot: src_slot })
        } else if !self.has_task(to) {
            Err(KernelError::NoSuchObject { object: ObjectRef::Task(to) })
        } else {
            Ok(
                (
                    self.table(to).next_slot(),
                    self.held(from, src_slot)->0.cap.rights.minus(drop_mask),
                ),
            )
        }
    }

    /// The state after a request to derive a capability. The identity of the
    /// child is on record as soon as the source is found, also where the target
    /// task turns out to be missing.
    pub open spec fn mint(
        self,
        from: TaskId,
        src_slot: CapSlot,
        to: TaskId,
        drop_mask: Rights,
    ) -> KernelView {
        match self.held(from, src_slot) {
            None => self,
            Some(src) => {
                let entry = CapEntry {
                    cap: Capability {
                        object: src.cap.object,
                        rights: src.cap.rights.minus(drop_mask),
                    },
                    id: self.fresh_id(),
                };
                let registered = self.mint_id(Some(src.id));
                if self.has_task(to) {
                    registered.with_table(to, self.table(to).install(entry))
                } else {
                    registered
                }
            },
        }
    }

    /// The state after one slot of a task was vacated.
    pub open spec fn revoke(self, task: TaskId, slot: CapSlot) -> KernelView {
        if self.has_task(task) {
            self.with_table(task, self.table(task).remove(slot))
        } else {
            self
        }
    }

    /// What a revocation of one slot is answered: the capability that was there.
    pub open spec fn revoke_answer(self, task: TaskId, slot: CapSlot) -> Option<Capability> {
        match self.held(task, slot) {
            Some(entry) => Some(entry.cap),
            None => None,
        }
    }

    /// How many capabilities the revocation of a subtree removes.
    pub open spec fn revoke_tree_answer(self, task: TaskId, slot: CapSlot) -> int {
        self.live_count() - self.revoke_tree(task, slot).live_count()
    }

    /// The identity of what a task holds in a slot.
    pub open spec fn cap_id(self, task: TaskId, slot: CapSlot) -> Option<CapId> {
        match self.held(task, slot) {
            Some(entry) => Some(entry.id),
            None => None,
        }
    }

    /// No two messages in flight carry the same identity.
    pub open spec fn flights_unique(self) -> bool {
        forall|u: ThreadId, v: ThreadId, id: CapId|
            self.has_thread(u) && self.has_thread(v)
                && #[trigger] self.threads[u as int].carries_id(id)
                && #[trigger] self.threads[v as int].carries_id(id) ==> u == v
    }

    /// The number of capabilities there are, in tables and in messages.
    pub open spec fn live_count(self) -> nat {
        held_count(self.tasks) + flight_count(self.threads)
    }

    /// The state after a whole subtree of identities was revoked: no table and no
    /// message of a parked sender holds a capability derived from `root` any
    /// more, and the tree has forgotten those identities. Everything else is as
    /// it was. A message that lost its capability is still delivered.
    pub open spec fn without_subtree(self, root: CapId) -> KernelView {
        let doomed = |id: CapId| descends(self.cdt, id, root);
        KernelView {
            tasks: self.tasks.map_values(
                |t: TaskView| TaskView { caps: t.caps.without(doomed), ..t },
            ),
            threads: self.threads.map_values(|t: ThreadView| t.without(doomed)),
            cdt: self.cdt.restrict(
                Set::new(|id: CapId| self.cdt.contains_key(id) && !doomed(id)),
            ),
            ..self
        }
    }

    /// The state after the subtree of what a task holds in a slot was revoked.
    pub open spec fn revoke_tree(self, task: TaskId, slot: CapSlot) -> KernelView {
        match self.cap_id(task, slot) {
            None => self,
            Some(root) => self.without_subtree(root),
        }
    }

    /// What a slot of a task resolves to, for an operation on an object of a
    /// kind that needs some rights. Every failure is a denial.
    pub open spec fn resolve(
        self,
        task: TaskId,
        slot: CapSlot,
        want_kind: &'static str,
        needed: Rights,
    ) -> Result<ObjectRef, KernelError> {
        if !self.has_task(task) {
            Err(KernelError::NoSuchObject { object: ObjectRef::Task(task) })
        } else {
            match self.table(task).get(slot) {
                None => Err(KernelError::NoSuchCapability { slot }),
                Some(cap) => if cap.object.kind()@ != want_kind@ {
                    Err(KernelError::WrongObject { slot, expected: want_kind })
                } else if !cap.rights.contains(needed) {
                    Err(KernelError::MissingRight { slot, needed })
                } else {
                    Ok(cap.object)
                },
            }
        }
    }

    // -- memory syscalls -----------------------------------------------------

    /// The region that a thread reaches through a slot with a right, or the
    /// denial.
    pub open spec fn reach_region(
        self,
        thread: ThreadId,
        mem: CapSlot,
        needed: Rights,
    ) -> Result<RegionId, KernelError> {
        if !self.has_thread(thread) {
            Err(KernelError::NoSuchObject { object: ObjectRef::Thread(thread) })
        } else {
            match self.resolve(self.threads[thread as int].task, mem, "region", needed) {
                Err(e) => Err(e),
                Ok(object) => if self.has_region(object.number()) {
                    Ok(object.number())
                } else {
                    Err(KernelError::NoSuchObject { object })
                },
            }
        }
    }

    /// What a read is answered.
    pub open spec fn sys_read(
        self,
        thread: ThreadId,
        mem: CapSlot,
        offset: usize,
    ) -> Result<u8, KernelError> {
        match self.reach_region(thread, mem, Rights::read()) {
            Err(e) => Err(e),
            Ok(rid) => self.regions[rid as int].read(offset),
        }
    }

    /// What a write is answered.
    pub open spec fn sys_write_answer(
        self,
        thread: ThreadId,
        mem: CapSlot,
        offset: usize,
    ) -> Result<(), KernelError> {
        match self.reach_region(thread, mem, Rights::write()) {
            Err(e) => Err(e),
            Ok(rid) => self.regions[rid as int].write_answer(offset),
        }
    }

    /// The state after a write. A denied write changes nothing.
    pub open spec fn sys_write(
        self,
        thread: ThreadId,
        mem: CapSlot,
        offset: usize,
        value: u8,
    ) -> KernelView {
        match self.reach_region(thread, mem, Rights::write()) {
            Err(_) => self,
            Ok(rid) => self.with_region(rid, self.regions[rid as int].write(offset, value)),
        }
    }

    // -- one step of a thread ------------------------------------------------

    /// The state with a finished thread.
    pub open spec fn exit(self, tid: ThreadId) -> KernelView {
        self.with_thread(tid, self.threads[tid as int].in_state(ThreadState::Exited)).emit(
            EventView::Exit { thread: tid },
        )
    }

    /// The number of the region named by a slot of a thread's task. Meaningful
    /// when the slot holds a region capability.
    pub open spec fn region_id(self, tid: ThreadId, mem: CapSlot) -> RegionId {
        match self.held(self.threads[tid as int].task, mem) {
            Some(entry) => match entry.cap.object {
                ObjectRef::Region(id) => id,
                _ => u32::MAX,
            },
            None => u32::MAX,
        }
    }

    /// A thread reads a byte.
    pub open spec fn do_read(self, tid: ThreadId, mem: CapSlot, offset: usize) -> KernelView {
        (match self.sys_read(tid, mem, offset) {
            Ok(value) => self.emit(
                EventView::MemRead { thread: tid, region: self.region_id(tid, mem), offset, value },
            ),
            Err(e) => self.deny(tid, "read"@, e),
        }).advance(tid)
    }

    /// A thread writes a byte.
    pub open spec fn do_write(
        self,
        tid: ThreadId,
        mem: CapSlot,
        offset: usize,
        value: u8,
    ) -> KernelView {
        (match self.sys_write_answer(tid, mem, offset) {
            Ok(_) => self.sys_write(tid, mem, offset, value).emit(
                EventView::MemWrite { thread: tid, region: self.region_id(tid, mem), offset, value },
            ),
            Err(e) => self.deny(tid, "write"@, e),
        }).advance(tid)
    }

    /// Why the capability named for transfer cannot travel, if it cannot. A
    /// task can only give away what it holds with the grant right.
    pub open spec fn transfer_refusal(
        self,
        task: TaskId,
        transfer: Option<CapSlot>,
    ) -> Option<KernelError> {
        match transfer {
            None => None,
            Some(slot) => match self.held(task, slot) {
                None => Some(KernelError::NoSuchCapability { slot }),
                Some(entry) => if entry.cap.rights.contains(Rights::grant()) {
                    None
                } else {
                    Some(KernelError::MissingRight { slot, needed: Rights::grant() })
                },
            },
        }
    }

    /// Why a send through an endpoint capability is refused, if it is: what it
    /// is to carry cannot travel, or the endpoint does not exist.
    pub open spec fn send_refusal(
        self,
        task: TaskId,
        object: ObjectRef,
        transfer: Option<CapSlot>,
    ) -> Option<KernelError> {
        match self.transfer_refusal(task, transfer) {
            Some(e) => Some(e),
            None => if self.has_endpoint(object.number()) {
                None
            } else {
                Some(KernelError::NoSuchObject { object })
            },
        }
    }

    /// The endpoint that a slot of a task reaches with a right, or the denial.
    pub open spec fn reach_endpoint(
        self,
        task: TaskId,
        slot: CapSlot,
        needed: Rights,
    ) -> Result<EndpointId, KernelError> {
        match self.resolve(task, slot, "endpoint", needed) {
            Err(e) => Err(e),
            Ok(object) => if self.has_endpoint(object.number()) {
                Ok(object.number())
            } else {
                Err(KernelError::NoSuchObject { object })
            },
        }
    }

    /// The message as it leaves a task, with the capability it carries.
    pub open spec fn resolved_msg(self, task: TaskId, msg: MsgView) -> PendingView {
        PendingView {
            label: msg.label,
            bytes: msg.bytes,
            cap: match msg.transfer {
                None => None,
                Some(slot) => self.held(task, slot),
            },
        }
    }

    /// The state after the transferred capability, and the reply capability if
    /// this is a reply, left the table of the sender.
    pub open spec fn departed(
        self,
        tid: ThreadId,
        ep_slot: CapSlot,
        transfer: Option<CapSlot>,
        consume_reply: bool,
    ) -> KernelView {
        let task = self.threads[tid as int].task;
        let moved = match transfer {
            None => self,
            Some(slot) => self.with_table(task, self.table(task).remove(slot)),
        };
        if consume_reply {
            moved.with_table(task, moved.table(task).remove(ep_slot)).with_thread(
                tid,
                moved.threads[tid as int].replying_to(None),
            )
        } else {
            moved
        }
    }

    /// The state after the capability that came with a message was installed for
    /// the receiver and the transfer recorded. An endpoint capability with the
    /// send right becomes the receiver's reply capability.
    pub open spec fn arrived(
        self,
        sender: ThreadId,
        receiver: ThreadId,
        entry: CapEntry,
    ) -> KernelView {
        let from = self.threads[sender as int].task;
        let to = self.threads[receiver as int].task;
        let new_slot = self.table(to).next_slot();
        let installed = self.with_table(to, self.table(to).install(entry)).emit(
            EventView::CapTransfer {
                from,
                to,
                object: entry.cap.object,
                rights: entry.cap.rights,
                new_slot,
            },
        );
        if entry.cap.object is Endpoint && entry.cap.rights.contains(Rights::send()) {
            installed.with_thread(
                receiver,
                installed.threads[receiver as int].replying_to(Some(new_slot)),
            )
        } else {
            installed
        }
    }

    /// The state with a parked thread past its op and back on the ready queue.
    pub open spec fn wake(self, tid: ThreadId) -> KernelView {
        self.with_thread(
            tid,
            self.threads[tid as int].advanced().in_state(ThreadState::Ready),
        ).enqueue(tid)
    }

    /// A rendezvous: the message crosses, its capability arrives, and the
    /// partner that was parked is woken.
    pub open spec fn deliver(
        self,
        sender: ThreadId,
        receiver: ThreadId,
        ep: EndpointId,
        msg: PendingView,
        partner: ThreadId,
    ) -> KernelView {
        let met = self.emit(
            EventView::Rendezvous {
                sender,
                receiver,
                endpoint: ep,
                label: msg.label,
                bytes: msg.bytes.len(),
            },
        );
        (match msg.cap {
            None => met,
            Some(entry) => met.arrived(sender, receiver, entry),
        }).wake(partner)
    }

    /// A message has left its sender and meets the endpoint: a waiting receiver
    /// takes it at once, or else the sender parks.
    pub open spec fn post(self, tid: ThreadId, ep: EndpointId, msg: PendingView) -> KernelView {
        let endpoint = self.endpoints[ep as int];
        if endpoint.receivers.len() > 0 {
            self.with_endpoint(
                ep,
                EndpointView { receivers: endpoint.receivers.drop_first(), ..endpoint },
            ).deliver(tid, endpoint.receivers[0], ep, msg, endpoint.receivers[0]).advance(tid)
        } else {
            self.with_endpoint(
                ep,
                EndpointView { senders: endpoint.senders.push(tid), ..endpoint },
            ).with_thread(tid, self.threads[tid as int].parked_sending(ep, msg)).emit(
                EventView::BlockSend { thread: tid, endpoint: ep },
            )
        }
    }

    /// A thread sends, through an endpoint capability or its reply capability.
    pub open spec fn do_send(
        self,
        tid: ThreadId,
        ep_slot: CapSlot,
        msg: MsgView,
        consume_reply: bool,
    ) -> KernelView {
        let task = self.threads[tid as int].task;
        match self.resolve(task, ep_slot, "endpoint", Rights::send()) {
            Err(e) => self.deny(tid, "send"@, e).advance(tid),
            Ok(object) => match self.send_refusal(task, object, msg.transfer) {
                Some(e) => self.deny(tid, "send"@, e).advance(tid),
                None => self.departed(tid, ep_slot, msg.transfer, consume_reply).post(
                    tid,
                    object.number(),
                    self.resolved_msg(task, msg),
                ),
            },
        }
    }

    /// A thread receives: the longest waiting sender is served at once, or else
    /// the receiver parks.
    pub open spec fn do_recv(self, tid: ThreadId, ep_slot: CapSlot) -> KernelView {
        match self.reach_endpoint(self.threads[tid as int].task, ep_slot, Rights::recv()) {
            Err(e) => self.deny(tid, "recv"@, e).advance(tid),
            Ok(ep) => self.accept(tid, ep),
        }
    }

    /// A receiver meets the endpoint.
    pub open spec fn accept(self, tid: ThreadId, ep: EndpointId) -> KernelView {
        let endpoint = self.endpoints[ep as int];
        if endpoint.senders.len() > 0 {
            let sender = endpoint.senders[0];
            self.with_endpoint(
                ep,
                EndpointView { senders: endpoint.senders.drop_first(), ..endpoint },
            ).with_thread(sender, self.threads[sender as int].relieved()).deliver(
                sender,
                tid,
                ep,
                self.threads[sender as int].pending->0,
                sender,
            ).advance(tid)
        } else {
            self.with_endpoint(
                ep,
                EndpointView { receivers: endpoint.receivers.push(tid), ..endpoint },
            ).with_thread(
                tid,
                self.threads[tid as int].in_state(ThreadState::BlockedRecv(ep)),
            ).emit(EventView::BlockRecv { thread: tid, endpoint: ep })
        }
    }

    /// A thread executes its current op, or finishes when none is left.
    pub open spec fn step(self, tid: ThreadId) -> KernelView {
        match self.threads[tid as int].current_op() {
            None => self.exit(tid),
            Some(op) => match op {
                OpView::Compute(cycles) => self.with_thread(
                    tid,
                    self.threads[tid as int].computed(cycles),
                ).emit(EventView::Compute { thread: tid, cycles }),
                OpView::Read { mem, offset } => self.do_read(tid, mem, offset),
                OpView::Write { mem, offset, value } => self.do_write(tid, mem, offset, value),
                OpView::Send { ep, msg } => self.do_send(tid, ep, msg, false),
                OpView::Reply { msg } => match self.threads[tid as int].reply_to {
                    Some(slot) => self.do_send(tid, slot, msg, true),
                    None => self.deny(tid, "reply"@, KernelError::NoReplyCapability).advance(tid),
                },
                OpView::Recv { ep } => self.do_recv(tid, ep),
                OpView::Exit => self.exit(tid),
            },
        }
    }

    // -- the run loop --------------------------------------------------------

    /// The thread that runs next. Meaningful when some thread is ready.
    pub open spec fn next_thread(self) -> ThreadId {
        self.sched.next_thread()
    }

    /// The state with the next thread dispatched and running.
    pub open spec fn take_up(self) -> KernelView {
        let tid = self.next_thread();
        KernelView { sched: self.sched.dispatched(), clock: self.clock + 1, ..self }.with_thread(
            tid,
            self.threads[tid as int].dispatched(),
        ).emit(
            EventView::Dispatch {
                tick: self.clock + 1,
                thread: tid,
                task: self.threads[tid as int].task,
            },
        )
    }

    /// The state with a thread that is still running put back on the ready
    /// queue. A thread that parked or finished is left alone.
    pub open spec fn put_back(self, tid: ThreadId) -> KernelView {
        if self.threads[tid as int].state is Running {
            self.with_thread(tid, self.threads[tid as int].in_state(ThreadState::Ready)).enqueue(
                tid,
            )
        } else {
            self
        }
    }

    /// One turn of the run loop: dispatch, execute one op, put back. Meaningful
    /// when some thread is ready.
    pub open spec fn tick(self) -> KernelView {
        self.take_up().step(self.next_thread()).put_back(self.next_thread())
    }

    /// The state after a run of at most `max_ops` ops.
    pub open spec fn run(self, max_ops: nat) -> KernelView
        decreases max_ops,
    {
        if max_ops == 0 || self.sched.ready.len() == 0 {
            self
        } else {
            self.tick().run((max_ops - 1) as nat)
        }
    }

    /// The number of ops that such a run executes.
    pub open spec fn ops_run(self, max_ops: nat) -> nat
        decreases max_ops,
    {
        if max_ops == 0 || self.sched.ready.len() == 0 {
            0
        } else {
            1 + self.tick().ops_run((max_ops - 1) as nat)
        }
    }

    /// Whether every thread has finished.
    pub open spec fn all_done(self) -> bool {
        forall|i: int| 0 <= i < self.threads.len() ==> (#[trigger] self.threads[i]).is_done()
    }

    // -- what a step needs from the machine ----------------------------------

    /// A message can cross or park: where a receiver waits, its table has a slot
    /// left for a capability that comes along.
    pub open spec fn post_safe(self, ep: EndpointId, msg: PendingView) -> bool {
        self.endpoints[ep as int].receivers.len() > 0 && msg.cap is Some ==> self.table(
            self.threads[self.endpoints[ep as int].receivers[0] as int].task,
        ).next < u32::MAX
    }

    /// A send finds what it relies on.
    pub open spec fn send_safe(self, tid: ThreadId, ep_slot: CapSlot, msg: MsgView) -> bool {
        let task = self.threads[tid as int].task;
        match self.resolve(task, ep_slot, "endpoint", Rights::send()) {
            Err(_) => true,
            Ok(object) => self.send_refusal(task, object, msg.transfer) is None ==> self.post_safe(
                object.number(),
                self.resolved_msg(task, msg),
            ),
        }
    }

    /// A receive finds what it relies on.
    pub open spec fn recv_safe(self, tid: ThreadId, ep_slot: CapSlot) -> bool {
        let task = self.threads[tid as int].task;
        match self.reach_endpoint(task, ep_slot, Rights::recv()) {
            Err(_) => true,
            Ok(ep) => {
                let endpoint = self.endpoints[ep as int];
                endpoint.senders.len() > 0
                    && self.threads[endpoint.senders[0] as int].pending->0.cap is Some
                    ==> self.table(task).next < u32::MAX
            },
        }
    }

    /// The current op of a thread stays within what the machine can count.
    pub open spec fn step_safe(self, tid: ThreadId) -> bool {
        let thread = self.threads[tid as int];
        match thread.current_op() {
            Some(OpView::Compute(cycles)) => thread.cycles + cycles <= u64::MAX,
            Some(OpView::Send { ep, msg }) => self.send_safe(tid, ep, msg),
            Some(OpView::Reply { msg }) => thread.reply_to is Some ==> self.send_safe(
                tid,
                thread.reply_to->0,
                msg,
            ),
            Some(OpView::Recv { ep }) => self.recv_safe(tid, ep),
            _ => true,
        }
    }

    /// The next turn of the run loop stays within the limits of the machine.
    pub open spec fn tick_safe(self) -> bool {
        &&& self.clock < u64::MAX
        &&& self.take_up().step_safe(self.next_thread())
    }

    /// Every turn of a run of at most `max_ops` ops stays within the limits of
    /// the machine.
    pub open spec fn run_safe(self, max_ops: nat) -> bool
        decreases max_ops,
    {
        max_ops == 0 || self.sched.ready.len() == 0 || (self.tick_safe() && self.tick().run_safe(
            (max_ops - 1) as nat,
        ))
    }
}

} // verus!
