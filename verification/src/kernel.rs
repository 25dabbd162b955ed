//! The microkernel core.
//!
//! This is the privileged part, and it is deliberately small. It provides only
//! four services: it creates and schedules threads, it owns address spaces and
//! memory regions, it carries synchronous IPC between threads, and it mints and
//! resolves capabilities. It does not know what a filesystem is, or a pager, or
//! a console. Those are ordinary tasks that happen to answer IPC. That split,
//! mechanism in the core and policy in user space, is the whole idea of a
//! microkernel.
//!
//! Every syscall a task issues is named by a capability slot, and the first
//! thing the core does is resolve that slot. If the slot is empty, the wrong
//! kind, or missing a right, the syscall is denied. There is no code path that
//! reaches a kernel object except through a resolved capability.
//!
//! The contracts speak of the mathematical state [`KernelView`]: every operation
//! is proved to change it exactly as the function of the same name in
//! [`crate::state`] says, and to keep the invariant of [`crate::soundness`].

use crate::capability::{CapEntry, CapId, CapSlot, CapTable, Capability, ObjectRef, Rights};
use crate::error::KernelError;
use crate::ipc::{Endpoint, MsgSpec};
use crate::memory::Region;
use crate::prng::Prng;
use crate::scheduler::{Policy, Scheduler};
use crate::state::{KernelView, TaskView};
use crate::text::{same_text, IntoName};
use crate::thread::{Op, PendingMsg, Thread, ThreadState, ThreadView};
use crate::trace::{Event, EventView};
use crate::{EndpointId, RegionId, TaskId, ThreadId};
use std::collections::{BTreeMap, BTreeSet};
use vstd::prelude::*;

verus! {

/// A task: an address space, a capability table, and its threads.
///
/// The address space is expressed entirely through the capability table. A task
/// can reach exactly the regions it holds a memory capability for, and nothing
/// else. There is no ambient authority.
#[derive(Debug, Clone)]
pub struct Task {
    /// Task identifier.
    pub id: TaskId,
    /// Human readable name.
    pub name: String,
    /// The capability table, the task view of the world.
    pub caps: CapTable,
    /// The threads that belong to the task.
    pub threads: Vec<ThreadId>,
}

impl View for Task {
    type V = TaskView;

    open spec fn view(&self) -> TaskView {
        TaskView { id: self.id, name: self.name@, caps: self.caps@, threads: self.threads@ }
    }
}

/// A summary of a completed run, derived from the trace.
#[derive(Debug, Clone, PartialEq, Eq)]
pub struct RunReport {
    /// Number of ops executed.
    pub ops_executed: u64,
    /// Number of scheduler dispatches (context switches).
    pub context_switches: u64,
    /// Number of successful IPC rendezvous.
    pub rendezvous: u64,
    /// Number of capabilities transferred over IPC.
    pub cap_transfers: u64,
    /// Number of denied syscalls.
    pub denials: u64,
    /// Number of memory reads.
    pub mem_reads: u64,
    /// Number of memory writes.
    pub mem_writes: u64,
    /// Final simulator tick.
    pub final_tick: u64,
    /// True when the run stopped because every remaining thread was blocked and
    /// none could make progress.
    pub deadlocked: bool,
}

impl Default for RunReport {
    /// The summary of a run in which nothing happened.
    fn default() -> (report: RunReport)
        ensures
            report == (RunReport {
                ops_executed: 0,
                context_switches: 0,
                rendezvous: 0,
                cap_transfers: 0,
                denials: 0,
                mem_reads: 0,
                mem_writes: 0,
                final_tick: 0,
                deadlocked: false,
            }),
    {
        RunReport {
            ops_executed: 0,
            context_switches: 0,
            rendezvous: 0,
            cap_transfers: 0,
            denials: 0,
            mem_reads: 0,
            mem_writes: 0,
            final_tick: 0,
            deadlocked: false,
        }
    }
}

/// Whether a report is the summary of a run of `ops` ops that ended in state
/// `after`, when the trace had `start` events before it.
pub open spec fn summarizes(report: RunReport, after: KernelView, start: nat, ops: nat) -> bool {
    let seen = after.trace.skip(start as int);
    &&& report.ops_executed == ops
    &&& report.context_switches == after.sched.switches
    &&& report.rendezvous == crate::state::tally(seen, |e: EventView| e is Rendezvous)
    &&& report.cap_transfers == crate::state::tally(seen, |e: EventView| e is CapTransfer)
    &&& report.denials == crate::state::tally(seen, |e: EventView| e is Denied)
    &&& report.mem_reads == crate::state::tally(seen, |e: EventView| e is MemRead)
    &&& report.mem_writes == crate::state::tally(seen, |e: EventView| e is MemWrite)
    &&& report.final_tick == after.clock
    &&& report.deadlocked <==> after.sched.ready.len() == 0 && !after.all_done()
}

/// The microkernel.
#[derive(Debug, Clone)]
pub struct Kernel {
    /// The tasks, in order of their numbers, as are the other objects.
    tasks: Vec<Task>,
    threads: Vec<Thread>,
    endpoints: Vec<Endpoint>,
    regions: Vec<Region>,
    scheduler: Scheduler,
    prng: Prng,
    clock: u64,
    trace: Vec<Event>,
    next_cap_id: CapId,
    /// The capability derivation tree: each minted capability maps to the parent
    /// it was derived from, or `None` for a root capability created by a grant.
    /// Revoking a capability walks this tree to reach every descendant.
    cdt: BTreeMap<CapId, Option<CapId>>,
}

impl View for Kernel {
    type V = KernelView;

    closed spec fn view(&self) -> KernelView {
        KernelView {
            tasks: self.tasks@.map_values(|t: Task| t@),
            threads: self.threads@.map_values(|t: Thread| t@),
            endpoints: self.endpoints@.map_values(|e: Endpoint| e@),
            regions: self.regions@.map_values(|r: Region| r@),
            sched: self.scheduler@,
            rng: self.prng@,
            clock: self.clock as nat,
            trace: crate::trace::trace_view(self.trace@),
            next_cap_id: self.next_cap_id as nat,
            cdt: self.cdt@,
        }
    }
}

impl Kernel {
    /// The invariant of every kernel between two operations: queues and authority
    /// are in order, and the trace accounts for what every thread has done.
    pub open spec fn wf(&self) -> bool {
        self@.wf() && self@.recorded()
    }

    /// A kernel seeded for determinism, using the round robin policy.
    pub fn new(seed: u64) -> (kernel: Kernel)
        ensures
            kernel.wf(),
            kernel@ == KernelView::boot(seed, Policy::RoundRobin),
    {
        Kernel::with_policy(seed, Policy::RoundRobin)
    }

    /// A kernel with an explicit scheduling policy.
    pub fn with_policy(seed: u64, policy: Policy) -> (kernel: Kernel)
        ensures
            kernel.wf(),
            kernel@ == KernelView::boot(seed, policy),
    {
        let kernel = Kernel {
            tasks: Vec::new(),
            threads: Vec::new(),
            endpoints: Vec::new(),
            regions: Vec::new(),
            scheduler: Scheduler::new(policy),
            prng: Prng::new(seed),
            clock: 0,
            trace: Vec::new(),
            next_cap_id: 0,
            cdt: BTreeMap::new(),
        };
        proof {
            assert(kernel@ =~= KernelView::boot(seed, policy));
            crate::soundness::lemma_boot(seed, policy);
            crate::history::lemma_boot(seed, policy);
        }
        kernel
    }

    // -- small steps ---------------------------------------------------------

    /// Put an event on record.
    fn emit(&mut self, event: Event)
        ensures
            final(self)@ == old(self)@.emit(event@),
    {
        self.trace.push(event);
        proof {
            assert(self@ =~= old(self)@.emit(event@));
        }
    }

    /// Put a refused syscall on record.
    fn deny(&mut self, tid: ThreadId, syscall: &'static str, err: KernelError)
        ensures
            final(self)@ == old(self)@.deny(tid, syscall@, err),
    {
        self.emit(Event::Denied { thread: tid, syscall, reason: err.to_string() });
    }

    /// Step a thread past its current op.
    fn advance(&mut self, tid: ThreadId)
        requires
            old(self)@.has_thread(tid),
            old(self)@.threads[tid as int].pc < old(self)@.threads[tid as int].program.len(),
        ensures
            final(self)@ == old(self)@.advance(tid),
    {
        self.threads[tid as usize].advance();
        proof {
            assert(self@ =~= old(self)@.advance(tid));
        }
    }

    /// Put a thread in another state.
    fn set_state(&mut self, tid: ThreadId, state: ThreadState)
        requires
            old(self)@.has_thread(tid),
        ensures
            final(self)@ == old(self)@.with_thread(
                tid,
                old(self)@.threads[tid as int].in_state(state),
            ),
    {
        self.threads[tid as usize].set_state(state);
        proof {
            assert(self@ =~= old(self)@.with_thread(
                tid,
                old(self)@.threads[tid as int].in_state(state),
            ));
        }
    }

    /// Put a thread at the back of the ready queue.
    fn enqueue(&mut self, tid: ThreadId)
        requires
            old(self)@.has_thread(tid),
        ensures
            final(self)@ == old(self)@.enqueue(tid),
    {
        let priority: u8 = self.threads[tid as usize].priority();
        self.scheduler.enqueue(tid, priority);
        proof {
            assert(self@ =~= old(self)@.enqueue(tid));
        }
    }

    /// Take a capability out of the table of a task.
    fn take_cap(&mut self, task: TaskId, slot: CapSlot) -> (cap: Option<Capability>)
        requires
            old(self)@.has_task(task),
        ensures
            cap == old(self)@.table(task).get(slot),
            final(self)@ == old(self)@.with_table(task, old(self)@.table(task).remove(slot)),
    {
        let cap = self.tasks[task as usize].caps.remove(slot);
        proof {
            assert(self@ =~= old(self)@.with_table(task, old(self)@.table(task).remove(slot)));
        }
        cap
    }

    /// Put a capability into the next slot of a task.
    fn put_cap(&mut self, task: TaskId, entry: CapEntry) -> (slot: CapSlot)
        requires
            old(self)@.has_task(task),
            old(self)@.table(task).wf(),
            old(self)@.table(task).next < u32::MAX,
        ensures
            slot == old(self)@.table(task).next_slot(),
            final(self)@ == old(self)@.with_table(task, old(self)@.table(task).install(entry)),
    {
        let slot: CapSlot = self.tasks[task as usize].caps.install_entry(entry);
        proof {
            assert(self@ =~= old(self)@.with_table(task, old(self)@.table(task).install(entry)));
        }
        slot
    }

    // -- object creation, all kernel privileged ------------------------------

    /// Create a task with an empty capability table.
    pub fn create_task(&mut self, name: impl IntoName) -> (id: TaskId)
        requires
            old(self).wf(),
            old(self)@.tasks.len() < u32::MAX,
        ensures
            id == old(self)@.tasks.len(),
            final(self)@ == old(self)@.create_task(name.name_text()),
            final(self).wf(),
    {
        let ghost text = name.name_text();
        proof {
            crate::soundness::lemma_create_task(self@, text);
            crate::history::lemma_unchanged(self@, self@.create_task(text));
        }
        let id: TaskId = self.tasks.len() as TaskId;
        self.tasks.push(
            Task { id, name: name.into_name(), caps: CapTable::new(), threads: Vec::new() },
        );
        proof {
            assert(self@ =~= old(self)@.create_task(text));
        }
        id
    }

    /// Create an IPC endpoint.
    pub fn create_endpoint(&mut self) -> (id: EndpointId)
        requires
            old(self).wf(),
            old(self)@.endpoints.len() < u32::MAX,
        ensures
            id == old(self)@.endpoints.len(),
            final(self)@ == old(self)@.create_endpoint(),
            final(self).wf(),
    {
        proof {
            crate::soundness::lemma_create_endpoint(self@);
            crate::history::lemma_unchanged(self@, self@.create_endpoint());
        }
        let id: EndpointId = self.endpoints.len() as EndpointId;
        self.endpoints.push(Endpoint::new());
        proof {
            assert(self@ =~= old(self)@.create_endpoint());
        }
        id
    }

    /// Create a zeroed memory region owned by a task. Creating a region does not
    /// by itself grant access. The owner still needs a capability, minted with
    /// [`Kernel::grant`], to touch it.
    pub fn create_region(&mut self, owner: TaskId, len: usize) -> (id: RegionId)
        requires
            old(self).wf(),
            old(self)@.regions.len() < u32::MAX,
        ensures
            id == old(self)@.regions.len(),
            final(self)@ == old(self)@.create_region(owner, len),
            final(self).wf(),
    {
        proof {
            crate::soundness::lemma_create_region(self@, owner, len);
            crate::history::lemma_unchanged(self@, self@.create_region(owner, len));
        }
        let id: RegionId = self.regions.len() as RegionId;
        self.regions.push(Region::new(id, owner, len));
        proof {
            assert(self@ =~= old(self)@.create_region(owner, len));
        }
        id
    }

    /// Spawn a thread in a task and make it ready to run.
    pub fn spawn_thread(
        &mut self,
        task: TaskId,
        name: impl IntoName,
        priority: u8,
        program: Vec<Op>,
    ) -> (id: ThreadId)
        requires
            old(self).wf(),
            old(self)@.threads.len() < u32::MAX,
        ensures
            id == old(self)@.threads.len(),
            final(self)@ == old(self)@.spawn_thread(
                task,
                name.name_text(),
                priority,
                crate::thread::program_view(program@),
            ),
            final(self).wf(),
    {
        let ghost text = name.name_text();
        let ghost ops = crate::thread::program_view(program@);
        proof {
            crate::soundness::lemma_spawn(self@, task, text, priority, ops);
            crate::history::lemma_spawn(self@, task, text, priority, ops);
        }
        let id: ThreadId = self.threads.len() as ThreadId;
        let thread = Thread::new(id, task, name, priority, program);
        if (task as usize) < self.tasks.len() {
            self.tasks[task as usize].threads.push(id);
        }
        self.threads.push(thread);
        self.scheduler.enqueue(id, priority);
        proof {
            assert(self@ =~= old(self)@.spawn_thread(task, text, priority, ops));
        }
        id
    }

    // -- capabilities --------------------------------------------------------

    /// Allocate a fresh globally unique capability identity and record its parent
    /// in the derivation tree.
    fn mint_id(&mut self, parent: Option<CapId>) -> (id: CapId)
        requires
            old(self)@.next_cap_id < u64::MAX,
        ensures
            id == old(self)@.fresh_id(),
            final(self)@ == old(self)@.mint_id(parent),
    {
        let id: CapId = self.next_cap_id;
        self.next_cap_id = self.next_cap_id + 1;
        self.cdt.insert(id, parent);
        proof {
            assert(self@ =~= old(self)@.mint_id(parent));
        }
        id
    }

    /// Mint a capability into a task table and return its slot. This is the only
    /// operation that creates authority from nothing, and it is available only
    /// to whoever drives the kernel, never to a task from inside its program.
    pub fn grant(&mut self, task: TaskId, object: ObjectRef, rights: Rights) -> (slot: CapSlot)
        requires
            old(self).wf(),
            old(self)@.has_task(task),
            old(self)@.table(task).next < u32::MAX,
            old(self)@.next_cap_id < u64::MAX,
        ensures
            slot == old(self)@.table(task).next_slot(),
            final(self)@ == old(self)@.grant(task, object, rights),
            final(self).wf(),
    {
        proof {
            crate::soundness::lemma_grant(self@, task, object, rights);
            crate::history::lemma_unchanged(self@, self@.grant(task, object, rights));
            crate::soundness::lemma_table_wf(self@, task);
        }
        let id: CapId = self.mint_id(None);
        let slot: CapSlot = self.put_cap(
            task,
            CapEntry { cap: Capability::new(object, rights), id },
        );
        slot
    }

    /// Mint a derived capability from one a task already holds, with rights no
    /// stronger than the source, and install it into a target task. This is
    /// capability delegation: authority flows downward and can only ever narrow.
    /// `drop_mask` names the rights to strip, so the child carries
    /// `source.rights.minus(drop_mask)` and never more. The child is recorded as
    /// a descendant of the source in the derivation tree, so revoking the source
    /// later revokes this child too. Returns the new slot and the rights it
    /// actually carries.
    ///
    /// Minting is a privileged operation exposed to whoever drives the kernel,
    /// modelling a task asking the core to delegate. A task can never mint from a
    /// capability it does not hold: an absent source slot is a denial.
    ///
    /// # Errors
    ///
    /// Returns [`KernelError::NoSuchObject`] if either task does not exist, and
    /// [`KernelError::NoSuchCapability`] if the source slot is empty, fabricated,
    /// or revoked.
    pub fn mint(
        &mut self,
        from: TaskId,
        src_slot: CapSlot,
        to: TaskId,
        drop_mask: Rights,
    ) -> (answer: Result<(CapSlot, Rights), KernelError>)
        requires
            old(self).wf(),
            old(self)@.held(from, src_slot) is Some ==> old(self)@.next_cap_id < u64::MAX,
            old(self)@.held(from, src_slot) is Some && old(self)@.has_task(to) ==> old(
                self,
            )@.table(to).next < u32::MAX,
        ensures
            answer == old(self)@.mint_answer(from, src_slot, to, drop_mask),
            final(self)@ == old(self)@.mint(from, src_slot, to, drop_mask),
            final(self).wf(),
    {
        proof {
            crate::soundness::lemma_mint(self@, from, src_slot, to, drop_mask);
            crate::history::lemma_unchanged(self@, self@.mint(from, src_slot, to, drop_mask));
            crate::soundness::lemma_table_wf(self@, to);
        }
        if from as usize >= self.tasks.len() {
            return Err(KernelError::NoSuchObject { object: ObjectRef::Task(from) });
        }
        let src = match self.tasks[from as usize].caps.entry(src_slot) {
            Some(entry) => entry,
            None => return Err(KernelError::NoSuchCapability { slot: src_slot }),
        };
        let child_rights = src.cap.rights.minus(drop_mask);
        let id: CapId = self.mint_id(Some(src.id));
        if to as usize >= self.tasks.len() {
            return Err(KernelError::NoSuchObject { object: ObjectRef::Task(to) });
        }
        let slot: CapSlot = self.put_cap(
            to,
            CapEntry { cap: Capability::new(src.cap.object, child_rights), id },
        );
        Ok((slot, child_rights))
    }

    /// Revoke a single capability slot from a task. A revoked slot is gone for
    /// good and any later use of that slot number is denied. This does not touch
    /// capabilities derived from it. For transitive revocation use
    /// [`Kernel::revoke_tree`].
    pub fn revoke(&mut self, task: TaskId, slot: CapSlot) -> (cap: Option<Capability>)
        requires
            old(self).wf(),
        ensures
            cap == old(self)@.revoke_answer(task, slot),
            cap == (match old(self)@.held(task, slot) {
                Some(entry) => Some(entry.cap),
                None => None,
            }),
            final(self)@ == old(self)@.revoke(task, slot),
            final(self).wf(),
    {
        proof {
            crate::soundness::lemma_revoke(self@, task, slot);
            crate::history::lemma_unchanged(self@, self@.revoke(task, slot));
        }
        if (task as usize) < self.tasks.len() {
            self.take_cap(task, slot)
        } else {
            None
        }
    }

    /// The derivation identity of the capability held at a task slot, if any.
    pub fn cap_id(&self, task: TaskId, slot: CapSlot) -> (id: Option<CapId>)
        ensures
            id == self@.cap_id(task, slot),
    {
        if (task as usize) < self.tasks.len() {
            self.tasks[task as usize].caps.id_of(slot)
        } else {
            None
        }
    }

    // -- capability resolution -----------------------------------------------

    /// Resolve a slot in a task table to an object reference, checking the object
    /// kind and the required rights. Every failure mode is a denial: an absent
    /// slot (fabricated, guessed, or revoked), a wrong object kind, or a missing
    /// right. This single function is the choke point for all authority in the
    /// system.
    ///
    /// # Errors
    ///
    /// Returns a [`KernelError`] describing the denial: the task or slot is
    /// absent, the capability names the wrong kind of object, or it lacks a
    /// required right.
    pub fn resolve(
        &self,
        task: TaskId,
        slot: CapSlot,
        want_kind: &'static str,
        needed: Rights,
    ) -> (answer: Result<ObjectRef, KernelError>)
        ensures
            answer == self@.resolve(task, slot, want_kind, needed),
    {
        if task as usize >= self.tasks.len() {
            return Err(KernelError::NoSuchObject { object: ObjectRef::Task(task) });
        }
        let cap = match self.tasks[task as usize].caps.get(slot) {
            Some(cap) => cap,
            None => return Err(KernelError::NoSuchCapability { slot }),
        };
        if !same_text(cap.object.kind(), want_kind) {
            return Err(KernelError::WrongObject { slot, expected: want_kind });
        }
        if !cap.rights.contains(needed) {
            return Err(KernelError::MissingRight { slot, needed });
        }
        Ok(cap.object)
    }

    // -- memory syscalls, non blocking ---------------------------------------

    /// The task that a thread belongs to.
    fn task_of(&self, thread: ThreadId) -> (task: Result<TaskId, KernelError>)
        ensures
            task == (if self@.has_thread(thread) {
                Ok(self@.threads[thread as int].task)
            } else {
                Err(KernelError::NoSuchObject { object: ObjectRef::Thread(thread) })
            }),
    {
        if (thread as usize) < self.threads.len() {
            Ok(self.threads[thread as usize].task())
        } else {
            Err(KernelError::NoSuchObject { object: ObjectRef::Thread(thread) })
        }
    }

    /// The region that a thread reaches through a slot with a right.
    fn reach_region(
        &self,
        thread: ThreadId,
        mem: CapSlot,
        needed: Rights,
    ) -> (answer: Result<RegionId, KernelError>)
        ensures
            answer == self@.reach_region(thread, mem, needed),
    {
        let task: TaskId = match self.task_of(thread) {
            Ok(task) => task,
            Err(e) => return Err(e),
        };
        match self.resolve(task, mem, "region", needed) {
            Ok(object) => {
                let rid: RegionId = object.number();
                if (rid as usize) < self.regions.len() {
                    Ok(rid)
                } else {
                    Err(KernelError::NoSuchObject { object })
                }
            },
            Err(e) => Err(e),
        }
    }

    /// Read one byte through a memory capability. Denied unless the calling
    /// thread task holds a region capability with the read right for the target.
    ///
    /// # Errors
    ///
    /// Returns a [`KernelError`] if the capability does not resolve to a readable
    /// region or the offset is out of bounds.
    pub fn sys_read(
        &self,
        thread: ThreadId,
        mem: CapSlot,
        offset: usize,
    ) -> (answer: Result<u8, KernelError>)
        ensures
            answer == self@.sys_read(thread, mem, offset),
    {
        match self.reach_region(thread, mem, Rights::read()) {
            Ok(rid) => self.regions[rid as usize].read(offset),
            Err(e) => Err(e),
        }
    }

    /// Write one byte, without regard to the rest of the invariant.
    fn write_byte(
        &mut self,
        thread: ThreadId,
        mem: CapSlot,
        offset: usize,
        value: u8,
    ) -> (answer: Result<(), KernelError>)
        ensures
            answer == old(self)@.sys_write_answer(thread, mem, offset),
            final(self)@ == old(self)@.sys_write(thread, mem, offset, value),
    {
        match self.reach_region(thread, mem, Rights::write()) {
            Ok(rid) => {
                let answer = self.regions[rid as usize].write(offset, value);
                proof {
                    assert(self@ =~= old(self)@.sys_write(thread, mem, offset, value));
                }
                answer
            },
            Err(e) => Err(e),
        }
    }

    /// Write one byte through a memory capability. Denied unless the calling
    /// thread task holds a region capability with the write right for the target.
    ///
    /// # Errors
    ///
    /// Returns a [`KernelError`] if the capability does not resolve to a writable
    /// region or the offset is out of bounds.
    pub fn sys_write(
        &mut self,
        thread: ThreadId,
        mem: CapSlot,
        offset: usize,
        value: u8,
    ) -> (answer: Result<(), KernelError>)
        requires
            old(self).wf(),
        ensures
            answer == old(self)@.sys_write_answer(thread, mem, offset),
            final(self)@ == old(self)@.sys_write(thread, mem, offset, value),
            final(self).wf(),
    {
        proof {
            crate::soundness::lemma_sys_write(self@, thread, mem, offset, value);
            crate::history::lemma_unchanged(self@, self@.sys_write(thread, mem, offset, value));
        }
        self.write_byte(thread, mem, offset, value)
    }

    // -- one step of a thread ------------------------------------------------

    /// Finish a thread.
    fn exit(&mut self, tid: ThreadId)
        requires
            old(self)@.has_thread(tid),
        ensures
            final(self)@ == old(self)@.exit(tid),
    {
        self.set_state(tid, ThreadState::Exited);
        self.emit(Event::Exit { thread: tid });
    }

    /// The number of the region named by a slot of a thread's task.
    fn region_id(&self, tid: ThreadId, mem: CapSlot) -> (region: RegionId)
        requires
            self@.has_thread(tid),
        ensures
            region == self@.region_id(tid, mem),
    {
        let task: TaskId = self.threads[tid as usize].task();
        if (task as usize) < self.tasks.len() {
            match self.tasks[task as usize].caps.get(mem) {
                Some(cap) => match cap.object {
                    ObjectRef::Region(id) => id,
                    _ => u32::MAX,
                },
                None => u32::MAX,
            }
        } else {
            u32::MAX
        }
    }

    /// A thread burns cycles.
    fn do_compute(&mut self, tid: ThreadId, cycles: u32)
        requires
            old(self)@.has_thread(tid),
            old(self)@.threads[tid as int].current_op() is Some,
            old(self)@.threads[tid as int].cycles + cycles <= u64::MAX,
        ensures
            final(self)@ == old(self)@.with_thread(
                tid,
                old(self)@.threads[tid as int].computed(cycles),
            ).emit(EventView::Compute { thread: tid, cycles }),
    {
        self.threads[tid as usize].compute(cycles);
        proof {
            assert(self@ =~= old(self)@.with_thread(
                tid,
                old(self)@.threads[tid as int].computed(cycles),
            ));
        }
        self.emit(Event::Compute { thread: tid, cycles });
    }

    /// A thread reads a byte.
    fn do_read(&mut self, tid: ThreadId, mem: CapSlot, offset: usize)
        requires
            old(self)@.has_thread(tid),
            old(self)@.threads[tid as int].current_op() is Some,
        ensures
            final(self)@ == old(self)@.do_read(tid, mem, offset),
    {
        match self.sys_read(tid, mem, offset) {
            Ok(value) => {
                let region: RegionId = self.region_id(tid, mem);
                self.emit(Event::MemRead { thread: tid, region, offset, value });
            },
            Err(e) => {
                self.deny(tid, "read", e);
            },
        }
        self.advance(tid);
    }

    /// A thread writes a byte.
    fn do_write(&mut self, tid: ThreadId, mem: CapSlot, offset: usize, value: u8)
        requires
            old(self)@.has_thread(tid),
            old(self)@.threads[tid as int].current_op() is Some,
        ensures
            final(self)@ == old(self)@.do_write(tid, mem, offset, value),
    {
        match self.write_byte(tid, mem, offset, value) {
            Ok(_) => {
                let region: RegionId = self.region_id(tid, mem);
                self.emit(Event::MemWrite { thread: tid, region, offset, value });
            },
            Err(e) => {
                proof {
                    assert(self@ =~= old(self)@);
                }
                self.deny(tid, "write", e);
            },
        }
        self.advance(tid);
    }

    /// Refuse a syscall and step past it.
    fn refuse(&mut self, tid: ThreadId, syscall: &'static str, err: KernelError)
        requires
            old(self)@.has_thread(tid),
            old(self)@.threads[tid as int].current_op() is Some,
        ensures
            final(self)@ == old(self)@.deny(tid, syscall@, err).advance(tid),
    {
        self.deny(tid, syscall, err);
        self.advance(tid);
    }

    /// Why the capability named for transfer cannot travel, if it cannot.
    fn transfer_refusal(&self, task: TaskId, transfer: Option<CapSlot>) -> (refusal: Option<
        KernelError,
    >)
        ensures
            refusal == self@.transfer_refusal(task, transfer),
    {
        let slot: CapSlot = match transfer {
            Some(slot) => slot,
            None => return None,
        };
        if task as usize >= self.tasks.len() {
            return Some(KernelError::NoSuchCapability { slot });
        }
        match self.tasks[task as usize].caps.entry(slot) {
            Some(entry) => if entry.cap.rights.contains(Rights::grant()) {
                None
            } else {
                Some(KernelError::MissingRight { slot, needed: Rights::grant() })
            },
            None => Some(KernelError::NoSuchCapability { slot }),
        }
    }

    /// Move the transferred capability, and the reply capability if this is a
    /// reply, out of the table of the sender. Returns what travels.
    fn depart(
        &mut self,
        tid: ThreadId,
        ep_slot: CapSlot,
        transfer: Option<CapSlot>,
        consume_reply: bool,
    ) -> (carried: Option<CapEntry>)
        requires
            old(self)@.has_thread(tid),
            old(self)@.has_task(old(self)@.threads[tid as int].task),
        ensures
            carried == (match transfer {
                Some(slot) => old(self)@.held(old(self)@.threads[tid as int].task, slot),
                None => None,
            }),
            final(self)@ == old(self)@.departed(tid, ep_slot, transfer, consume_reply),
    {
        let task: TaskId = self.threads[tid as usize].task();
        let carried: Option<CapEntry> = match transfer {
            Some(slot) => {
                let entry = self.tasks[task as usize].caps.entry(slot);
                self.take_cap(task, slot);
                entry
            },
            None => None,
        };
        let ghost moved = self@;
        if consume_reply {
            self.take_cap(task, ep_slot);
            self.threads[tid as usize].set_reply_to(None);
            proof {
                assert(self@ =~= moved.with_table(
                    task,
                    moved.table(task).remove(ep_slot),
                ).with_thread(tid, moved.threads[tid as int].replying_to(None)));
            }
        }
        carried
    }

    /// Install a capability that came with a message, and record the transfer.
    fn arrive(&mut self, sender: ThreadId, receiver: ThreadId, entry: CapEntry)
        requires
            old(self)@.has_thread(sender),
            old(self)@.has_thread(receiver),
            old(self)@.has_task(old(self)@.threads[receiver as int].task),
            old(self)@.table(old(self)@.threads[receiver as int].task).wf(),
            old(self)@.table(old(self)@.threads[receiver as int].task).next < u32::MAX,
        ensures
            final(self)@ == old(self)@.arrived(sender, receiver, entry),
    {
        let from: TaskId = self.threads[sender as usize].task();
        let to: TaskId = self.threads[receiver as usize].task();
        let new_slot: CapSlot = self.put_cap(to, entry);
        self.emit(
            Event::CapTransfer {
                from,
                to,
                object: entry.cap.object,
                rights: entry.cap.rights,
                new_slot,
            },
        );
        let names_endpoint: bool = match entry.cap.object {
            ObjectRef::Endpoint(_) => true,
            _ => false,
        };
        if names_endpoint && entry.cap.rights.contains(Rights::send()) {
            let ghost installed = self@;
            self.threads[receiver as usize].set_reply_to(Some(new_slot));
            proof {
                assert(self@ =~= installed.with_thread(
                    receiver,
                    installed.threads[receiver as int].replying_to(Some(new_slot)),
                ));
            }
        }
    }

    /// Step a parked thread past its op and back onto the ready queue.
    fn wake(&mut self, tid: ThreadId)
        requires
            old(self)@.has_thread(tid),
            old(self)@.threads[tid as int].pc < old(self)@.threads[tid as int].program.len(),
        ensures
            final(self)@ == old(self)@.wake(tid),
    {
        self.advance(tid);
        self.set_state(tid, ThreadState::Ready);
        proof {
            assert(self@ =~= old(self)@.with_thread(
                tid,
                old(self)@.threads[tid as int].advanced().in_state(ThreadState::Ready),
            ));
        }
        self.enqueue(tid);
    }

    /// Complete a rendezvous: copy the message, move any capability, wake the
    /// partner that was blocked, and record it. `partner` is the thread that was
    /// parked and must be returned to the ready queue. The other thread is the
    /// running dispatch and is requeued by the run loop.
    fn deliver(
        &mut self,
        sender: ThreadId,
        receiver: ThreadId,
        ep: EndpointId,
        msg: PendingMsg,
        partner: ThreadId,
    )
        requires
            old(self)@.has_thread(sender),
            old(self)@.has_thread(receiver),
            old(self)@.has_thread(partner),
            old(self)@.threads[partner as int].current_op() is Some,
            msg@.cap is Some ==> {
                &&& old(self)@.has_task(old(self)@.threads[receiver as int].task)
                &&& old(self)@.table(old(self)@.threads[receiver as int].task).wf()
                &&& old(self)@.table(old(self)@.threads[receiver as int].task).next < u32::MAX
            },
        ensures
            final(self)@ == old(self)@.deliver(sender, receiver, ep, msg@, partner),
    {
        self.emit(
            Event::Rendezvous {
                sender,
                receiver,
                endpoint: ep,
                label: msg.label,
                bytes: msg.bytes.len(),
            },
        );
        if let Some(entry) = msg.cap {
            self.arrive(sender, receiver, entry);
        }
        self.wake(partner);
    }

    /// A message that has left its sender meets the endpoint: a waiting receiver
    /// takes it at once, or else the sender parks.
    fn post(&mut self, tid: ThreadId, ep: EndpointId, msg: PendingMsg)
        requires
            old(self)@.sched_wf(Some(tid)),
            old(self)@.tables_wf(),
            old(self)@.threads[tid as int].current_op() is Some,
            old(self)@.has_endpoint(ep),
            old(self)@.post_safe(ep, msg@),
        ensures
            final(self)@ == old(self)@.post(tid, ep, msg@),
    {
        proof {
            assert(self@.endpoint_wf(ep));
            if self@.endpoints[ep as int].receivers.len() > 0 {
                let first = self@.endpoints[ep as int].receivers[0];
                assert(self@.threads[first as int].state == ThreadState::BlockedRecv(ep));
                assert(self@.thread_wf(first, Some(tid)));
                assert(self@.tasks[self@.threads[first as int].task as int].id
                    == self@.threads[first as int].task);
            }
            assert(self@.thread_wf(tid, Some(tid)));
        }
        let ghost before = self@;
        let waiting: Option<ThreadId> = self.endpoints[ep as usize].receivers.pop_front();
        match waiting {
            Some(receiver) => {
                proof {
                    assert(self@ =~= before.with_endpoint(
                        ep,
                        crate::ipc::EndpointView {
                            receivers: before.endpoints[ep as int].receivers.drop_first(),
                            ..before.endpoints[ep as int]
                        },
                    ));
                }
                self.deliver(tid, receiver, ep, msg, receiver);
                self.advance(tid);
            },
            None => {
                self.endpoints[ep as usize].senders.push_back(tid);
                self.threads[tid as usize].park_sending(ep, msg);
                proof {
                    assert(self@ =~= before.with_endpoint(
                        ep,
                        crate::ipc::EndpointView {
                            senders: before.endpoints[ep as int].senders.push(tid),
                            ..before.endpoints[ep as int]
                        },
                    ).with_thread(tid, before.threads[tid as int].parked_sending(ep, msg@)));
                }
                self.emit(Event::BlockSend { thread: tid, endpoint: ep });
            },
        }
    }

    /// A send, shared by [`Op::Send`] and [`Op::Reply`]. When `consume_reply` is
    /// set the endpoint slot is a one shot reply capability that is destroyed
    /// after use.
    fn do_send(&mut self, tid: ThreadId, ep_slot: CapSlot, msg: MsgSpec, consume_reply: bool)
        requires
            old(self)@.busy_wf(Some(tid), 1),
            old(self)@.send_safe(tid, ep_slot, msg@),
            old(self)@.threads[tid as int].current_op() is Some,
        ensures
            final(self)@ == old(self)@.do_send(tid, ep_slot, msg@, consume_reply),
    {
        let ghost before = self@;
        let task: TaskId = self.threads[tid as usize].task();
        let object = match self.resolve(task, ep_slot, "endpoint", Rights::send()) {
            Ok(object) => object,
            Err(e) => {
                self.refuse(tid, "send", e);
                return;
            },
        };
        // Transfer requires the grant right: a task cannot delegate authority it
        // was not permitted to delegate, and it cannot transfer a slot it does
        // not hold.
        if let Some(e) = self.transfer_refusal(task, msg.transfer) {
            self.refuse(tid, "send", e);
            return;
        }
        let ep: EndpointId = object.number();
        if ep as usize >= self.endpoints.len() {
            self.refuse(tid, "send", KernelError::NoSuchObject { object });
            return;
        }
        let cap = self.depart(tid, ep_slot, msg.transfer, consume_reply);
        proof {
            crate::soundness::lemma_departed(before, tid, ep_slot, msg@, consume_reply);
            assert(before.thread_wf(tid, Some(tid)));
            assert(before.endpoint_wf(ep));
            if before.endpoints[ep as int].receivers.len() > 0 {
                let first = before.endpoints[ep as int].receivers[0];
                assert(before.threads[first as int].state == ThreadState::BlockedRecv(ep));
                assert(before.thread_wf(first, Some(tid)));
                assert(self@.threads[first as int] == before.threads[first as int]);
            }
        }
        let pending = PendingMsg { label: msg.label, bytes: msg.bytes, cap };
        proof {
            assert(pending@ == before.resolved_msg(task, msg@));
        }
        self.post(tid, ep, pending);
    }

    /// The endpoint that a slot of a task reaches with a right.
    fn reach_endpoint(
        &self,
        task: TaskId,
        slot: CapSlot,
        needed: Rights,
    ) -> (answer: Result<EndpointId, KernelError>)
        ensures
            answer == self@.reach_endpoint(task, slot, needed),
    {
        match self.resolve(task, slot, "endpoint", needed) {
            Ok(object) => {
                let ep: EndpointId = object.number();
                if (ep as usize) < self.endpoints.len() {
                    Ok(ep)
                } else {
                    Err(KernelError::NoSuchObject { object })
                }
            },
            Err(e) => Err(e),
        }
    }

    /// A receive: the longest waiting sender is served at once, or else the
    /// receiver parks.
    fn do_recv(&mut self, tid: ThreadId, ep_slot: CapSlot)
        requires
            old(self)@.busy_wf(Some(tid), 1),
            old(self)@.recv_safe(tid, ep_slot),
            old(self)@.threads[tid as int].current_op() is Some,
        ensures
            final(self)@ == old(self)@.do_recv(tid, ep_slot),
    {
        let ghost before = self@;
        let task: TaskId = self.threads[tid as usize].task();
        let ep: EndpointId = match self.reach_endpoint(task, ep_slot, Rights::recv()) {
            Ok(ep) => ep,
            Err(e) => {
                self.refuse(tid, "recv", e);
                return;
            },
        };
        proof {
            assert(before.endpoint_wf(ep));
            if before.endpoints[ep as int].senders.len() > 0 {
                let first = before.endpoints[ep as int].senders[0];
                assert(before.threads[first as int].state == ThreadState::BlockedSend(ep));
                assert(before.thread_wf(first, Some(tid)));
            }
            assert(before.thread_wf(tid, Some(tid)));
            assert(before.tasks[task as int].id == task);
        }
        let waiting: Option<ThreadId> = self.endpoints[ep as usize].senders.pop_front();
        match waiting {
            Some(sender) => {
                let held = self.threads[sender as usize].take_pending();
                if let Some(msg) = held {
                    proof {
                        assert(self@ =~= before.with_endpoint(
                            ep,
                            crate::ipc::EndpointView {
                                senders: before.endpoints[ep as int].senders.drop_first(),
                                ..before.endpoints[ep as int]
                            },
                        ).with_thread(sender, before.threads[sender as int].relieved()));
                    }
                    self.deliver(sender, tid, ep, msg, sender);
                    self.advance(tid);
                }
            },
            None => {
                self.endpoints[ep as usize].receivers.push_back(tid);
                self.threads[tid as usize].set_state(ThreadState::BlockedRecv(ep));
                proof {
                    assert(self@ =~= before.with_endpoint(
                        ep,
                        crate::ipc::EndpointView {
                            receivers: before.endpoints[ep as int].receivers.push(tid),
                            ..before.endpoints[ep as int]
                        },
                    ).with_thread(
                        tid,
                        before.threads[tid as int].in_state(ThreadState::BlockedRecv(ep)),
                    ));
                }
                self.emit(Event::BlockRecv { thread: tid, endpoint: ep });
            },
        }
    }

    /// Execute the current op of a running thread.
    fn step(&mut self, tid: ThreadId)
        requires
            old(self)@.busy_wf(Some(tid), 1),
            old(self)@.step_safe(tid),
        ensures
            final(self)@ == old(self)@.step(tid),
    {
        let op: Op = match self.threads[tid as usize].current_op() {
            Some(op) => op.clone(),
            None => {
                self.exit(tid);
                return;
            },
        };
        match op {
            Op::Compute(cycles) => self.do_compute(tid, cycles),
            Op::Read { mem, offset } => self.do_read(tid, mem, offset),
            Op::Write { mem, offset, value } => self.do_write(tid, mem, offset, value),
            Op::Send { ep, msg } => self.do_send(tid, ep, msg, false),
            Op::Reply { msg } => match self.threads[tid as usize].reply_to() {
                Some(slot) => self.do_send(tid, slot, msg, true),
                None => self.refuse(tid, "reply", KernelError::NoReplyCapability),
            },
            Op::Recv { ep } => self.do_recv(tid, ep),
            Op::Exit => self.exit(tid),
        }
    }

    // -- the run loop --------------------------------------------------------

    /// Dispatch the next thread, if any is ready.
    fn take_up(&mut self) -> (chosen: Option<ThreadId>)
        requires
            old(self)@.busy_wf(None, 0),
            old(self)@.sched.ready.len() > 0 ==> old(self)@.clock < u64::MAX,
        ensures
            old(self)@.sched.ready.len() == 0 ==> chosen is None && final(self)@ == old(self)@,
            old(self)@.sched.ready.len() > 0 ==> {
                &&& chosen == Some(old(self)@.next_thread())
                &&& final(self)@ == old(self)@.take_up()
            },
    {
        let ghost before = self@;
        let tid: ThreadId = match self.scheduler.dispatch() {
            Some(tid) => tid,
            None => {
                proof {
                    assert(self@ =~= before);
                }
                return None;
            },
        };
        proof {
            crate::soundness::lemma_take_up(before);
            assert(before.thread_wf(tid, None));
        }
        self.clock = self.clock + 1;
        let task: TaskId = self.threads[tid as usize].task();
        self.threads[tid as usize].take_up();
        let tick: u64 = self.clock;
        self.emit(Event::Dispatch { tick, thread: tid, task });
        proof {
            assert(self@ =~= before.take_up());
        }
        Some(tid)
    }

    /// Put a thread that is still running back on the ready queue.
    fn put_back(&mut self, tid: ThreadId)
        requires
            old(self)@.has_thread(tid),
        ensures
            final(self)@ == old(self)@.put_back(tid),
    {
        let running: bool = match self.threads[tid as usize].state() {
            ThreadState::Running => true,
            _ => false,
        };
        if running {
            self.set_state(tid, ThreadState::Ready);
            self.enqueue(tid);
        }
    }

    /// Run the simulation until either no thread is ready or `max_ops` ops have
    /// executed, whichever comes first. Returns a summary derived from the trace.
    pub fn run(&mut self, max_ops: u64) -> (report: RunReport)
        requires
            old(self).wf(),
            old(self)@.can_run(max_ops as nat),
        ensures
            final(self)@ == old(self)@.run(max_ops as nat),
            summarizes(
                report,
                final(self)@,
                old(self)@.trace.len(),
                old(self)@.ops_run(max_ops as nat),
            ),
            final(self).wf(),
    {
        let ghost start = self@;
        proof {
            crate::soundness::lemma_can_run(start, max_ops as nat);
        }
        let trace_start: usize = self.trace.len();
        let mut ops: u64 = 0;
        while ops < max_ops
            invariant
                ops <= max_ops,
                self.wf(),
                self@.run_safe((max_ops - ops) as nat),
                self@.run((max_ops - ops) as nat) == start.run(max_ops as nat),
                ops + self@.ops_run((max_ops - ops) as nat) == start.ops_run(max_ops as nat),
                trace_start == start.trace.len(),
                start.trace.len() <= self@.trace.len(),
            ensures
                ops == max_ops || self@.sched.ready.len() == 0,
            decreases max_ops - ops,
        {
            let ghost before = self@;
            proof {
                reveal(KernelView::wf);
            }
            let tid: ThreadId = match self.take_up() {
                Some(tid) => tid,
                None => break,
            };
            proof {
                crate::soundness::lemma_take_up(before);
                crate::soundness::lemma_step(self@, tid);
            }
            self.step(tid);
            self.put_back(tid);
            proof {
                crate::soundness::lemma_tick(before);
                crate::history::lemma_tick(before);
                crate::history::lemma_chronicled(before, self@);
            }
            ops = ops + 1;
        }
        self.build_report(trace_start, ops)
    }

    /// Sum up a run from the trace.
    fn build_report(&self, trace_start: usize, ops: u64) -> (report: RunReport)
        requires
            trace_start <= self@.trace.len(),
        ensures
            summarizes(report, self@, trace_start as nat, ops as nat),
    {
        let mut report = RunReport::default();
        report.ops_executed = ops;
        report.context_switches = self.scheduler.switches();
        report.final_tick = self.clock;
        let mut at: usize = trace_start;
        proof {
            assert(self@.trace.subrange(trace_start as int, trace_start as int) =~= Seq::empty());
        }
        while at < self.trace.len()
            invariant
                trace_start <= at <= self.trace.len(),
                self.trace.len() == self@.trace.len(),
                report.ops_executed == ops,
                report.context_switches == self@.sched.switches,
                report.final_tick == self@.clock,
                report.rendezvous == crate::state::tally(
                    self@.trace.subrange(trace_start as int, at as int),
                    |e: EventView| e is Rendezvous,
                ),
                report.cap_transfers == crate::state::tally(
                    self@.trace.subrange(trace_start as int, at as int),
                    |e: EventView| e is CapTransfer,
                ),
                report.denials == crate::state::tally(
                    self@.trace.subrange(trace_start as int, at as int),
                    |e: EventView| e is Denied,
                ),
                report.mem_reads == crate::state::tally(
                    self@.trace.subrange(trace_start as int, at as int),
                    |e: EventView| e is MemRead,
                ),
                report.mem_writes == crate::state::tally(
                    self@.trace.subrange(trace_start as int, at as int),
                    |e: EventView| e is MemWrite,
                ),
                report.rendezvous <= at,
                report.cap_transfers <= at,
                report.denials <= at,
                report.mem_reads <= at,
                report.mem_writes <= at,
            decreases self.trace.len() - at,
        {
            proof {
                let seen = self@.trace.subrange(trace_start as int, at + 1);
                assert(seen.drop_last() =~= self@.trace.subrange(trace_start as int, at as int));
                assert(seen.last() == self.trace@[at as int]@);
            }
            match &self.trace[at] {
                Event::Rendezvous { .. } => report.rendezvous = report.rendezvous + 1,
                Event::CapTransfer { .. } => report.cap_transfers = report.cap_transfers + 1,
                Event::Denied { .. } => report.denials = report.denials + 1,
                Event::MemRead { .. } => report.mem_reads = report.mem_reads + 1,
                Event::MemWrite { .. } => report.mem_writes = report.mem_writes + 1,
                _ => {},
            }
            at = at + 1;
        }
        proof {
            assert(self@.trace.subrange(trace_start as int, at as int) =~= self@.trace.skip(
                trace_start as int,
            ));
        }
        let ready: bool = self.scheduler.has_ready();
        let done: bool = self.all_done();
        report.deadlocked = !ready && !done;
        report
    }

    /// Whether every thread has finished.
    fn all_done(&self) -> (done: bool)
        ensures
            done == self@.all_done(),
    {
        let mut at: usize = 0;
        while at < self.threads.len()
            invariant
                at <= self.threads.len(),
                forall|i: int| 0 <= i < at ==> (#[trigger] self@.threads[i]).is_done(),
            decreases self.threads.len() - at,
        {
            if !self.threads[at].is_done() {
                proof {
                    assert(!self@.threads[at as int].is_done());
                }
                return false;
            }
            at = at + 1;
        }
        true
    }

    // -- transitive revocation -----------------------------------------------

    /// Transitively revoke a capability and everything ever derived from it,
    /// wherever those descendants now live. This walks the derivation tree from
    /// the named slot, collects the whole subtree of identities, and removes
    /// every matching capability from every task table in the system and from
    /// every message that a parked sender holds. Such a message is still
    /// delivered, without the capability. It is the operation that makes
    /// delegation safe: handing out a minted capability never costs the granter
    /// the ability to take it all back at once. Returns the number of
    /// capabilities removed.
    pub fn revoke_tree(&mut self, task: TaskId, slot: CapSlot) -> (removed: usize)
        requires
            old(self).wf(),
        ensures
            final(self)@ == old(self)@.revoke_tree(task, slot),
            removed == old(self)@.revoke_tree_answer(task, slot),
            removed == old(self)@.live_count() - final(self)@.live_count(),
            final(self).wf(),
    {
        let root: CapId = match self.cap_id(task, slot) {
            Some(root) => root,
            None => return 0,
        };
        proof {
            crate::soundness::lemma_without_subtree(self@, root);
            crate::history::lemma_unchanged(self@, self@.without_subtree(root));
            reveal(KernelView::wf);
        }
        let ghost before = self@;
        let doomed: BTreeSet<CapId> = crate::derivation::subtree(&self.cdt, root);
        let limit: usize = doomed.len();
        let (held, lost): (usize, Ghost<Set<CapId>>) = self.strip_tables(&doomed);
        let ghost stripped = self@;
        proof {
            assert forall|u: ThreadId, v: ThreadId, id: CapId|
                stripped.has_thread(u) && stripped.has_thread(v)
                    && #[trigger] stripped.threads[u as int].carries_id(id)
                    && #[trigger] stripped.threads[v as int].carries_id(id) implies u == v by {
                let p = crate::soundness::Place::Flight { sender: u };
                let q = crate::soundness::Place::Flight { sender: v };
                assert(before.at(None, p) is Some && before.at(None, q) is Some);
                assert(p == q);
            }
        }
        let (flying, dropped): (usize, Ghost<Set<CapId>>) = self.strip_messages(&doomed);
        proof {
            assert forall|id: CapId| !(#[trigger] lost@.contains(id) && dropped@.contains(id)) by {
                if lost@.contains(id) && dropped@.contains(id) {
                    let (t, s) = choose|t: TaskId, s: CapSlot|
                        (#[trigger] before.held(t, s)) is Some && before.held(t, s)->0.id == id;
                    let u = choose|u: ThreadId|
                        (#[trigger] stripped.threads[u as int]).carries_id(id) && u
                            < stripped.threads.len();
                    let p = crate::soundness::Place::Slot { task: t, slot: s };
                    let q = crate::soundness::Place::Flight { sender: u };
                    assert(before.at(None, p) == before.held(t, s));
                    assert(before.at(None, q) is Some && before.at(None, q)->0.id == id);
                    assert(p == q);
                }
            }
            assert(lost@.disjoint(dropped@));
            vstd::set_lib::lemma_set_disjoint_lens(lost@, dropped@);
            assert((lost@ + dropped@).subset_of(doomed@));
            vstd::set_lib::lemma_len_subset(lost@ + dropped@, doomed@);
        }
        let removed: usize = held + flying;
        self.forget(&doomed);
        proof {
            let gone = |id: CapId| doomed@.contains(id);
            let descended = |id: CapId| crate::state::descends(before.cdt, id, root);
            assert(gone =~= descended);
            assert(self@.tasks =~= before.without_subtree(root).tasks);
            assert(self@.threads =~= before.without_subtree(root).threads);
            assert(self@ =~= before.without_subtree(root));
        }
        removed
    }

    /// Remove every capability whose identity is doomed, from every task.
    fn strip_tables(&mut self, doomed: &BTreeSet<CapId>) -> (removed: (
        usize,
        Ghost<Set<CapId>>,
    ))
        requires
            old(self)@.sizes_wf(),
            old(self)@.tables_wf(),
            old(self)@.unique(None),
            doomed@.finite(),
        ensures
            final(self)@ == (KernelView {
                tasks: old(self)@.tasks.map_values(
                    |t: TaskView|
                        TaskView { caps: t.caps.without(|id: CapId| doomed@.contains(id)), ..t },
                ),
                ..old(self)@
            }),
            removed.0 == crate::state::held_count(old(self)@.tasks) - crate::state::held_count(
                final(self)@.tasks,
            ),
            removed.1@.finite(),
            removed.1@.len() == removed.0,
            removed.1@.subset_of(doomed@),
            forall|id: CapId| #[trigger]
                removed.1@.contains(id) ==> exists|t: TaskId, s: CapSlot|
                    (#[trigger] old(self)@.held(t, s)) is Some && old(self)@.held(t, s)->0.id
                        == id,
    {
        let ghost before = self@;
        let ghost gone = |id: CapId| doomed@.contains(id);
        let ghost mut lost: Set<CapId> = Set::empty();
        let limit: usize = doomed.len();
        let mut removed: usize = 0;
        let mut at: usize = 0;
        proof {
            assert(before.tasks.take(0) =~= Seq::empty());
        }
        while at < self.tasks.len()
            invariant
                at <= self.tasks.len(),
                self.tasks.len() == before.tasks.len(),
                self@.tasks.len() == before.tasks.len(),
                before.tasks.len() <= u32::MAX,
                before.tables_wf(),
                before.unique(None),
                gone == (|id: CapId| doomed@.contains(id)),
                doomed@.finite(),
                limit == doomed@.len(),
                lost.finite(),
                lost.len() == removed,
                forall|id: CapId| #[trigger] lost.contains(id) ==> doomed@.contains(id),
                forall|id: CapId| #[trigger]
                    lost.contains(id) ==> exists|t: TaskId, s: CapSlot|
                        t < at && (#[trigger] before.held(t, s)) is Some && before.held(t, s)->0.id
                            == id,
                forall|i: int|
                    0 <= i < at ==> (#[trigger] self@.tasks[i]) == (TaskView {
                        caps: before.tasks[i].caps.without(gone),
                        ..before.tasks[i]
                    }),
                forall|i: int|
                    at <= i < before.tasks.len() ==> (#[trigger] self@.tasks[i])
                        == before.tasks[i],
                self@ == (KernelView { tasks: self@.tasks, ..before }),
                crate::state::held_count(before.tasks.take(at as int))
                    == crate::state::held_count(self@.tasks.take(at as int)) + removed,
            decreases self.tasks.len() - at,
        {
            let ghost here = self@;
            let ghost held = before.tasks[at as int].caps;
            let ghost found = crate::derivation::lost_ids(held.slots, doomed@);
            proof {
                let t = at as TaskId;
                assert(before.tasks[t as int].id == t);
                assert forall|s: CapSlot, r: CapSlot|
                    (#[trigger] held.slots.contains_key(s)) && (
                    #[trigger] held.slots.contains_key(r)) && held.slots[s].id
                        == held.slots[r].id implies s == r by {
                    let p = crate::soundness::Place::Slot { task: t, slot: s };
                    let q = crate::soundness::Place::Slot { task: t, slot: r };
                    assert(before.at(None, p) == Some(held.slots[s]));
                    assert(before.at(None, q) == Some(held.slots[r]));
                    assert(p == q);
                }
                crate::derivation::lemma_lost_ids(held, doomed@);
                assert(lost.disjoint(found)) by {
                    assert forall|id: CapId| !(#[trigger] lost.contains(id) && found.contains(id)) by {
                        if lost.contains(id) && found.contains(id) {
                            let (u, s) = choose|u: TaskId, s: CapSlot|
                                u < at && (#[trigger] before.held(u, s)) is Some && before.held(
                                    u,
                                    s,
                                )->0.id == id;
                            let r = choose|r: CapSlot| #[trigger]
                                held.slots.contains_key(r) && held.slots[r].id == id;
                            let p = crate::soundness::Place::Slot { task: u, slot: s };
                            let q = crate::soundness::Place::Slot { task: t, slot: r };
                            assert(before.at(None, p) == before.held(u, s));
                            assert(before.at(None, q) == Some(held.slots[r]));
                            assert(p == q);
                        }
                    }
                }
                vstd::set_lib::lemma_set_disjoint_lens(lost, found);
                assert((lost + found).subset_of(doomed@));
                vstd::set_lib::lemma_len_subset(lost + found, doomed@);
                assert forall|id: CapId| #[trigger] (lost + found).contains(id) implies exists|
                    u: TaskId,
                    s: CapSlot,
                |
                    u < at + 1 && (#[trigger] before.held(u, s)) is Some && before.held(u, s)->0.id
                        == id by {
                    if found.contains(id) {
                        let r = choose|r: CapSlot| #[trigger]
                            held.slots.contains_key(r) && held.slots[r].id == id;
                        assert(before.held(t, r) == Some(held.slots[r]));
                    }
                }
                lost = lost + found;
                assert(here.tasks[at as int] == before.tasks[at as int]);
            }
            let count: usize = self.tasks[at].caps.remove_all(doomed);
            proof {
                assert(self@.tasks =~= here.tasks.update(
                    at as int,
                    TaskView { caps: held.without(gone), ..before.tasks[at as int] },
                ));
                assert(self@ =~= (KernelView { tasks: self@.tasks, ..before }));
                assert(before.tasks.take(at + 1).drop_last() =~= before.tasks.take(at as int));
                assert(self@.tasks.take(at + 1).drop_last() =~= here.tasks.take(at as int));
            }
            removed = removed + count;
            at = at + 1;
        }
        proof {
            assert(before.tasks.take(at as int) =~= before.tasks);
            assert(self@.tasks.take(at as int) =~= self@.tasks);
            let stripped = before.tasks.map_values(
                |t: TaskView|
                    TaskView { caps: t.caps.without(|id: CapId| doomed@.contains(id)), ..t },
            );
            assert(self@.tasks =~= stripped);
        }
        (removed, Ghost(lost))
    }

    /// Remove every capability whose identity is doomed from the messages of
    /// parked senders.
    fn strip_messages(&mut self, doomed: &BTreeSet<CapId>) -> (removed: (
        usize,
        Ghost<Set<CapId>>,
    ))
        requires
            old(self)@.sizes_wf(),
            old(self)@.flights_unique(),
            doomed@.finite(),
        ensures
            final(self)@ == (KernelView {
                threads: old(self)@.threads.map_values(
                    |t: ThreadView| t.without(|id: CapId| doomed@.contains(id)),
                ),
                ..old(self)@
            }),
            removed.0 == crate::state::flight_count(old(self)@.threads)
                - crate::state::flight_count(final(self)@.threads),
            removed.1@.finite(),
            removed.1@.len() == removed.0,
            removed.1@.subset_of(doomed@),
            forall|id: CapId| #[trigger]
                removed.1@.contains(id) ==> exists|u: ThreadId|
                    (#[trigger] old(self)@.threads[u as int]).carries_id(id) && u < old(
                        self,
                    )@.threads.len(),
    {
        let ghost before = self@;
        let ghost gone = |id: CapId| doomed@.contains(id);
        let ghost mut lost: Set<CapId> = Set::empty();
        let mut removed: usize = 0;
        let mut at: usize = 0;
        proof {
            assert(before.threads.take(0) =~= Seq::empty());
        }
        while at < self.threads.len()
            invariant
                at <= self.threads.len(),
                self.threads.len() == before.threads.len(),
                self@.threads.len() == before.threads.len(),
                before.threads.len() <= u32::MAX,
                before.flights_unique(),
                gone == (|id: CapId| doomed@.contains(id)),
                removed <= at,
                lost.finite(),
                lost.len() == removed,
                lost.subset_of(doomed@),
                forall|id: CapId| #[trigger]
                    lost.contains(id) ==> exists|u: ThreadId|
                        (#[trigger] before.threads[u as int]).carries_id(id) && u < at,
                forall|i: int|
                    0 <= i < at ==> (#[trigger] self@.threads[i]) == before.threads[i].without(
                        gone,
                    ),
                forall|i: int|
                    at <= i < before.threads.len() ==> (#[trigger] self@.threads[i])
                        == before.threads[i],
                self@ == (KernelView { threads: self@.threads, ..before }),
                crate::state::flight_count(before.threads.take(at as int))
                    == crate::state::flight_count(self@.threads.take(at as int)) + removed,
            decreases self.threads.len() - at,
        {
            let ghost here = self@;
            let ghost was = before.threads[at as int];
            let ghost so_far = lost;
            let dead: bool = self.threads[at].drop_doomed(doomed);
            proof {
                assert(here.threads[at as int] == was);
                if dead {
                    let t = at as ThreadId;
                    let id = (was.pending->0).cap->0.id;
                    assert(before.threads[t as int].carries_id(id));
                    if so_far.contains(id) {
                        let u = choose|u: ThreadId|
                            (#[trigger] before.threads[u as int]).carries_id(id) && u < at;
                        assert(u == t);
                    }
                    lost = so_far.insert(id);
                    assert forall|c: CapId| #[trigger] lost.contains(c) implies exists|u: ThreadId|
                        (#[trigger] before.threads[u as int]).carries_id(c) && u < at + 1 by {
                        if c == id {
                            assert(before.threads[t as int].carries_id(c) && t < at + 1);
                        } else {
                            let u = choose|u: ThreadId|
                                (#[trigger] before.threads[u as int]).carries_id(c) && u < at;
                            assert(before.threads[u as int].carries_id(c) && u < at + 1);
                        }
                    }
                }
                assert(self@.threads =~= here.threads.update(at as int, was.without(gone)));
                assert(self@ =~= (KernelView { threads: self@.threads, ..before }));
                assert(before.threads.take(at + 1).drop_last() =~= before.threads.take(at as int));
                assert(self@.threads.take(at + 1).drop_last() =~= here.threads.take(at as int));
            }
            if dead {
                removed = removed + 1;
            }
            at = at + 1;
        }
        proof {
            assert(before.threads.take(at as int) =~= before.threads);
            assert(self@.threads.take(at as int) =~= self@.threads);
            let stripped = before.threads.map_values(
                |t: ThreadView| t.without(|id: CapId| doomed@.contains(id)),
            );
            assert(self@.threads =~= stripped);
        }
        (removed, Ghost(lost))
    }

    /// Drop the revoked identities from the tree so it cannot grow without bound
    /// and so a stale identity can never be revoked twice.
    fn forget(&mut self, doomed: &BTreeSet<CapId>)
        ensures
            final(self)@ == (KernelView {
                cdt: old(self)@.cdt.restrict(
                    Set::new(
                        |id: CapId| old(self)@.cdt.contains_key(id) && !doomed@.contains(id),
                    ),
                ),
                ..old(self)@
            }),
    {
        let ghost before = self@;
        let ids = doomed.iter();
        let ghost all = vstd::std_specs::iter::IteratorSpec::remaining(&ids);
        for id in each: ids
            invariant
                each.seq() == all,
                all.unref().to_set() == doomed@,
                forall|c: CapId| #[trigger]
                    self.cdt@.contains_key(c) <==> before.cdt.contains_key(c) && !exists|i: int|
                        0 <= i < each.index() && *(#[trigger] all[i]) == c,
                forall|c: CapId| #[trigger]
                    self.cdt@.contains_key(c) ==> self.cdt@[c] == before.cdt[c],
                self@ == (KernelView { cdt: self.cdt@, ..before }),
        {
            let ghost tree = self.cdt@;
            let ghost at: int = each.index();
            self.cdt.remove(id);
            proof {
                assert(*all[at] == *id);
                assert(self.cdt@ =~= tree.remove(*id));
                assert(self@ =~= (KernelView { cdt: self.cdt@, ..before }));
                assert forall|c: CapId| #[trigger]
                    self.cdt@.contains_key(c) <==> before.cdt.contains_key(c) && !exists|i: int|
                        0 <= i < at + 1 && *(#[trigger] all[i]) == c by {
                    if exists|i: int| 0 <= i < at + 1 && *(#[trigger] all[i]) == c {
                        let i = choose|i: int| 0 <= i < at + 1 && *(#[trigger] all[i]) == c;
                        if i < at {
                            assert(exists|j: int| 0 <= j < at && *(#[trigger] all[j]) == c);
                        }
                    }
                    if exists|i: int| 0 <= i < at && *(#[trigger] all[i]) == c {
                        let i = choose|i: int| 0 <= i < at && *(#[trigger] all[i]) == c;
                        assert(0 <= i < at + 1 && *all[i] == c);
                    }
                    if c == *id {
                        assert(0 <= at < at + 1 && *all[at] == c);
                    }
                }
            }
        }
        proof {
            let kept = before.cdt.restrict(
                Set::new(|id: CapId| before.cdt.contains_key(id) && !doomed@.contains(id)),
            );
            assert forall|c: CapId| doomed@.contains(c) <==> exists|i: int|
                0 <= i < all.len() && *(#[trigger] all[i]) == c by {
                if doomed@.contains(c) {
                    assert(all.unref().to_set().contains(c));
                    let i = choose|i: int| 0 <= i < all.unref().len() && all.unref()[i] == c;
                    assert(*all[i] == c);
                }
                if exists|i: int| 0 <= i < all.len() && *(#[trigger] all[i]) == c {
                    let i = choose|i: int| 0 <= i < all.len() && *(#[trigger] all[i]) == c;
                    assert(all.unref()[i] == c);
                    assert(all.unref().contains(c));
                }
            }
            assert(self.cdt@ =~= kept);
        }
    }

    // -- read only accessors -------------------------------------------------

    /// The full event trace so far.
    pub fn trace(&self) -> (events: &[Event])
        ensures
            crate::trace::trace_view(events@) == self@.trace,
    {
        self.trace.as_slice()
    }

    /// Look up a task.
    pub fn task(&self, id: TaskId) -> (task: Option<&Task>)
        ensures
            task is Some <==> self@.has_task(id),
            task is Some ==> (task->0)@ == self@.tasks[id as int],
    {
        if (id as usize) < self.tasks.len() {
            Some(&self.tasks[id as usize])
        } else {
            None
        }
    }

    /// Look up a thread.
    pub fn thread(&self, id: ThreadId) -> (thread: Option<&Thread>)
        ensures
            thread is Some <==> self@.has_thread(id),
            thread is Some ==> (thread->0)@ == self@.threads[id as int],
    {
        if (id as usize) < self.threads.len() {
            Some(&self.threads[id as usize])
        } else {
            None
        }
    }

    /// Look up a region.
    pub fn region(&self, id: RegionId) -> (region: Option<&Region>)
        ensures
            region is Some <==> self@.has_region(id),
            region is Some ==> (region->0)@ == self@.regions[id as int],
    {
        if (id as usize) < self.regions.len() {
            Some(&self.regions[id as usize])
        } else {
            None
        }
    }

    /// The tasks in id order.
    pub fn tasks(&self) -> (tasks: &[Task])
        ensures
            tasks@.map_values(|t: Task| t@) == self@.tasks,
    {
        self.tasks.as_slice()
    }

    /// The threads in id order.
    pub fn threads(&self) -> (threads: &[Thread])
        ensures
            threads@.map_values(|t: Thread| t@) == self@.threads,
    {
        self.threads.as_slice()
    }

    /// The current simulator tick.
    pub fn clock(&self) -> (tick: u64)
        ensures
            tick == self@.clock,
    {
        self.clock
    }

    /// Mutable access to the seeded generator, for scenario construction.
    pub fn prng(&mut self) -> (generator: &mut Prng)
        requires
            old(self).wf(),
        ensures
            generator@ == old(self)@.rng,
            final(self)@ == old(self)@.with_rng(final(generator)@),
            final(self).wf(),
    {
        proof {
            crate::soundness::lemma_any_rng(self@);
            assert forall|rng: u64| (#[trigger] self@.with_rng(rng)).recorded() by {
                crate::history::lemma_unchanged(self@, self@.with_rng(rng));
            }
        }
        &mut self.prng
    }
}

} // verus!
