//! The laws of new objects.
//!
//! A machine starts empty. Whatever is created is new, starts out blank, and
//! leaves everything that was there alone.

use crate::capability::{CapSlot, ObjectRef, Rights};
use crate::error::KernelError;
use crate::scheduler::Policy;
use crate::state::KernelView;
use crate::thread::{OpView, ThreadState};
use crate::{EndpointId, RegionId, TaskId, ThreadId};
use vstd::prelude::*;

verus! {

/// A machine starts empty: there is nothing in it, nothing has happened, and it
/// draws from the seed that it was given.
pub proof fn law_a_machine_starts_empty(seed: u64, policy: Policy)
    ensures
        ({
            let k = KernelView::boot(seed, policy);
            &&& k.tasks.len() == 0
            &&& k.threads.len() == 0
            &&& k.endpoints.len() == 0
            &&& k.regions.len() == 0
            &&& k.trace.len() == 0
            &&& k.sched.ready.len() == 0
            &&& k.sched.policy == policy
            &&& k.sched.switches == 0
            &&& k.clock == 0
            &&& k.rng == seed
            &&& k.next_cap_id == 0
            &&& k.cdt.dom() =~= Set::empty()
            &&& k.sound()
        }),
{
    crate::soundness::lemma_boot(seed, policy);
    crate::history::lemma_boot(seed, policy);
}

/// Whether nothing happened between two states: the same threads stand in the same
/// line, and time, record, generator and derivation tree are the same.
pub open spec fn nothing_ran(k: KernelView, n: KernelView) -> bool {
    &&& n.trace == k.trace
    &&& n.clock == k.clock
    &&& n.rng == k.rng
    &&& n.next_cap_id == k.next_cap_id
    &&& n.cdt == k.cdt
    &&& n.sched.policy == k.sched.policy
    &&& n.sched.switches == k.sched.switches
}

/// A new task comes last, bears its name, and holds nothing and no thread. All that
/// was there stays.
pub proof fn law_a_new_task_holds_nothing(
    k: KernelView,
    name: Seq<char>,
    old_task: TaskId,
    slot: CapSlot,
)
    requires
        k.tasks.len() < u32::MAX,
    ensures
        ({
            let n = k.create_task(name);
            let id = k.tasks.len() as TaskId;
            &&& n.tasks.len() == k.tasks.len() + 1
            &&& n.tasks[id as int].id == id
            &&& n.tasks[id as int].name == name
            &&& n.tasks[id as int].threads.len() == 0
            &&& n.held(id, slot) is None
            &&& n.table(id).next == 0
            &&& k.has_task(old_task) ==> n.tasks[old_task as int] == k.tasks[old_task as int]
            &&& n.threads == k.threads
            &&& n.endpoints == k.endpoints
            &&& n.regions == k.regions
            &&& n.sched == k.sched
            &&& nothing_ran(k, n)
        }),
{
}

/// At a new endpoint nobody waits. All that was there stays.
pub proof fn law_nobody_waits_at_a_new_endpoint(k: KernelView, old_ep: EndpointId)
    requires
        k.endpoints.len() < u32::MAX,
    ensures
        ({
            let n = k.create_endpoint();
            let id = k.endpoints.len() as EndpointId;
            &&& n.endpoints.len() == k.endpoints.len() + 1
            &&& n.endpoints[id as int].senders.len() == 0
            &&& n.endpoints[id as int].receivers.len() == 0
            &&& k.has_endpoint(old_ep) ==> n.endpoints[old_ep as int]
                == k.endpoints[old_ep as int]
            &&& n.tasks == k.tasks
            &&& n.threads == k.threads
            &&& n.regions == k.regions
            &&& n.sched == k.sched
            &&& nothing_ran(k, n)
        }),
{
}

/// A new region has the length asked for and holds zeros only. It gives nobody
/// access, not even its owner. All that was there stays.
pub proof fn law_a_new_region_holds_zeros(
    k: KernelView,
    owner: TaskId,
    len: usize,
    offset: int,
    old_region: RegionId,
)
    requires
        k.regions.len() < u32::MAX,
    ensures
        ({
            let n = k.create_region(owner, len);
            let id = k.regions.len() as RegionId;
            &&& n.regions.len() == k.regions.len() + 1
            &&& n.regions[id as int].id == id
            &&& n.regions[id as int].owner == owner
            &&& n.regions[id as int].data.len() == len
            &&& 0 <= offset < len ==> n.regions[id as int].data[offset] == 0
            &&& k.has_region(old_region) ==> n.regions[old_region as int]
                == k.regions[old_region as int]
            &&& n.tasks == k.tasks
            &&& n.threads == k.threads
            &&& n.endpoints == k.endpoints
            &&& n.sched == k.sched
            &&& nothing_ran(k, n)
        }),
{
}

/// A new thread is ready at its first op, last in line with its priority. It has
/// never run, holds no message and has nobody to reply to. It belongs to its task,
/// if there is one, as the latest of its threads. All that was there stays.
pub proof fn law_a_new_thread_starts_at_the_beginning(
    k: KernelView,
    task: TaskId,
    name: Seq<char>,
    priority: u8,
    program: Seq<OpView>,
    old_thread: ThreadId,
    old_task: TaskId,
)
    requires
        k.threads.len() < u32::MAX,
    ensures
        ({
            let n = k.spawn_thread(task, name, priority, program);
            let id = k.threads.len() as ThreadId;
            let thread = n.threads[id as int];
            &&& n.threads.len() == k.threads.len() + 1
            &&& thread.id == id
            &&& thread.task == task
            &&& thread.name == name
            &&& thread.priority == priority
            &&& thread.program == program
            &&& thread.state == ThreadState::Ready
            &&& thread.pc == 0
            &&& thread.cycles == 0
            &&& thread.dispatches == 0
            &&& thread.pending is None
            &&& thread.reply_to is None
            &&& n.sched.ready == k.sched.ready + seq![(id, priority)]
            &&& k.has_thread(old_thread) ==> n.threads[old_thread as int]
                == k.threads[old_thread as int]
            &&& n.tasks.len() == k.tasks.len()
            &&& k.has_task(task) ==> n.tasks[task as int].threads
                == k.tasks[task as int].threads + seq![id]
            &&& k.has_task(old_task) ==> {
                &&& n.tasks[old_task as int].id == k.tasks[old_task as int].id
                &&& n.tasks[old_task as int].name == k.tasks[old_task as int].name
                &&& n.tasks[old_task as int].caps == k.tasks[old_task as int].caps
                &&& old_task != task ==> n.tasks[old_task as int] == k.tasks[old_task as int]
            }
            &&& n.endpoints == k.endpoints
            &&& n.regions == k.regions
            &&& nothing_ran(k, n)
        }),
{
    let n = k.spawn_thread(task, name, priority, program);
    let id = k.threads.len() as ThreadId;
    assert(n.sched.ready =~= k.sched.ready + seq![(id, priority)]);
    if k.has_task(task) {
        assert(n.tasks[task as int].threads =~= k.tasks[task as int].threads + seq![id]);
    }
}

// -- the reasons of a refusal -------------------------------------------------

/// Every refusal has its reason. A slot does not resolve where the task does not
/// exist; where the slot is empty; where it holds another kind of object; and where
/// a right is missing. The first of these that holds is the reason given, and where
/// none does the slot resolves.
pub proof fn law_every_refusal_has_its_reason(
    k: KernelView,
    task: TaskId,
    slot: CapSlot,
    want_kind: &'static str,
    needed: Rights,
)
    ensures
        ({
            let answer = k.resolve(task, slot, want_kind, needed);
            let entry = k.held(task, slot);
            &&& !k.has_task(task) ==> answer == Err::<ObjectRef, KernelError>(
                KernelError::NoSuchObject { object: ObjectRef::Task(task) },
            )
            &&& k.has_task(task) && entry is None ==> answer == Err::<ObjectRef, KernelError>(
                KernelError::NoSuchCapability { slot },
            )
            &&& entry is Some && entry->0.cap.object.kind()@ != want_kind@ ==> answer == Err::<
                ObjectRef,
                KernelError,
            >(KernelError::WrongObject { slot, expected: want_kind })
            &&& entry is Some && entry->0.cap.object.kind()@ == want_kind@
                && !entry->0.cap.rights.contains(needed) ==> answer == Err::<
                ObjectRef,
                KernelError,
            >(KernelError::MissingRight { slot, needed })
            &&& entry is Some && entry->0.cap.object.kind()@ == want_kind@
                && entry->0.cap.rights.contains(needed) ==> answer == Ok::<
                ObjectRef,
                KernelError,
            >(entry->0.cap.object)
        }),
{
}

/// A memory access that is refused has its reason: the thread does not exist; the
/// slot does not resolve, with the reason that it gives; the region does not exist;
/// or it ends before the byte.
pub proof fn law_every_refused_access_has_its_reason(
    k: KernelView,
    thread: ThreadId,
    mem: CapSlot,
    offset: usize,
    region: RegionId,
)
    ensures
        ({
            let task = k.threads[thread as int].task;
            let (read, write) = (
                k.sys_read(thread, mem, offset),
                k.sys_write_answer(thread, mem, offset),
            );
            let (may_read, may_write) = (
                k.resolve(task, mem, "region", Rights::read()),
                k.resolve(task, mem, "region", Rights::write()),
            );
            let nobody = KernelError::NoSuchObject { object: ObjectRef::Thread(thread) };
            let nowhere = KernelError::NoSuchObject { object: ObjectRef::Region(region) };
            let beyond = KernelError::OutOfBounds {
                object: ObjectRef::Region(k.regions[region as int].id),
                offset,
                len: k.regions[region as int].data.len() as usize,
            };
            let held = k.held(task, mem);
            let named = held is Some && held->0.cap.object == ObjectRef::Region(region);
            let reads = named && held->0.cap.rights.contains(Rights::read());
            let writes = named && held->0.cap.rights.contains(Rights::write());
            &&& !k.has_thread(thread) ==> read == Err::<u8, KernelError>(nobody) && write == Err::<
                (),
                KernelError,
            >(nobody)
            &&& k.has_thread(thread) ==> {
                &&& may_read is Err ==> read == Err::<u8, KernelError>(may_read->Err_0)
                &&& may_write is Err ==> write == Err::<(), KernelError>(may_write->Err_0)
                &&& !k.has_region(region) ==> {
                    &&& reads ==> read == Err::<u8, KernelError>(nowhere)
                    &&& writes ==> write == Err::<(), KernelError>(nowhere)
                }
                &&& k.has_region(region) && offset >= k.regions[region as int].data.len() ==> {
                    &&& reads ==> read == Err::<u8, KernelError>(beyond)
                    &&& writes ==> write == Err::<(), KernelError>(beyond)
                }
            }
        }),
{
    let task = k.threads[thread as int].task;
    assert(ObjectRef::Region(region).kind()@ == "region"@);
    assert(ObjectRef::Region(region).number() == region);
}

/// A request to derive a capability that is refused has its reason, and changes no
/// slot of any task: the asking task does not exist, its slot is empty, or the task
/// to hold the copy does not exist.
pub proof fn law_every_refused_mint_has_its_reason(
    k: KernelView,
    from: TaskId,
    src_slot: CapSlot,
    to: TaskId,
    drop_mask: Rights,
)
    ensures
        ({
            let answer = k.mint_answer(from, src_slot, to, drop_mask);
            let n = k.mint(from, src_slot, to, drop_mask);
            &&& !k.has_task(from) ==> answer == Err::<(CapSlot, Rights), KernelError>(
                KernelError::NoSuchObject { object: ObjectRef::Task(from) },
            )
            &&& k.has_task(from) && k.held(from, src_slot) is None ==> answer == Err::<
                (CapSlot, Rights),
                KernelError,
            >(KernelError::NoSuchCapability { slot: src_slot })
            &&& k.held(from, src_slot) is Some && !k.has_task(to) ==> answer == Err::<
                (CapSlot, Rights),
                KernelError,
            >(KernelError::NoSuchObject { object: ObjectRef::Task(to) })
            &&& k.held(from, src_slot) is Some && k.has_task(to) ==> answer is Ok
            &&& answer is Err ==> n.tasks == k.tasks
            &&& n.threads == k.threads
            &&& n.endpoints == k.endpoints
            &&& n.regions == k.regions
            &&& n.sched == k.sched
            &&& n.trace == k.trace
            &&& n.clock == k.clock
            &&& n.rng == k.rng
        }),
{
}

} // verus!
