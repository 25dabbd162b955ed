//! The laws of address space isolation.
//!
//! A task can touch only the regions it holds a capability for. Bytes change
//! only by an authorized write, a shared region carries data between those who
//! share it, and nobody else can tell what is in it.

use crate::capability::{CapEntry, CapSlot, ObjectRef, Rights};
use crate::error::KernelError;
use crate::memory::RegionView;
use crate::state::KernelView;
use crate::thread::OpView;
use crate::trace::EventView;
use crate::{RegionId, ThreadId};
use vstd::prelude::*;

verus! {

/// A byte written through one capability is read back through any other
/// capability for the same region, by whichever thread.
pub proof fn law_shared_region_carries_data(
    k: KernelView,
    writer: ThreadId,
    w_slot: CapSlot,
    reader: ThreadId,
    r_slot: CapSlot,
    region: RegionId,
    offset: usize,
    value: u8,
)
    requires
        k.may_access(writer, w_slot, region, offset, Rights::write()),
        k.may_access(reader, r_slot, region, offset, Rights::read()),
    ensures
        k.sys_write(writer, w_slot, offset, value).sys_read(reader, r_slot, offset) == Ok::<
            u8,
            KernelError,
        >(value),
{
    let n = k.sys_write(writer, w_slot, offset, value);
    crate::authority::law_write_iff_authorized(k, writer, w_slot, offset, value);
    assert(n.may_access(reader, r_slot, region, offset, Rights::read()));
    crate::authority::law_read_iff_authorized(n, reader, r_slot, offset);
}

/// A write changes at most the one byte it names, and only in a region that the
/// caller holds a write capability for.
pub proof fn law_write_touches_one_byte(
    k: KernelView,
    thread: ThreadId,
    mem: CapSlot,
    offset: usize,
    value: u8,
    region: RegionId,
    at: int,
)
    requires
        k.has_region(region),
        0 <= at < k.regions[region as int].data.len(),
        k.sys_write(thread, mem, offset, value).regions[region as int].data[at]
            != k.regions[region as int].data[at],
    ensures
        at == offset,
        k.may_access(thread, mem, region, offset, Rights::write()),
        k.sys_write(thread, mem, offset, value).regions[region as int].data[at] == value,
{
    crate::authority::lemma_reach(k, thread, mem, Rights::write());
}

/// A task that holds no capability for a region reaches it through no slot.
pub proof fn law_outsiders_are_denied(
    k: KernelView,
    thread: ThreadId,
    mem: CapSlot,
    region: RegionId,
    needed: Rights,
)
    requires
        k.has_thread(thread),
        k.has_region(region),
        forall|slot: CapSlot|
            (#[trigger] k.held(k.threads[thread as int].task, slot)) is Some ==> k.held(
                k.threads[thread as int].task,
                slot,
            )->0.cap.object != ObjectRef::Region(region),
    ensures
        k.reach_region(thread, mem, needed) != Ok::<RegionId, KernelError>(region),
{
    crate::authority::lemma_reach(k, thread, mem, needed);
}

/// A task that holds no capability for a region cannot tell what is in it: its
/// reads come out the same whatever the region contains.
pub proof fn law_outsiders_see_nothing(
    k: KernelView,
    thread: ThreadId,
    mem: CapSlot,
    offset: usize,
    region: RegionId,
    other: RegionView,
)
    requires
        k.has_thread(thread),
        k.has_region(region),
        forall|slot: CapSlot|
            (#[trigger] k.held(k.threads[thread as int].task, slot)) is Some ==> k.held(
                k.threads[thread as int].task,
                slot,
            )->0.cap.object != ObjectRef::Region(region),
    ensures
        k.with_region(region, other).sys_read(thread, mem, offset) == k.sys_read(
            thread,
            mem,
            offset,
        ),
{
    let n = k.with_region(region, other);
    law_outsiders_are_denied(k, thread, mem, region, Rights::read());
    let task = k.threads[thread as int].task;
    assert(n.resolve(task, mem, "region", Rights::read()) == k.resolve(
        task,
        mem,
        "region",
        Rights::read(),
    ));
    assert(n.reach_region(thread, mem, Rights::read()) == k.reach_region(
        thread,
        mem,
        Rights::read(),
    ));
}

/// A step other than a write leaves all regions alone.
proof fn lemma_step_regions(k: KernelView, tid: ThreadId)
    ensures
        !(k.threads[tid as int].current_op() matches Some(OpView::Write { .. })) ==> k.step(
            tid,
        ).regions == k.regions,
        k.threads[tid as int].current_op() matches Some(OpView::Write { mem, offset, value })
            ==> k.step(tid).regions == k.sys_write(tid, mem, offset, value).regions,
{
    if let Some(OpView::Write { mem, offset, value }) = k.threads[tid as int].current_op() {
        crate::authority::law_write_iff_authorized(k, tid, mem, offset, value);
    }
}

/// In one turn of the run loop a byte changes only if the thread that ran had a
/// write to that byte as its current op, and its task holds a write capability
/// for the region. The byte then has the value written.
pub proof fn law_bytes_change_only_by_authorized_writes(
    k: KernelView,
    region: RegionId,
    at: int,
)
    requires
        k.wf(),
        k.sched.ready.len() > 0,
        k.has_region(region),
        0 <= at < k.regions[region as int].data.len(),
        k.tick().regions[region as int].data[at] != k.regions[region as int].data[at],
    ensures
        k.threads[k.next_thread() as int].current_op() matches Some(
            OpView::Write { mem, offset, value },
        ) && offset == at && k.may_access(k.next_thread(), mem, region, offset, Rights::write())
            && k.tick().regions[region as int].data[at] == value,
{
    reveal(KernelView::wf);
    let tid = k.next_thread();
    let up = k.take_up();
    crate::soundness::lemma_take_up(k);
    lemma_step_regions(up, tid);
    assert(k.tick().regions == up.step(tid).regions);
    assert(up.threads[tid as int].current_op() == k.threads[tid as int].current_op());
    if let Some(OpView::Write { mem, offset, value }) = k.threads[tid as int].current_op() {
        law_write_touches_one_byte(up, tid, mem, offset, value, region, at);
    }
}

/// Whether some capability, in a slot or in flight, allows writes to a region.
pub open spec fn writable(k: KernelView, region: RegionId) -> bool {
    exists|e: CapEntry| #[trigger]
        k.live(None, e) && e.cap.object == ObjectRef::Region(region) && e.cap.rights.contains(
            Rights::write(),
        )
}

/// A region that nobody holds a write capability for keeps its contents over any
/// run.
pub proof fn law_unwritable_regions_never_change(k: KernelView, max_ops: nat, region: RegionId)
    requires
        k.wf(),
        k.run_safe(max_ops),
        k.has_region(region),
        !writable(k, region),
    ensures
        k.run(max_ops).regions[region as int] == k.regions[region as int],
    decreases max_ops,
{
    if max_ops > 0 && k.sched.ready.len() > 0 {
        let n = k.tick();
        crate::soundness::lemma_tick(k);
        assert(n.regions[region as int] =~= k.regions[region as int]) by {
            assert forall|at: int| 0 <= at < k.regions[region as int].data.len() implies (
            #[trigger] n.regions[region as int].data[at]) == k.regions[region as int].data[at] by {
                if n.regions[region as int].data[at] != k.regions[region as int].data[at] {
                    law_bytes_change_only_by_authorized_writes(k, region, at);
                    if let Some(OpView::Write { mem, .. }) =
                        k.threads[k.next_thread() as int].current_op() {
                        let task = k.threads[k.next_thread() as int].task;
                        let entry = k.held(task, mem)->0;
                        assert(k.at(None, crate::soundness::Place::Slot { task, slot: mem })
                            == Some(entry));
                        assert(k.live(None, entry));
                    }
                }
            }
            assert(n.regions[region as int].id == k.regions[region as int].id);
        }
        assert(!writable(n, region)) by {
            if writable(n, region) {
                let e = choose|e: CapEntry| #[trigger]
                    n.live(None, e) && e.cap.object == ObjectRef::Region(region)
                        && e.cap.rights.contains(Rights::write());
                assert(k.live(None, e));
            }
        }
        law_unwritable_regions_never_change(n, (max_ops - 1) as nat, region);
    }
}

/// Whether a thread may access a byte of a region with a right, through some
/// slot of its task.
pub open spec fn authorized(
    k: KernelView,
    thread: ThreadId,
    region: RegionId,
    offset: usize,
    needed: Rights,
) -> bool {
    exists|mem: CapSlot| #[trigger] k.may_access(thread, mem, region, offset, needed)
}

/// Whether an event of a turn from `k` to `n` is no memory access, or one that
/// the thread that ran was authorized to and that is recorded truly: the value
/// is the byte that was there, or that is there now.
pub open spec fn truthful(k: KernelView, n: KernelView, event: EventView) -> bool {
    match event {
        EventView::MemRead { thread, region, offset, value } => {
            &&& thread == k.next_thread()
            &&& authorized(k, thread, region, offset, Rights::read())
            &&& value == k.regions[region as int].data[offset as int]
        },
        EventView::MemWrite { thread, region, offset, value } => {
            &&& thread == k.next_thread()
            &&& authorized(k, thread, region, offset, Rights::write())
            &&& value == n.regions[region as int].data[offset as int]
        },
        _ => true,
    }
}

/// Every memory access on record was authorized and is recorded truly.
pub proof fn law_recorded_accesses_are_authorized(k: KernelView, i: int)
    requires
        k.wf(),
        k.sched.ready.len() > 0,
        k.tick_safe(),
        k.trace.len() <= i < k.tick().trace.len(),
    ensures
        truthful(k, k.tick(), k.tick().trace[i]),
{
    reveal(KernelView::wf);
    let tid = k.next_thread();
    let up = k.take_up();
    let done = up.step(tid);
    crate::soundness::lemma_take_up(k);
    assert(k.tick().trace == done.trace);
    assert(k.tick().regions == done.regions);
    assert(up.trace.len() == k.trace.len() + 1);
    crate::history::lemma_step(up, tid);
    assert(up.trace[k.trace.len() as int] is Dispatch);
    assert(done.trace[k.trace.len() as int] == up.trace[k.trace.len() as int]);
    if i > k.trace.len() {
        match up.threads[tid as int].current_op() {
            Some(OpView::Read { mem, offset }) => {
                crate::authority::lemma_reach(up, tid, mem, Rights::read());
                if let Ok(value) = up.sys_read(tid, mem, offset) {
                    let region = up.reach_region(tid, mem, Rights::read())->Ok_0;
                    assert(up.region_id(tid, mem) == region);
                    assert(k.may_access(tid, mem, region, offset, Rights::read()));
                    assert(done.trace[i] == (EventView::MemRead {
                        thread: tid,
                        region,
                        offset,
                        value,
                    }));
                } else {
                    assert(done.trace[i] is Denied);
                }
            },
            Some(OpView::Write { mem, offset, value }) => {
                crate::authority::lemma_reach(up, tid, mem, Rights::write());
                if up.sys_write_answer(tid, mem, offset) is Ok {
                    let region = up.reach_region(tid, mem, Rights::write())->Ok_0;
                    assert(up.region_id(tid, mem) == region);
                    assert(k.may_access(tid, mem, region, offset, Rights::write()));
                    assert(done.trace[i] == (EventView::MemWrite {
                        thread: tid,
                        region,
                        offset,
                        value,
                    }));
                } else {
                    assert(done.trace[i] is Denied);
                }
            },
            _ => {
                lemma_no_access(up, tid, i);
            },
        }
    }
}

/// A step that is no memory access records none.
proof fn lemma_no_access(k: KernelView, tid: ThreadId, i: int)
    requires
        !(k.threads[tid as int].current_op() matches Some(OpView::Read { .. })),
        !(k.threads[tid as int].current_op() matches Some(OpView::Write { .. })),
        k.trace.len() <= i < k.step(tid).trace.len(),
    ensures
        !(k.step(tid).trace[i] is MemRead),
        !(k.step(tid).trace[i] is MemWrite),
{
}

} // verus!
