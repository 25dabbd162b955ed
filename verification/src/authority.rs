//! The laws of capability enforcement.
//!
//! A syscall succeeds if and only if the caller holds a capability of the right
//! kind with the right permission. Fabricated, guessed and revoked slots are
//! always denied, no task gains authority except by receiving it in a message,
//! and a capability keeps its identity wherever it goes.

use crate::capability::{CapEntry, CapId, CapSlot, Capability, ObjectRef, Rights};
use crate::error::KernelError;
use crate::ipc::MsgView;
use crate::soundness::Place;
use crate::state::KernelView;
use crate::thread::{OpView, PendingView, ThreadState};
use crate::{EndpointId, RegionId, TaskId, ThreadId};
use vstd::prelude::*;

verus! {

impl KernelView {
    /// Whether a task holds, in a slot, a capability for an object with rights.
    pub open spec fn holds(
        self,
        task: TaskId,
        slot: CapSlot,
        object: ObjectRef,
        needed: Rights,
    ) -> bool {
        &&& self.held(task, slot) is Some
        &&& self.held(task, slot)->0.cap.object == object
        &&& self.held(task, slot)->0.cap.rights.contains(needed)
    }

    /// Whether a thread may access a byte of a region with a right: its task
    /// holds a capability for the region in the slot, and the byte exists.
    pub open spec fn may_access(
        self,
        thread: ThreadId,
        mem: CapSlot,
        region: RegionId,
        offset: usize,
        needed: Rights,
    ) -> bool {
        &&& self.has_thread(thread)
        &&& self.holds(self.threads[thread as int].task, mem, ObjectRef::Region(region), needed)
        &&& self.has_region(region)
        &&& offset < self.regions[region as int].data.len()
    }
}

/// A slot resolves if and only if the task holds in it a capability of the kind
/// asked for with the rights asked for, and it resolves to the object of that
/// capability.
pub proof fn law_resolves_iff_held(
    k: KernelView,
    task: TaskId,
    slot: CapSlot,
    want_kind: &'static str,
    needed: Rights,
    object: ObjectRef,
)
    ensures
        k.resolve(task, slot, want_kind, needed) == Ok::<ObjectRef, KernelError>(object) <==> k.holds(
            task,
            slot,
            object,
            needed,
        ) && object.kind()@ == want_kind@,
{
}

/// A read succeeds if and only if the caller may read that byte, and then it
/// gives the byte.
pub proof fn law_read_iff_authorized(
    k: KernelView,
    thread: ThreadId,
    mem: CapSlot,
    offset: usize,
)
    ensures
        k.sys_read(thread, mem, offset) is Ok <==> exists|region: RegionId| #[trigger]
            k.may_access(thread, mem, region, offset, Rights::read()),
        forall|region: RegionId| #[trigger]
            k.may_access(thread, mem, region, offset, Rights::read()) ==> k.sys_read(
                thread,
                mem,
                offset,
            ) == Ok::<u8, KernelError>(k.regions[region as int].data[offset as int]),
{
    lemma_reach(k, thread, mem, Rights::read());
    if k.sys_read(thread, mem, offset) is Ok {
        let region = k.reach_region(thread, mem, Rights::read())->Ok_0;
        assert(k.may_access(thread, mem, region, offset, Rights::read()));
    }
}

/// A write succeeds if and only if the caller may write that byte. Then it
/// stores the value there, and a denied write changes nothing at all.
pub proof fn law_write_iff_authorized(
    k: KernelView,
    thread: ThreadId,
    mem: CapSlot,
    offset: usize,
    value: u8,
)
    ensures
        k.sys_write_answer(thread, mem, offset) is Ok <==> exists|region: RegionId| #[trigger]
            k.may_access(thread, mem, region, offset, Rights::write()),
        forall|region: RegionId| #[trigger]
            k.may_access(thread, mem, region, offset, Rights::write()) ==> k.sys_write(
                thread,
                mem,
                offset,
                value,
            ) == k.with_region(region, k.regions[region as int].write(offset, value)),
        k.sys_write_answer(thread, mem, offset) is Err ==> k.sys_write(thread, mem, offset, value)
            == k,
{
    lemma_reach(k, thread, mem, Rights::write());
    let n = k.sys_write(thread, mem, offset, value);
    if k.sys_write_answer(thread, mem, offset) is Ok {
        let region = k.reach_region(thread, mem, Rights::write())->Ok_0;
        assert(k.may_access(thread, mem, region, offset, Rights::write()));
    } else {
        assert(n =~= k);
    }
}

/// A region is reached through a slot only when the slot holds a capability for
/// that very region with the right needed.
pub proof fn lemma_reach(k: KernelView, thread: ThreadId, mem: CapSlot, needed: Rights)
    ensures
        forall|region: RegionId| #[trigger]
            k.has_region(region) ==> (k.reach_region(thread, mem, needed) == Ok::<
                RegionId,
                KernelError,
            >(region) <==> k.has_thread(thread) && k.holds(
                k.threads[thread as int].task,
                mem,
                ObjectRef::Region(region),
                needed,
            )),
        k.reach_region(thread, mem, needed) is Ok ==> k.has_region(
            k.reach_region(thread, mem, needed)->Ok_0,
        ),
{
    if k.has_thread(thread) {
        let task = k.threads[thread as int].task;
        if k.resolve(task, mem, "region", needed) is Ok {
            crate::soundness::lemma_resolved(k, task, mem, "region", needed);
        }
    }
}

/// A slot that was never handed out is denied, for whatever purpose: it resolves
/// to nothing, and nothing can be derived from it.
pub proof fn law_fabricated_slot_is_denied(
    k: KernelView,
    task: TaskId,
    slot: CapSlot,
    want_kind: &'static str,
    needed: Rights,
    to: TaskId,
)
    requires
        k.wf(),
        k.has_task(task),
        slot >= k.table(task).next,
    ensures
        k.resolve(task, slot, want_kind, needed) == Err::<ObjectRef, KernelError>(
            KernelError::NoSuchCapability { slot },
        ),
        k.mint_answer(task, slot, to, needed) == Err::<(CapSlot, Rights), KernelError>(
            KernelError::NoSuchCapability { slot },
        ),
        k.mint(task, slot, to, needed) == k,
{
    crate::soundness::lemma_table_wf(k, task);
    assert(k.held(task, slot) is None);
}

/// A revoked slot is denied, for whatever purpose, and holds nothing.
pub proof fn law_revoked_slot_is_denied(
    k: KernelView,
    task: TaskId,
    slot: CapSlot,
    want_kind: &'static str,
    needed: Rights,
    to: TaskId,
)
    requires
        k.wf(),
        k.has_task(task),
    ensures
        ({
            let n = k.revoke(task, slot);
            &&& n.resolve(task, slot, want_kind, needed) == Err::<ObjectRef, KernelError>(
                KernelError::NoSuchCapability { slot },
            )
            &&& n.mint_answer(task, slot, to, needed) == Err::<(CapSlot, Rights), KernelError>(
                KernelError::NoSuchCapability { slot },
            )
        }),
{
}

/// Revoking one slot gives back the capability that was there, if any, and leaves
/// every other slot of every task as it was.
pub proof fn law_revoke_touches_one_slot(
    k: KernelView,
    task: TaskId,
    slot: CapSlot,
    other_task: TaskId,
    other_slot: CapSlot,
)
    requires
        (other_task, other_slot) != (task, slot),
    ensures
        k.revoke(task, slot).held(other_task, other_slot) == k.held(other_task, other_slot),
        k.revoke_answer(task, slot) is Some <==> k.held(task, slot) is Some,
        k.revoke_answer(task, slot) matches Some(cap) ==> k.held(task, slot)->0.cap == cap,
{
}

/// No two places, slots or messages in flight, ever hold a capability of the
/// same identity.
pub proof fn law_identities_are_unique(k: KernelView, p: Place, q: Place)
    requires
        k.wf(),
        k.at(None, p) is Some,
        k.at(None, q) is Some,
        k.at(None, p)->0.id == k.at(None, q)->0.id,
    ensures
        p == q,
{
    reveal(KernelView::wf);
}

/// No run creates authority: every capability that exists afterwards, in a slot
/// or in flight, existed before, with the same identity, object and rights.
pub proof fn law_no_run_creates_authority(k: KernelView, max_ops: nat, entry: CapEntry)
    requires
        k.wf(),
        k.run_safe(max_ops),
        k.run(max_ops).live(None, entry),
    ensures
        k.live(None, entry),
{
    crate::soundness::lemma_run(k, max_ops);
}

/// The identities in the tables of the first `count` tasks.
pub open spec fn table_ids(k: KernelView, count: nat) -> Set<CapId>
    decreases count,
{
    if count == 0 {
        Set::empty()
    } else {
        table_ids(k, (count - 1) as nat) + crate::derivation::lost_ids(
            k.tasks[count - 1].caps.slots,
            Set::full(),
        )
    }
}

/// The identities in the messages of the first `count` threads.
pub open spec fn flight_ids(k: KernelView, count: nat) -> Set<CapId>
    decreases count,
{
    if count == 0 {
        Set::empty()
    } else {
        let thread = k.threads[count - 1];
        flight_ids(k, (count - 1) as nat) + if thread.carries() {
            set![(thread.pending->0).cap->0.id]
        } else {
            Set::empty()
        }
    }
}

/// The tables hold as many identities as capabilities.
proof fn lemma_table_ids(k: KernelView, count: nat)
    requires
        k.tables_wf(),
        k.unique(None),
        count <= k.tasks.len() <= u32::MAX,
    ensures
        table_ids(k, count).finite(),
        table_ids(k, count).len() == crate::state::held_count(k.tasks.take(count as int)),
        forall|id: CapId| #[trigger]
            table_ids(k, count).contains(id) <==> exists|t: TaskId, s: CapSlot|
                t < count && (#[trigger] k.held(t, s)) is Some && k.held(t, s)->0.id == id,
    decreases count,
{
    if count > 0 {
        let last = (count - 1) as nat;
        let t = last as TaskId;
        let table = k.tasks[last as int].caps;
        let all = Set::<CapId>::full();
        let found = crate::derivation::lost_ids(table.slots, all);
        let before = table_ids(k, last);
        lemma_table_ids(k, last);
        assert(k.tasks[t as int].id == t);
        assert forall|s: CapSlot, r: CapSlot|
            (#[trigger] table.slots.contains_key(s)) && (#[trigger] table.slots.contains_key(r))
                && table.slots[s].id == table.slots[r].id implies s == r by {
            let p = Place::Slot { task: t, slot: s };
            let q = Place::Slot { task: t, slot: r };
            assert(k.at(None, p) == Some(table.slots[s]));
            assert(k.at(None, q) == Some(table.slots[r]));
            assert(p == q);
        }
        crate::derivation::lemma_lost_ids(table, all);
        assert(table.without(|id: CapId| all.contains(id)).slots =~= Map::empty());
        assert forall|id: CapId| #[trigger] found.contains(id) <==> exists|s: CapSlot|
            (#[trigger] k.held(t, s)) is Some && k.held(t, s)->0.id == id by {
            if found.contains(id) {
                let s = choose|s: CapSlot| #[trigger]
                    table.slots.contains_key(s) && table.slots[s].id == id;
                assert(k.held(t, s) == Some(table.slots[s]));
            }
            if exists|s: CapSlot| (#[trigger] k.held(t, s)) is Some && k.held(t, s)->0.id == id {
                let s = choose|s: CapSlot|
                    (#[trigger] k.held(t, s)) is Some && k.held(t, s)->0.id == id;
                let lost = table.slots.dom().filter(|s: CapSlot| all.contains(table.slots[s].id));
                assert(lost.contains(s));
                assert(lost.map(|s: CapSlot| table.slots[s].id).contains(table.slots[s].id));
            }
        }
        assert forall|id: CapId| !(#[trigger] before.contains(id) && found.contains(id)) by {
            if before.contains(id) && found.contains(id) {
                let (u, s) = choose|u: TaskId, s: CapSlot|
                    u < last && (#[trigger] k.held(u, s)) is Some && k.held(u, s)->0.id == id;
                let r = choose|r: CapSlot|
                    (#[trigger] k.held(t, r)) is Some && k.held(t, r)->0.id == id;
                let p = Place::Slot { task: u, slot: s };
                let q = Place::Slot { task: t, slot: r };
                assert(k.at(None, p) == k.held(u, s));
                assert(k.at(None, q) == k.held(t, r));
                assert(p == q);
            }
        }
        assert(before.disjoint(found));
        vstd::set_lib::lemma_set_disjoint_lens(before, found);
        assert(k.tasks.take(count as int).drop_last() =~= k.tasks.take(last as int));
        assert forall|id: CapId| #[trigger] table_ids(k, count).contains(id) <==> exists|
            u: TaskId,
            s: CapSlot,
        |
            u < count && (#[trigger] k.held(u, s)) is Some && k.held(u, s)->0.id == id by {
            if before.contains(id) {
                let (u, s) = choose|u: TaskId, s: CapSlot|
                    u < last && (#[trigger] k.held(u, s)) is Some && k.held(u, s)->0.id == id;
                assert(u < count && k.held(u, s) is Some);
            }
            if found.contains(id) {
                let s = choose|s: CapSlot|
                    (#[trigger] k.held(t, s)) is Some && k.held(t, s)->0.id == id;
                assert(t < count && k.held(t, s) is Some);
            }
            if exists|u: TaskId, s: CapSlot|
                u < count && (#[trigger] k.held(u, s)) is Some && k.held(u, s)->0.id == id {
                let (u, s) = choose|u: TaskId, s: CapSlot|
                    u < count && (#[trigger] k.held(u, s)) is Some && k.held(u, s)->0.id == id;
                if u == t {
                    assert(found.contains(id));
                } else {
                    assert(u < last && k.held(u, s) is Some);
                    assert(before.contains(id));
                }
            }
        }
    } else {
        assert(k.tasks.take(0) =~= Seq::empty());
    }
}

/// The messages hold as many identities as capabilities.
proof fn lemma_flight_ids(k: KernelView, count: nat)
    requires
        k.unique(None),
        count <= k.threads.len() <= u32::MAX,
    ensures
        flight_ids(k, count).finite(),
        flight_ids(k, count).len() == crate::state::flight_count(k.threads.take(count as int)),
        forall|id: CapId| #[trigger]
            flight_ids(k, count).contains(id) <==> exists|u: ThreadId|
                u < count && (#[trigger] k.threads[u as int]).carries_id(id),
    decreases count,
{
    if count > 0 {
        let last = (count - 1) as nat;
        let t = last as ThreadId;
        let thread = k.threads[t as int];
        let before = flight_ids(k, last);
        lemma_flight_ids(k, last);
        assert(k.threads.take(count as int).drop_last() =~= k.threads.take(last as int));
        let here = (thread.pending->0).cap->0.id;
        if thread.carries() && before.contains(here) {
            let u = choose|u: ThreadId|
                u < last && (#[trigger] k.threads[u as int]).carries_id(here);
            let p = Place::Flight { sender: u };
            let q = Place::Flight { sender: t };
            assert(k.at(None, p) is Some && k.at(None, q) is Some);
            assert(p == q);
        }
        if thread.carries() {
            assert(flight_ids(k, count) =~= before.insert(here));
        } else {
            assert(flight_ids(k, count) =~= before);
        }
        assert forall|id: CapId| #[trigger] flight_ids(k, count).contains(id) <==> exists|
            u: ThreadId,
        |
            u < count && (#[trigger] k.threads[u as int]).carries_id(id) by {
            if before.contains(id) {
                let u = choose|u: ThreadId|
                    u < last && (#[trigger] k.threads[u as int]).carries_id(id);
                assert(u < count && k.threads[u as int].carries_id(id));
            }
            if thread.carries_id(id) {
                assert(t < count && k.threads[t as int].carries_id(id));
            }
            if exists|u: ThreadId| u < count && (#[trigger] k.threads[u as int]).carries_id(id) {
                let u = choose|u: ThreadId|
                    u < count && (#[trigger] k.threads[u as int]).carries_id(id);
                if u != t {
                    assert(u < last && k.threads[u as int].carries_id(id));
                }
            }
        }
    } else {
        assert(k.threads.take(0) =~= Seq::empty());
    }
}

/// The identities of all capabilities there are.
pub open spec fn live_ids(k: KernelView) -> Set<CapId> {
    table_ids(k, k.tasks.len()) + flight_ids(k, k.threads.len())
}

/// There are as many identities as capabilities, one for each place that is not
/// empty.
pub proof fn lemma_live_ids(k: KernelView)
    requires
        k.wf(),
    ensures
        live_ids(k).finite(),
        live_ids(k).len() == k.live_count(),
        forall|id: CapId| #[trigger]
            live_ids(k).contains(id) <==> exists|p: Place|
                (#[trigger] k.at(None, p)) is Some && k.at(None, p)->0.id == id,
{
    reveal(KernelView::wf);
    let (held, flying) = (table_ids(k, k.tasks.len()), flight_ids(k, k.threads.len()));
    lemma_table_ids(k, k.tasks.len());
    lemma_flight_ids(k, k.threads.len());
    assert(k.tasks.take(k.tasks.len() as int) =~= k.tasks);
    assert(k.threads.take(k.threads.len() as int) =~= k.threads);
    assert forall|id: CapId| !(#[trigger] held.contains(id) && flying.contains(id)) by {
        if held.contains(id) && flying.contains(id) {
            let (t, s) = choose|t: TaskId, s: CapSlot|
                t < k.tasks.len() && (#[trigger] k.held(t, s)) is Some && k.held(t, s)->0.id
                    == id;
            let u = choose|u: ThreadId|
                u < k.threads.len() && (#[trigger] k.threads[u as int]).carries_id(id);
            let p = Place::Slot { task: t, slot: s };
            let q = Place::Flight { sender: u };
            assert(k.at(None, p) == k.held(t, s));
            assert(k.at(None, q) is Some);
            assert(p == q);
        }
    }
    assert(held.disjoint(flying));
    vstd::set_lib::lemma_set_disjoint_lens(held, flying);
    assert forall|id: CapId| #[trigger] live_ids(k).contains(id) <==> exists|p: Place|
        (#[trigger] k.at(None, p)) is Some && k.at(None, p)->0.id == id by {
        if held.contains(id) {
            let (t, s) = choose|t: TaskId, s: CapSlot|
                t < k.tasks.len() && (#[trigger] k.held(t, s)) is Some && k.held(t, s)->0.id
                    == id;
            let p = Place::Slot { task: t, slot: s };
            assert(k.at(None, p) == k.held(t, s));
        }
        if flying.contains(id) {
            let u = choose|u: ThreadId|
                u < k.threads.len() && (#[trigger] k.threads[u as int]).carries_id(id);
            let p = Place::Flight { sender: u };
            assert(k.at(None, p) is Some && k.at(None, p)->0.id == id);
        }
        if exists|p: Place| (#[trigger] k.at(None, p)) is Some && k.at(None, p)->0.id == id {
            let p = choose|p: Place|
                (#[trigger] k.at(None, p)) is Some && k.at(None, p)->0.id == id;
            match p {
                Place::Slot { task, slot } => {
                    assert(k.held(task, slot) is Some && task < k.tasks.len());
                },
                Place::Flight { sender } => {
                    assert(k.threads[sender as int].carries_id(id) && sender < k.threads.len());
                },
                Place::Hand => {},
            }
        }
    }
}

/// No run creates capabilities: there are never more of them after it than
/// before, in tables and messages together. Where no message carries one at the
/// start, the tables hold no more at the end.
pub proof fn law_no_run_adds_capabilities(k: KernelView, max_ops: nat)
    requires
        k.wf(),
        k.run_safe(max_ops),
    ensures
        k.run(max_ops).live_count() <= k.live_count(),
        crate::state::flight_count(k.threads) == 0 ==> crate::state::held_count(
            k.run(max_ops).tasks,
        ) <= crate::state::held_count(k.tasks),
{
    let n = k.run(max_ops);
    crate::soundness::lemma_run(k, max_ops);
    lemma_live_ids(k);
    lemma_live_ids(n);
    assert(live_ids(n).subset_of(live_ids(k))) by {
        assert forall|id: CapId| #[trigger] live_ids(n).contains(id) implies live_ids(
            k,
        ).contains(id) by {
            let p = choose|p: Place|
                (#[trigger] n.at(None, p)) is Some && n.at(None, p)->0.id == id;
            let entry = n.at(None, p)->0;
            assert(n.live(None, entry));
            assert(k.live(None, entry));
            let q = choose|q: Place| #[trigger] k.at(None, q) == Some(entry);
            assert(k.at(None, q) is Some && k.at(None, q)->0.id == id);
        }
    }
    vstd::set_lib::lemma_len_subset(live_ids(n), live_ids(k));
}

/// A grant adds one capability, with a fresh identity, in a slot that was never
/// used, and changes no other slot.
pub proof fn law_grant_adds_one_capability(
    k: KernelView,
    task: TaskId,
    object: ObjectRef,
    rights: Rights,
    other_task: TaskId,
    other_slot: CapSlot,
)
    requires
        k.wf(),
        k.has_task(task),
        k.table(task).next < u32::MAX,
        k.next_cap_id < u64::MAX,
    ensures
        ({
            let n = k.grant(task, object, rights);
            let slot = k.table(task).next_slot();
            &&& k.held(task, slot) is None
            &&& n.held(task, slot) == Some(
                CapEntry { cap: Capability { object, rights }, id: k.fresh_id() },
            )
            &&& (other_task, other_slot) != (task, slot) ==> n.held(other_task, other_slot)
                == k.held(other_task, other_slot)
        }),
{
    crate::soundness::lemma_table_wf(k, task);
}

/// The rights of a derived capability are exactly those of its source without
/// the ones dropped, so delegation never adds a right. The child names the same
/// object, and the source stays.
pub proof fn law_mint_never_escalates(
    k: KernelView,
    from: TaskId,
    src_slot: CapSlot,
    to: TaskId,
    drop_mask: Rights,
    right: Rights,
)
    requires
        k.wf(),
        k.mint_answer(from, src_slot, to, drop_mask) is Ok,
        k.next_cap_id < u64::MAX,
        k.table(to).next < u32::MAX,
    ensures
        ({
            let n = k.mint(from, src_slot, to, drop_mask);
            let (slot, rights) = k.mint_answer(from, src_slot, to, drop_mask)->Ok_0;
            let source = k.held(from, src_slot)->0;
            let child = n.held(to, slot)->0;
            &&& n.held(to, slot) is Some
            &&& child.cap.rights == rights
            &&& child.cap.rights == source.cap.rights.minus(drop_mask)
            &&& child.cap.rights.contains(right) ==> source.cap.rights.contains(right)
            &&& child.cap.object == source.cap.object
            &&& n.held(from, src_slot) == Some(source)
        }),
{
    let source = k.held(from, src_slot)->0;
    crate::soundness::lemma_table_wf(k, to);
    crate::soundness::lemma_table_wf(k, from);
    crate::capability::law_minus_only_weakens(source.cap.rights, drop_mask);
    crate::capability::law_containment_is_an_order(
        source.cap.rights,
        source.cap.rights.minus(drop_mask),
        right,
    );
}

// -- how authority spreads ----------------------------------------------------

/// Whether a thread belongs to a task and is at a receive.
pub open spec fn receives_for(k: KernelView, tid: ThreadId, task: TaskId) -> bool {
    &&& k.has_thread(tid)
    &&& k.threads[tid as int].task == task
    &&& k.threads[tid as int].current_op() is Some
    &&& k.threads[tid as int].current_op()->0 is Recv
}

/// A message that meets an endpoint adds to no table but that of a receiver.
proof fn lemma_post_gains(
    k: KernelView,
    tid: ThreadId,
    ep: EndpointId,
    msg: PendingView,
    task: TaskId,
    slot: CapSlot,
) -> (receiver: ThreadId)
    requires
        k.sched_wf(Some(tid)),
        k.has_endpoint(ep),
        k.post(tid, ep, msg).held(task, slot) is Some,
        k.post(tid, ep, msg).held(task, slot) != k.held(task, slot),
    ensures
        receives_for(k, receiver, task),
        k.threads[receiver as int].state == ThreadState::BlockedRecv(ep),
        k.post(tid, ep, msg).held(task, slot) == msg.cap,
{
    let endpoint = k.endpoints[ep as int];
    let receiver = endpoint.receivers[0];
    assert(k.endpoint_wf(ep));
    if endpoint.receivers.len() > 0 {
        assert(k.threads[receiver as int].state == ThreadState::BlockedRecv(ep));
        assert(k.thread_wf(receiver, Some(tid)));
    }
    receiver
}

/// A send adds to no table but that of a receiver.
proof fn lemma_send_gains(
    k: KernelView,
    tid: ThreadId,
    ep_slot: CapSlot,
    msg: MsgView,
    consume_reply: bool,
    task: TaskId,
    slot: CapSlot,
) -> (receiver: ThreadId)
    requires
        k.busy_wf(Some(tid), 1),
        k.send_safe(tid, ep_slot, msg),
        k.do_send(tid, ep_slot, msg, consume_reply).held(task, slot) is Some,
        k.do_send(tid, ep_slot, msg, consume_reply).held(task, slot) != k.held(task, slot),
    ensures
        receives_for(k, receiver, task),
        k.threads[receiver as int].state is BlockedRecv,
        k.do_send(tid, ep_slot, msg, consume_reply).held(
            task,
            slot,
        )->0.cap.rights.contains(Rights::grant()),
{
    let from = k.threads[tid as int].task;
    let answer = k.resolve(from, ep_slot, "endpoint", Rights::send());
    assert(answer is Ok && k.send_refusal(from, answer->Ok_0, msg.transfer) is None);
    let gone = k.departed(tid, ep_slot, msg.transfer, consume_reply);
    crate::soundness::lemma_departed(k, tid, ep_slot, msg, consume_reply);
    assert(gone.held(task, slot) is None || gone.held(task, slot) == k.held(task, slot));
    let receiver = lemma_post_gains(
        gone,
        tid,
        answer->Ok_0.number(),
        k.resolved_msg(from, msg),
        task,
        slot,
    );
    assert(k.thread_wf(tid, Some(tid)));
    if receiver != tid {
        assert(gone.threads[receiver as int] == k.threads[receiver as int]);
    }
    receiver
}

/// A receive adds to no table but that of the receiver.
proof fn lemma_recv_gains(
    k: KernelView,
    tid: ThreadId,
    ep_slot: CapSlot,
    task: TaskId,
    slot: CapSlot,
)
    requires
        k.busy_wf(Some(tid), 1),
        k.recv_safe(tid, ep_slot),
        k.do_recv(tid, ep_slot).held(task, slot) is Some,
        k.do_recv(tid, ep_slot).held(task, slot) != k.held(task, slot),
    ensures
        k.threads[tid as int].task == task,
        k.do_recv(tid, ep_slot).held(task, slot)->0.cap.rights.contains(Rights::grant()),
{
    let answer = k.resolve(
        k.threads[tid as int].task,
        ep_slot,
        "endpoint",
        Rights::recv(),
    );
    if answer is Ok {
        let ep = answer->Ok_0.number();
        assert(k.endpoint_wf(ep));
        if k.endpoints[ep as int].senders.len() > 0 {
            let sender = k.endpoints[ep as int].senders[0];
            assert(k.threads[sender as int].state == ThreadState::BlockedSend(ep));
            assert(k.thread_wf(tid, Some(tid)));
            assert(k.thread_wf(sender, Some(tid)));
        }
    }
}

/// A step adds to no table but that of a receiver.
proof fn lemma_step_gains(k: KernelView, tid: ThreadId, task: TaskId, slot: CapSlot) -> (receiver:
    ThreadId)
    requires
        k.busy_wf(Some(tid), 1),
        k.step_safe(tid),
        k.step(tid).held(task, slot) is Some,
        k.step(tid).held(task, slot) != k.held(task, slot),
    ensures
        receives_for(k, receiver, task),
        receiver == tid || k.threads[receiver as int].state is BlockedRecv,
        k.step(tid).held(task, slot)->0.cap.rights.contains(Rights::grant()),
{
    match k.threads[tid as int].current_op() {
        Some(OpView::Send { ep, msg }) => lemma_send_gains(k, tid, ep, msg, false, task, slot),
        Some(OpView::Reply { msg }) => lemma_send_gains(
            k,
            tid,
            k.threads[tid as int].reply_to->0,
            msg,
            true,
            task,
            slot,
        ),
        Some(OpView::Recv { ep }) => {
            lemma_recv_gains(k, tid, ep, task, slot);
            tid
        },
        _ => {
            assert(k.step(tid).tasks == k.tasks);
            tid
        },
    }
}

/// A task gains a capability in a turn of the run loop only by receiving it: one
/// of its threads is at a receive, and the capability carries the grant right.
pub proof fn law_authority_arrives_only_by_receiving(
    k: KernelView,
    task: TaskId,
    slot: CapSlot,
) -> (receiver: ThreadId)
    requires
        k.wf(),
        k.sched.ready.len() > 0,
        k.tick_safe(),
        k.tick().held(task, slot) is Some,
        k.tick().held(task, slot) != k.held(task, slot),
    ensures
        receives_for(k, receiver, task),
        receiver == k.next_thread() || k.threads[receiver as int].state is BlockedRecv,
        k.tick().held(task, slot)->0.cap.rights.contains(Rights::grant()),
{
    reveal(KernelView::wf);
    crate::soundness::lemma_take_up(k);
    let up = k.take_up();
    let tid = k.next_thread();
    assert(up.held(task, slot) == k.held(task, slot));
    assert(k.tick().held(task, slot) == up.step(tid).held(task, slot));
    lemma_step_gains(up, tid, task, slot)
}

// -- the powerless ------------------------------------------------------------

/// Whether a task holds no capability at all, and none of its threads is parked.
pub open spec fn powerless(k: KernelView, task: TaskId) -> bool {
    &&& k.has_task(task)
    &&& forall|slot: CapSlot| (#[trigger] k.held(task, slot)) is None
    &&& forall|tid: ThreadId| #[trigger]
        k.has_thread(tid) && k.threads[tid as int].task == task
            ==> !(k.threads[tid as int].state is BlockedSend)
            && !(k.threads[tid as int].state is BlockedRecv)
}

/// What a turn does to a powerless task: its threads stay as they are, or the one
/// that ran burned cycles, was denied, or finished.
pub open spec fn frustrated(k: KernelView, n: KernelView, tid: ThreadId) -> bool {
    let (before, after) = (
        crate::history::deeds(k.trace, tid),
        crate::history::deeds(n.trace, tid),
    );
    ||| after == before
    ||| after == before.push(after.last()) && (after.last() is Denied || after.last() is Compute)
}

/// A step of a thread whose task holds nothing.
proof fn lemma_powerless_step(k: KernelView, tid: ThreadId)
    requires
        k.has_thread(tid),
        k.has_task(k.threads[tid as int].task),
        forall|slot: CapSlot| (#[trigger] k.held(k.threads[tid as int].task, slot)) is None,
        k.threads[tid as int].state is Running,
    ensures
        k.step(tid).tasks == k.tasks,
        forall|u: ThreadId|
            k.has_thread(u) && u != tid ==> (#[trigger] k.step(tid).threads[u as int])
                == k.threads[u as int],
        k.step(tid).threads[tid as int].state is Running
            || k.step(tid).threads[tid as int].state is Exited,
        k.step(tid).trace.len() == k.trace.len() + 1,
        k.step(tid).trace == k.trace.push(k.step(tid).trace.last()),
        k.step(tid).trace.last() is Denied || k.step(tid).trace.last() is Compute
            || k.step(tid).trace.last() is Exit,
{
    let task = k.threads[tid as int].task;
    match k.threads[tid as int].current_op() {
        Some(OpView::Read { mem, offset }) => {
            assert(k.held(task, mem) is None);
        },
        Some(OpView::Write { mem, offset, value }) => {
            assert(k.held(task, mem) is None);
        },
        Some(OpView::Send { ep, msg }) => {
            assert(k.held(task, ep) is None);
        },
        Some(OpView::Reply { msg }) => {
            if let Some(slot) = k.threads[tid as int].reply_to {
                assert(k.held(task, slot) is None);
            }
        },
        Some(OpView::Recv { ep }) => {
            assert(k.held(task, ep) is None);
        },
        _ => {},
    }
}

/// A turn leaves a powerless task powerless, and gets none of its threads
/// anywhere.
proof fn lemma_powerless_turn(k: KernelView, task: TaskId)
    requires
        k.wf(),
        k.sched.ready.len() > 0,
        k.tick_safe(),
        powerless(k, task),
    ensures
        powerless(k.tick(), task),
        forall|tid: ThreadId| #[trigger]
            k.has_thread(tid) && k.threads[tid as int].task == task ==> frustrated(
                k,
                k.tick(),
                tid,
            ),
{
    let n = k.tick();
    let tid = k.next_thread();
    let up = k.take_up();
    crate::soundness::lemma_tick(k);
    crate::history::lemma_tick(k);
    reveal(KernelView::wf);
    crate::soundness::lemma_take_up(k);
    let done = up.step(tid);
    if k.threads[tid as int].task == task {
        assert forall|slot: CapSlot| (#[trigger] up.held(task, slot)) is None by {
            assert(k.held(task, slot) is None);
        }
        lemma_powerless_step(up, tid);
        assert(n.tasks == k.tasks);
        assert forall|slot: CapSlot| (#[trigger] n.held(task, slot)) is None by {
            assert(k.held(task, slot) is None);
        }
        assert(n.trace == k.trace.push(k.dispatch_event()).push(n.trace.last()));
        assert forall|u: ThreadId| #[trigger]
            k.has_thread(u) && k.threads[u as int].task == task implies frustrated(k, n, u) by {
            crate::history::lemma_deeds_push(k.trace, k.dispatch_event(), u);
            crate::history::lemma_deeds_push(
                k.trace.push(k.dispatch_event()),
                n.trace.last(),
                u,
            );
        }
        assert forall|u: ThreadId| #[trigger]
            n.has_thread(u) && n.threads[u as int].task == task implies !(n.threads[u as int].state
            is BlockedSend) && !(n.threads[u as int].state is BlockedRecv) by {
            assert(k.has_thread(u));
            if u != tid {
                assert(done.threads[u as int] == up.threads[u as int]);
            }
        }
    } else {
        assert forall|slot: CapSlot| (#[trigger] n.held(task, slot)) is None by {
            assert(k.held(task, slot) is None);
            if n.held(task, slot) is Some {
                let receiver = law_authority_arrives_only_by_receiving(k, task, slot);
                assert(k.has_thread(receiver) && k.threads[receiver as int].task == task);
            }
        }
        assert forall|u: ThreadId| #[trigger]
            k.has_thread(u) && k.threads[u as int].task == task implies n.threads[u as int]
            == k.threads[u as int] && frustrated(k, n, u) by {
            lemma_bystander(k, u);
            assert(crate::history::logged(k, n, u));
        }
        assert forall|u: ThreadId| #[trigger]
            n.has_thread(u) && n.threads[u as int].task == task implies !(n.threads[u as int].state
            is BlockedSend) && !(n.threads[u as int].state is BlockedRecv) by {
            assert(k.has_thread(u));
            assert(n.threads[u as int].task == k.threads[u as int].task);
        }
    }
}

/// A thread that neither ran nor was parked is untouched by a turn.
proof fn lemma_bystander(k: KernelView, tid: ThreadId)
    requires
        k.wf(),
        k.sched.ready.len() > 0,
        k.tick_safe(),
        k.has_thread(tid),
        tid != k.next_thread(),
        !(k.threads[tid as int].state is BlockedSend),
        !(k.threads[tid as int].state is BlockedRecv),
    ensures
        k.tick().threads[tid as int] == k.threads[tid as int],
{
    reveal(KernelView::wf);
    crate::soundness::lemma_take_up(k);
    let up = k.take_up();
    let runner = k.next_thread();
    crate::history::lemma_step(up, runner);
    match up.threads[runner as int].current_op() {
        Some(OpView::Send { ep, msg }) => {
            lemma_send_bystander(up, runner, ep, msg, false, tid);
        },
        Some(OpView::Reply { msg }) => {
            if let Some(slot) = up.threads[runner as int].reply_to {
                lemma_send_bystander(up, runner, slot, msg, true, tid);
            }
        },
        Some(OpView::Recv { ep }) => {
            let answer = up.reach_endpoint(up.threads[runner as int].task, ep, Rights::recv());
            if answer is Ok {
                let number = answer->Ok_0;
                assert(up.endpoint_wf(number));
                if up.endpoints[number as int].senders.len() > 0 {
                    let sender = up.endpoints[number as int].senders[0];
                    assert(up.threads[sender as int].state == ThreadState::BlockedSend(number));
                }
            }
            assert(up.do_recv(runner, ep).threads[tid as int] == up.threads[tid as int]);
        },
        _ => {
            assert(up.step(runner).threads[tid as int] == up.threads[tid as int]);
        },
    }
    assert(up.step(runner).threads[tid as int] == k.threads[tid as int]);
}

/// A thread that neither sends nor is parked is untouched by a send.
proof fn lemma_send_bystander(
    k: KernelView,
    runner: ThreadId,
    ep_slot: CapSlot,
    msg: MsgView,
    consume_reply: bool,
    tid: ThreadId,
)
    requires
        k.busy_wf(Some(runner), 1),
        k.send_safe(runner, ep_slot, msg),
        k.has_thread(tid),
        tid != runner,
        !(k.threads[tid as int].state is BlockedRecv),
    ensures
        k.do_send(runner, ep_slot, msg, consume_reply).threads[tid as int]
            == k.threads[tid as int],
{
    let task = k.threads[runner as int].task;
    let answer = k.resolve(task, ep_slot, "endpoint", Rights::send());
    if answer is Ok && k.send_refusal(task, answer->Ok_0, msg.transfer) is None {
        let number = answer->Ok_0.number();
        assert(k.endpoint_wf(number));
        if k.endpoints[number as int].receivers.len() > 0 {
            let receiver = k.endpoints[number as int].receivers[0];
            assert(k.threads[receiver as int].state == ThreadState::BlockedRecv(number));
        }
    }
}

/// A task that holds no capability can do nothing: over any run it gains none,
/// and every syscall of its threads is denied. All they can do is compute.
pub proof fn law_without_capabilities_every_syscall_is_denied(
    k: KernelView,
    task: TaskId,
    tid: ThreadId,
    max_ops: nat,
    i: int,
)
    requires
        k.wf(),
        k.run_safe(max_ops),
        powerless(k, task),
        k.has_thread(tid),
        k.threads[tid as int].task == task,
    ensures
        powerless(k.run(max_ops), task),
        crate::history::deeds(k.trace, tid).is_prefix_of(
            crate::history::deeds(k.run(max_ops).trace, tid),
        ),
        crate::history::deeds(k.trace, tid).len() <= i < crate::history::deeds(
            k.run(max_ops).trace,
            tid,
        ).len() ==> crate::history::deeds(k.run(max_ops).trace, tid)[i] is Denied
            || crate::history::deeds(k.run(max_ops).trace, tid)[i] is Compute,
    decreases max_ops,
{
    if max_ops > 0 && k.sched.ready.len() > 0 {
        let n = k.tick();
        crate::soundness::lemma_tick(k);
        lemma_powerless_turn(k, task);
        assert(frustrated(k, n, tid));
        assert(n.threads[tid as int].task == k.threads[tid as int].task);
        law_without_capabilities_every_syscall_is_denied(
            n,
            task,
            tid,
            (max_ops - 1) as nat,
            i,
        );
        let middle = crate::history::deeds(n.trace, tid);
        let end = crate::history::deeds(k.run(max_ops).trace, tid);
        if i < middle.len() && crate::history::deeds(k.trace, tid).len() <= i {
            assert(end[i] == middle[i]);
        }
    }
}

// -- what the calls leave alone -----------------------------------------------

/// Whether two states differ in nothing but capabilities.
pub open spec fn only_capabilities(k: KernelView, n: KernelView) -> bool {
    &&& n.tasks.len() == k.tasks.len()
    &&& forall|t: int|
        0 <= t < k.tasks.len() ==> {
            &&& (#[trigger] n.tasks[t]).id == k.tasks[t].id
            &&& n.tasks[t].name == k.tasks[t].name
            &&& n.tasks[t].threads == k.tasks[t].threads
        }
    &&& n.endpoints == k.endpoints
    &&& n.regions == k.regions
    &&& n.sched == k.sched
    &&& n.trace == k.trace
    &&& n.clock == k.clock
    &&& n.rng == k.rng
}

/// Granting, deriving and revoking touch nothing but capabilities: no thread moves,
/// nothing is recorded, no byte changes and no time passes. What is revoked is
/// handed back to nobody, and no identity is used for it.
pub proof fn law_capability_calls_touch_only_capabilities(
    k: KernelView,
    task: TaskId,
    slot: CapSlot,
    to: TaskId,
    object: ObjectRef,
    rights: Rights,
)
    ensures
        k.has_task(task) ==> only_capabilities(k, k.grant(task, object, rights)) && k.grant(
            task,
            object,
            rights,
        ).threads == k.threads,
        only_capabilities(k, k.mint(task, slot, to, rights)),
        k.mint(task, slot, to, rights).threads == k.threads,
        only_capabilities(k, k.revoke(task, slot)),
        k.revoke(task, slot).threads == k.threads,
        k.revoke(task, slot).held(task, slot) is None,
        k.revoke(task, slot).next_cap_id == k.next_cap_id,
        k.revoke(task, slot).cdt == k.cdt,
        only_capabilities(k, k.revoke_tree(task, slot)),
        k.revoke_tree(task, slot).next_cap_id == k.next_cap_id,
        k.held(task, slot) is None ==> k.revoke_tree(task, slot) == k,
        forall|u: int|
            0 <= u < k.threads.len() ==> crate::soundness::eased(
                k.threads[u],
                #[trigger] k.revoke_tree(task, slot).threads[u],
            ),
{
}

/// The identity of a slot is that of the capability that the slot holds, and there
/// is one exactly where the slot is live.
pub proof fn law_a_live_slot_has_an_identity(k: KernelView, task: TaskId, slot: CapSlot)
    ensures
        k.cap_id(task, slot) is Some <==> k.held(task, slot) is Some,
        k.held(task, slot) matches Some(entry) ==> k.cap_id(task, slot) == Some(entry.id),
        k.held(task, slot) is Some <==> k.has_task(task) && k.table(task).slots.contains_key(slot),
        k.held(task, slot) matches Some(entry) ==> entry == k.table(task).slots[slot],
{
}

} // verus!
