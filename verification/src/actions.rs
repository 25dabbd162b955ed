//! What holds over any sequence of kernel operations.
//!
//! Whoever drives the kernel creates objects, hands out and takes back
//! capabilities, accesses memory on behalf of threads, and runs the simulation,
//! in any order. The laws here speak of every such sequence.

use crate::capability::{CapEntry, CapSlot, ObjectRef, Rights};
use crate::error::KernelError;
use crate::soundness::{tables_grow, Place};
use crate::state::KernelView;
use crate::thread::OpView;
use crate::{TaskId, ThreadId};
use vstd::prelude::*;

verus! {

/// One operation on the kernel.
pub enum Action {
    /// Create a task.
    CreateTask { name: Seq<char> },
    /// Create an endpoint.
    CreateEndpoint,
    /// Create a region.
    CreateRegion { owner: TaskId, len: usize },
    /// Spawn a thread.
    Spawn { task: TaskId, name: Seq<char>, priority: u8, program: Seq<OpView> },
    /// Grant a root capability.
    Grant { task: TaskId, object: ObjectRef, rights: Rights },
    /// Derive a weaker capability.
    Mint { from: TaskId, src_slot: CapSlot, to: TaskId, drop_mask: Rights },
    /// Revoke one slot.
    Revoke { task: TaskId, slot: CapSlot },
    /// Revoke a whole subtree.
    RevokeTree { task: TaskId, slot: CapSlot },
    /// Write a byte on behalf of a thread.
    Write { thread: ThreadId, mem: CapSlot, offset: usize, value: u8 },
    /// Draw from the generator, leaving it in some state.
    Draw { rng: u64 },
    /// Run.
    Run { max_ops: nat },
}

impl KernelView {
    /// Whether an operation stays within the limits of the machine.
    pub open spec fn allows(self, action: Action) -> bool {
        match action {
            Action::CreateTask { name } => self.tasks.len() < u32::MAX,
            Action::CreateEndpoint => self.endpoints.len() < u32::MAX,
            Action::CreateRegion { owner, len } => self.regions.len() < u32::MAX,
            Action::Spawn { task, name, priority, program } => self.threads.len() < u32::MAX,
            Action::Grant { task, object, rights } => {
                &&& self.has_task(task)
                &&& self.table(task).next < u32::MAX
                &&& self.next_cap_id < u64::MAX
            },
            Action::Mint { from, src_slot, to, drop_mask } => {
                self.held(from, src_slot) is Some ==> self.next_cap_id < u64::MAX && (self.has_task(
                    to,
                ) ==> self.table(to).next < u32::MAX)
            },
            Action::Revoke { task, slot } => true,
            Action::RevokeTree { task, slot } => true,
            Action::Write { thread, mem, offset, value } => true,
            Action::Draw { rng } => true,
            Action::Run { max_ops } => self.run_safe(max_ops),
        }
    }

    /// The state after an operation.
    pub open spec fn after(self, action: Action) -> KernelView {
        match action {
            Action::CreateTask { name } => self.create_task(name),
            Action::CreateEndpoint => self.create_endpoint(),
            Action::CreateRegion { owner, len } => self.create_region(owner, len),
            Action::Spawn { task, name, priority, program } => self.spawn_thread(
                task,
                name,
                priority,
                program,
            ),
            Action::Grant { task, object, rights } => self.grant(task, object, rights),
            Action::Mint { from, src_slot, to, drop_mask } => self.mint(
                from,
                src_slot,
                to,
                drop_mask,
            ),
            Action::Revoke { task, slot } => self.revoke(task, slot),
            Action::RevokeTree { task, slot } => self.revoke_tree(task, slot),
            Action::Write { thread, mem, offset, value } => self.sys_write(
                thread,
                mem,
                offset,
                value,
            ),
            Action::Draw { rng } => self.with_rng(rng),
            Action::Run { max_ops } => self.run(max_ops),
        }
    }

    /// Whether a whole sequence of operations stays within the limits of the
    /// machine.
    pub open spec fn allows_all(self, script: Seq<Action>) -> bool
        decreases script.len(),
    {
        script.len() == 0 || (self.allows(script[0]) && self.after(script[0]).allows_all(
            script.drop_first(),
        ))
    }

    /// The state after a sequence of operations.
    pub open spec fn after_all(self, script: Seq<Action>) -> KernelView
        decreases script.len(),
    {
        if script.len() == 0 {
            self
        } else {
            self.after(script[0]).after_all(script.drop_first())
        }
    }

    /// The invariant of every kernel between two operations.
    pub open spec fn sound(self) -> bool {
        self.wf() && self.recorded()
    }
}

/// What one operation promises: the invariant stays, dead slots stay dead, and
/// whatever capability is new has a new identity.
pub proof fn lemma_action(k: KernelView, action: Action)
    requires
        k.sound(),
        k.allows(action),
    ensures
        k.after(action).sound(),
        tables_grow(k, k.after(action)),
        k.next_cap_id <= k.after(action).next_cap_id,
        k.trace.is_prefix_of(k.after(action).trace),
        forall|e: CapEntry| #[trigger]
            k.after(action).live(None, e) ==> k.live(None, e) || (e.id >= k.next_cap_id && (action
                is Grant || action is Mint)),
        !(action is Grant) ==> forall|e: CapEntry| #[trigger]
            k.after(action).live(None, e) ==> exists|o: CapEntry| #[trigger]
                k.live(None, o) && o.cap.object == e.cap.object && o.cap.rights.contains(
                    e.cap.rights,
                ),
{
    let n = k.after(action);
    match action {
        Action::CreateTask { name } => {
            crate::soundness::lemma_create_task(k, name);
            crate::history::lemma_unchanged(k, n);
        },
        Action::CreateEndpoint => {
            crate::soundness::lemma_create_endpoint(k);
            crate::history::lemma_unchanged(k, n);
        },
        Action::CreateRegion { owner, len } => {
            crate::soundness::lemma_create_region(k, owner, len);
            crate::history::lemma_unchanged(k, n);
        },
        Action::Spawn { task, name, priority, program } => {
            crate::soundness::lemma_spawn(k, task, name, priority, program);
            crate::history::lemma_spawn(k, task, name, priority, program);
        },
        Action::Grant { task, object, rights } => {
            crate::soundness::lemma_grant(k, task, object, rights);
            crate::history::lemma_unchanged(k, n);
        },
        Action::Mint { from, src_slot, to, drop_mask } => {
            crate::soundness::lemma_mint(k, from, src_slot, to, drop_mask);
            crate::history::lemma_unchanged(k, n);
        },
        Action::Revoke { task, slot } => {
            crate::soundness::lemma_revoke(k, task, slot);
            crate::history::lemma_unchanged(k, n);
        },
        Action::RevokeTree { task, slot } => {
            if let Some(root) = k.cap_id(task, slot) {
                crate::soundness::lemma_without_subtree(k, root);
                crate::history::lemma_unchanged(k, n);
            }
        },
        Action::Write { thread, mem, offset, value } => {
            crate::soundness::lemma_sys_write(k, thread, mem, offset, value);
            crate::history::lemma_unchanged(k, n);
        },
        Action::Draw { rng } => {
            crate::soundness::lemma_draw(k, rng);
            crate::history::lemma_unchanged(k, n);
        },
        Action::Run { max_ops } => {
            crate::soundness::lemma_run(k, max_ops);
            crate::history::lemma_run(k, max_ops);
        },
    }
    if !(action is Grant) {
        assert forall|e: CapEntry| #[trigger] n.live(None, e) implies exists|o: CapEntry| #[trigger]
            k.live(None, o) && o.cap.object == e.cap.object && o.cap.rights.contains(
                e.cap.rights,
            ) by {
            if k.live(None, e) {
                crate::capability::law_containment_is_an_order(
                    e.cap.rights,
                    e.cap.rights,
                    e.cap.rights,
                );
            } else if let Action::Mint { from, src_slot, to, drop_mask } = action {
                let src = k.held(from, src_slot)->0;
                assert(k.at(None, Place::Slot { task: from, slot: src_slot }) == Some(src));
                assert(k.live(None, src));
                crate::capability::law_minus_only_weakens(src.cap.rights, drop_mask);
            }
        }
    }
}

/// The invariant holds after any sequence of operations: queues and authority
/// are in order, and the trace accounts for what every thread has done.
pub proof fn law_the_invariant_always_holds(k: KernelView, script: Seq<Action>)
    requires
        k.sound(),
        k.allows_all(script),
    ensures
        k.after_all(script).sound(),
    decreases script.len(),
{
    if script.len() > 0 {
        lemma_action(k, script[0]);
        law_the_invariant_always_holds(k.after(script[0]), script.drop_first());
    }
}

/// A slot that was handed out and is dead stays dead, whatever happens later. In
/// particular a revoked slot never comes back to life.
pub proof fn law_dead_slots_stay_dead(
    k: KernelView,
    script: Seq<Action>,
    task: TaskId,
    slot: CapSlot,
)
    requires
        k.sound(),
        k.allows_all(script),
        k.has_task(task),
        slot < k.table(task).next,
        k.held(task, slot) is None,
    ensures
        k.after_all(script).held(task, slot) is None,
{
    lemma_script(k, script);
    assert(k.table(task).grows_into(k.after_all(script).table(task)));
}

/// A slot keeps its capability for as long as it is live: whatever happens later,
/// it holds the same identity with the same object and the same rights, or it is
/// empty.
pub proof fn law_a_live_slot_keeps_its_capability(
    k: KernelView,
    script: Seq<Action>,
    task: TaskId,
    slot: CapSlot,
)
    requires
        k.sound(),
        k.allows_all(script),
        k.held(task, slot) is Some,
    ensures
        k.after_all(script).held(task, slot) is None || k.after_all(script).held(task, slot)
            == k.held(task, slot),
        k.after_all(script).cap_id(task, slot) is None || k.after_all(script).cap_id(task, slot)
            == k.cap_id(task, slot),
{
    lemma_script(k, script);
    crate::soundness::lemma_table_wf(k, task);
    assert(k.table(task).grows_into(k.after_all(script).table(task)));
}

/// The trace only ever grows at its end, and whatever happens, its dispatches
/// bear the ticks 1, 2, 3 and so on without gaps.
pub proof fn law_the_trace_only_grows(k: KernelView, script: Seq<Action>, i: int)
    requires
        k.sound(),
        k.allows_all(script),
    ensures
        ({
            let n = k.after_all(script);
            let ticks = crate::history::ticks(n.trace);
            &&& k.trace.is_prefix_of(n.trace)
            &&& ticks.len() == n.clock
            &&& 0 <= i < ticks.len() ==> ticks[i] == i + 1
        }),
{
    lemma_script(k, script);
    law_the_invariant_always_holds(k, script);
}

/// A slot once revoked is denied for ever, whatever happens later.
pub proof fn law_a_revoked_slot_is_denied_for_ever(
    k: KernelView,
    task: TaskId,
    slot: CapSlot,
    script: Seq<Action>,
    want_kind: &'static str,
    needed: Rights,
)
    requires
        k.sound(),
        k.held(task, slot) is Some,
        k.revoke(task, slot).allows_all(script),
    ensures
        k.revoke(task, slot).after_all(script).resolve(task, slot, want_kind, needed) == Err::<
            ObjectRef,
            KernelError,
        >(KernelError::NoSuchCapability { slot }),
{
    let n = k.revoke(task, slot);
    lemma_action(k, Action::Revoke { task, slot });
    crate::soundness::lemma_table_wf(k, task);
    law_dead_slots_stay_dead(n, script, task, slot);
    lemma_script(n, script);
}

/// Over a sequence of operations tables only hand slots out upwards, and a
/// capability that is new has a new identity.
pub proof fn lemma_script(k: KernelView, script: Seq<Action>)
    requires
        k.sound(),
        k.allows_all(script),
    ensures
        tables_grow(k, k.after_all(script)),
        k.next_cap_id <= k.after_all(script).next_cap_id,
        k.trace.is_prefix_of(k.after_all(script).trace),
        forall|e: CapEntry| #[trigger]
            k.after_all(script).live(None, e) ==> k.live(None, e) || e.id >= k.next_cap_id,
    decreases script.len(),
{
    if script.len() > 0 {
        let m = k.after(script[0]);
        lemma_action(k, script[0]);
        lemma_script(m, script.drop_first());
        crate::soundness::lemma_tables_grow_transitive(k, m, k.after_all(script));
        assert forall|e: CapEntry| #[trigger] k.after_all(script).live(None, e) implies k.live(
            None,
            e,
        ) || e.id >= k.next_cap_id by {
            assert(m.live(None, e) || e.id >= m.next_cap_id);
        }
    } else {
        assert forall|t: TaskId| #[trigger] k.has_task(t) implies k.table(t).grows_into(
            k.table(t),
        ) by {}
    }
}

/// An identity stands for the same object and the same rights for ever, wherever
/// the capability goes.
pub proof fn law_identity_is_for_ever(
    k: KernelView,
    script: Seq<Action>,
    before: CapEntry,
    after: CapEntry,
)
    requires
        k.sound(),
        k.allows_all(script),
        k.live(None, before),
        k.after_all(script).live(None, after),
        before.id == after.id,
    ensures
        before == after,
{
    lemma_script(k, script);
    let p = choose|p: Place| #[trigger] k.at(None, p) == Some(before);
    assert(before.id < k.next_cap_id) by {
        reveal(KernelView::wf);
    }
    assert(k.live(None, after));
    let q = choose|q: Place| #[trigger] k.at(None, q) == Some(after);
    crate::authority::law_identities_are_unique(k, p, q);
}

/// Only a grant creates authority. Over any sequence of other operations, every
/// capability that exists names an object for which a capability with at least
/// those rights existed at the start.
pub proof fn law_only_grants_create_authority(
    k: KernelView,
    script: Seq<Action>,
    entry: CapEntry,
) -> (origin: CapEntry)
    requires
        k.sound(),
        k.allows_all(script),
        forall|i: int| 0 <= i < script.len() ==> !((#[trigger] script[i]) is Grant),
        k.after_all(script).live(None, entry),
    ensures
        k.live(None, origin),
        origin.cap.object == entry.cap.object,
        origin.cap.rights.contains(entry.cap.rights),
    decreases script.len(),
{
    if script.len() == 0 {
        crate::capability::law_containment_is_an_order(
            entry.cap.rights,
            entry.cap.rights,
            entry.cap.rights,
        );
        entry
    } else {
        let m = k.after(script[0]);
        lemma_action(k, script[0]);
        assert forall|i: int| 0 <= i < script.drop_first().len() implies !((
        #[trigger] script.drop_first()[i]) is Grant) by {
            assert(!(script[i + 1] is Grant));
        }
        assert(!(script[0] is Grant));
        let middle = law_only_grants_create_authority(m, script.drop_first(), entry);
        let origin = choose|o: CapEntry| #[trigger]
            k.live(None, o) && o.cap.object == middle.cap.object && o.cap.rights.contains(
                middle.cap.rights,
            );
        crate::capability::law_containment_is_an_order(
            origin.cap.rights,
            middle.cap.rights,
            entry.cap.rights,
        );
        origin
    }
}

} // verus!
