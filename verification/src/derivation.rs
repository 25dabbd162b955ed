//! The capability derivation tree.
//!
//! Delegation lets a task hand a weaker copy of a capability to another task by
//! minting a child with a subset of the rights. The derivation tree records who
//! descended from whom, so a single revocation can reach every capability ever
//! minted from a root, no matter which task now holds it or whether it moved
//! over IPC in between.

use crate::actions::Action;
use crate::capability::{CapEntry, CapId, CapSlot, Rights, TableView};
use crate::error::KernelError;
use crate::soundness::Place;
use crate::state::KernelView;
use crate::{TaskId, ThreadId};
use std::collections::{BTreeMap, BTreeSet};
use vstd::prelude::*;

verus! {

/// Every identity is younger than the one it was derived from.
pub open spec fn parents_older(cdt: Map<CapId, Option<CapId>>) -> bool {
    forall|id: CapId| #[trigger]
        cdt.contains_key(id) ==> (cdt[id] is Some ==> cdt[id]->0 < id)
}

/// The identities in `doomed` that a row of slots holds.
pub open spec fn lost_ids(slots: Map<CapSlot, CapEntry>, doomed: Set<CapId>) -> Set<CapId> {
    slots.dom().filter(|s: CapSlot| doomed.contains(slots[s].id)).map(|s: CapSlot| slots[s].id)
}

/// A table loses as many slots as it holds identities in `doomed`.
pub proof fn lemma_lost_ids(table: TableView, doomed: Set<CapId>)
    requires
        table.slots.dom().finite(),
        forall|s: CapSlot, r: CapSlot|
            (#[trigger] table.slots.contains_key(s)) && (#[trigger] table.slots.contains_key(r))
                && table.slots[s].id == table.slots[r].id ==> s == r,
    ensures
        lost_ids(table.slots, doomed).finite(),
        lost_ids(table.slots, doomed).len() == table.slots.len() - table.without(
            |id: CapId| doomed.contains(id),
        ).slots.len(),
        forall|id: CapId| #[trigger]
            lost_ids(table.slots, doomed).contains(id) ==> doomed.contains(id) && exists|
                s: CapSlot,
            | #[trigger]
                table.slots.contains_key(s) && table.slots[s].id == id,
{
    let lost = table.slots.dom().filter(|s: CapSlot| doomed.contains(table.slots[s].id));
    let kept = table.without(|id: CapId| doomed.contains(id)).slots.dom();
    let id_at = |s: CapSlot| table.slots[s].id;
    vstd::set_lib::lemma_map_size(lost, lost_ids(table.slots, doomed), id_at);
    vstd::set_lib::lemma_len_subset(kept, table.slots.dom());
    vstd::set_lib::lemma_set_disjoint_lens(lost, kept);
    assert(lost + kept =~= table.slots.dom());
}

/// The identity `root` and everything derived from it. Because a child is always
/// younger than its parent, one pass over the tree in order of age finds them.
pub(crate) fn subtree(cdt: &BTreeMap<CapId, Option<CapId>>, root: CapId) -> (found: BTreeSet<CapId>)
    requires
        parents_older(cdt@),
    ensures
        found@.finite(),
        forall|id: CapId| #[trigger]
            found@.contains(id) <==> crate::state::descends(cdt@, id, root),
{
    let mut found: BTreeSet<CapId> = BTreeSet::new();
    found.insert(root);
    let links = cdt.iter();
    let ghost all = vstd::std_specs::iter::IteratorSpec::remaining(&links);
    proof {
        let keys = all.map_values(|kv: (&CapId, &Option<CapId>)| *kv.0);
        assert(vstd::std_specs::btree::increasing_seq(keys));
        assert(vstd::laws_cmp::obeys_cmp::<CapId>());
        assert forall|i: int, j: int| 0 <= i < j < all.len() implies *(#[trigger] all[i]).0 < *(
        #[trigger] all[j]).0 by {
            assert(vstd::std_specs::cmp::OrdSpec::cmp_spec(&keys[i], &keys[j]) is Less);
        }
        assert forall|i: int| 0 <= i < all.len() implies cdt@.contains_key(*(#[trigger] all[i]).0)
            && cdt@[*all[i].0] == *all[i].1 by {}
    }
    for link in each: links
        invariant
            each.seq() == all,
            found@.finite(),
            parents_older(cdt@),
            forall|i: int, j: int|
                0 <= i < j < all.len() ==> *(#[trigger] all[i]).0 < *(#[trigger] all[j]).0,
            forall|i: int|
                0 <= i < all.len() ==> cdt@.contains_key(*(#[trigger] all[i]).0)
                    && cdt@[*all[i].0] == *all[i].1,
            forall|id: CapId| #[trigger] cdt@.contains_key(id) ==> all.contains((&id, &cdt@[id])),
            forall|id: CapId| #[trigger]
                found@.contains(id) <==> crate::state::descends(cdt@, id, root) && (id == root
                    || exists|i: int| 0 <= i < each.index() && *(#[trigger] all[i]).0 == id),
    {
        let child: CapId = *link.0;
        let ghost at: int = each.index();
        let ghost before = found@;
        proof {
            assert(*all[at].0 == child);
            assert(cdt@.contains_key(child));
        }
        if let Some(parent) = *link.1 {
            proof {
                assert(parent < child);
                if crate::state::descends(cdt@, parent, root) && parent != root {
                    assert(cdt@.contains_key(parent));
                    assert(all.contains((&parent, &cdt@[parent])));
                    let i = choose|i: int|
                        0 <= i < all.len() && all[i] == (&parent, &cdt@[parent]);
                    if i >= at {
                        if i > at {
                            assert(*all[at].0 < *all[i].0);
                        }
                        assert(false);
                    }
                    assert(*all[i].0 == parent);
                }
                assert(before.contains(parent) <==> crate::state::descends(cdt@, parent, root));
            }
            if found.contains(&parent) {
                found.insert(child);
            }
        }
        proof {
            assert forall|id: CapId| #[trigger]
                found@.contains(id) <==> crate::state::descends(cdt@, id, root) && (id == root
                    || exists|i: int| 0 <= i < at + 1 && *(#[trigger] all[i]).0 == id) by {
                if id != child {
                    if exists|i: int| 0 <= i < at + 1 && *(#[trigger] all[i]).0 == id {
                        let i = choose|i: int| 0 <= i < at + 1 && *(#[trigger] all[i]).0 == id;
                        assert(i < at);
                        assert(exists|i: int| 0 <= i < at && *(#[trigger] all[i]).0 == id);
                    }
                    if exists|i: int| 0 <= i < at && *(#[trigger] all[i]).0 == id {
                        let i = choose|i: int| 0 <= i < at && *(#[trigger] all[i]).0 == id;
                        assert(exists|i: int| 0 <= i < at + 1 && *(#[trigger] all[i]).0 == id);
                    }
                    assert(found@.contains(id) <==> before.contains(id));
                } else {
                    assert(exists|i: int| 0 <= i < at + 1 && *(#[trigger] all[i]).0 == id) by {
                        assert(*all[at].0 == id);
                    }
                    if before.contains(child) {
                        if child != root {
                            let i = choose|i: int| 0 <= i < at && *(#[trigger] all[i]).0 == child;
                            assert(*all[i].0 < *all[at].0);
                            assert(false);
                        }
                    }
                    assert(found@.contains(child) <==> crate::state::descends(cdt@, child, root));
                }
            }
        }
    }
    proof {
        assert forall|id: CapId| #[trigger] found@.contains(id) <==> crate::state::descends(
            cdt@,
            id,
            root,
        ) by {
            if crate::state::descends(cdt@, id, root) && id != root {
                assert(cdt@.contains_key(id));
                assert(all.contains((&id, &cdt@[id])));
                let i = choose|i: int| 0 <= i < all.len() && all[i] == (&id, &cdt@[id]);
                assert(*all[i].0 == id);
            }
        }
    }
    found
}

// -- descent ------------------------------------------------------------------

/// Nothing descends from a younger identity.
proof fn lemma_descends_older(cdt: Map<CapId, Option<CapId>>, id: CapId, root: CapId)
    requires
        crate::state::descends(cdt, id, root),
    ensures
        root <= id,
    decreases id,
{
    if id != root {
        lemma_descends_older(cdt, cdt[id]->0, root);
    }
}

/// Descent is transitive.
pub proof fn law_descent_is_transitive(
    cdt: Map<CapId, Option<CapId>>,
    id: CapId,
    middle: CapId,
    root: CapId,
)
    requires
        crate::state::descends(cdt, id, middle),
        crate::state::descends(cdt, middle, root),
    ensures
        crate::state::descends(cdt, id, root),
    decreases id,
{
    if id != middle && id != root {
        law_descent_is_transitive(cdt, cdt[id]->0, middle, root);
    }
}

/// Two identities that something descends from lie on one line of descent.
proof fn lemma_one_line(cdt: Map<CapId, Option<CapId>>, id: CapId, a: CapId, b: CapId)
    requires
        crate::state::descends(cdt, id, a),
        crate::state::descends(cdt, id, b),
    ensures
        crate::state::descends(cdt, a, b) || crate::state::descends(cdt, b, a),
    decreases id,
{
    if id != a && id != b {
        lemma_one_line(cdt, cdt[id]->0, a, b);
    }
}

/// An ancestor never lies in the subtree of its descendant, so revoking a
/// subtree leaves the ancestors alone.
pub proof fn law_ancestors_are_outside(
    cdt: Map<CapId, Option<CapId>>,
    root: CapId,
    ancestor: CapId,
)
    requires
        crate::state::descends(cdt, root, ancestor),
        root != ancestor,
    ensures
        !crate::state::descends(cdt, ancestor, root),
{
    lemma_descends_older(cdt, root, ancestor);
    if crate::state::descends(cdt, ancestor, root) {
        lemma_descends_older(cdt, ancestor, root);
    }
}

/// The subtrees of two children of one parent have nothing in common, so
/// revoking one leaves the other alone.
pub proof fn law_sibling_subtrees_are_disjoint(
    cdt: Map<CapId, Option<CapId>>,
    parent: CapId,
    a: CapId,
    b: CapId,
    id: CapId,
)
    requires
        parents_older(cdt),
        cdt.contains_key(a),
        cdt.contains_key(b),
        cdt[a] == Some(parent),
        cdt[b] == Some(parent),
        a != b,
        crate::state::descends(cdt, id, a),
    ensures
        !crate::state::descends(cdt, id, b),
{
    if crate::state::descends(cdt, id, b) {
        lemma_one_line(cdt, id, a, b);
        if crate::state::descends(cdt, a, b) {
            assert(crate::state::descends(cdt, parent, b));
            lemma_descends_older(cdt, parent, b);
        } else {
            assert(crate::state::descends(cdt, parent, a));
            lemma_descends_older(cdt, parent, a);
        }
    }
}

/// A new identity changes no descent among the older ones.
proof fn lemma_descends_insert(
    cdt: Map<CapId, Option<CapId>>,
    fresh: CapId,
    parent: Option<CapId>,
    id: CapId,
    root: CapId,
)
    requires
        id < fresh,
    ensures
        crate::state::descends(cdt.insert(fresh, parent), id, root) == crate::state::descends(
            cdt,
            id,
            root,
        ),
    decreases id,
{
    if id != root && cdt.contains_key(id) && cdt[id] is Some && cdt[id]->0 < id {
        lemma_descends_insert(cdt, fresh, parent, cdt[id]->0, root);
    }
}

/// A derived capability descends from exactly itself and what its source
/// descends from, and it changes no descent among the others.
pub proof fn law_a_child_descends_from_its_source(
    k: KernelView,
    from: TaskId,
    src_slot: CapSlot,
    to: TaskId,
    drop_mask: Rights,
    id: CapId,
    root: CapId,
)
    requires
        k.wf(),
        k.mint_answer(from, src_slot, to, drop_mask) is Ok,
        k.next_cap_id < u64::MAX,
        k.table(to).next < u32::MAX,
    ensures
        ({
            let n = k.mint(from, src_slot, to, drop_mask);
            let source = k.held(from, src_slot)->0;
            let child = n.held(to, k.table(to).next_slot())->0;
            &&& crate::state::descends(n.cdt, child.id, root) <==> root == child.id
                || crate::state::descends(k.cdt, source.id, root)
            &&& id < k.next_cap_id ==> crate::state::descends(n.cdt, id, root)
                == crate::state::descends(k.cdt, id, root)
        }),
{
    let source = k.held(from, src_slot)->0;
    let n = k.mint(from, src_slot, to, drop_mask);
    let fresh = k.fresh_id();
    crate::soundness::lemma_table_wf(k, to);
    assert(source.id < k.next_cap_id) by {
        reveal(KernelView::wf);
        assert(k.at(None, Place::Slot { task: from, slot: src_slot }) == Some(source));
    }
    lemma_descends_insert(k.cdt, fresh, Some(source.id), source.id, root);
    if id < k.next_cap_id {
        lemma_descends_insert(k.cdt, fresh, Some(source.id), id, root);
    }
}

// -- transitive revocation ----------------------------------------------------

/// Revoking a subtree empties exactly the places whose capability descends from
/// the root, the slots of every task as well as the messages of parked senders,
/// and changes no other place. The root goes too.
pub proof fn law_revoke_tree_removes_exactly_the_subtree(
    k: KernelView,
    task: TaskId,
    slot: CapSlot,
    p: Place,
)
    requires
        k.cap_id(task, slot) is Some,
    ensures
        ({
            let n = k.revoke_tree(task, slot);
            let root = k.cap_id(task, slot)->0;
            let was = k.at(None, p);
            let dies = was is Some && crate::state::descends(k.cdt, was->0.id, root);
            &&& n.held(task, slot) is None
            &&& dies ==> n.at(None, p) is None
            &&& !dies ==> n.at(None, p) == was
        }),
{
    let n = k.revoke_tree(task, slot);
    assert(n.tasks.len() == k.tasks.len());
    assert(n.threads.len() == k.threads.len());
}

/// Revoking a subtree touches nothing but capabilities, in tables and in
/// messages, and the derivation tree, and the tree keeps exactly what lies
/// outside the subtree.
pub proof fn law_revoke_tree_touches_only_authority(
    k: KernelView,
    task: TaskId,
    slot: CapSlot,
    id: CapId,
)
    requires
        k.wf(),
        k.cap_id(task, slot) is Some,
    ensures
        ({
            let n = k.revoke_tree(task, slot);
            let root = k.cap_id(task, slot)->0;
            &&& crate::soundness::same_but_caps(k, n)
            &&& n.next_cap_id == k.next_cap_id
            &&& n.cdt.contains_key(id) <==> k.cdt.contains_key(id) && !crate::state::descends(
                k.cdt,
                id,
                root,
            )
            &&& n.cdt.contains_key(id) ==> n.cdt[id] == k.cdt[id]
        }),
{
}

/// Revocation reaches a capability however it travelled: what descended from the
/// root before a run is gone from every slot and from every message when the root
/// is revoked after it.
pub proof fn law_revocation_reaches_travellers(
    k: KernelView,
    max_ops: nat,
    task: TaskId,
    slot: CapSlot,
    traveller: CapEntry,
    p: Place,
)
    requires
        k.wf(),
        k.run_safe(max_ops),
        k.run(max_ops).cap_id(task, slot) is Some,
        crate::state::descends(k.cdt, traveller.id, k.run(max_ops).cap_id(task, slot)->0),
        k.run(max_ops).at(None, p) == Some(traveller),
    ensures
        k.run(max_ops).revoke_tree(task, slot).at(None, p) is None,
{
    crate::soundness::lemma_run(k, max_ops);
    law_revoke_tree_removes_exactly_the_subtree(k.run(max_ops), task, slot, p);
}

/// Once a subtree is revoked none of it is alive anywhere, neither in a table
/// nor in a message, and whatever happens later none of it comes back.
pub proof fn law_a_revoked_subtree_is_gone_for_ever(
    k: KernelView,
    task: TaskId,
    slot: CapSlot,
    script: Seq<Action>,
    entry: CapEntry,
)
    requires
        k.sound(),
        k.cap_id(task, slot) is Some,
        k.revoke_tree(task, slot).allows_all(script),
        crate::state::descends(k.cdt, entry.id, k.cap_id(task, slot)->0),
    ensures
        !k.revoke_tree(task, slot).after_all(script).live(None, entry),
{
    let root = k.cap_id(task, slot)->0;
    let n = k.revoke_tree(task, slot);
    crate::soundness::lemma_without_subtree(k, root);
    crate::history::lemma_unchanged(k, n);
    crate::actions::lemma_script(n, script);
    assert(!n.live(None, entry)) by {
        if n.live(None, entry) {
            let p = choose|p: Place| #[trigger] n.at(None, p) == Some(entry);
            law_revoke_tree_removes_exactly_the_subtree(k, task, slot, p);
        }
    }
    assert(entry.id < k.next_cap_id) by {
        reveal(KernelView::wf);
        if entry.id == root {
            assert(k.at(None, Place::Slot { task, slot }) == k.held(task, slot));
        } else {
            assert(k.cdt.contains_key(entry.id));
        }
    }
}

// -- descent over time ----------------------------------------------------------

/// Forgetting a subtree changes no descent of what lies outside it.
proof fn lemma_descends_outside(
    cdt: Map<CapId, Option<CapId>>,
    kept: Map<CapId, Option<CapId>>,
    gone: CapId,
    id: CapId,
    root: CapId,
)
    requires
        crate::state::descends(cdt, id, root),
        !crate::state::descends(cdt, id, gone),
        forall|c: CapId| #[trigger]
            cdt.contains_key(c) && !crate::state::descends(cdt, c, gone) ==> kept.contains_key(c)
                && kept[c] == cdt[c],
    ensures
        crate::state::descends(kept, id, root),
    decreases id,
{
    if id != root {
        assert(cdt.contains_key(id));
        lemma_descends_outside(cdt, kept, gone, cdt[id]->0, root);
    }
}

/// What descends from something and is not the same was handed out before.
proof fn lemma_descendant_is_known(k: KernelView, id: CapId, root: CapId)
    requires
        k.wf(),
        crate::state::descends(k.cdt, id, root),
        id != root,
    ensures
        id < k.next_cap_id,
{
    reveal(KernelView::wf);
    assert(k.cdt.contains_key(id));
}

/// One operation keeps the descent of a capability that it leaves alive.
proof fn lemma_descent_kept(k: KernelView, action: Action, child: CapEntry, root: CapId)
    requires
        k.sound(),
        k.allows(action),
        crate::state::descends(k.cdt, child.id, root),
        k.after(action).live(None, child),
    ensures
        crate::state::descends(k.after(action).cdt, child.id, root),
{
    let n = k.after(action);
    if child.id != root {
        lemma_descendant_is_known(k, child.id, root);
        match action {
            Action::Grant { task, object, rights } => {
                lemma_descends_insert(k.cdt, k.fresh_id(), None, child.id, root);
            },
            Action::Mint { from, src_slot, to, drop_mask } => {
                if let Some(source) = k.held(from, src_slot) {
                    lemma_descends_insert(k.cdt, k.fresh_id(), Some(source.id), child.id, root);
                }
            },
            Action::RevokeTree { task, slot } => {
                if let Some(gone) = k.cap_id(task, slot) {
                    let p = choose|p: Place| #[trigger] n.at(None, p) == Some(child);
                    law_revoke_tree_removes_exactly_the_subtree(k, task, slot, p);
                    lemma_descends_outside(k.cdt, n.cdt, gone, child.id, root);
                }
            },
            Action::Run { max_ops } => {
                crate::soundness::lemma_run(k, max_ops);
            },
            _ => {},
        }
    }
}

/// Descent lasts: whatever happens later, what descended from a root does so for
/// as long as it is alive, whether or not the root is.
pub proof fn law_descent_lasts(
    k: KernelView,
    script: Seq<Action>,
    child: CapEntry,
    root: CapId,
)
    requires
        k.sound(),
        k.allows_all(script),
        crate::state::descends(k.cdt, child.id, root),
        k.after_all(script).live(None, child),
    ensures
        crate::state::descends(k.after_all(script).cdt, child.id, root),
    decreases script.len(),
{
    if script.len() > 0 && child.id != root {
        let m = k.after(script[0]);
        crate::actions::lemma_action(k, script[0]);
        crate::actions::lemma_script(m, script.drop_first());
        lemma_descendant_is_known(k, child.id, root);
        assert(m.live(None, child));
        lemma_descent_kept(k, script[0], child, root);
        law_descent_lasts(m, script.drop_first(), child, root);
    }
}

/// A later revocation reaches every descendant: whatever happened in between,
/// revoking the root, wherever it now is, leaves nothing alive that descended
/// from it before.
pub proof fn law_a_later_revocation_reaches_every_descendant(
    k: KernelView,
    script: Seq<Action>,
    child: CapEntry,
    root: CapId,
    task: TaskId,
    slot: CapSlot,
)
    requires
        k.sound(),
        k.allows_all(script),
        crate::state::descends(k.cdt, child.id, root),
        k.after_all(script).cap_id(task, slot) == Some(root),
    ensures
        !k.after_all(script).revoke_tree(task, slot).live(None, child),
{
    let end = k.after_all(script);
    let n = end.revoke_tree(task, slot);
    if n.live(None, child) {
        let p = choose|p: Place| #[trigger] n.at(None, p) == Some(child);
        law_revoke_tree_removes_exactly_the_subtree(end, task, slot, p);
        assert(end.at(None, p) == Some(child));
        assert(end.live(None, child));
        law_descent_lasts(k, script, child, root);
    }
}

/// What is minted can be taken back: minting puts one weaker copy with a new
/// identity in the next slot of the target and changes no other slot, and
/// whatever happens later, as long as the source slot is live, revoking its
/// subtree leaves the copy alive nowhere.
pub proof fn law_what_is_minted_can_be_taken_back(
    k: KernelView,
    from: TaskId,
    src_slot: CapSlot,
    to: TaskId,
    drop_mask: Rights,
    script: Seq<Action>,
    other_task: TaskId,
    other_slot: CapSlot,
)
    requires
        k.sound(),
        k.has_task(to),
        k.held(from, src_slot) is Some,
        k.next_cap_id < u64::MAX,
        k.table(to).next < u32::MAX,
        k.mint(from, src_slot, to, drop_mask).allows_all(script),
    ensures
        ({
            let n = k.mint(from, src_slot, to, drop_mask);
            let source = k.held(from, src_slot)->0;
            let slot = k.table(to).next_slot();
            let rights = source.cap.rights.minus(drop_mask);
            let end = n.after_all(script);
            &&& k.mint_answer(from, src_slot, to, drop_mask) == Ok::<
                (CapSlot, Rights),
                KernelError,
            >((slot, rights))
            &&& n.held(to, slot) is Some
            &&& n.held(to, slot)->0.cap.object == source.cap.object
            &&& n.held(to, slot)->0.cap.rights == rights
            &&& source.cap.rights.contains(rights)
            &&& n.held(to, slot)->0.id == k.next_cap_id
            &&& (other_task, other_slot) != (to, slot) ==> n.held(other_task, other_slot)
                == k.held(other_task, other_slot)
            &&& end.held(from, src_slot) is Some ==> !end.revoke_tree(from, src_slot).live(
                None,
                n.held(to, slot)->0,
            )
        }),
{
    let n = k.mint(from, src_slot, to, drop_mask);
    let source = k.held(from, src_slot)->0;
    let slot = k.table(to).next_slot();
    let end = n.after_all(script);
    crate::soundness::lemma_table_wf(k, from);
    crate::soundness::lemma_table_wf(k, to);
    crate::capability::law_minus_only_weakens(source.cap.rights, drop_mask);
    let child = n.held(to, slot)->0;
    law_a_child_descends_from_its_source(k, from, src_slot, to, drop_mask, child.id, source.id);
    crate::actions::lemma_action(k, Action::Mint { from, src_slot, to, drop_mask });
    assert(n.held(from, src_slot) == k.held(from, src_slot));
    if end.held(from, src_slot) is Some {
        crate::actions::law_a_live_slot_keeps_its_capability(n, script, from, src_slot);
        law_a_later_revocation_reaches_every_descendant(
            n,
            script,
            child,
            source.id,
            from,
            src_slot,
        );
    }
}

/// Revoking what is not there removes nothing.
pub proof fn law_an_empty_slot_has_nothing_to_revoke(k: KernelView, task: TaskId, slot: CapSlot)
    requires
        k.held(task, slot) is None,
    ensures
        k.revoke_tree_answer(task, slot) == 0,
        k.revoke_tree(task, slot) == k,
        k.revoke_answer(task, slot) is None,
{
}

/// A revocation counts what dies: the number of capabilities that it removes is the
/// number of identities that were alive, in a table or in a message, and descended
/// from the one revoked.
pub proof fn law_a_revocation_counts_what_dies(k: KernelView, task: TaskId, slot: CapSlot)
    requires
        k.wf(),
        k.cap_id(task, slot) is Some,
    ensures
        ({
            let root = k.cap_id(task, slot)->0;
            let dying = Set::new(
                |id: CapId|
                    crate::state::descends(k.cdt, id, root) && exists|p: Place|
                        (#[trigger] k.at(None, p)) is Some && k.at(None, p)->0.id == id,
            );
            &&& dying.finite()
            &&& k.revoke_tree_answer(task, slot) == dying.len()
            &&& k.live_count() - k.revoke_tree(task, slot).live_count() == dying.len()
            &&& dying.contains(root)
        }),
{
    let root = k.cap_id(task, slot)->0;
    let n = k.revoke_tree(task, slot);
    crate::soundness::lemma_without_subtree(k, root);
    crate::authority::lemma_live_ids(k);
    crate::authority::lemma_live_ids(n);
    let (was, is) = (crate::authority::live_ids(k), crate::authority::live_ids(n));
    let dying = Set::new(
        |id: CapId|
            crate::state::descends(k.cdt, id, root) && exists|p: Place|
                (#[trigger] k.at(None, p)) is Some && k.at(None, p)->0.id == id,
    );
    assert forall|id: CapId| #[trigger] was.contains(id) <==> is.contains(id) || dying.contains(
        id,
    ) by {
        if is.contains(id) {
            let p = choose|p: Place| (#[trigger] n.at(None, p)) is Some && n.at(None, p)->0.id == id;
            law_revoke_tree_removes_exactly_the_subtree(k, task, slot, p);
            assert(k.at(None, p) is Some && k.at(None, p)->0.id == id);
        }
        if was.contains(id) && !dying.contains(id) {
            let p = choose|p: Place| (#[trigger] k.at(None, p)) is Some && k.at(None, p)->0.id == id;
            law_revoke_tree_removes_exactly_the_subtree(k, task, slot, p);
            assert(n.at(None, p) is Some && n.at(None, p)->0.id == id);
        }
    }
    assert forall|id: CapId| !(#[trigger] is.contains(id) && dying.contains(id)) by {
        if is.contains(id) && dying.contains(id) {
            let p = choose|p: Place| (#[trigger] n.at(None, p)) is Some && n.at(None, p)->0.id == id;
            law_revoke_tree_removes_exactly_the_subtree(k, task, slot, p);
        }
    }
    assert(was =~= is + dying);
    assert(dying.subset_of(was));
    vstd::set_lib::lemma_len_subset(dying, was);
    assert(is.disjoint(dying));
    vstd::set_lib::lemma_set_disjoint_lens(is, dying);
    let here = Place::Slot { task, slot };
    assert(k.at(None, here) == k.held(task, slot));
}

/// What is granted descends from nothing but itself, so that no revocation but its
/// own reaches it, and a grant changes no descent among the others.
pub proof fn law_a_grant_descends_from_nothing(
    k: KernelView,
    task: TaskId,
    object: crate::capability::ObjectRef,
    rights: Rights,
    id: CapId,
    root: CapId,
)
    requires
        k.wf(),
        k.has_task(task),
        k.next_cap_id < u64::MAX,
        k.table(task).next < u32::MAX,
    ensures
        ({
            let n = k.grant(task, object, rights);
            let granted = n.held(task, k.table(task).next_slot())->0;
            &&& granted.id == k.next_cap_id
            &&& crate::state::descends(n.cdt, granted.id, root) <==> root == granted.id
            &&& id < k.next_cap_id ==> crate::state::descends(n.cdt, id, root)
                == crate::state::descends(k.cdt, id, root)
            &&& n.next_cap_id == k.next_cap_id + 1
        }),
{
    crate::soundness::lemma_table_wf(k, task);
    if id < k.next_cap_id {
        lemma_descends_insert(k.cdt, k.fresh_id(), None, id, root);
    }
}

} // verus!
