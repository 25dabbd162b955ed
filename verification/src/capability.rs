//! Capabilities: the security spine of the microkernel.
//!
//! A capability is an unforgeable token that names a kernel object and carries a
//! set of rights over it. Tasks never hold a capability value directly. They
//! hold an integer slot into their own capability table, and the kernel is the
//! only code that can turn a slot into an object reference. This indirection is
//! what makes a capability unforgeable: a task can name any integer it likes,
//! but only integers that index a real granted entry resolve to anything, and
//! the entry itself was placed there by the kernel.
//!
//! Slots are handed out from a monotonically increasing counter and never
//! reused. That means a revoked slot stays dead forever. A task that guesses or
//! replays an old slot number gets a clean denial rather than someone else's
//! object.

use crate::text::{decimal_text, join_text};
use crate::{EndpointId, RegionId, TaskId, ThreadId};
use std::collections::{BTreeMap, BTreeSet};
use vstd::prelude::*;

verus! {

/// A slot number into a capability table. This is the only capability handle a
/// task ever sees or names.
pub type CapSlot = u32;

/// The identity of a capability. It is assigned once, when the capability is
/// created, and stays with the capability wherever it moves.
pub type CapId = u64;

/// A kernel object a capability can point at.
#[derive(Debug, Clone, Copy, PartialEq, Eq, Structural)]
pub enum ObjectRef {
    /// An IPC endpoint.
    Endpoint(EndpointId),
    /// A memory region.
    Region(RegionId),
    /// Another thread.
    Thread(ThreadId),
    /// A whole task.
    Task(TaskId),
}

impl ObjectRef {
    /// A short human label for the object kind, used in denial messages.
    #[verifier::allow_in_spec]
    pub fn kind(&self) -> &'static str
        returns
            (match *self {
                ObjectRef::Endpoint(_) => "endpoint",
                ObjectRef::Region(_) => "region",
                ObjectRef::Thread(_) => "thread",
                ObjectRef::Task(_) => "task",
            }),
    {
        match self {
            ObjectRef::Endpoint(_) => "endpoint",
            ObjectRef::Region(_) => "region",
            ObjectRef::Thread(_) => "thread",
            ObjectRef::Task(_) => "task",
        }
    }

    /// The number of the object among its kind.
    #[verifier::allow_in_spec]
    pub fn number(&self) -> u32
        returns
            (match *self {
                ObjectRef::Endpoint(id) => id,
                ObjectRef::Region(id) => id,
                ObjectRef::Thread(id) => id,
                ObjectRef::Task(id) => id,
            }),
    {
        match *self {
            ObjectRef::Endpoint(id) => id,
            ObjectRef::Region(id) => id,
            ObjectRef::Thread(id) => id,
            ObjectRef::Task(id) => id,
        }
    }

    /// The label of an object: its kind, a hash sign, and its number.
    pub open spec fn text(self) -> Seq<char> {
        self.kind()@ + "#"@ + crate::text::decimal(self.number() as nat)
    }

    /// Render the label, as in `region#3`.
    pub fn to_string(&self) -> (text: String)
        ensures
            text@ == self.text(),
    {
        let mut text = self.kind().to_owned();
        text.append("#");
        text.append(decimal_text(self.number() as u64).as_str());
        text
    }
}

/// The four kind labels are pairwise different.
pub proof fn lemma_kinds_differ(a: ObjectRef, b: ObjectRef)
    ensures
        a.kind()@ == b.kind()@ <==> ((a is Endpoint <==> b is Endpoint) && (a is Region <==> b is Region)
            && (a is Thread <==> b is Thread) && (a is Task <==> b is Task)),
{
    reveal_strlit("endpoint");
    reveal_strlit("region");
    reveal_strlit("thread");
    reveal_strlit("task");
    assert("endpoint"@.len() == 8);
    assert("region"@.len() == 6 && "region"@[0] == 'r');
    assert("thread"@.len() == 6 && "thread"@[0] == 't');
    assert("task"@.len() == 4);
}

/// A set of permissions carried by a capability.
///
/// Rights are a small bitset. The kernel checks that a capability carries the
/// exact rights an operation needs before performing it. Holding a capability
/// with only [`Rights::send`] never lets a task receive, and no operation can
/// add a right that was not granted.
#[derive(Debug, Clone, Copy, PartialEq, Eq, Structural)]
pub struct Rights {
    /// One bit per right.
    pub bits: u32,
}

impl Rights {
    /// The empty right set.
    #[verifier::allow_in_spec]
    pub fn none() -> Rights
        returns
            (Rights { bits: 0 }),
    {
        Rights { bits: 0 }
    }

    /// Permission to send a message on an endpoint.
    #[verifier::allow_in_spec]
    pub fn send() -> Rights
        returns
            (Rights { bits: 1 }),
    {
        Rights { bits: 1 }
    }

    /// Permission to receive a message on an endpoint.
    #[verifier::allow_in_spec]
    pub fn recv() -> Rights
        returns
            (Rights { bits: 2 }),
    {
        Rights { bits: 2 }
    }

    /// Permission to transfer this capability to another task inside a message.
    #[verifier::allow_in_spec]
    pub fn grant() -> Rights
        returns
            (Rights { bits: 4 }),
    {
        Rights { bits: 4 }
    }

    /// Permission to read a memory region.
    #[verifier::allow_in_spec]
    pub fn read() -> Rights
        returns
            (Rights { bits: 8 }),
    {
        Rights { bits: 8 }
    }

    /// Permission to write a memory region.
    #[verifier::allow_in_spec]
    pub fn write() -> Rights
        returns
            (Rights { bits: 16 }),
    {
        Rights { bits: 16 }
    }

    /// Build a right set from a raw bit pattern.
    #[verifier::allow_in_spec]
    pub fn from_bits(bits: u32) -> Rights
        returns
            (Rights { bits }),
    {
        Rights { bits }
    }

    /// The raw bit pattern.
    #[verifier::allow_in_spec]
    pub fn bits(self) -> u32
        returns
            self.bits,
    {
        self.bits
    }

    /// The union of two right sets.
    #[verifier::allow_in_spec]
    pub fn union(self, other: Rights) -> Rights
        returns
            (Rights { bits: self.bits | other.bits }),
    {
        Rights { bits: self.bits | other.bits }
    }

    /// True when every right in `needed` is present in this set.
    #[verifier::allow_in_spec]
    pub fn contains(self, needed: Rights) -> bool
        returns
            self.bits & needed.bits == needed.bits,
    {
        (self.bits & needed.bits) == needed.bits
    }

    /// This set with the rights in `mask` removed. Used to hand out a weaker
    /// capability than the one held, never a stronger one.
    #[verifier::allow_in_spec]
    pub fn minus(self, mask: Rights) -> Rights
        returns
            (Rights { bits: self.bits & !mask.bits }),
    {
        Rights { bits: self.bits & !mask.bits }
    }

    /// The names of the rights present, in the order of their bits.
    pub open spec fn names(self) -> Seq<Seq<char>> {
        let s0 = if self.contains(Rights::send()) {
            seq!["send"@]
        } else {
            seq![]
        };
        let s1 = if self.contains(Rights::recv()) {
            s0.push("recv"@)
        } else {
            s0
        };
        let s2 = if self.contains(Rights::grant()) {
            s1.push("grant"@)
        } else {
            s1
        };
        let s3 = if self.contains(Rights::read()) {
            s2.push("read"@)
        } else {
            s2
        };
        if self.contains(Rights::write()) {
            s3.push("write"@)
        } else {
            s3
        }
    }

    /// The names of the rights joined by a bar, or `none`.
    pub open spec fn text(self) -> Seq<char> {
        if self.names().len() == 0 {
            "none"@
        } else {
            crate::text::joined(self.names(), "|"@)
        }
    }

    /// Render the right set, as in `send|grant`.
    pub fn to_string(&self) -> (text: String)
        ensures
            text@ == self.text(),
    {
        let mut parts: Vec<&'static str> = Vec::new();
        if self.contains(Rights::send()) {
            parts.push("send");
        }
        if self.contains(Rights::recv()) {
            parts.push("recv");
        }
        if self.contains(Rights::grant()) {
            parts.push("grant");
        }
        if self.contains(Rights::read()) {
            parts.push("read");
        }
        if self.contains(Rights::write()) {
            parts.push("write");
        }
        proof {
            assert(crate::text::texts(parts@) =~= self.names());
        }
        if parts.len() == 0 {
            "none".to_owned()
        } else {
            join_text(&parts, "|")
        }
    }
}

impl std::ops::BitOr for Rights {
    type Output = Rights;

    fn bitor(self, rhs: Rights) -> (both: Rights) {
        self.union(rhs)
    }
}

impl vstd::std_specs::ops::BitOrSpecImpl for Rights {
    open spec fn obeys_bitor_spec() -> bool {
        true
    }

    open spec fn bitor_req(self, rhs: Rights) -> bool {
        true
    }

    open spec fn bitor_spec(self, rhs: Rights) -> Rights {
        self.union(rhs)
    }
}

/// Right sets form an inclusion order: containment is reflexive and transitive,
/// and mutual containment is equality.
pub proof fn law_containment_is_an_order(a: Rights, b: Rights, c: Rights)
    ensures
        a.contains(a),
        a.contains(b) && b.contains(c) ==> a.contains(c),
        a.contains(b) && b.contains(a) ==> a == b,
{
    let (x, y, z) = (a.bits, b.bits, c.bits);
    assert(x & x == x) by (bit_vector);
    assert(x & y == y && y & z == z ==> x & z == z) by (bit_vector);
    assert(x & y == y && y & x == x ==> x == y) by (bit_vector);
}

/// A union holds a set of rights exactly when that set splits over its parts,
/// and in particular it holds both parts.
pub proof fn law_union_is_least(a: Rights, b: Rights, c: Rights)
    ensures
        a.union(b).contains(a),
        a.union(b).contains(b),
        c.contains(a.union(b)) <==> c.contains(a) && c.contains(b),
{
    let (x, y, z) = (a.bits, b.bits, c.bits);
    assert((x | y) & x == x) by (bit_vector);
    assert((x | y) & y == y) by (bit_vector);
    assert(z & (x | y) == (x | y) <==> (z & x == x && z & y == y)) by (bit_vector);
}

/// Dropping rights only ever weakens: the rest is contained in the whole, and
/// shares no right with what was dropped.
pub proof fn law_minus_only_weakens(a: Rights, mask: Rights)
    ensures
        a.contains(a.minus(mask)),
        forall|r: Rights| #[trigger]
            a.minus(mask).contains(r) ==> a.contains(r) && r.bits & mask.bits == 0,
{
    let (x, m) = (a.bits, mask.bits);
    assert(x & (x & !m) == x & !m) by (bit_vector);
    assert forall|r: Rights| #[trigger] a.minus(mask).contains(r) implies a.contains(r) && r.bits
        & mask.bits == 0 by {
        let z = r.bits;
        assert((x & !m) & z == z ==> x & z == z && z & m == 0) by (bit_vector);
    }
}

/// An object plus the rights over it.
#[derive(Debug, Clone, Copy, PartialEq, Eq, Structural)]
pub struct Capability {
    /// The object this capability grants access to.
    pub object: ObjectRef,
    /// The rights carried.
    pub rights: Rights,
}

impl Capability {
    /// Build a capability.
    #[verifier::allow_in_spec]
    pub fn new(object: ObjectRef, rights: Rights) -> Capability
        returns
            (Capability { object, rights }),
    {
        Capability { object, rights }
    }

    /// The object label followed by the rights in brackets.
    pub open spec fn text(self) -> Seq<char> {
        self.object.text() + " ["@ + self.rights.text() + "]"@
    }

    /// Render the capability, as in `region#3 [read|write]`.
    pub fn to_string(&self) -> (text: String)
        ensures
            text@ == self.text(),
    {
        let mut text = self.object.to_string();
        text.append(" [");
        text.append(self.rights.to_string().as_str());
        text.append("]");
        text
    }
}

/// An entry in a capability table: a capability and its identity.
#[derive(Debug, Clone, Copy, PartialEq, Eq, Structural)]
pub struct CapEntry {
    /// The capability itself.
    pub cap: Capability,
    /// The identity it carries through transfer and delegation.
    pub id: CapId,
}

/// What a capability table holds: the live entries by slot, and the number of
/// slots handed out so far.
#[verifier::ext_equal]
pub struct TableView {
    /// The live entries.
    pub slots: Map<CapSlot, CapEntry>,
    /// The next slot to be handed out.
    pub next: nat,
}

impl TableView {
    /// The table without any entry.
    pub open spec fn empty() -> TableView {
        TableView { slots: Map::empty(), next: 0 }
    }

    /// Every live slot was handed out.
    pub open spec fn wf(self) -> bool {
        &&& self.next <= u32::MAX
        &&& self.slots.dom().finite()
        &&& forall|s: CapSlot| #[trigger] self.slots.contains_key(s) ==> s < self.next
    }

    /// The entry in a slot, if the slot is live.
    pub open spec fn entry(self, slot: CapSlot) -> Option<CapEntry> {
        if self.slots.contains_key(slot) {
            Some(self.slots[slot])
        } else {
            None
        }
    }

    /// The capability in a slot, if the slot is live.
    pub open spec fn get(self, slot: CapSlot) -> Option<Capability> {
        if self.slots.contains_key(slot) {
            Some(self.slots[slot].cap)
        } else {
            None
        }
    }

    /// The slot the next entry will land in.
    pub open spec fn next_slot(self) -> CapSlot {
        self.next as CapSlot
    }

    /// The table with one more entry, in the next slot.
    pub open spec fn install(self, entry: CapEntry) -> TableView {
        TableView { slots: self.slots.insert(self.next_slot(), entry), next: self.next + 1 }
    }

    /// The table with a slot vacated for good.
    pub open spec fn remove(self, slot: CapSlot) -> TableView {
        TableView { slots: self.slots.remove(slot), next: self.next }
    }

    /// The table without the entries whose identity is in `doomed`.
    pub open spec fn without(self, doomed: spec_fn(CapId) -> bool) -> TableView {
        TableView {
            slots: self.slots.restrict(
                Set::new(
                    |s: CapSlot| self.slots.contains_key(s) && !doomed(self.slots[s].id),
                ),
            ),
            next: self.next,
        }
    }

    /// Whether `later` can come after this table: slots are only ever handed
    /// out upwards, a slot that was handed out and is dead stays dead, and one
    /// that stays live keeps its entry.
    pub open spec fn grows_into(self, later: TableView) -> bool {
        &&& self.next <= later.next
        &&& forall|s: CapSlot|
            #![trigger self.slots.contains_key(s)]
            #![trigger later.slots.contains_key(s)]
            s < self.next && later.slots.contains_key(s) ==> self.slots.contains_key(s)
                && later.slots[s] == self.slots[s]
    }
}

/// Whether `listing` names exactly the live entries of `slots`, in slot order.
pub open spec fn lists_entries(
    listing: Seq<(CapSlot, CapEntry)>,
    slots: Map<CapSlot, CapEntry>,
) -> bool {
    &&& forall|i: int, j: int|
        0 <= i < j < listing.len() ==> (#[trigger] listing[i]).0 < (#[trigger] listing[j]).0
    &&& forall|i: int|
        0 <= i < listing.len() ==> slots.contains_key((#[trigger] listing[i]).0)
            && slots[listing[i].0] == listing[i].1
    &&& forall|s: CapSlot| #[trigger]
        slots.contains_key(s) ==> exists|i: int|
            0 <= i < listing.len() && (#[trigger] listing[i]).0 == s
}

/// A per task table mapping slots to capabilities.
///
/// The table owns the invariant that makes capabilities unforgeable. New slots
/// come from a counter that only ever increases, so a slot is unique for the
/// life of the table and a removed slot is gone for good.
#[derive(Debug, Clone)]
pub struct CapTable {
    slots: BTreeMap<CapSlot, CapEntry>,
    next: CapSlot,
}

impl View for CapTable {
    type V = TableView;

    closed spec fn view(&self) -> TableView {
        TableView { slots: self.slots@, next: self.next as nat }
    }
}

impl Default for CapTable {
    fn default() -> (table: CapTable)
        ensures
            table@ == TableView::empty(),
    {
        CapTable::new()
    }
}

impl CapTable {
    /// Every live slot was handed out by this table.
    pub open spec fn wf(&self) -> bool {
        self@.wf()
    }

    /// An empty table.
    pub fn new() -> (table: CapTable)
        ensures
            table.wf(),
            table@ == TableView::empty(),
    {
        CapTable { slots: BTreeMap::new(), next: 0 }
    }

    /// Install a capability and return the slot it landed in. The slot number,
    /// unique in the table, serves as the identity of the entry.
    pub fn install(&mut self, cap: Capability) -> (slot: CapSlot)
        requires
            old(self).wf(),
            old(self)@.next < u32::MAX,
        ensures
            final(self).wf(),
            slot == old(self)@.next,
            !old(self)@.slots.contains_key(slot),
            final(self)@ == old(self)@.install(CapEntry { cap, id: slot as CapId }),
            old(self)@.grows_into(final(self)@),
    {
        let id: CapId = self.next as CapId;
        self.install_entry(CapEntry { cap, id })
    }

    /// Install a capability together with an identity assigned elsewhere, and
    /// return the slot it landed in. Every entry enters a table this way.
    pub fn install_entry(&mut self, entry: CapEntry) -> (slot: CapSlot)
        requires
            old(self).wf(),
            old(self)@.next < u32::MAX,
        ensures
            final(self).wf(),
            slot == old(self)@.next,
            !old(self)@.slots.contains_key(slot),
            final(self)@ == old(self)@.install(entry),
            old(self)@.grows_into(final(self)@),
    {
        let slot: CapSlot = self.next;
        self.next = self.next + 1;
        self.slots.insert(slot, entry);
        slot
    }

    /// Look up a slot. `None` means the slot was never granted or was revoked,
    /// which the kernel turns into a denial.
    pub fn get(&self, slot: CapSlot) -> (cap: Option<Capability>)
        ensures
            cap == self@.get(slot),
    {
        match self.slots.get(&slot) {
            Some(entry) => Some(entry.cap),
            None => None,
        }
    }

    /// Look up a slot, with the identity of what it holds.
    pub fn entry(&self, slot: CapSlot) -> (entry: Option<CapEntry>)
        ensures
            entry == self@.entry(slot),
    {
        match self.slots.get(&slot) {
            Some(entry) => Some(*entry),
            None => None,
        }
    }

    /// The identity of the capability in a slot, if the slot is live.
    pub fn id_of(&self, slot: CapSlot) -> (id: Option<CapId>)
        ensures
            id == (match self@.entry(slot) {
                Some(entry) => Some(entry.id),
                None => None,
            }),
    {
        match self.slots.get(&slot) {
            Some(entry) => Some(entry.id),
            None => None,
        }
    }

    /// Remove a slot, returning the capability that was there. Used by capability
    /// transfer (move out of the sender) and by explicit revocation.
    pub fn remove(&mut self, slot: CapSlot) -> (cap: Option<Capability>)
        ensures
            cap == old(self)@.get(slot),
            final(self)@ == old(self)@.remove(slot),
            old(self).wf() ==> final(self).wf(),
            old(self)@.grows_into(final(self)@),
    {
        match self.slots.remove(&slot) {
            Some(entry) => Some(entry.cap),
            None => None,
        }
    }

    /// Whether a slot currently holds a capability.
    pub fn contains(&self, slot: CapSlot) -> (held: bool)
        ensures
            held == self@.slots.contains_key(slot),
    {
        self.slots.contains_key(&slot)
    }

    /// The number of live capabilities.
    pub fn len(&self) -> (count: usize)
        ensures
            count == self@.slots.len(),
    {
        self.slots.len()
    }

    /// Whether the table is empty.
    pub fn is_empty(&self) -> (empty: bool)
        ensures
            empty == (self@.slots == Map::<CapSlot, CapEntry>::empty()),
    {
        proof {
            if self.slots@.is_empty() {
                assert(self.slots@ =~= Map::<CapSlot, CapEntry>::empty());
            }
        }
        self.slots.is_empty()
    }

    /// The smallest slot number that has never been handed out. Any slot at or
    /// above this value is guaranteed absent.
    pub fn high_water(&self) -> (mark: CapSlot)
        ensures
            mark == self@.next,
            self.wf() ==> forall|s: CapSlot| s >= mark ==> !(#[trigger] self@.slots.contains_key(s)),
    {
        self.next
    }

    /// The live entries with their identities, in slot order.
    pub fn iter_entries(&self) -> (listing: Vec<(CapSlot, CapEntry)>)
        ensures
            lists_entries(listing@, self@.slots),
    {
        let mut listing: Vec<(CapSlot, CapEntry)> = Vec::new();
        let entries = self.slots.iter();
        let ghost all = vstd::std_specs::iter::IteratorSpec::remaining(&entries);
        proof {
            let keys = all.map_values(|kv: (&CapSlot, &CapEntry)| *kv.0);
            assert(vstd::std_specs::btree::increasing_seq(keys));
            assert(vstd::laws_cmp::obeys_cmp::<CapSlot>());
            assert forall|i: int, j: int| 0 <= i < j < all.len() implies *(#[trigger] all[i]).0
                < *(#[trigger] all[j]).0 by {
                assert(vstd::std_specs::cmp::OrdSpec::cmp_spec(&keys[i], &keys[j]) is Less);
            }
        }
        for kv in each: entries
            invariant
                each.seq() == all,
                listing@.len() == each.index(),
                forall|i: int|
                    0 <= i < listing@.len() ==> (#[trigger] listing@[i]) == (*all[i].0, *all[i].1),
        {
            listing.push((*kv.0, *kv.1));
        }
        proof {
            assert forall|i: int| 0 <= i < listing@.len() implies self@.slots.contains_key(
                (#[trigger] listing@[i]).0,
            ) && self@.slots[listing@[i].0] == listing@[i].1 by {
                assert(self.slots@.contains_key(*all[i].0));
            }
            assert forall|s: CapSlot| #[trigger] self@.slots.contains_key(s) implies exists|i: int|
                0 <= i < listing@.len() && (#[trigger] listing@[i]).0 == s by {
                let v = self.slots@[s];
                assert(all.contains((&s, &v)));
                let i = choose|i: int| 0 <= i < all.len() && all[i] == (&s, &v);
                assert(listing@[i].0 == s);
            }
        }
        listing
    }

    /// Remove every entry whose identity is in `doomed`, and return how many
    /// there were.
    pub(crate) fn remove_all(&mut self, doomed: &BTreeSet<CapId>) -> (removed: usize)
        requires
            old(self).wf(),
        ensures
            final(self).wf(),
            final(self)@ == old(self)@.without(|id: CapId| doomed@.contains(id)),
            removed == old(self)@.slots.len() - final(self)@.slots.len(),
            old(self)@.grows_into(final(self)@),
    {
        let entries = self.iter_entries();
        let ghost before = self@;
        let mut removed: usize = 0;
        let mut at: usize = 0;
        while at < entries.len()
            invariant
                at <= entries.len(),
                removed <= at,
                lists_entries(entries@, before.slots),
                before.slots.dom().finite(),
                self@.next == before.next,
                self@.slots.dom().finite(),
                self@.slots.len() + removed == before.slots.len(),
                forall|s: CapSlot| #[trigger]
                    self@.slots.contains_key(s) ==> before.slots.contains_key(s) && self@.slots[s]
                        == before.slots[s],
                forall|i: int|
                    0 <= i < at ==> (self@.slots.contains_key((#[trigger] entries@[i]).0)
                        <==> !doomed@.contains(entries@[i].1.id)),
                forall|i: int|
                    at <= i < entries@.len() ==> self@.slots.contains_key(
                        (#[trigger] entries@[i]).0,
                    ),
            decreases entries.len() - at,
        {
            let (slot, entry) = entries[at];
            if doomed.contains(&entry.id) {
                let ghost held = self@.slots;
                self.remove(slot);
                removed = removed + 1;
                proof {
                    assert(held.contains_key(slot));
                    assert(self@.slots.dom() =~= held.dom().remove(slot));
                    assert forall|i: int| 0 <= i < entries@.len() && i != at implies (
                    #[trigger] entries@[i]).0 != slot by {
                        if i < at {
                            assert(entries@[i].0 < entries@[at as int].0);
                        } else {
                            assert(entries@[at as int].0 < entries@[i].0);
                        }
                    }
                }
            }
            at = at + 1;
        }
        proof {
            let kept = before.without(|id: CapId| doomed@.contains(id));
            assert forall|s: CapSlot| self@.slots.contains_key(s) <==> kept.slots.contains_key(
                s,
            ) by {
                if before.slots.contains_key(s) {
                    let i = choose|i: int|
                        0 <= i < entries@.len() && (#[trigger] entries@[i]).0 == s;
                    assert(entries@[i].1 == before.slots[s]);
                }
            }
            assert(self@.slots =~= kept.slots);
        }
        removed
    }

    /// The live capabilities in slot order.
    pub fn iter(&self) -> (listing: Vec<(CapSlot, Capability)>)
        ensures
            forall|i: int, j: int|
                0 <= i < j < listing@.len() ==> (#[trigger] listing@[i]).0 < (
                #[trigger] listing@[j]).0,
            forall|i: int|
                0 <= i < listing@.len() ==> self@.get((#[trigger] listing@[i]).0) == Some(
                    listing@[i].1,
                ),
            forall|s: CapSlot| #[trigger]
                self@.slots.contains_key(s) ==> exists|i: int|
                    0 <= i < listing@.len() && (#[trigger] listing@[i]).0 == s,
    {
        let entries = self.iter_entries();
        let mut listing: Vec<(CapSlot, Capability)> = Vec::new();
        let mut at: usize = 0;
        while at < entries.len()
            invariant
                at <= entries.len(),
                listing@.len() == at,
                forall|i: int|
                    0 <= i < at ==> (#[trigger] listing@[i]) == (
                        entries@[i].0,
                        entries@[i].1.cap,
                    ),
            decreases entries.len() - at,
        {
            listing.push((entries[at].0, entries[at].1.cap));
            at = at + 1;
        }
        proof {
            assert forall|s: CapSlot| #[trigger] self@.slots.contains_key(s) implies exists|i: int|
                0 <= i < listing@.len() && (#[trigger] listing@[i]).0 == s by {
                let i = choose|i: int| 0 <= i < entries@.len() && (#[trigger] entries@[i]).0 == s;
                assert(listing@[i].0 == s);
            }
        }
        listing
    }
}

/// A slot once vacated is never handed out again: whatever a table grows into,
/// a dead slot below the counter stays dead, and a fresh entry lands elsewhere.
pub proof fn law_slots_are_never_reused(before: TableView, later: TableView, slot: CapSlot)
    requires
        before.wf(),
        later.wf(),
        before.slots.contains_key(slot),
        before.remove(slot).grows_into(later),
    ensures
        !later.slots.contains_key(slot),
        later.next < u32::MAX ==> later.next_slot() != slot,
{
    assert(!before.remove(slot).slots.contains_key(slot));
}

/// Growing is transitive, so it describes any number of table operations.
pub proof fn law_growth_is_transitive(a: TableView, b: TableView, c: TableView)
    requires
        a.grows_into(b),
        b.grows_into(c),
    ensures
        a.grows_into(c),
{
    assert forall|s: CapSlot|
        s < a.next && !(#[trigger] a.slots.contains_key(s)) implies !c.slots.contains_key(s) by {
        assert(!b.slots.contains_key(s));
    }
}

/// Dropping rights drops exactly those: what is left contains a set of rights if
/// and only if the whole did and nothing of the set was dropped.
pub proof fn law_minus_drops_exactly_the_mask(a: Rights, mask: Rights, r: Rights)
    ensures
        a.minus(mask).contains(r) <==> a.contains(r) && r.bits & mask.bits == 0,
{
    let (x, m, z) = (a.bits, mask.bits, r.bits);
    assert((x & !m) & z == z <==> (x & z == z && z & m == 0)) by (bit_vector);
}

/// The five rights are independent: none of them is contained in the others
/// together, and none is empty.
pub proof fn law_rights_are_independent()
    ensures
        !Rights::recv().union(Rights::grant()).union(Rights::read()).union(
            Rights::write(),
        ).contains(Rights::send()),
        !Rights::send().union(Rights::grant()).union(Rights::read()).union(
            Rights::write(),
        ).contains(Rights::recv()),
        !Rights::send().union(Rights::recv()).union(Rights::read()).union(
            Rights::write(),
        ).contains(Rights::grant()),
        !Rights::send().union(Rights::recv()).union(Rights::grant()).union(
            Rights::write(),
        ).contains(Rights::read()),
        !Rights::send().union(Rights::recv()).union(Rights::grant()).union(
            Rights::read(),
        ).contains(Rights::write()),
        Rights::send() != Rights::none(),
        Rights::recv() != Rights::none(),
        Rights::grant() != Rights::none(),
        Rights::read() != Rights::none(),
        Rights::write() != Rights::none(),
{
    assert((2u32 | 4u32 | 8u32 | 16u32) & 1u32 != 1u32) by (bit_vector);
    assert((1u32 | 4u32 | 8u32 | 16u32) & 2u32 != 2u32) by (bit_vector);
    assert((1u32 | 2u32 | 8u32 | 16u32) & 4u32 != 4u32) by (bit_vector);
    assert((1u32 | 2u32 | 4u32 | 16u32) & 8u32 != 8u32) by (bit_vector);
    assert((1u32 | 2u32 | 4u32 | 8u32) & 16u32 != 16u32) by (bit_vector);
}

/// Bits and rights are the same thing: a set of rights is read back from its bits,
/// and a bit pattern from its rights.
pub proof fn law_rights_are_their_bits(a: Rights, bits: u32)
    ensures
        Rights::from_bits(a.bits()) == a,
        Rights::from_bits(bits).bits() == bits,
        Rights::none().bits() == 0,
        a.contains(Rights::none()),
        a.minus(Rights::none()) == a,
        a.union(Rights::none()) == a,
{
    let x = a.bits;
    assert(x & 0 == 0) by (bit_vector);
    assert(x & !0u32 == x) by (bit_vector);
    assert(x | 0 == x) by (bit_vector);
}

/// An entry that is put into a table is found in the slot that was next, which was
/// free, and in no other; what is taken out of a slot is gone from it. Every other
/// slot keeps its entry either way.
pub proof fn law_a_table_keeps_what_is_put_in(
    table: TableView,
    entry: CapEntry,
    slot: CapSlot,
    other: CapSlot,
)
    requires
        table.wf(),
        table.next < u32::MAX,
    ensures
        table.entry(table.next_slot()) is None,
        table.install(entry).entry(table.next_slot()) == Some(entry),
        table.install(entry).get(table.next_slot()) == Some(entry.cap),
        other != table.next_slot() ==> table.install(entry).entry(other) == table.entry(other),
        table.install(entry).next == table.next + 1,
        table.install(entry).slots.len() == table.slots.len() + 1,
        table.remove(slot).entry(slot) is None,
        other != slot ==> table.remove(slot).entry(other) == table.entry(other),
        table.remove(slot).next == table.next,
        table.entry(slot) is Some ==> table.remove(slot).slots.len() + 1 == table.slots.len(),
        table.get(slot) is Some <==> table.entry(slot) is Some,
        table.entry(slot) matches Some(held) ==> table.get(slot) == Some(held.cap),
        TableView::empty().entry(slot) is None,
        TableView::empty().next == 0,
{
    assert(!table.slots.contains_key(table.next_slot()));
    assert(table.install(entry).slots.dom() =~= table.slots.dom().insert(table.next_slot()));
    assert(table.remove(slot).slots.dom() =~= table.slots.dom().remove(slot));
}

/// A listing has as many items as the table has entries, and there is only one
/// listing of a table.
pub proof fn law_a_table_has_one_listing(
    slots: Map<CapSlot, CapEntry>,
    one: Seq<(CapSlot, CapEntry)>,
    two: Seq<(CapSlot, CapEntry)>,
)
    requires
        slots.dom().finite(),
        lists_entries(one, slots),
        lists_entries(two, slots),
    ensures
        one == two,
        one.len() == slots.len(),
    decreases slots.len(),
{
    if one.len() == 0 {
        assert(slots.dom() =~= Set::empty()) by {
            assert forall|s: CapSlot| !slots.contains_key(s) by {
                if slots.contains_key(s) {
                    let i = choose|i: int| 0 <= i < one.len() && (#[trigger] one[i]).0 == s;
                }
            }
        }
        if two.len() > 0 {
            assert(slots.contains_key(two[0].0));
        }
        assert(one =~= two);
    } else {
        let last = one.last().0;
        let i = one.len() - 1;
        assert(one[i].0 == last && slots.contains_key(last));
        let j = choose|j: int| 0 <= j < two.len() && (#[trigger] two[j]).0 == last;
        if j < two.len() - 1 {
            let top = two[two.len() - 1].0;
            assert(two[j].0 < top);
            assert(slots.contains_key(top));
            let h = choose|h: int| 0 <= h < one.len() && (#[trigger] one[h]).0 == top;
            if h < i {
                assert(one[h].0 < one[i].0);
            }
        }
        assert(j == two.len() - 1);
        let rest = slots.remove(last);
        lemma_listing_shrinks(slots, one);
        lemma_listing_shrinks(slots, two);
        assert(rest.dom() =~= slots.dom().remove(last));
        law_a_table_has_one_listing(rest, one.drop_last(), two.drop_last());
        assert(one =~= one.drop_last().push(one.last()));
        assert(two =~= two.drop_last().push(two.last()));
    }
}

/// A listing without its last item lists the table without that slot.
proof fn lemma_listing_shrinks(slots: Map<CapSlot, CapEntry>, listing: Seq<(CapSlot, CapEntry)>)
    requires
        lists_entries(listing, slots),
        listing.len() > 0,
    ensures
        lists_entries(listing.drop_last(), slots.remove(listing.last().0)),
{
    let (less, last) = (listing.drop_last(), listing.last().0);
    let rest = slots.remove(last);
    assert(listing[listing.len() - 1].0 == last);
    assert forall|i: int, j: int| 0 <= i < j < less.len() implies (#[trigger] less[i]).0 < (
    #[trigger] less[j]).0 by {
        assert(listing[i].0 < listing[j].0);
    }
    assert forall|i: int| 0 <= i < less.len() implies rest.contains_key((#[trigger] less[i]).0)
        && rest[less[i].0] == less[i].1 by {
        assert(listing[i].0 < listing[listing.len() - 1].0);
        assert(slots.contains_key(listing[i].0));
    }
    assert forall|s: CapSlot| #[trigger] rest.contains_key(s) implies exists|i: int|
        0 <= i < less.len() && (#[trigger] less[i]).0 == s by {
        let i = choose|i: int| 0 <= i < listing.len() && (#[trigger] listing[i]).0 == s;
        assert(less[i].0 == s);
    }
}

} // verus!
