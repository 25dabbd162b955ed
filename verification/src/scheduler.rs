//! The scheduler.
//!
//! The scheduler decides which ready thread runs next. Two policies are offered.
//! Round robin cycles through ready threads in arrival order, which is the
//! simplest fair policy. Priority always picks the highest priority ready thread
//! and breaks ties by arrival order, so it degenerates to round robin when all
//! priorities are equal.
//!
//! Both policies are fully deterministic. Given the same set of ready threads
//! arriving in the same order, the same thread is always chosen. That is what
//! lets a whole run reproduce byte for byte from a seed.

use crate::ThreadId;
use std::collections::VecDeque;
use vstd::prelude::*;

verus! {

/// Which scheduling policy the kernel uses.
#[derive(Debug, Clone, Copy, PartialEq, Eq, Structural)]
pub enum Policy {
    /// Cycle through ready threads in arrival order.
    RoundRobin,
    /// Prefer the numerically smallest priority value, ties by arrival order.
    Priority,
}

/// What a scheduler holds: the ready queue in arrival order, and the number of
/// dispatches so far.
#[verifier::ext_equal]
pub struct SchedView {
    /// The policy.
    pub policy: Policy,
    /// The ready threads with their priorities, oldest first.
    pub ready: Seq<(ThreadId, u8)>,
    /// The number of dispatches performed.
    pub switches: nat,
}

/// Whether position `i` holds the most urgent entry of `ready`, and among
/// equally urgent ones the oldest.
pub open spec fn most_urgent(ready: Seq<(ThreadId, u8)>, i: int) -> bool {
    &&& 0 <= i < ready.len()
    &&& forall|j: int| 0 <= j < ready.len() ==> ready[i].1 <= (#[trigger] ready[j]).1
    &&& forall|j: int| 0 <= j < i ==> ready[i].1 < (#[trigger] ready[j]).1
}

impl SchedView {
    /// The position of the thread that runs next. Meaningful when some thread is
    /// ready.
    pub open spec fn next_index(self) -> int {
        match self.policy {
            Policy::RoundRobin => 0,
            Policy::Priority => choose|i: int| most_urgent(self.ready, i),
        }
    }

    /// The thread that runs next. Meaningful when some thread is ready.
    pub open spec fn next_thread(self) -> ThreadId {
        self.ready[self.next_index()].0
    }

    /// The scheduler after it dispatched the next thread.
    pub open spec fn dispatched(self) -> SchedView {
        SchedView {
            ready: self.ready.remove(self.next_index()),
            switches: self.switches + 1,
            ..self
        }
    }

    /// The scheduler with one more thread at the back of the queue.
    pub open spec fn enqueued(self, thread: ThreadId, priority: u8) -> SchedView {
        SchedView { ready: self.ready.push((thread, priority)), ..self }
    }

    /// The scheduler without a thread in its queue.
    pub open spec fn without(self, thread: ThreadId) -> SchedView {
        SchedView { ready: self.ready.filter(other_than(thread)), ..self }
    }
}

/// Whether an entry of a queue is of another thread.
pub open spec fn other_than(thread: ThreadId) -> spec_fn((ThreadId, u8)) -> bool {
    |entry: (ThreadId, u8)| entry.0 != thread
}

/// The first `n` entries of a non empty queue have a most urgent one.
proof fn lemma_most_urgent_exists_upto(ready: Seq<(ThreadId, u8)>, n: int) -> (best: int)
    requires
        0 < n <= ready.len(),
    ensures
        most_urgent(ready.take(n), best),
    decreases n,
{
    if n == 1 {
        0
    } else {
        let before = lemma_most_urgent_exists_upto(ready, n - 1);
        assert(ready.take(n - 1)[before] == ready[before]);
        assert forall|j: int| 0 <= j < n - 1 implies ready[before].1 <= (#[trigger] ready.take(n)[j]).1 by {
            assert(ready.take(n - 1)[j] == ready[j]);
        }
        if ready[n - 1].1 < ready[before].1 {
            assert forall|j: int| 0 <= j < n - 1 implies ready[n - 1].1 < (#[trigger] ready.take(n)[j]).1 by {
                assert(ready.take(n - 1)[j] == ready[j]);
            }
            n - 1
        } else {
            assert forall|j: int| 0 <= j < before implies ready[before].1 < (#[trigger] ready.take(n)[j]).1 by {
                assert(ready.take(n - 1)[j] == ready[j]);
            }
            before
        }
    }
}

/// A non empty queue has exactly one most urgent position, and the next index
/// of a scheduler is always a position in its queue.
pub proof fn lemma_next_index(sched: SchedView)
    requires
        sched.ready.len() > 0,
    ensures
        0 <= sched.next_index() < sched.ready.len(),
        sched.policy is Priority ==> most_urgent(sched.ready, sched.next_index()),
        forall|i: int| #[trigger]
            most_urgent(sched.ready, i) && sched.policy is Priority ==> i == sched.next_index(),
{
    let best = lemma_most_urgent_exists_upto(sched.ready, sched.ready.len() as int);
    assert(sched.ready.take(sched.ready.len() as int) =~= sched.ready);
    assert(most_urgent(sched.ready, best));
    let found = choose|i: int| most_urgent(sched.ready, i);
    assert forall|i: int| #[trigger] most_urgent(sched.ready, i) implies i == found by {
        if i < found {
            assert(sched.ready[found].1 < sched.ready[i].1);
            assert(sched.ready[i].1 <= sched.ready[found].1);
        } else if found < i {
            assert(sched.ready[i].1 < sched.ready[found].1);
            assert(sched.ready[found].1 <= sched.ready[i].1);
        }
    }
}

/// Round robin is first come, first served: the thread that waited longest runs
/// next, the others keep their order, and whoever comes goes to the back.
pub proof fn law_round_robin_is_first_come_first_served(
    sched: SchedView,
    thread: ThreadId,
    priority: u8,
)
    requires
        sched.policy is RoundRobin,
        sched.ready.len() > 0,
    ensures
        sched.next_thread() == sched.ready[0].0,
        sched.dispatched().ready == sched.ready.drop_first(),
        sched.enqueued(thread, priority).next_thread() == sched.next_thread(),
        sched.enqueued(thread, priority).ready.last() == (thread, priority),
{
    assert(sched.dispatched().ready =~= sched.ready.drop_first());
}

/// Under the priority policy nobody who waits is more urgent than the thread that
/// runs next, and nobody equally urgent has waited longer.
pub proof fn law_priority_runs_the_most_urgent(sched: SchedView, i: int)
    requires
        sched.policy is Priority,
        0 <= i < sched.ready.len(),
    ensures
        0 <= sched.next_index() < sched.ready.len(),
        sched.ready[sched.next_index()].1 <= sched.ready[i].1,
        i < sched.next_index() ==> sched.ready[sched.next_index()].1 < sched.ready[i].1,
{
    lemma_next_index(sched);
}

/// Priority scheduling degenerates to round robin when all priorities are
/// equal: the oldest ready thread runs next.
pub proof fn law_equal_priorities_are_round_robin(sched: SchedView)
    requires
        sched.ready.len() > 0,
        forall|i: int, j: int|
            0 <= i < sched.ready.len() && 0 <= j < sched.ready.len() ==> (#[trigger] sched.ready[i]).1
                == (#[trigger] sched.ready[j]).1,
    ensures
        sched.next_index() == 0,
{
    lemma_next_index(sched);
    assert(most_urgent(sched.ready, 0));
}

// -- draining a queue ---------------------------------------------------------

impl SchedView {
    /// The entries that the next `count` dispatches take, in order.
    pub open spec fn dispatch_order(self, count: nat) -> Seq<(ThreadId, u8)>
        decreases count,
    {
        if count == 0 || self.ready.len() == 0 {
            Seq::empty()
        } else {
            seq![self.ready[self.next_index()]] + self.dispatched().dispatch_order(
                (count - 1) as nat,
            )
        }
    }

    /// The scheduler after `count` dispatches. A dispatch from an empty queue
    /// changes nothing.
    pub open spec fn after_dispatches(self, count: nat) -> SchedView
        decreases count,
    {
        if count == 0 || self.ready.len() == 0 {
            self
        } else {
            self.dispatched().after_dispatches((count - 1) as nat)
        }
    }
}

/// The entries of a queue with a given priority, in order.
pub open spec fn of_priority(ready: Seq<(ThreadId, u8)>, priority: u8) -> Seq<(ThreadId, u8)> {
    ready.filter(has_priority(priority))
}

/// Whether an entry of a queue has a given priority.
pub open spec fn has_priority(priority: u8) -> spec_fn((ThreadId, u8)) -> bool {
    |entry: (ThreadId, u8)| entry.1 == priority
}

/// Taking one entry out of a queue and putting it in front.
proof fn lemma_taken(ready: Seq<(ThreadId, u8)>, i: int, order: Seq<(ThreadId, u8)>)
    requires
        0 <= i < ready.len(),
        order.to_multiset() == ready.remove(i).to_multiset(),
    ensures
        (seq![ready[i]] + order).to_multiset() == ready.to_multiset(),
{
    let rest = ready.remove(i);
    assert(rest.insert(i, ready[i]) =~= ready);
    assert(order.insert(0, ready[i]) =~= seq![ready[i]] + order);
    vstd::seq_lib::to_multiset_insert(rest, i, ready[i]);
    vstd::seq_lib::to_multiset_insert(order, 0, ready[i]);
}

/// A queue drains completely: as many dispatches as there are ready threads take
/// each entry exactly once, count one switch each, and leave the queue empty, so
/// that the next dispatch finds nobody.
pub proof fn law_a_queue_drains_completely(sched: SchedView)
    ensures
        ({
            let count = sched.ready.len();
            let order = sched.dispatch_order(count);
            let after = sched.after_dispatches(count);
            &&& order.len() == count
            &&& order.to_multiset() == sched.ready.to_multiset()
            &&& after.ready.len() == 0
            &&& after.switches == sched.switches + count
            &&& after.policy == sched.policy
            &&& sched.dispatch_order(count + 1) == order
            &&& sched.after_dispatches(count + 1) == after
        }),
    decreases sched.ready.len(),
{
    if sched.ready.len() > 0 {
        lemma_next_index(sched);
        let next = sched.dispatched();
        law_a_queue_drains_completely(next);
        lemma_taken(sched.ready, sched.next_index(), next.dispatch_order(next.ready.len()));
    } else {
        assert(sched.ready =~= Seq::empty());
    }
}

/// Under round robin a whole queue runs in the order of arrival.
pub proof fn law_round_robin_drains_in_order_of_arrival(sched: SchedView)
    requires
        sched.policy is RoundRobin,
    ensures
        sched.dispatch_order(sched.ready.len()) == sched.ready,
    decreases sched.ready.len(),
{
    if sched.ready.len() > 0 {
        law_round_robin_drains_in_order_of_arrival(sched.dispatched());
        assert(seq![sched.ready[0]] + sched.ready.remove(0) =~= sched.ready);
    } else {
        assert(sched.ready =~= Seq::empty());
    }
}

/// Where an entry stands behind others of other priorities only, taking it out
/// and putting it in front keeps the order within each priority.
proof fn lemma_taken_in_turn(
    ready: Seq<(ThreadId, u8)>,
    i: int,
    order: Seq<(ThreadId, u8)>,
    priority: u8,
)
    requires
        0 <= i < ready.len(),
        forall|j: int| 0 <= j < i ==> (#[trigger] ready[j]).1 != ready[i].1,
        of_priority(order, priority) == of_priority(ready.remove(i), priority),
    ensures
        of_priority(seq![ready[i]] + order, priority) == of_priority(ready, priority),
{
    let keep = has_priority(priority);
    let (a, h, b) = (ready.take(i), seq![ready[i]], ready.skip(i + 1));
    assert(ready =~= a + h + b);
    assert(ready.remove(i) =~= a + b);
    Seq::filter_distributes_over_add(a + h, b, keep);
    Seq::filter_distributes_over_add(a, h, keep);
    Seq::filter_distributes_over_add(a, b, keep);
    Seq::filter_distributes_over_add(h, order, keep);
    reveal_with_fuel(Seq::filter, 2);
    assert(h.drop_last() =~= Seq::empty());
    if priority == ready[i].1 {
        assert(a.filter(keep) =~= Seq::empty()) by {
            if a.filter(keep).len() > 0 {
                lemma_filter_from(a, keep, 0);
            }
        }
        assert(a.filter(keep) + h.filter(keep) + b.filter(keep) =~= h.filter(keep) + (a.filter(keep)
            + b.filter(keep)));
    } else {
        assert(h.filter(keep) =~= Seq::empty());
        assert(a.filter(keep) + h.filter(keep) + b.filter(keep) =~= h.filter(keep) + (a.filter(keep)
            + b.filter(keep)));
    }
}

/// What a filter lets through was there before.
proof fn lemma_filter_from(
    all: Seq<(ThreadId, u8)>,
    keep: spec_fn((ThreadId, u8)) -> bool,
    i: int,
)
    requires
        0 <= i < all.filter(keep).len(),
    ensures
        all.contains(all.filter(keep)[i]),
        keep(all.filter(keep)[i]),
    decreases all.len(),
{
    reveal(Seq::filter);
    let before = all.drop_last();
    if i < before.filter(keep).len() {
        lemma_filter_from(before, keep, i);
        let at = choose|at: int| 0 <= at < before.len() && before[at] == before.filter(keep)[i];
        assert(all[at] == all.filter(keep)[i]);
    } else {
        assert(all[all.len() - 1] == all.filter(keep)[i]);
    }
}

/// Under the priority policy a whole queue runs from the most urgent to the least
/// urgent, and threads of one priority run in the order of their arrival.
pub proof fn law_priority_drains_by_urgency(sched: SchedView, i: int, j: int, priority: u8)
    requires
        sched.policy is Priority,
    ensures
        ({
            let order = sched.dispatch_order(sched.ready.len());
            &&& 0 <= i <= j < order.len() ==> order[i].1 <= order[j].1
            &&& of_priority(order, priority) == of_priority(sched.ready, priority)
        }),
    decreases sched.ready.len(),
{
    if sched.ready.len() > 0 {
        lemma_next_index(sched);
        let at = sched.next_index();
        let next = sched.dispatched();
        let rest = next.dispatch_order(next.ready.len());
        let order = sched.dispatch_order(sched.ready.len());
        law_priority_drains_by_urgency(next, i - 1, j - 1, priority);
        lemma_taken_in_turn(sched.ready, at, rest, priority);
        law_a_queue_drains_completely(next);
        if 0 == i && 0 < j < order.len() {
            assert(order[j] == rest[j - 1]);
            rest.to_multiset_ensures();
            next.ready.to_multiset_ensures();
            let entry = rest[j - 1];
            assert(rest.contains(entry));
            assert(rest.to_multiset().count(entry) > 0);
            assert(next.ready.to_multiset().count(entry) > 0);
            assert(next.ready.contains(entry));
            let from = choose|from: int|
                0 <= from < next.ready.len() && next.ready[from] == rest[j - 1];
            let was = if from < at {
                from
            } else {
                from + 1
            };
            assert(sched.ready[was] == next.ready[from]);
        }
    }
}

/// With equal priorities both policies run a whole queue in the same order, that
/// of arrival.
pub proof fn law_equal_priorities_drain_in_order_of_arrival(sched: SchedView)
    requires
        forall|i: int, j: int|
            0 <= i < sched.ready.len() && 0 <= j < sched.ready.len() ==> (#[trigger] sched.ready[i]).1
                == (#[trigger] sched.ready[j]).1,
    ensures
        sched.dispatch_order(sched.ready.len()) == sched.ready,
    decreases sched.ready.len(),
{
    if sched.ready.len() > 0 {
        law_equal_priorities_are_round_robin(sched);
        law_equal_priorities_drain_in_order_of_arrival(sched.dispatched());
        assert(seq![sched.ready[0]] + sched.ready.remove(0) =~= sched.ready);
    } else {
        assert(sched.ready =~= Seq::empty());
    }
}

/// Enqueueing puts a thread with its priority at the end of the queue and changes
/// nothing else. A dispatch takes one entry out of it, the next one, and counts.
pub proof fn law_a_queue_is_joined_at_the_end(sched: SchedView, thread: ThreadId, priority: u8)
    ensures
        ({
            let after = sched.enqueued(thread, priority);
            &&& after.ready == sched.ready + seq![(thread, priority)]
            &&& after.switches == sched.switches
            &&& after.policy == sched.policy
        }),
        sched.ready.len() > 0 ==> {
            let after = sched.dispatched();
            let at = sched.next_index();
            &&& after.ready == sched.ready.take(at) + sched.ready.skip(at + 1)
            &&& sched.next_thread() == sched.ready[at].0
            &&& after.switches == sched.switches + 1
            &&& after.policy == sched.policy
        },
{
    assert(sched.enqueued(thread, priority).ready =~= sched.ready + seq![(thread, priority)]);
    if sched.ready.len() > 0 {
        lemma_next_index(sched);
        let at = sched.next_index();
        assert(sched.dispatched().ready =~= sched.ready.take(at) + sched.ready.skip(at + 1));
    }
}

/// A thread that is removed is in the queue no more, and whoever else is there
/// stays, in the same order: the others cannot tell whether it was there before.
pub proof fn law_a_removed_thread_leaves_no_gap(
    before: Seq<(ThreadId, u8)>,
    thread: ThreadId,
    priority: u8,
    after: Seq<(ThreadId, u8)>,
    sched: SchedView,
    i: int,
)
    requires
        sched.ready == before + seq![(thread, priority)] + after,
    ensures
        ({
            let rest = SchedView { ready: before + after, ..sched };
            &&& sched.without(thread) == rest.without(thread)
            &&& 0 <= i < sched.without(thread).ready.len() ==> sched.without(thread).ready[i].0
                != thread
            &&& (forall|j: int| 0 <= j < before.len() ==> (#[trigger] before[j]).0 != thread) && (
            forall|j: int| 0 <= j < after.len() ==> (#[trigger] after[j]).0 != thread)
                ==> sched.without(thread) == rest
            &&& sched.without(thread).switches == sched.switches
            &&& sched.without(thread).policy == sched.policy
        }),
{
    let keep = other_than(thread);
    let here = seq![(thread, priority)];
    let rest = SchedView { ready: before + after, ..sched };
    Seq::filter_distributes_over_add(before + here, after, keep);
    Seq::filter_distributes_over_add(before, here, keep);
    Seq::filter_distributes_over_add(before, after, keep);
    assert(here.filter(keep) =~= Seq::empty()) by {
        reveal_with_fuel(Seq::filter, 2);
        assert(here.drop_last() =~= Seq::empty());
    }
    assert(before.filter(keep) + here.filter(keep) =~= before.filter(keep));
    assert(sched.without(thread).ready == rest.without(thread).ready);
    if 0 <= i < sched.without(thread).ready.len() {
        lemma_filter_from(sched.ready, keep, i);
    }
    if (forall|j: int| 0 <= j < before.len() ==> (#[trigger] before[j]).0 != thread) && (forall|
        j: int,
    |
        0 <= j < after.len() ==> (#[trigger] after[j]).0 != thread) {
        lemma_filter_all(before, keep);
        lemma_filter_all(after, keep);
    }
}

/// A filter that lets everything through changes nothing.
proof fn lemma_filter_all(all: Seq<(ThreadId, u8)>, keep: spec_fn((ThreadId, u8)) -> bool)
    requires
        forall|i: int| 0 <= i < all.len() ==> keep(#[trigger] all[i]),
    ensures
        all.filter(keep) == all,
    decreases all.len(),
{
    reveal(Seq::filter);
    if all.len() > 0 {
        let before = all.drop_last();
        assert forall|i: int| 0 <= i < before.len() implies keep(#[trigger] before[i]) by {
            assert(before[i] == all[i]);
        }
        lemma_filter_all(before, keep);
        assert(keep(all[all.len() - 1]));
        assert(before.push(all.last()) =~= all);
    } else {
        assert(all.filter(keep) =~= all);
    }
}

/// The ready queue plus its policy.
///
/// Each queued entry carries its thread priority so the priority policy can scan
/// without reaching back into the thread table. A smaller priority number means
/// more urgent, matching the common operating system convention.
#[derive(Debug, Clone)]
pub struct Scheduler {
    policy: Policy,
    ready: VecDeque<(ThreadId, u8)>,
    /// Number of dispatches performed, for context switch accounting across the
    /// whole run.
    pub context_switches: u64,
}

impl View for Scheduler {
    type V = SchedView;

    closed spec fn view(&self) -> SchedView {
        SchedView {
            policy: self.policy,
            ready: self.ready@,
            switches: self.context_switches as nat,
        }
    }
}

impl Scheduler {
    /// A scheduler with the given policy and an empty ready queue.
    pub fn new(policy: Policy) -> (sched: Scheduler)
        ensures
            sched@ == (SchedView { policy, ready: Seq::empty(), switches: 0 }),
    {
        Scheduler { policy, ready: VecDeque::new(), context_switches: 0 }
    }

    /// The number of dispatches performed.
    pub fn switches(&self) -> (count: u64)
        ensures
            count == self@.switches,
    {
        self.context_switches
    }

    /// The active policy.
    pub fn policy(&self) -> (policy: Policy)
        ensures
            policy == self@.policy,
    {
        self.policy
    }

    /// Add a thread to the back of the ready queue. Arrival order is preserved,
    /// which is what makes tie breaking deterministic.
    pub fn enqueue(&mut self, thread: ThreadId, priority: u8)
        ensures
            final(self)@ == old(self)@.enqueued(thread, priority),
    {
        self.ready.push_back((thread, priority));
    }

    /// How many threads are ready.
    pub fn ready_len(&self) -> (count: usize)
        ensures
            count == self@.ready.len(),
    {
        self.ready.len()
    }

    /// Whether any thread is ready.
    pub fn has_ready(&self) -> (some: bool)
        ensures
            some == (self@.ready.len() > 0),
    {
        self.ready.len() > 0
    }

    /// Remove a specific thread from the ready queue if present. Used when a
    /// thread exits while still queued.
    pub fn remove(&mut self, thread: ThreadId)
        ensures
            final(self)@ == old(self)@.without(thread),
    {
        let ghost keep = other_than(thread);
        let count: usize = self.ready.len();
        let mut kept: VecDeque<(ThreadId, u8)> = VecDeque::new();
        let mut at: usize = 0;
        while at < count
            invariant
                at <= count,
                count == self.ready@.len(),
                keep == other_than(thread),
                kept@ == self.ready@.take(at as int).filter(keep),
                *self == *old(self),
            decreases count - at,
        {
            let entry: (ThreadId, u8) = self.ready[at];
            proof {
                let head = self.ready@.take(at as int);
                assert(self.ready@.take(at + 1) =~= head.push(entry));
                reveal(Seq::filter);
                assert(head.push(entry).drop_last() =~= head);
            }
            if entry.0 != thread {
                kept.push_back(entry);
            }
            at = at + 1;
        }
        proof {
            assert(self.ready@.take(at as int) =~= self.ready@);
        }
        self.ready = kept;
    }

    /// Choose and remove the next thread to run. The choice depends on policy.
    /// A dispatch bumps the context switch counter.
    pub fn dispatch(&mut self) -> (chosen: Option<ThreadId>)
        requires
            old(self)@.ready.len() > 0 ==> old(self)@.switches < u64::MAX,
        ensures
            old(self)@.ready.len() == 0 ==> chosen is None && final(self)@ == old(self)@,
            old(self)@.ready.len() > 0 ==> {
                &&& chosen == Some(old(self)@.next_thread())
                &&& final(self)@ == old(self)@.dispatched()
            },
    {
        let count: usize = self.ready.len();
        if count == 0 {
            return None;
        }
        proof {
            lemma_next_index(self@);
        }
        let index: usize = match self.policy {
            Policy::RoundRobin => 0,
            Policy::Priority => self.most_urgent_index(),
        };
        match self.ready.remove(index) {
            Some((thread, _)) => {
                self.context_switches = self.context_switches + 1;
                Some(thread)
            },
            None => None,
        }
    }

    /// The position of the most urgent ready thread, the oldest among equals.
    fn most_urgent_index(&self) -> (best: usize)
        requires
            self@.ready.len() > 0,
        ensures
            most_urgent(self@.ready, best as int),
    {
        let count: usize = self.ready.len();
        let mut best: usize = 0;
        let mut best_priority: u8 = self.ready[0].1;
        let mut at: usize = 1;
        while at < count
            invariant
                1 <= at <= count,
                count == self.ready@.len(),
                best < at,
                best_priority == self.ready@[best as int].1,
                forall|j: int| 0 <= j < at ==> best_priority <= (#[trigger] self.ready@[j]).1,
                forall|j: int| 0 <= j < best ==> best_priority < (#[trigger] self.ready@[j]).1,
            decreases count - at,
        {
            let priority: u8 = self.ready[at].1;
            if priority < best_priority {
                best_priority = priority;
                best = at;
            }
            at = at + 1;
        }
        best
    }
}

} // verus!
