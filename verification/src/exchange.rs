//! The laws of the pipeline scenario.
//!
//! In a pipeline every message that is sent is delivered exactly once and in
//! order, nothing is denied, and every thread finishes.

use crate::capability::{Capability, ObjectRef, Rights};
use crate::ipc::MsgView;
use crate::scheduler::Policy;
use crate::state::KernelView;
use crate::thread::{OpView, ThreadState, ThreadView};
use crate::trace::EventView;
use crate::{EndpointId, TaskId, ThreadId};
use vstd::prelude::*;

verus! {

/// The sum of a function over the numbers below `n`.
pub open spec fn sum_to(f: spec_fn(int) -> int, n: nat) -> int
    decreases n,
{
    if n == 0 {
        0
    } else {
        sum_to(f, (n - 1) as nat) + f(n - 1)
    }
}

/// Where a function changes in one place, its sum changes by as much.
pub proof fn lemma_sum_change(f: spec_fn(int) -> int, g: spec_fn(int) -> int, n: nat, at: int)
    requires
        0 <= at < n,
        forall|j: int| 0 <= j < n && j != at ==> #[trigger] g(j) == f(j),
    ensures
        sum_to(g, n) == sum_to(f, n) - f(at) + g(at),
    decreases n,
{
    if at == n - 1 {
        lemma_sum_same(f, g, (n - 1) as nat);
    } else {
        lemma_sum_change(f, g, (n - 1) as nat, at);
    }
}

/// Equal functions have equal sums.
proof fn lemma_sum_same(f: spec_fn(int) -> int, g: spec_fn(int) -> int, n: nat)
    requires
        forall|j: int| 0 <= j < n ==> #[trigger] g(j) == f(j),
    ensures
        sum_to(g, n) == sum_to(f, n),
    decreases n,
{
    if n > 0 {
        lemma_sum_same(f, g, (n - 1) as nat);
    }
}

/// The sum of a constant function.
pub proof fn lemma_sum_constant(f: spec_fn(int) -> int, n: nat, value: int)
    requires
        forall|j: int| 0 <= j < n ==> #[trigger] f(j) == value,
    ensures
        sum_to(f, n) == n * value,
    decreases n,
{
    if n > 0 {
        lemma_sum_constant(f, (n - 1) as nat, value);
        assert(f(n - 1) == value);
        assert(n * value == (n - 1) * value + value) by (nonlinear_arith);
    } else {
        assert(0 * value == 0) by (nonlinear_arith);
    }
}

/// A sum of natural numbers is a natural number.
proof fn lemma_sum_natural(f: spec_fn(int) -> int, n: nat)
    requires
        forall|j: int| 0 <= j < n ==> #[trigger] f(j) >= 0,
    ensures
        sum_to(f, n) >= 0,
    decreases n,
{
    if n > 0 {
        lemma_sum_natural(f, (n - 1) as nat);
        assert(f(n - 1) >= 0);
    }
}

/// A sum of natural numbers is at least each of them.
proof fn lemma_sum_at_least(f: spec_fn(int) -> int, n: nat, at: int)
    requires
        0 <= at < n,
        forall|j: int| 0 <= j < n ==> #[trigger] f(j) >= 0,
    ensures
        sum_to(f, n) >= f(at),
    decreases n,
{
    if at < n - 1 {
        lemma_sum_at_least(f, (n - 1) as nat, at);
        assert(f(n - 1) >= 0);
    } else {
        lemma_sum_natural(f, (n - 1) as nat);
    }
}

// -- the pipeline -------------------------------------------------------------

/// The producing thread of a pair.
pub open spec fn producer_of(seed: u64, pair: int) -> ThreadId {
    if crate::scenario::consumer_first(seed, pair as nat) {
        (2 * pair + 1) as ThreadId
    } else {
        (2 * pair) as ThreadId
    }
}

/// The consuming thread of a pair.
pub open spec fn consumer_of(seed: u64, pair: int) -> ThreadId {
    if crate::scenario::consumer_first(seed, pair as nat) {
        (2 * pair) as ThreadId
    } else {
        (2 * pair + 1) as ThreadId
    }
}

/// Whether a thread is parked.
pub open spec fn parked(thread: ThreadView) -> bool {
    thread.state is BlockedSend || thread.state is BlockedRecv
}

/// Message `i` of a pair crosses. Its label is its number.
pub open spec fn crossing(seed: u64, pair: int, i: int) -> EventView {
    EventView::Rendezvous {
        sender: producer_of(seed, pair),
        receiver: consumer_of(seed, pair),
        endpoint: pair as EndpointId,
        label: i as u64,
        bytes: 1,
    }
}

/// The first messages of a pair, in order.
pub open spec fn crossings(seed: u64, pair: int, count: nat) -> Seq<EventView> {
    Seq::new(count, |i: int| crossing(seed, pair, i))
}

/// The labels of the messages that crossed at an endpoint, in order.
pub open spec fn labels(trace: Seq<EventView>, ep: EndpointId) -> Seq<u64>
    decreases trace.len(),
{
    if trace.len() == 0 {
        Seq::empty()
    } else {
        let before = labels(trace.drop_last(), ep);
        match trace.last() {
            EventView::Rendezvous { endpoint, label, .. } => if endpoint == ep {
                before.push(label)
            } else {
                before
            },
            _ => before,
        }
    }
}

/// The first labels: 0, 1, 2 and so on.
pub open spec fn numbers(count: nat) -> Seq<u64> {
    Seq::new(count, |i: int| i as u64)
}

/// A pair in the middle of its exchange: producer and consumer are equally far,
/// at most one of them waits for the other, they finish after the last message,
/// and all that both have done is exchange the first messages in order.
pub open spec fn exchanging(k: KernelView, seed: u64, pair: int, burst: nat) -> bool {
    let p = k.threads[producer_of(seed, pair) as int];
    let c = k.threads[consumer_of(seed, pair) as int];
    let ep = pair as EndpointId;
    &&& p.task == 2 * pair
    &&& c.task == 2 * pair + 1
    &&& p.program == crate::scenario::send_program(burst)
    &&& c.program == crate::scenario::recv_program(burst)
    &&& p.pc == c.pc
    &&& p.pc <= burst
    &&& k.holds(p.task, 0, ObjectRef::Endpoint(ep), Rights::send())
    &&& k.holds(c.task, 0, ObjectRef::Endpoint(ep), Rights::recv())
    &&& p.state is Ready || p.state is Exited || p.state == ThreadState::BlockedSend(ep)
    &&& c.state is Ready || c.state is Exited || c.state == ThreadState::BlockedRecv(ep)
    &&& !(parked(p) && parked(c))
    &&& parked(p) || parked(c) ==> p.pc < burst
    &&& p.state is Exited || c.state is Exited ==> p.pc == burst
    &&& p.pending is Some ==> p.pending->0.cap is None
    &&& crate::history::deeds(k.trace, producer_of(seed, pair)) == crossings(seed, pair, p.pc)
    &&& crate::history::deeds(k.trace, consumer_of(seed, pair)) == crossings(seed, pair, c.pc)
    &&& labels(k.trace, ep) == numbers(p.pc)
}

/// How many turns a thread of a pair still needs for itself at the end.
pub open spec fn finish(thread: ThreadView) -> int {
    if thread.state is Exited {
        0
    } else {
        1
    }
}

/// How many turns a pair still needs: two for each message, the first of which
/// is taken when one of them waits, and one for each thread to finish.
pub open spec fn turns_left(k: KernelView, seed: u64, burst: nat) -> spec_fn(int) -> int {
    |pair: int|
        {
            let p = k.threads[producer_of(seed, pair) as int];
            let c = k.threads[consumer_of(seed, pair) as int];
            2 * (burst - p.pc) + finish(p) + finish(c) - if parked(p) || parked(c) {
                1int
            } else {
                0int
            }
        }
}

/// How many messages a pair has exchanged.
pub open spec fn messages(k: KernelView, seed: u64) -> spec_fn(int) -> int {
    |pair: int| k.threads[producer_of(seed, pair) as int].pc as int
}

/// The invariant of a running pipeline: all pairs are exchanging, the trace
/// counts the messages exchanged, nothing was denied, and the clock counts the
/// turns taken.
pub open spec fn flowing(k: KernelView, seed: u64, pairs: nat, burst: nat) -> bool {
    &&& k.wf()
    &&& k.tasks.len() == 2 * pairs
    &&& k.threads.len() == 2 * pairs
    &&& k.endpoints.len() == pairs
    &&& 2 * pairs <= u32::MAX
    &&& burst <= u32::MAX
    &&& forall|pair: int| 0 <= pair < pairs ==> #[trigger] exchanging(k, seed, pair, burst)
    &&& crate::state::tally(k.trace, |e: EventView| e is Rendezvous) == sum_to(
        messages(k, seed),
        pairs,
    )
    &&& crate::state::tally(k.trace, |e: EventView| e is Denied) == 0
    &&& crate::state::tally(k.trace, |e: EventView| e is CapTransfer) == 0
    &&& k.clock + sum_to(turns_left(k, seed, burst), pairs) == 2 * pairs * (burst + 1)
}

/// Every thread of a pipeline is the producer or the consumer of its pair.
proof fn lemma_roles(seed: u64, pairs: nat, tid: ThreadId)
    requires
        tid < 2 * pairs,
        2 * pairs <= u32::MAX,
    ensures
        ({
            let pair = tid as int / 2;
            &&& 0 <= pair < pairs
            &&& tid == producer_of(seed, pair) || tid == consumer_of(seed, pair)
            &&& producer_of(seed, pair) != consumer_of(seed, pair)
            &&& producer_of(seed, pair) as int / 2 == pair
            &&& consumer_of(seed, pair) as int / 2 == pair
            &&& producer_of(seed, pair) < 2 * pairs
            &&& consumer_of(seed, pair) < 2 * pairs
        }),
{
}

/// Whoever waits at the endpoint of a pair is the thread of that pair.
proof fn lemma_who_waits(k: KernelView, seed: u64, pairs: nat, burst: nat, pair: int)
    requires
        flowing(k, seed, pairs, burst),
        0 <= pair < pairs,
    ensures
        ({
            let p = producer_of(seed, pair);
            let c = consumer_of(seed, pair);
            let endpoint = k.endpoints[pair];
            &&& k.threads[p as int].state is BlockedSend ==> endpoint.senders.len() > 0
                && endpoint.senders[0] == p && k.threads[p as int].pending is Some
            &&& !(k.threads[p as int].state is BlockedSend) ==> endpoint.senders.len() == 0
            &&& k.threads[c as int].state is BlockedRecv ==> endpoint.receivers.len() > 0
                && endpoint.receivers[0] == c
            &&& !(k.threads[c as int].state is BlockedRecv) ==> endpoint.receivers.len() == 0
        }),
{
    reveal(KernelView::wf);
    let ep = pair as EndpointId;
    let endpoint = k.endpoints[pair];
    let p = producer_of(seed, pair);
    let c = consumer_of(seed, pair);
    lemma_roles(seed, pairs, (2 * pair) as ThreadId);
    assert(exchanging(k, seed, pair, burst));
    assert(k.endpoint_wf(ep));
    assert(k.thread_wf(p, None));
    assert(k.thread_wf(c, None));
    if endpoint.senders.len() > 0 {
        let first = endpoint.senders[0];
        assert(k.threads[first as int].state == ThreadState::BlockedSend(ep));
        lemma_roles(seed, pairs, first);
        assert(exchanging(k, seed, first as int / 2, burst));
        assert(first == p);
    }
    if endpoint.receivers.len() > 0 {
        let first = endpoint.receivers[0];
        assert(k.threads[first as int].state == ThreadState::BlockedRecv(ep));
        lemma_roles(seed, pairs, first);
        assert(exchanging(k, seed, first as int / 2, burst));
        assert(first == c);
    }
}

/// One more event counts for one if it is of the kind.
pub proof fn lemma_tally_push(trace: Seq<EventView>, event: EventView, kind: spec_fn(EventView) -> bool)
    ensures
        crate::state::tally(trace.push(event), kind) == crate::state::tally(trace, kind) + if kind(
            event,
        ) {
            1nat
        } else {
            0nat
        },
{
    assert(trace.push(event).drop_last() =~= trace);
}

/// What a turn of a pipeline does: it touches one pair only, takes one of its
/// turns, and counts what it exchanges.
pub open spec fn one_turn(k: KernelView, n: KernelView, seed: u64, burst: nat, pair: int) -> bool {
    &&& n.tasks == k.tasks
    &&& n.threads.len() == k.threads.len()
    &&& n.endpoints.len() == k.endpoints.len()
    &&& n.clock == k.clock + 1
    &&& forall|u: int|
        0 <= u < k.threads.len() && u / 2 != pair ==> (#[trigger] n.threads[u]) == k.threads[u]
    &&& exchanging(n, seed, pair, burst)
    &&& turns_left(n, seed, burst)(pair) == turns_left(k, seed, burst)(pair) - 1
    &&& crate::state::tally(n.trace, |e: EventView| e is Rendezvous) - messages(n, seed)(pair)
        == crate::state::tally(k.trace, |e: EventView| e is Rendezvous) - messages(k, seed)(pair)
    &&& crate::state::tally(n.trace, |e: EventView| e is Denied) == crate::state::tally(
        k.trace,
        |e: EventView| e is Denied,
    )
    &&& crate::state::tally(n.trace, |e: EventView| e is CapTransfer) == crate::state::tally(
        k.trace,
        |e: EventView| e is CapTransfer,
    )
    &&& forall|u: ThreadId|
        u as int / 2 != pair ==> #[trigger] crate::history::deeds(n.trace, u)
            == crate::history::deeds(k.trace, u)
    &&& forall|ep: EndpointId|
        ep != pair ==> #[trigger] labels(n.trace, ep) == labels(k.trace, ep)
}

/// What a turn adds to the record of each thread.
proof fn lemma_turn_deeds(k: KernelView, n: KernelView, event: EventView)
    requires
        n.trace == k.trace.push(k.dispatch_event()).push(event),
        !(event is CapTransfer),
    ensures
        forall|u: ThreadId| #[trigger]
            crate::history::deeds(n.trace, u) == if crate::history::concerns(event, u) {
                crate::history::deeds(k.trace, u).push(event)
            } else {
                crate::history::deeds(k.trace, u)
            },
        forall|ep: EndpointId| #[trigger]
            labels(n.trace, ep) == match event {
                EventView::Rendezvous { endpoint, label, .. } => if endpoint == ep {
                    labels(k.trace, ep).push(label)
                } else {
                    labels(k.trace, ep)
                },
                _ => labels(k.trace, ep),
            },
        crate::state::tally(n.trace, |e: EventView| e is CapTransfer) == crate::state::tally(
            k.trace,
            |e: EventView| e is CapTransfer,
        ),
{
    let base = k.trace.push(k.dispatch_event());
    assert(n.trace.drop_last() =~= base);
    assert(base.drop_last() =~= k.trace);
    assert forall|ep: EndpointId| #[trigger]
        labels(n.trace, ep) == match event {
            EventView::Rendezvous { endpoint, label, .. } => if endpoint == ep {
                labels(k.trace, ep).push(label)
            } else {
                labels(k.trace, ep)
            },
            _ => labels(k.trace, ep),
        } by {
        assert(labels(base, ep) == labels(k.trace, ep));
    }
    assert forall|u: ThreadId| #[trigger]
        crate::history::deeds(n.trace, u) == if crate::history::concerns(event, u) {
            crate::history::deeds(k.trace, u).push(event)
        } else {
            crate::history::deeds(k.trace, u)
        } by {
        crate::history::lemma_deeds_push(k.trace, k.dispatch_event(), u);
        crate::history::lemma_deeds_push(base, event, u);
    }
    lemma_tally_push(k.trace, k.dispatch_event(), |e: EventView| e is CapTransfer);
    lemma_tally_push(base, event, |e: EventView| e is CapTransfer);
}

/// The turn of a thread that has nothing left but to finish.
proof fn lemma_last_turn(k: KernelView, seed: u64, pairs: nat, burst: nat)
    requires
        flowing(k, seed, pairs, burst),
        k.sched.ready.len() > 0,
        k.clock < u64::MAX,
        k.threads[k.next_thread() as int].pc == burst,
    ensures
        k.tick_safe(),
        one_turn(k, k.tick(), seed, burst, k.next_thread() as int / 2),
{
    let tid = k.next_thread();
    let pair = tid as int / 2;
    let n = k.tick();
    assert(k.has_thread(tid) && k.threads[tid as int].state is Ready) by {
        reveal(KernelView::wf);
        crate::soundness::lemma_take_up(k);
    }
    lemma_roles(seed, pairs, tid);
    assert(exchanging(k, seed, pair, burst));
    assert(k.threads[tid as int].current_op() == Some(OpView::Exit));
    let base = k.trace.push(k.dispatch_event());
    assert(n.trace == base.push(EventView::Exit { thread: tid }));
    lemma_turn_deeds(k, n, EventView::Exit { thread: tid });
    lemma_tally_push(k.trace, k.dispatch_event(), |e: EventView| e is Rendezvous);
    lemma_tally_push(k.trace, k.dispatch_event(), |e: EventView| e is Denied);
    lemma_tally_push(base, EventView::Exit { thread: tid }, |e: EventView| e is Rendezvous);
    lemma_tally_push(base, EventView::Exit { thread: tid }, |e: EventView| e is Denied);
}

/// The turn of a producer with a message to send.
proof fn lemma_send_turn(k: KernelView, seed: u64, pairs: nat, burst: nat)
    requires
        flowing(k, seed, pairs, burst),
        k.sched.ready.len() > 0,
        k.clock < u64::MAX,
        k.next_thread() == producer_of(seed, k.next_thread() as int / 2),
        k.threads[k.next_thread() as int].pc < burst,
    ensures
        k.tick_safe(),
        one_turn(k, k.tick(), seed, burst, k.next_thread() as int / 2),
{
    let tid = k.next_thread();
    let pair = tid as int / 2;
    let ep = pair as EndpointId;
    let c = consumer_of(seed, pair);
    let n = k.tick();
    let up = k.take_up();
    assert(k.has_thread(tid) && k.threads[tid as int].state is Ready
        && k.threads[tid as int].pending is None) by {
        reveal(KernelView::wf);
        crate::soundness::lemma_take_up(k);
        assert(k.thread_wf(tid, None));
    }
    lemma_roles(seed, pairs, tid);
    assert(exchanging(k, seed, pair, burst));
    lemma_who_waits(k, seed, pairs, burst, pair);
    let i = k.threads[tid as int].pc;
    let msg = MsgView {
        label: (i as int) as u64,
        bytes: seq![((i as int) as u32) as u8],
        transfer: None,
    };
    assert(k.threads[tid as int].current_op() == Some(OpView::Send { ep: 0, msg }));
    assert(up.resolve(up.threads[tid as int].task, 0, "endpoint", Rights::send()) == Ok::<
        ObjectRef,
        crate::error::KernelError,
    >(ObjectRef::Endpoint(ep)));
    assert(up.endpoints == k.endpoints);
    let base = k.trace.push(k.dispatch_event());
    lemma_tally_push(k.trace, k.dispatch_event(), |e: EventView| e is Rendezvous);
    lemma_tally_push(k.trace, k.dispatch_event(), |e: EventView| e is Denied);
    if k.threads[c as int].state is BlockedRecv {
        crate::rendezvous::law_a_send_wakes_the_receiver(k, 0, msg, ep);
        let event = EventView::Rendezvous {
            sender: tid,
            receiver: c,
            endpoint: ep,
            label: msg.label,
            bytes: msg.bytes.len(),
        };
        assert(n.trace == base.push(event));
        lemma_turn_deeds(k, n, event);
        assert(event == crossing(seed, pair, i as int));
        assert(crossings(seed, pair, i + 1) =~= crossings(seed, pair, i).push(event));
        assert(numbers(i + 1) =~= numbers(i).push(i as u64));
        lemma_tally_push(base, event, |e: EventView| e is Rendezvous);
        lemma_tally_push(base, event, |e: EventView| e is Denied);
    } else {
        crate::rendezvous::law_an_early_sender_blocks(k, 0, msg, ep);
        let event = EventView::BlockSend { thread: tid, endpoint: ep };
        assert(n.trace == base.push(event));
        lemma_turn_deeds(k, n, event);
        lemma_tally_push(base, event, |e: EventView| e is Rendezvous);
        lemma_tally_push(base, event, |e: EventView| e is Denied);
    }
}

/// The turn of a consumer with a message to receive.
proof fn lemma_recv_turn(k: KernelView, seed: u64, pairs: nat, burst: nat)
    requires
        flowing(k, seed, pairs, burst),
        k.sched.ready.len() > 0,
        k.clock < u64::MAX,
        k.next_thread() == consumer_of(seed, k.next_thread() as int / 2),
        k.threads[k.next_thread() as int].pc < burst,
    ensures
        k.tick_safe(),
        one_turn(k, k.tick(), seed, burst, k.next_thread() as int / 2),
{
    let tid = k.next_thread();
    let pair = tid as int / 2;
    let ep = pair as EndpointId;
    let p = producer_of(seed, pair);
    let n = k.tick();
    let up = k.take_up();
    assert(k.has_thread(tid) && k.threads[tid as int].state is Ready
        && k.threads[tid as int].pending is None) by {
        reveal(KernelView::wf);
        crate::soundness::lemma_take_up(k);
        assert(k.thread_wf(tid, None));
    }
    lemma_roles(seed, pairs, tid);
    assert(exchanging(k, seed, pair, burst));
    lemma_who_waits(k, seed, pairs, burst, pair);
    assert(k.threads[tid as int].current_op() == Some(OpView::Recv { ep: 0 }));
    assert(up.resolve(up.threads[tid as int].task, 0, "endpoint", Rights::recv()) == Ok::<
        ObjectRef,
        crate::error::KernelError,
    >(ObjectRef::Endpoint(ep)));
    assert(up.endpoints == k.endpoints);
    let base = k.trace.push(k.dispatch_event());
    lemma_tally_push(k.trace, k.dispatch_event(), |e: EventView| e is Rendezvous);
    lemma_tally_push(k.trace, k.dispatch_event(), |e: EventView| e is Denied);
    if k.threads[p as int].state is BlockedSend {
        crate::rendezvous::law_a_receive_wakes_the_sender(k, 0, ep);
        let msg = k.threads[p as int].pending->0;
        let event = EventView::Rendezvous {
            sender: p,
            receiver: tid,
            endpoint: ep,
            label: msg.label,
            bytes: msg.bytes.len(),
        };
        assert(n.trace == base.push(event));
        lemma_turn_deeds(k, n, event);
        let i = k.threads[tid as int].pc;
        assert(k.threads[p as int].current_op() == Some(
            OpView::Send {
                ep: 0,
                msg: MsgView {
                    label: (i as int) as u64,
                    bytes: seq![((i as int) as u32) as u8],
                    transfer: None,
                },
            },
        ));
        assert(event == crossing(seed, pair, i as int));
        assert(crossings(seed, pair, i + 1) =~= crossings(seed, pair, i).push(event));
        assert(numbers(i + 1) =~= numbers(i).push(i as u64));
        lemma_tally_push(base, event, |e: EventView| e is Rendezvous);
        lemma_tally_push(base, event, |e: EventView| e is Denied);
    } else {
        crate::rendezvous::law_an_early_receiver_blocks(k, 0, ep);
        let event = EventView::BlockRecv { thread: tid, endpoint: ep };
        assert(n.trace == base.push(event));
        lemma_turn_deeds(k, n, event);
        lemma_tally_push(base, event, |e: EventView| e is Rendezvous);
        lemma_tally_push(base, event, |e: EventView| e is Denied);
    }
}

/// A pair that is exchanging has turns left as long as one of it is not done.
proof fn lemma_turns(k: KernelView, seed: u64, pairs: nat, burst: nat)
    requires
        flowing(k, seed, pairs, burst),
    ensures
        forall|pair: int|
            0 <= pair < pairs ==> #[trigger] turns_left(k, seed, burst)(pair) >= 0,
        k.sched.ready.len() > 0 ==> sum_to(turns_left(k, seed, burst), pairs) > 0,
        k.sched.ready.len() == 0 ==> sum_to(turns_left(k, seed, burst), pairs) == 0,
{
    let left = turns_left(k, seed, burst);
    assert forall|pair: int| 0 <= pair < pairs implies #[trigger] left(pair) >= 0 by {
        assert(exchanging(k, seed, pair, burst));
    }
    if k.sched.ready.len() > 0 {
        let tid = k.next_thread();
        assert(k.has_thread(tid) && k.threads[tid as int].state is Ready) by {
            reveal(KernelView::wf);
            crate::soundness::lemma_take_up(k);
        }
        lemma_roles(seed, pairs, tid);
        let pair = tid as int / 2;
        assert(exchanging(k, seed, pair, burst));
        assert(left(pair) > 0);
        lemma_sum_at_least(left, pairs, pair);
    } else {
        assert forall|pair: int| 0 <= pair < pairs implies #[trigger] left(pair) == 0 by {
            lemma_at_rest(k, seed, pairs, burst, pair);
        }
        lemma_sum_constant(left, pairs, 0);
    }
}

/// When no thread is ready, both threads of a pair have finished.
proof fn lemma_at_rest(k: KernelView, seed: u64, pairs: nat, burst: nat, pair: int)
    requires
        flowing(k, seed, pairs, burst),
        k.sched.ready.len() == 0,
        0 <= pair < pairs,
    ensures
        k.threads[producer_of(seed, pair) as int].state is Exited,
        k.threads[consumer_of(seed, pair) as int].state is Exited,
        k.threads[producer_of(seed, pair) as int].pc == burst,
{
    let p = producer_of(seed, pair);
    let c = consumer_of(seed, pair);
    lemma_roles(seed, pairs, (2 * pair) as ThreadId);
    assert(exchanging(k, seed, pair, burst));
    reveal(KernelView::wf);
    assert(k.thread_wf(p, None));
    assert(k.thread_wf(c, None));
}

/// A turn of a running pipeline keeps it running and takes one turn.
proof fn lemma_flow_turn(k: KernelView, seed: u64, pairs: nat, burst: nat)
    requires
        flowing(k, seed, pairs, burst),
        k.sched.ready.len() > 0,
    ensures
        k.tick_safe(),
        flowing(k.tick(), seed, pairs, burst),
        sum_to(turns_left(k.tick(), seed, burst), pairs) == sum_to(
            turns_left(k, seed, burst),
            pairs,
        ) - 1,
{
    let tid = k.next_thread();
    let pair = tid as int / 2;
    let n = k.tick();
    lemma_turns(k, seed, pairs, burst);
    assert(k.clock < u64::MAX) by {
        assert(2 * pairs * (burst + 1) <= 0xffff_ffff * 0x1_0000_0000) by (nonlinear_arith)
            requires
                2 * pairs <= 0xffff_ffff,
                burst <= 0xffff_ffff,
                0 <= pairs,
                0 <= burst,
        ;
    }
    assert(k.has_thread(tid)) by {
        reveal(KernelView::wf);
        crate::soundness::lemma_take_up(k);
    }
    lemma_roles(seed, pairs, tid);
    assert(exchanging(k, seed, pair, burst));
    if k.threads[tid as int].pc == burst {
        lemma_last_turn(k, seed, pairs, burst);
    } else if tid == producer_of(seed, pair) {
        lemma_send_turn(k, seed, pairs, burst);
    } else {
        lemma_recv_turn(k, seed, pairs, burst);
    }
    crate::soundness::lemma_tick(k);
    assert forall|other: int| 0 <= other < pairs && other != pair implies exchanging(
        n,
        seed,
        other,
        burst,
    ) && turns_left(n, seed, burst)(other) == turns_left(k, seed, burst)(other) && messages(
        n,
        seed,
    )(other) == messages(k, seed)(other) by {
        lemma_roles(seed, pairs, (2 * other) as ThreadId);
        assert(exchanging(k, seed, other, burst));
        assert(n.threads[producer_of(seed, other) as int] == k.threads[producer_of(
            seed,
            other,
        ) as int]);
        assert(n.threads[consumer_of(seed, other) as int] == k.threads[consumer_of(
            seed,
            other,
        ) as int]);
        assert(crate::history::deeds(n.trace, producer_of(seed, other)) == crate::history::deeds(
            k.trace,
            producer_of(seed, other),
        ));
        assert(crate::history::deeds(n.trace, consumer_of(seed, other)) == crate::history::deeds(
            k.trace,
            consumer_of(seed, other),
        ));
        assert(labels(n.trace, other as EndpointId) == labels(k.trace, other as EndpointId));
    }
    assert forall|other: int| 0 <= other < pairs implies #[trigger] exchanging(
        n,
        seed,
        other,
        burst,
    ) by {
        if other != pair {
            assert(turns_left(n, seed, burst)(other) == turns_left(k, seed, burst)(other));
        }
    }
    lemma_sum_change(turns_left(k, seed, burst), turns_left(n, seed, burst), pairs, pair);
    lemma_sum_change(messages(k, seed), messages(n, seed), pairs, pair);
}

/// A running pipeline with enough ops to go runs dry.
proof fn lemma_flow_run(k: KernelView, seed: u64, pairs: nat, burst: nat, max_ops: nat)
    requires
        flowing(k, seed, pairs, burst),
    ensures
        k.run_safe(max_ops),
        flowing(k.run(max_ops), seed, pairs, burst),
        max_ops >= sum_to(turns_left(k, seed, burst), pairs) ==> {
            &&& k.run(max_ops).sched.ready.len() == 0
            &&& k.ops_run(max_ops) == sum_to(turns_left(k, seed, burst), pairs)
        },
    decreases max_ops,
{
    lemma_turns(k, seed, pairs, burst);
    if max_ops > 0 && k.sched.ready.len() > 0 {
        lemma_flow_turn(k, seed, pairs, burst);
        lemma_flow_run(k.tick(), seed, pairs, burst, (max_ops - 1) as nat);
    }
}

/// A couple with its threads is a well formed state.
proof fn lemma_with_pair(k: KernelView, seed: u64, pair: nat, burst: nat)
    requires
        k.wf(),
        k.tasks.len() + 2 <= u32::MAX,
        k.threads.len() + 2 <= u32::MAX,
        k.endpoints.len() < u32::MAX,
        k.next_cap_id + 2 <= u64::MAX,
    ensures
        k.with_pair(seed, pair, burst).wf(),
{
    let sender = crate::scenario::numbered("producer-"@, pair);
    let receiver = crate::scenario::numbered("consumer-"@, pair);
    let producer = k.tasks.len() as TaskId;
    let consumer = (k.tasks.len() + 1) as TaskId;
    let ep = ObjectRef::Endpoint(k.endpoints.len() as EndpointId);
    let a = k.create_task(sender);
    crate::soundness::lemma_create_task(k, sender);
    let b = a.create_task(receiver);
    crate::soundness::lemma_create_task(a, receiver);
    let c = b.create_endpoint();
    crate::soundness::lemma_create_endpoint(b);
    let d = c.grant(producer, ep, Rights::send());
    crate::soundness::lemma_grant(c, producer, ep, Rights::send());
    let e = d.grant(consumer, ep, Rights::recv());
    crate::soundness::lemma_grant(d, consumer, ep, Rights::recv());
    let send = crate::scenario::send_program(burst);
    let recv = crate::scenario::recv_program(burst);
    if crate::scenario::consumer_first(seed, pair) {
        crate::soundness::lemma_spawn(e, consumer, receiver, 0, recv);
        let f = e.spawn_thread(consumer, receiver, 0, recv);
        crate::soundness::lemma_spawn(f, producer, sender, 0, send);
    } else {
        crate::soundness::lemma_spawn(e, producer, sender, 0, send);
        let f = e.spawn_thread(producer, sender, 0, send);
        crate::soundness::lemma_spawn(f, consumer, receiver, 0, recv);
    }
}

/// A pipeline before it runs: all pairs are at their first message.
proof fn lemma_pipeline_starts(seed: u64, pairs: nat, burst: nat)
    requires
        2 * pairs <= u32::MAX,
        burst <= u32::MAX,
    ensures
        ({
            let k = crate::scenario::pipeline_view(seed, pairs, burst);
            &&& k.wf()
            &&& k.clock == 0
            &&& k.trace.len() == 0
            &&& forall|pair: int|
                0 <= pair < pairs ==> #[trigger] exchanging(k, seed, pair, burst)
                    && k.threads[producer_of(seed, pair) as int].state is Ready
                    && k.threads[consumer_of(seed, pair) as int].state is Ready
                    && k.threads[producer_of(seed, pair) as int].pc == 0
        }),
    decreases pairs,
{
    let k = crate::scenario::pipeline_view(seed, pairs, burst);
    if pairs == 0 {
        crate::soundness::lemma_boot(seed, Policy::RoundRobin);
    } else {
        let last = (pairs - 1) as nat;
        let before = crate::scenario::pipeline_view(seed, last, burst);
        crate::scenario::lemma_pipeline_sizes(seed, last, burst);
        lemma_pipeline_starts(seed, last, burst);
        lemma_with_pair(before, seed, last, burst);
        lemma_new_pair(before, seed, last, burst);
        assert(k == before.with_pair(seed, last, burst));
        assert(k.wf());
        assert forall|pair: int| 0 <= pair < pairs implies #[trigger] exchanging(
            k,
            seed,
            pair,
            burst,
        ) && k.threads[producer_of(seed, pair) as int].state is Ready && k.threads[consumer_of(
            seed,
            pair,
        ) as int].state is Ready && k.threads[producer_of(seed, pair) as int].pc == 0 by {
            lemma_roles(seed, pairs, (2 * pair) as ThreadId);
            if pair < last {
                assert(exchanging(before, seed, pair, burst));
                lemma_roles(seed, last, (2 * pair) as ThreadId);
                let p = producer_of(seed, pair);
                let c = consumer_of(seed, pair);
                assert(k.threads[p as int] == before.threads[p as int]);
                assert(k.threads[c as int] == before.threads[c as int]);
                assert(k.tasks[2 * pair].caps == before.tasks[2 * pair].caps);
                assert(k.tasks[2 * pair + 1].caps == before.tasks[2 * pair + 1].caps);
                assert(k.trace == before.trace);
            }
        }
    }
}

/// A couple that was just added is at its first message.
proof fn lemma_new_pair(k: KernelView, seed: u64, pair: nat, burst: nat)
    requires
        k.tasks.len() == 2 * pair,
        k.threads.len() == 2 * pair,
        k.endpoints.len() == pair,
        k.trace.len() == 0,
        2 * pair + 2 <= u32::MAX,
    ensures
        ({
            let n = k.with_pair(seed, pair, burst);
            &&& exchanging(n, seed, pair as int, burst)
            &&& n.threads[producer_of(seed, pair as int) as int].state is Ready
            &&& n.threads[consumer_of(seed, pair as int) as int].state is Ready
            &&& n.threads[producer_of(seed, pair as int) as int].pc == 0
            &&& n.clock == k.clock
            &&& n.trace == k.trace
        }),
{
    crate::capability::law_containment_is_an_order(Rights::send(), Rights::send(), Rights::send());
    crate::capability::law_containment_is_an_order(Rights::recv(), Rights::recv(), Rights::recv());
    let couple = k.with_couple(pair);
    let n = k.with_pair(seed, pair, burst);
    assert(couple.threads == k.threads);
    assert(crossings(seed, pair as int, 0) =~= Seq::empty());
    assert(numbers(0) =~= Seq::empty());
    assert(n.tasks[2 * pair as int].caps == couple.tasks[2 * pair as int].caps);
    assert(n.tasks[(2 * pair + 1) as int].caps == couple.tasks[(2 * pair + 1) as int].caps);
}

/// In a pipeline both orders occur: of two adjacent pairs, the consumer of one and
/// the producer of the other is spawned first.
pub proof fn law_adjacent_pairs_start_in_different_orders(seed: u64, pair: nat)
    ensures
        crate::scenario::consumer_first(seed, pair) != crate::scenario::consumer_first(
            seed,
            pair + 1,
        ),
{
}

/// Whether the two threads of a pair have exchanged the first `count` messages,
/// each once, labelled 0, 1, 2 and so on, and have done nothing else, and no
/// other message crossed at their endpoint.
pub open spec fn in_order(k: KernelView, seed: u64, pair: int, count: nat) -> bool {
    &&& crate::history::deeds(k.trace, producer_of(seed, pair)) == crossings(seed, pair, count)
    &&& crate::history::deeds(k.trace, consumer_of(seed, pair)) == crossings(seed, pair, count)
    &&& labels(k.trace, pair as EndpointId) == numbers(count)
}

/// In a pipeline every message is delivered exactly once. Whatever the seed, the
/// number of pairs and the length of the burst, a run with enough ops records
/// exactly `pairs * burst` rendezvous, no denial and no transfer, the messages of
/// each pair arrive in the order of their labels, every thread finishes, and no
/// op is wasted. (The trace starts empty, so the report of the run says so.) The
/// run stays within the limits of the machine however many ops it is given.
pub proof fn law_a_pipeline_delivers_everything_exactly_once(
    seed: u64,
    pairs: nat,
    burst: nat,
    max_ops: nat,
)
    requires
        2 * pairs <= u32::MAX,
        burst <= u32::MAX,
    ensures
        ({
            let k = crate::scenario::pipeline_view(seed, pairs, burst);
            let n = k.run(max_ops);
            &&& k.trace.len() == 0
            &&& k.run_safe(max_ops)
            &&& crate::state::tally(n.trace, |e: EventView| e is Denied) == 0
            &&& crate::state::tally(n.trace, |e: EventView| e is CapTransfer) == 0
            &&& forall|pair: int|
                0 <= pair < pairs ==> #[trigger] in_order(n, seed, pair, n.threads[producer_of(
                    seed,
                    pair,
                ) as int].pc)
            &&& max_ops >= 2 * pairs * (burst + 1) ==> {
                &&& crate::state::tally(n.trace, |e: EventView| e is Rendezvous) == pairs * burst
                &&& forall|i: int|
                    0 <= i < n.threads.len() ==> (#[trigger] n.threads[i]).state is Exited
                &&& n.all_done()
                &&& forall|pair: int|
                    0 <= pair < pairs ==> #[trigger] in_order(n, seed, pair, burst)
                &&& k.ops_run(max_ops) == 2 * pairs * (burst + 1)
            }
        }),
{
    let k = crate::scenario::pipeline_view(seed, pairs, burst);
    let n = k.run(max_ops);
    crate::scenario::lemma_pipeline_sizes(seed, pairs, burst);
    lemma_pipeline_starts(seed, pairs, burst);
    assert forall|pair: int| 0 <= pair < pairs implies #[trigger] turns_left(k, seed, burst)(pair)
        == 2 * (burst + 1) by {
        assert(exchanging(k, seed, pair, burst));
    }
    lemma_sum_constant(turns_left(k, seed, burst), pairs, (2 * (burst + 1)) as int);
    assert(pairs * (2 * (burst + 1)) == 2 * pairs * (burst + 1)) by (nonlinear_arith);
    assert forall|pair: int| 0 <= pair < pairs implies #[trigger] messages(k, seed)(pair) == 0 by {
        assert(exchanging(k, seed, pair, burst));
    }
    lemma_sum_constant(messages(k, seed), pairs, 0);
    assert(flowing(k, seed, pairs, burst));
    lemma_flow_run(k, seed, pairs, burst, max_ops);
    assert forall|pair: int| 0 <= pair < pairs implies #[trigger] in_order(
        n,
        seed,
        pair,
        n.threads[producer_of(seed, pair) as int].pc,
    ) by {
        assert(exchanging(n, seed, pair, burst));
    }
    if max_ops >= 2 * pairs * (burst + 1) {
        assert forall|pair: int| 0 <= pair < pairs implies #[trigger] messages(n, seed)(pair)
            == burst by {
            lemma_at_rest(n, seed, pairs, burst, pair);
        }
        assert forall|pair: int| 0 <= pair < pairs implies #[trigger] in_order(
            n,
            seed,
            pair,
            burst,
        ) by {
            assert(exchanging(n, seed, pair, burst));
            lemma_at_rest(n, seed, pairs, burst, pair);
        }
        lemma_sum_constant(messages(n, seed), pairs, burst as int);
        assert forall|i: int| 0 <= i < n.threads.len() implies (
        #[trigger] n.threads[i]).state is Exited by {
            lemma_roles(seed, pairs, i as ThreadId);
            lemma_at_rest(n, seed, pairs, burst, i / 2);
        }
    }
}

/// The consumer of a pair is spawned first if and only if the number of the pair
/// and the seed are both even or both odd.
pub proof fn law_parity_decides_who_is_spawned_first(seed: u64, pair: nat)
    ensures
        crate::scenario::consumer_first(seed, pair) <==> pair % 2 == seed % 2,
{
}

/// A pair of a pipeline is built as it should be: two tasks that bear its number,
/// of which the one holds nothing but the right to send on the endpoint of the pair
/// and the other nothing but the right to receive on it. The producer sends the
/// numbers from 0 on, each with its last byte as payload, and the consumer receives
/// as many; then both exit.
pub proof fn law_a_pipeline_is_built_of_pairs(
    seed: u64,
    pairs: nat,
    burst: nat,
    pair: int,
    slot: u32,
    i: int,
)
    requires
        2 * pairs <= u32::MAX,
        burst <= u32::MAX,
        0 <= pair < pairs,
    ensures
        ({
            let k = crate::scenario::pipeline_view(seed, pairs, burst);
            let (p, c) = (
                k.threads[producer_of(seed, pair) as int],
                k.threads[consumer_of(seed, pair) as int],
            );
            let (from, to) = ((2 * pair) as TaskId, (2 * pair + 1) as TaskId);
            let ep = ObjectRef::Endpoint(pair as EndpointId);
            &&& k.tasks.len() == 2 * pairs
            &&& k.threads.len() == 2 * pairs
            &&& k.endpoints.len() == pairs
            &&& k.regions.len() == 0
            &&& k.sched.policy is RoundRobin
            &&& k.tasks[from as int].name == "producer-"@ + crate::text::decimal(pair as nat)
            &&& k.tasks[to as int].name == "consumer-"@ + crate::text::decimal(pair as nat)
            &&& p.task == from
            &&& c.task == to
            &&& p.name == k.tasks[from as int].name
            &&& c.name == k.tasks[to as int].name
            &&& p.priority == c.priority
            &&& k.held(from, 0) is Some
            &&& k.held(from, 0)->0.cap == (Capability { object: ep, rights: Rights::send() })
            &&& k.held(to, 0) is Some
            &&& k.held(to, 0)->0.cap == (Capability { object: ep, rights: Rights::recv() })
            &&& slot != 0 ==> k.held(from, slot) is None && k.held(to, slot) is None
            &&& p.program.len() == burst + 1
            &&& c.program.len() == burst + 1
            &&& p.program.last() is Exit
            &&& c.program.last() is Exit
            &&& 0 <= i < burst ==> c.program[i] == (OpView::Recv { ep: 0 })
            &&& 0 <= i < burst ==> {
                &&& p.program[i] is Send
                &&& p.program[i]->Send_ep == 0
                &&& p.program[i]->Send_msg.label == i
                &&& p.program[i]->Send_msg.bytes.len() == 1
                &&& p.program[i]->Send_msg.bytes[0] == i % 256
                &&& p.program[i]->Send_msg.transfer is None
            }
        }),
    decreases pairs,
{
    let k = crate::scenario::pipeline_view(seed, pairs, burst);
    let last = (pairs - 1) as nat;
    let before = crate::scenario::pipeline_view(seed, last, burst);
    crate::scenario::lemma_pipeline_sizes(seed, last, burst);
    crate::scenario::lemma_pipeline_sizes(seed, pairs, burst);
    lemma_roles(seed, pairs, (2 * pair) as ThreadId);
    if 0 <= i < burst {
        assert((i as u32) as u8 == i % 256) by {
            let x = i as u32;
            assert(x as u8 == x % 256) by (bit_vector);
        }
    }
    if pair < last {
        law_a_pipeline_is_built_of_pairs(seed, last, burst, pair, slot, i);
        lemma_roles(seed, last, (2 * pair) as ThreadId);
        let (p, c) = (producer_of(seed, pair), consumer_of(seed, pair));
        assert(k.threads[p as int] == before.threads[p as int]);
        assert(k.threads[c as int] == before.threads[c as int]);
        assert(k.tasks[2 * pair].caps == before.tasks[2 * pair].caps);
        assert(k.tasks[2 * pair + 1].caps == before.tasks[2 * pair + 1].caps);
        assert(k.tasks[2 * pair].name == before.tasks[2 * pair].name);
        assert(k.tasks[2 * pair + 1].name == before.tasks[2 * pair + 1].name);
    } else {
        let couple = before.with_couple(last);
        assert(couple.threads == before.threads);
        assert(k.tasks[2 * pair].caps == couple.tasks[2 * pair].caps);
        assert(k.tasks[2 * pair + 1].caps == couple.tasks[2 * pair + 1].caps);
    }
    if last == 0 {
        assert(before.regions.len() == 0);
    } else {
        law_a_pipeline_is_built_of_pairs(seed, last, burst, 0, slot, i);
    }
}

} // verus!
