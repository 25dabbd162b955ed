//! The laws of the stress scenario.
//!
//! Each couple of the scenario exchanges its messages over an endpoint and a
//! region of its own. Whatever the others do, its two threads do exactly what
//! their programs say, in order: every payload is published, announced and read
//! back, and nothing is denied. The rogue gets nowhere.

use crate::capability::{Capability, ObjectRef, Rights};
use crate::error::KernelError;
use crate::ipc::MsgView;
use crate::scheduler::Policy;
use crate::state::KernelView;
use crate::thread::{OpView, PendingView, ThreadState, ThreadView};
use crate::trace::EventView;
use crate::{EndpointId, RegionId, TaskId, ThreadId};
use vstd::prelude::*;

verus! {

/// The generator state that a couple draws its programs from.
pub open spec fn rng_of(seed: u64, pair: int, burst: nat) -> u64 {
    crate::scenario::stressed_pairs(seed, pair as nat, burst).rng
}

/// The generator state that the rogue draws its program from.
pub open spec fn rogue_rng(seed: u64, pairs: nat, burst: nat) -> u64 {
    crate::scenario::stressed_pairs(seed, pairs, burst).rng
}

/// Message `i` of a couple crosses.
pub open spec fn crossing(rng: u64, pair: int, i: nat) -> EventView {
    EventView::Rendezvous {
        sender: (2 * pair) as ThreadId,
        receiver: (2 * pair + 1) as ThreadId,
        endpoint: pair as EndpointId,
        label: crate::scenario::label(rng, i),
        bytes: 1,
    }
}

/// What becomes of op `m` of the producer of a couple.
pub open spec fn producer_deed(rng: u64, pair: int, m: int) -> EventView {
    let thread = (2 * pair) as ThreadId;
    let i = (m / 3) as nat;
    let value = crate::scenario::payload(rng, i);
    if m % 3 == 0 {
        EventView::MemWrite { thread, region: pair as RegionId, offset: (i % 8) as usize, value }
    } else if m % 3 == 1 {
        EventView::Compute { thread, cycles: (1 + value % 3) as u32 }
    } else {
        crossing(rng, pair, i)
    }
}

/// What becomes of op `m` of the consumer of a couple.
pub open spec fn consumer_deed(rng: u64, pair: int, m: int) -> EventView {
    let i = (m / 2) as nat;
    if m % 2 == 0 {
        crossing(rng, pair, i)
    } else {
        EventView::MemRead {
            thread: (2 * pair + 1) as ThreadId,
            region: pair as RegionId,
            offset: (i % 8) as usize,
            value: crate::scenario::payload(rng, i),
        }
    }
}

/// What becomes of op `m` of the rogue.
pub open spec fn rogue_deed(rng: u64, thread: ThreadId, m: int) -> EventView {
    let slot = crate::scenario::guess(rng, (m / 2) as nat);
    EventView::Denied {
        thread,
        syscall: if m % 2 == 0 {
            "read"@
        } else {
            "send"@
        },
        reason: (KernelError::NoSuchCapability { slot }).text(),
    }
}

/// What becomes of the first ops of the producer of a couple.
pub open spec fn producer_deeds(rng: u64, pair: int, count: nat) -> Seq<EventView> {
    Seq::new(count, |m: int| producer_deed(rng, pair, m))
}

/// What becomes of the first ops of the consumer of a couple.
pub open spec fn consumer_deeds(rng: u64, pair: int, count: nat) -> Seq<EventView> {
    Seq::new(count, |m: int| consumer_deed(rng, pair, m))
}

/// What becomes of the first ops of the rogue.
pub open spec fn rogue_deeds(rng: u64, thread: ThreadId, count: nat) -> Seq<EventView> {
    Seq::new(count, |m: int| rogue_deed(rng, thread, m))
}

/// Whether the region of a couple holds what is published and not yet read, for
/// how far its producer and its consumer are.
#[verifier::opaque]
pub open spec fn stocked(data: Seq<u8>, rng: u64, producer: nat, consumer: nat) -> bool {
    &&& producer % 3 != 0 ==> data[(producer / 3) as int % 8] == crate::scenario::payload(
        rng,
        producer / 3,
    )
    &&& consumer % 2 != 0 ==> data[(consumer / 2) as int % 8] == crate::scenario::payload(
        rng,
        consumer / 2,
    )
}

/// Whether the deeds of a couple on record are what its programs say, for how far
/// its producer and its consumer are.
#[verifier::opaque]
pub open spec fn on_record(
    trace: Seq<EventView>,
    rng: u64,
    pair: int,
    producer: nat,
    consumer: nat,
) -> bool {
    &&& crate::history::deeds(trace, (2 * pair) as ThreadId) == producer_deeds(
        rng,
        pair,
        producer,
    )
    &&& crate::history::deeds(trace, (2 * pair + 1) as ThreadId) == consumer_deeds(
        rng,
        pair,
        consumer,
    )
}

/// What an event adds to the record of a couple.
proof fn lemma_on_record(
    k: KernelView,
    n: KernelView,
    rng: u64,
    pair: int,
    producer: nat,
    consumer: nat,
    event: EventView,
)
    requires
        n.trace == k.trace.push(k.dispatch_event()).push(event),
        on_record(k.trace, rng, pair, producer, consumer),
    ensures
        ({
            let p = crate::history::concerns(event, (2 * pair) as ThreadId);
            let c = crate::history::concerns(event, (2 * pair + 1) as ThreadId);
            let here = event == producer_deed(rng, pair, producer as int);
            let there = event == consumer_deed(rng, pair, consumer as int);
            &&& !p && !c ==> on_record(n.trace, rng, pair, producer, consumer)
            &&& p && here && !c ==> on_record(n.trace, rng, pair, producer + 1, consumer)
            &&& c && there && !p ==> on_record(n.trace, rng, pair, producer, consumer + 1)
            &&& p && here && c && there ==> on_record(
                n.trace,
                rng,
                pair,
                producer + 1,
                consumer + 1,
            )
        }),
{
    reveal(on_record);
    lemma_turn_deeds(k, n, event, (2 * pair) as ThreadId);
    lemma_turn_deeds(k, n, event, (2 * pair + 1) as ThreadId);
    assert(producer_deeds(rng, pair, producer + 1) =~= producer_deeds(rng, pair, producer).push(
        producer_deed(rng, pair, producer as int),
    ));
    assert(consumer_deeds(rng, pair, consumer + 1) =~= consumer_deeds(rng, pair, consumer).push(
        consumer_deed(rng, pair, consumer as int),
    ));
}

/// Publishing the next payload keeps what is not yet read.
proof fn lemma_stocked_write(data: Seq<u8>, rng: u64, producer: nat, consumer: nat)
    requires
        data.len() == 8,
        stocked(data, rng, producer, consumer),
        producer % 3 == 0,
        producer / 3 == (consumer + 1) / 2,
    ensures
        stocked(
            data.update(
                (producer / 3) as int % 8,
                crate::scenario::payload(rng, producer / 3),
            ),
            rng,
            producer + 1,
            consumer,
        ),
{
    reveal(stocked);
    assert((producer + 1) / 3 == producer / 3);
    if consumer % 2 != 0 {
        assert((consumer / 2) as int % 8 != (producer / 3) as int % 8);
    }
}

/// What the next steps of a couple other than a write leave in order.
proof fn lemma_stocked_step(data: Seq<u8>, rng: u64, producer: nat, consumer: nat)
    requires
        stocked(data, rng, producer, consumer),
        producer / 3 == (consumer + 1) / 2,
    ensures
        producer % 3 == 1 ==> stocked(data, rng, producer + 1, consumer),
        consumer % 2 == 1 ==> stocked(data, rng, producer, consumer + 1),
        producer % 3 == 2 && consumer % 2 == 0 ==> stocked(
            data,
            rng,
            producer + 1,
            consumer + 1,
        ),
{
    reveal(stocked);
    if producer % 3 == 1 {
        assert((producer + 1) / 3 == producer / 3);
    }
    if producer % 3 == 2 && consumer % 2 == 0 {
        assert((consumer + 1) / 2 == producer / 3);
    }
}

/// A couple in the middle of its exchange: the consumer has received what the
/// producer has sent, what is announced and not yet read is in the region, at
/// most one of them waits for the other, and both did what their programs say.
pub open spec fn couple(k: KernelView, seed: u64, pair: int, burst: nat) -> bool {
    let rng = rng_of(seed, pair, burst);
    let p = k.threads[2 * pair];
    let c = k.threads[2 * pair + 1];
    let ep = pair as EndpointId;
    let data = k.regions[pair].data;
    &&& p.task == 2 * pair
    &&& c.task == 2 * pair + 1
    &&& p.program == crate::scenario::producer_program(rng, burst)
    &&& c.program == crate::scenario::consumer_program(burst)
    &&& p.pc <= 3 * burst
    &&& c.pc <= 2 * burst
    &&& p.pc / 3 == (c.pc + 1) / 2
    &&& p.cycles <= 3 * p.pc
    &&& k.holds(p.task, 0, ObjectRef::Endpoint(ep), Rights::send())
    &&& k.holds(p.task, 1, ObjectRef::Region(ep), Rights::write())
    &&& k.holds(c.task, 0, ObjectRef::Endpoint(ep), Rights::recv())
    &&& k.holds(c.task, 1, ObjectRef::Region(ep), Rights::read())
    &&& p.state is Ready || p.state is Exited || p.state == ThreadState::BlockedSend(ep)
    &&& c.state is Ready || c.state is Exited || c.state == ThreadState::BlockedRecv(ep)
    &&& p.state is Exited ==> p.pc == 3 * burst
    &&& c.state is Exited ==> c.pc == 2 * burst
    &&& p.state is BlockedSend ==> {
        &&& p.pc % 3 == 2
        &&& p.pending == Some(
            PendingView {
                label: crate::scenario::label(rng, p.pc / 3),
                bytes: seq![crate::scenario::payload(rng, p.pc / 3)],
                cap: None,
            },
        )
        &&& !(c.state is BlockedRecv)
    }
    &&& c.state is BlockedRecv ==> c.pc % 2 == 0 && c.pc < 2 * burst
    &&& data.len() == 8
    &&& stocked(data, rng, p.pc, c.pc)
    &&& on_record(k.trace, rng, pair, p.pc, c.pc)
}

/// The rogue in the middle of its attempts: it holds nothing, and all it did was
/// denied.
pub open spec fn rogue(k: KernelView, seed: u64, pairs: nat, burst: nat) -> bool {
    let rng = rogue_rng(seed, pairs, burst);
    let tid = (2 * pairs) as ThreadId;
    let r = k.threads[tid as int];
    &&& r.task == 2 * pairs
    &&& r.program == crate::scenario::rogue_program(rng, burst)
    &&& r.pc <= 2 * burst
    &&& r.state is Ready || r.state is Exited
    &&& r.state is Exited ==> r.pc == 2 * burst
    &&& forall|slot: u32| (#[trigger] k.held(r.task, slot)) is None
    &&& crate::history::deeds(k.trace, tid) == rogue_deeds(rng, tid, r.pc)
}

/// The thread that an event on record is the deed of. A message is the deed of
/// its sender.
pub open spec fn doer(event: EventView) -> Option<ThreadId> {
    match event {
        EventView::Compute { thread, .. } => Some(thread),
        EventView::MemRead { thread, .. } => Some(thread),
        EventView::MemWrite { thread, .. } => Some(thread),
        EventView::Denied { thread, .. } => Some(thread),
        EventView::Rendezvous { sender, .. } => Some(sender),
        _ => None,
    }
}

/// Whether all deeds on record are those of the first `count` threads.
pub open spec fn done_by_the_first(trace: Seq<EventView>, count: nat) -> bool {
    forall|i: int|
        0 <= i < trace.len() && doer(#[trigger] trace[i]) is Some ==> doer(trace[i])->0 < count
}

/// The objects of the stress scenario: two tasks and threads for each couple and
/// one for the rogue, and an endpoint and a region for each couple.
pub open spec fn sized(k: KernelView, pairs: nat, burst: nat) -> bool {
    &&& k.tasks.len() == 2 * pairs + 1
    &&& k.threads.len() == 2 * pairs + 1
    &&& k.endpoints.len() == pairs
    &&& k.regions.len() == pairs
    &&& 2 * pairs < u32::MAX
    &&& burst <= u32::MAX
}

/// The invariant of a running stress scenario.
pub open spec fn stressed(k: KernelView, seed: u64, pairs: nat, burst: nat) -> bool {
    &&& k.sound()
    &&& sized(k, pairs, burst)
    &&& forall|pair: int| 0 <= pair < pairs ==> #[trigger] couple(k, seed, pair, burst)
    &&& rogue(k, seed, pairs, burst)
    &&& crate::state::tally(k.trace, |e: EventView| e is CapTransfer) == 0
    &&& done_by_the_first(k.trace, 2 * pairs + 1)
}

// -- one turn -----------------------------------------------------------------

/// What a turn of a couple does: it touches nothing of the others.
pub open spec fn turn(k: KernelView, n: KernelView, pair: int, event: EventView) -> bool {
    &&& n.tasks == k.tasks
    &&& n.threads.len() == k.threads.len()
    &&& n.endpoints.len() == k.endpoints.len()
    &&& n.regions.len() == k.regions.len()
    &&& n.trace == k.trace.push(k.dispatch_event()).push(event)
    &&& forall|u: int|
        0 <= u < k.threads.len() && u / 2 != pair ==> (#[trigger] n.threads[u]) == k.threads[u]
    &&& forall|r: int|
        0 <= r < k.regions.len() && r != pair ==> (#[trigger] n.regions[r]) == k.regions[r]
    &&& !(event is CapTransfer)
    &&& doer(event) is Some ==> doer(event)->0 < k.threads.len()
    &&& forall|u: ThreadId| #[trigger]
        crate::history::concerns(event, u) ==> u as int / 2 == pair
}

/// What a turn adds to the deeds of a thread.
proof fn lemma_turn_deeds(k: KernelView, n: KernelView, event: EventView, u: ThreadId)
    requires
        n.trace == k.trace.push(k.dispatch_event()).push(event),
    ensures
        crate::history::deeds(n.trace, u) == if crate::history::concerns(event, u) {
            crate::history::deeds(k.trace, u).push(event)
        } else {
            crate::history::deeds(k.trace, u)
        },
{
    crate::history::lemma_deeds_push(k.trace, k.dispatch_event(), u);
    crate::history::lemma_deeds_push(k.trace.push(k.dispatch_event()), event, u);
}

/// The next thread is ready.
proof fn lemma_next_is_ready(k: KernelView)
    requires
        k.wf(),
        k.sched.ready.len() > 0,
    ensures
        k.has_thread(k.next_thread()),
        k.threads[k.next_thread() as int].state is Ready,
        k.threads[k.next_thread() as int].pending is None,
{
    reveal(KernelView::wf);
    crate::soundness::lemma_take_up(k);
    assert(k.thread_wf(k.next_thread(), None));
}

/// Whether the threads of a couple are ready, finished, or parked at the endpoint
/// of the couple.
pub open spec fn settled(k: KernelView, pair: int) -> bool {
    let (p, c) = (k.threads[2 * pair].state, k.threads[2 * pair + 1].state);
    let ep = pair as EndpointId;
    &&& p is Ready || p is Exited || p == ThreadState::BlockedSend(ep)
    &&& c is Ready || c is Exited || c == ThreadState::BlockedRecv(ep)
}

/// The threads of a running stress scenario are settled.
proof fn lemma_settled(k: KernelView, seed: u64, pairs: nat, burst: nat)
    requires
        stressed(k, seed, pairs, burst),
    ensures
        forall|pair: int| 0 <= pair < pairs ==> #[trigger] settled(k, pair),
{
    assert forall|pair: int| 0 <= pair < pairs implies #[trigger] settled(k, pair) by {
        assert(couple(k, seed, pair, burst));
    }
}

/// Whoever waits at the endpoint of a couple is the thread of that couple.
proof fn lemma_who_waits(k: KernelView, pairs: nat, pair: int)
    requires
        k.wf(),
        k.threads.len() == 2 * pairs + 1,
        k.endpoints.len() == pairs,
        2 * pairs < u32::MAX,
        forall|other: int| 0 <= other < pairs ==> #[trigger] settled(k, other),
        k.threads[2 * pairs as int].state is Ready || k.threads[2 * pairs as int].state is Exited,
        0 <= pair < pairs,
    ensures
        ({
            let p = (2 * pair) as ThreadId;
            let c = (2 * pair + 1) as ThreadId;
            let endpoint = k.endpoints[pair];
            &&& k.threads[p as int].state is BlockedSend ==> endpoint.senders.len() > 0
                && endpoint.senders[0] == p
            &&& !(k.threads[p as int].state is BlockedSend) ==> endpoint.senders.len() == 0
            &&& k.threads[c as int].state is BlockedRecv ==> endpoint.receivers.len() > 0
                && endpoint.receivers[0] == c
            &&& !(k.threads[c as int].state is BlockedRecv) ==> endpoint.receivers.len() == 0
        }),
{
    reveal(KernelView::wf);
    let ep = pair as EndpointId;
    let endpoint = k.endpoints[pair];
    assert(settled(k, pair));
    assert(k.endpoint_wf(ep));
    assert(k.thread_wf((2 * pair) as ThreadId, None));
    assert(k.thread_wf((2 * pair + 1) as ThreadId, None));
    if endpoint.senders.len() > 0 {
        let first = endpoint.senders[0];
        assert(k.threads[first as int].state == ThreadState::BlockedSend(ep));
        assert(first != 2 * pairs);
        assert(settled(k, first as int / 2));
    }
    if endpoint.receivers.len() > 0 {
        let first = endpoint.receivers[0];
        assert(k.threads[first as int].state == ThreadState::BlockedRecv(ep));
        assert(first != 2 * pairs);
        assert(settled(k, first as int / 2));
    }
}

/// A thread after a turn in which it computed or finished.
pub open spec fn after_plain_turn(thread: ThreadView) -> ThreadView {
    match thread.current_op()->0 {
        OpView::Compute(cycles) => ThreadView {
            dispatches: thread.dispatches + 1,
            ..thread.computed(cycles)
        },
        _ => ThreadView {
            dispatches: thread.dispatches + 1,
            ..thread.in_state(ThreadState::Exited)
        },
    }
}

/// What a turn does that touches one thread only.
proof fn lemma_plain_tick(k: KernelView) -> (n: KernelView)
    requires
        k.wf(),
        k.sched.ready.len() > 0,
        k.clock < u64::MAX,
        k.threads[k.next_thread() as int].current_op() is Some,
        ({
            let thread = k.threads[k.next_thread() as int];
            match thread.current_op()->0 {
                OpView::Exit => true,
                OpView::Compute(cycles) => thread.cycles + cycles <= u64::MAX,
                _ => false,
            }
        }),
    ensures
        n == k.tick(),
        k.tick_safe(),
        n.tasks == k.tasks,
        n.endpoints == k.endpoints,
        n.regions == k.regions,
        ({
            let tid = k.next_thread();
            let thread = k.threads[tid as int];
            let ran = after_plain_turn(thread);
            &&& n.threads == k.threads.update(tid as int, ran)
            &&& n.trace == k.trace.push(k.dispatch_event()).push(
                match thread.current_op()->0 {
                    OpView::Compute(cycles) => EventView::Compute { thread: tid, cycles },
                    _ => EventView::Exit { thread: tid },
                },
            )
        }),
{
    lemma_next_is_ready(k);
    let n = k.tick();
    let tid = k.next_thread();
    assert(n.threads =~= k.threads.update(
        tid as int,
        after_plain_turn(k.threads[tid as int]),
    ));
    n
}

/// The turn of a thread that has nothing left but to finish.
proof fn lemma_exit_turn(k: KernelView, seed: u64, pairs: nat, burst: nat) -> (event: EventView)
    requires
        stressed(k, seed, pairs, burst),
        k.sched.ready.len() > 0,
        k.clock < u64::MAX,
        k.threads[k.next_thread() as int].current_op() == Some(OpView::Exit),
        k.next_thread() % 2 == 0 && k.next_thread() < 2 * pairs
            ==> k.threads[k.next_thread() as int].pc == 3 * burst,
        k.next_thread() % 2 == 1 || k.next_thread() == 2 * pairs
            ==> k.threads[k.next_thread() as int].pc == 2 * burst,
    ensures
        k.tick_safe(),
        turn(k, k.tick(), k.next_thread() as int / 2, event),
        k.next_thread() < 2 * pairs ==> couple(k.tick(), seed, k.next_thread() as int / 2, burst),
        k.next_thread() == 2 * pairs ==> rogue(k.tick(), seed, pairs, burst),
{
    lemma_next_is_ready(k);
    let n = lemma_plain_tick(k);
    let event = EventView::Exit { thread: k.next_thread() };
    if k.next_thread() < 2 * pairs {
        assert(couple(k, seed, k.next_thread() as int / 2, burst));
    }
    lemma_after_exit(k, n, seed, pairs, burst, k.next_thread(), event);
    event
}

/// A couple, or the rogue, after one of its threads finished.
proof fn lemma_after_exit(
    k: KernelView,
    n: KernelView,
    seed: u64,
    pairs: nat,
    burst: nat,
    tid: ThreadId,
    event: EventView,
)
    requires
        sized(k, pairs, burst),
        tid < 2 * pairs ==> couple(k, seed, tid as int / 2, burst),
        tid == 2 * pairs ==> rogue(k, seed, pairs, burst),
        event == (EventView::Exit { thread: tid }),
        tid < k.threads.len(),
        k.threads[tid as int].state is Ready,
        k.threads[tid as int].current_op() == Some(OpView::Exit),
        tid % 2 == 0 && tid < 2 * pairs ==> k.threads[tid as int].pc == 3 * burst,
        tid % 2 == 1 || tid == 2 * pairs ==> k.threads[tid as int].pc == 2 * burst,
        n.tasks == k.tasks,
        n.endpoints == k.endpoints,
        n.regions == k.regions,
        n.threads == k.threads.update(tid as int, after_plain_turn(k.threads[tid as int])),
        n.trace == k.trace.push(k.dispatch_event()).push(event),
    ensures
        turn(k, n, tid as int / 2, event),
        tid < 2 * pairs ==> couple(n, seed, tid as int / 2, burst),
        tid == 2 * pairs ==> rogue(n, seed, pairs, burst),
{
    let pair = tid as int / 2;
    if tid < 2 * pairs {
        let rng = rng_of(seed, pair, burst);
        lemma_on_record(
            k,
            n,
            rng,
            pair,
            k.threads[2 * pair].pc,
            k.threads[2 * pair + 1].pc,
            event,
        );
        assert(n.threads[2 * pair].pc == k.threads[2 * pair].pc);
        assert(n.threads[2 * pair + 1].pc == k.threads[2 * pair + 1].pc);
    } else {
        lemma_turn_deeds(k, n, event, (2 * pairs) as ThreadId);
        assert forall|s: u32| (#[trigger] n.held((2 * pairs) as u32, s)) is None by {
            assert(k.held((2 * pairs) as u32, s) is None);
        }
    }
}

/// The turn of a producer that publishes a payload.
proof fn lemma_write_turn(k: KernelView, seed: u64, pairs: nat, burst: nat) -> (event: EventView)
    requires
        stressed(k, seed, pairs, burst),
        k.sched.ready.len() > 0,
        k.clock < u64::MAX,
        k.next_thread() < 2 * pairs,
        k.next_thread() % 2 == 0,
        k.threads[k.next_thread() as int].pc < 3 * burst,
        k.threads[k.next_thread() as int].pc % 3 == 0,
    ensures
        k.tick_safe(),
        turn(k, k.tick(), k.next_thread() as int / 2, event),
        couple(k.tick(), seed, k.next_thread() as int / 2, burst),
{
    let tid = k.next_thread();
    let pair = tid as int / 2;
    let rng = rng_of(seed, pair, burst);
    lemma_next_is_ready(k);
    let i = k.threads[tid as int].pc / 3;
    let value = crate::scenario::payload(rng, i);
    let offset = (i % 8) as usize;
    assert(couple(k, seed, pair, burst));
    assert(k.threads[tid as int].current_op() == Some(OpView::Write { mem: 1, offset, value }));
    let n = lemma_write_tick(k, pair as RegionId, offset, value);
    let event = EventView::MemWrite { thread: tid, region: pair as RegionId, offset, value };
    lemma_after_write(k, n, seed, pairs, burst, tid, event);
    event
}

/// What a turn does in which a thread writes to a region it may write to.
proof fn lemma_write_tick(k: KernelView, region: RegionId, offset: usize, value: u8) -> (n:
    KernelView)
    requires
        k.wf(),
        k.sched.ready.len() > 0,
        k.clock < u64::MAX,
        k.threads[k.next_thread() as int].current_op() == Some(
            OpView::Write { mem: 1, offset, value },
        ),
        k.holds(
            k.threads[k.next_thread() as int].task,
            1,
            ObjectRef::Region(region),
            Rights::write(),
        ),
        k.has_region(region),
        offset < k.regions[region as int].data.len(),
    ensures
        n == k.tick(),
        k.tick_safe(),
        n.tasks == k.tasks,
        n.endpoints == k.endpoints,
        n.regions.len() == k.regions.len(),
        forall|r: int|
            0 <= r < k.regions.len() && r != region ==> (#[trigger] n.regions[r]) == k.regions[r],
        n.regions[region as int].data == k.regions[region as int].data.update(
            offset as int,
            value,
        ),
        ({
            let tid = k.next_thread();
            let thread = k.threads[tid as int];
            &&& n.threads == k.threads.update(
                tid as int,
                ThreadView { dispatches: thread.dispatches + 1, ..thread.advanced() },
            )
            &&& n.trace == k.trace.push(k.dispatch_event()).push(
                EventView::MemWrite { thread: tid, region, offset, value },
            )
        }),
{
    lemma_next_is_ready(k);
    let n = k.tick();
    let up = k.take_up();
    let tid = k.next_thread();
    let thread = k.threads[tid as int];
    assert(up.resolve(up.threads[tid as int].task, 1, "region", Rights::write()) == Ok::<
        ObjectRef,
        KernelError,
    >(ObjectRef::Region(region)));
    assert(up.regions == k.regions);
    assert(n.threads =~= k.threads.update(
        tid as int,
        ThreadView { dispatches: thread.dispatches + 1, ..thread.advanced() },
    ));
    n
}

/// A couple after its producer published a payload.
proof fn lemma_after_write(
    k: KernelView,
    n: KernelView,
    seed: u64,
    pairs: nat,
    burst: nat,
    tid: ThreadId,
    event: EventView,
)
    requires
        sized(k, pairs, burst),
        couple(k, seed, tid as int / 2, burst),
        tid < 2 * pairs,
        tid % 2 == 0,
        k.threads[tid as int].state is Ready,
        k.threads[tid as int].pc < 3 * burst,
        k.threads[tid as int].pc % 3 == 0,
        event == producer_deed(
            rng_of(seed, tid as int / 2, burst),
            tid as int / 2,
            k.threads[tid as int].pc as int,
        ),
        n.tasks == k.tasks,
        n.endpoints == k.endpoints,
        n.regions.len() == k.regions.len(),
        forall|r: int|
            0 <= r < k.regions.len() && r != tid as int / 2 ==> (#[trigger] n.regions[r])
                == k.regions[r],
        n.regions[tid as int / 2].data == k.regions[tid as int / 2].data.update(
            (k.threads[tid as int].pc / 3) as int % 8,
            crate::scenario::payload(
                rng_of(seed, tid as int / 2, burst),
                k.threads[tid as int].pc / 3,
            ),
        ),
        n.threads == k.threads.update(
            tid as int,
            ThreadView {
                dispatches: k.threads[tid as int].dispatches + 1,
                ..k.threads[tid as int].advanced()
            },
        ),
        n.trace == k.trace.push(k.dispatch_event()).push(event),
    ensures
        turn(k, n, tid as int / 2, event),
        couple(n, seed, tid as int / 2, burst),
{
    let pair = tid as int / 2;
    let rng = rng_of(seed, pair, burst);
    let pc = k.threads[tid as int].pc;
    lemma_on_record(k, n, rng, pair, pc, k.threads[tid + 1].pc, event);
    assert(n.threads[tid as int].pc == pc + 1);
    assert(n.threads[tid + 1] == k.threads[tid + 1]);
    lemma_stocked_write(k.regions[pair].data, rng, pc, k.threads[tid + 1].pc);
}

/// The turn of a producer that works.
proof fn lemma_compute_turn(k: KernelView, seed: u64, pairs: nat, burst: nat) -> (event: EventView)
    requires
        stressed(k, seed, pairs, burst),
        k.sched.ready.len() > 0,
        k.clock < u64::MAX,
        k.next_thread() < 2 * pairs,
        k.next_thread() % 2 == 0,
        k.threads[k.next_thread() as int].pc < 3 * burst,
        k.threads[k.next_thread() as int].pc % 3 == 1,
    ensures
        k.tick_safe(),
        turn(k, k.tick(), k.next_thread() as int / 2, event),
        couple(k.tick(), seed, k.next_thread() as int / 2, burst),
{
    let tid = k.next_thread();
    let pair = tid as int / 2;
    let rng = rng_of(seed, pair, burst);
    lemma_next_is_ready(k);
    let pc = k.threads[tid as int].pc;
    let cycles = (1 + crate::scenario::payload(rng, pc / 3) % 3) as u32;
    assert(couple(k, seed, pair, burst));
    assert(k.threads[tid as int].current_op() == Some(OpView::Compute(cycles)));
    let n = lemma_plain_tick(k);
    let event = EventView::Compute { thread: tid, cycles };
    lemma_after_compute(k, n, seed, pairs, burst, tid, event);
    event
}

/// A couple after its producer worked.
proof fn lemma_after_compute(
    k: KernelView,
    n: KernelView,
    seed: u64,
    pairs: nat,
    burst: nat,
    tid: ThreadId,
    event: EventView,
)
    requires
        sized(k, pairs, burst),
        couple(k, seed, tid as int / 2, burst),
        tid < 2 * pairs,
        tid % 2 == 0,
        k.threads[tid as int].state is Ready,
        k.threads[tid as int].pc < 3 * burst,
        k.threads[tid as int].pc % 3 == 1,
        event == producer_deed(
            rng_of(seed, tid as int / 2, burst),
            tid as int / 2,
            k.threads[tid as int].pc as int,
        ),
        event matches EventView::Compute { cycles, .. } && k.threads[tid as int].current_op()
            == Some(OpView::Compute(cycles)),
        n.tasks == k.tasks,
        n.endpoints == k.endpoints,
        n.regions == k.regions,
        n.threads == k.threads.update(tid as int, after_plain_turn(k.threads[tid as int])),
        n.trace == k.trace.push(k.dispatch_event()).push(event),
    ensures
        turn(k, n, tid as int / 2, event),
        couple(n, seed, tid as int / 2, burst),
{
    let pair = tid as int / 2;
    let rng = rng_of(seed, pair, burst);
    let pc = k.threads[tid as int].pc;
    lemma_on_record(k, n, rng, pair, pc, k.threads[tid + 1].pc, event);
    assert(n.threads[tid as int].pc == pc + 1);
    lemma_stocked_step(k.regions[pair].data, rng, pc, k.threads[tid + 1].pc);
    assert(n.threads[tid + 1] == k.threads[tid + 1]);
}

/// The turn of a consumer that reads what was published.
proof fn lemma_read_turn(k: KernelView, seed: u64, pairs: nat, burst: nat) -> (event: EventView)
    requires
        stressed(k, seed, pairs, burst),
        k.sched.ready.len() > 0,
        k.clock < u64::MAX,
        k.next_thread() < 2 * pairs,
        k.next_thread() % 2 == 1,
        k.threads[k.next_thread() as int].pc < 2 * burst,
        k.threads[k.next_thread() as int].pc % 2 == 1,
    ensures
        k.tick_safe(),
        turn(k, k.tick(), k.next_thread() as int / 2, event),
        couple(k.tick(), seed, k.next_thread() as int / 2, burst),
{
    let tid = k.next_thread();
    let pair = tid as int / 2;
    let rng = rng_of(seed, pair, burst);
    lemma_next_is_ready(k);
    let i = k.threads[tid as int].pc / 2;
    let value = crate::scenario::payload(rng, i);
    let offset = (i % 8) as usize;
    assert(couple(k, seed, pair, burst));
    assert(k.threads[tid as int].current_op() == Some(OpView::Read { mem: 1, offset }));
    assert(k.regions[pair].data[offset as int] == value) by {
        reveal(stocked);
    }
    let n = lemma_read_tick(k, pair as RegionId, offset, value);
    let event = EventView::MemRead { thread: tid, region: pair as RegionId, offset, value };
    lemma_after_read(k, n, seed, pairs, burst, tid, event);
    event
}

/// What a turn does in which a thread reads from a region it may read.
proof fn lemma_read_tick(k: KernelView, region: RegionId, offset: usize, value: u8) -> (n:
    KernelView)
    requires
        k.wf(),
        k.sched.ready.len() > 0,
        k.clock < u64::MAX,
        k.threads[k.next_thread() as int].current_op() == Some(OpView::Read { mem: 1, offset }),
        k.holds(
            k.threads[k.next_thread() as int].task,
            1,
            ObjectRef::Region(region),
            Rights::read(),
        ),
        k.has_region(region),
        offset < k.regions[region as int].data.len(),
        k.regions[region as int].data[offset as int] == value,
    ensures
        n == k.tick(),
        k.tick_safe(),
        n.tasks == k.tasks,
        n.endpoints == k.endpoints,
        n.regions == k.regions,
        ({
            let tid = k.next_thread();
            let thread = k.threads[tid as int];
            &&& n.threads == k.threads.update(
                tid as int,
                ThreadView { dispatches: thread.dispatches + 1, ..thread.advanced() },
            )
            &&& n.trace == k.trace.push(k.dispatch_event()).push(
                EventView::MemRead { thread: tid, region, offset, value },
            )
        }),
{
    lemma_next_is_ready(k);
    let n = k.tick();
    let up = k.take_up();
    let tid = k.next_thread();
    let thread = k.threads[tid as int];
    assert(up.resolve(up.threads[tid as int].task, 1, "region", Rights::read()) == Ok::<
        ObjectRef,
        KernelError,
    >(ObjectRef::Region(region)));
    assert(up.regions == k.regions);
    assert(up.sys_read(tid, 1, offset) == Ok::<u8, KernelError>(value));
    assert(n.threads =~= k.threads.update(
        tid as int,
        ThreadView { dispatches: thread.dispatches + 1, ..thread.advanced() },
    ));
    n
}

/// A couple after its consumer read a byte.
proof fn lemma_after_read(
    k: KernelView,
    n: KernelView,
    seed: u64,
    pairs: nat,
    burst: nat,
    tid: ThreadId,
    event: EventView,
)
    requires
        sized(k, pairs, burst),
        couple(k, seed, tid as int / 2, burst),
        tid < 2 * pairs,
        tid % 2 == 1,
        k.threads[tid as int].state is Ready,
        k.threads[tid as int].pc < 2 * burst,
        k.threads[tid as int].pc % 2 == 1,
        event == consumer_deed(
            rng_of(seed, tid as int / 2, burst),
            tid as int / 2,
            k.threads[tid as int].pc as int,
        ),
        n.tasks == k.tasks,
        n.endpoints == k.endpoints,
        n.regions == k.regions,
        n.threads == k.threads.update(
            tid as int,
            ThreadView {
                dispatches: k.threads[tid as int].dispatches + 1,
                ..k.threads[tid as int].advanced()
            },
        ),
        n.trace == k.trace.push(k.dispatch_event()).push(event),
    ensures
        turn(k, n, tid as int / 2, event),
        couple(n, seed, tid as int / 2, burst),
{
    let pair = tid as int / 2;
    let rng = rng_of(seed, pair, burst);
    let pc = k.threads[tid as int].pc;
    lemma_on_record(k, n, rng, pair, k.threads[tid - 1].pc, pc, event);
    assert(n.threads[tid as int].pc == pc + 1);
    lemma_stocked_step(k.regions[pair].data, rng, k.threads[tid - 1].pc, pc);
    assert(n.threads[tid - 1] == k.threads[tid - 1]);
}

/// The turn of a rogue that tries its luck.
proof fn lemma_rogue_turn(k: KernelView, seed: u64, pairs: nat, burst: nat) -> (event: EventView)
    requires
        stressed(k, seed, pairs, burst),
        k.sched.ready.len() > 0,
        k.clock < u64::MAX,
        k.next_thread() == 2 * pairs,
        k.threads[k.next_thread() as int].pc < 2 * burst,
    ensures
        k.tick_safe(),
        turn(k, k.tick(), k.next_thread() as int / 2, event),
        rogue(k.tick(), seed, pairs, burst),
{
    let tid = k.next_thread();
    let pair = tid as int / 2;
    let rng = rogue_rng(seed, pairs, burst);
    let n = k.tick();
    let up = k.take_up();
    lemma_next_is_ready(k);
    let pc = k.threads[tid as int].pc;
    let slot = crate::scenario::guess(rng, pc / 2);
    let refused = KernelError::NoSuchCapability { slot };
    assert(k.held((2 * pairs) as u32, slot) is None);
    let event = rogue_deed(rng, tid, pc as int);
    if pc % 2 == 0 {
        assert(k.threads[tid as int].current_op() == Some(OpView::Read { mem: slot, offset: 0 }));
        assert(up.resolve(up.threads[tid as int].task, slot, "region", Rights::read()) == Err::<
            ObjectRef,
            KernelError,
        >(refused));
        assert(up.sys_read(tid, slot, 0) == Err::<u8, KernelError>(refused));
    } else {
        let msg = MsgView { label: 0, bytes: seq![0u8], transfer: None };
        assert(k.threads[tid as int].current_op() == Some(OpView::Send { ep: slot, msg }));
        assert(up.resolve(up.threads[tid as int].task, slot, "endpoint", Rights::send()) == Err::<
            ObjectRef,
            KernelError,
        >(refused));
    }
    assert(n.trace == k.trace.push(k.dispatch_event()).push(event));
    lemma_turn_deeds(k, n, event, tid);
    assert(rogue_deeds(rng, tid, pc + 1) =~= rogue_deeds(rng, tid, pc).push(event));
    assert(n.tasks == k.tasks);
    assert forall|s: u32| (#[trigger] n.held((2 * pairs) as u32, s)) is None by {
        assert(k.held((2 * pairs) as u32, s) is None);
    }
    event
}

/// Whether a thread went past one op without computing, and is ready.
pub open spec fn moved_on(was: ThreadView, is: ThreadView) -> bool {
    &&& is.task == was.task
    &&& is.program == was.program
    &&& is.cycles == was.cycles
    &&& is.pc == was.pc + 1
    &&& is.state is Ready
}

/// Whether a thread stayed where it was, except for its state and its message.
pub open spec fn stayed(was: ThreadView, is: ThreadView) -> bool {
    &&& is.task == was.task
    &&& is.program == was.program
    &&& is.cycles == was.cycles
    &&& is.pc == was.pc
}

/// A couple after a message crossed.
proof fn lemma_after_meeting(
    k: KernelView,
    n: KernelView,
    seed: u64,
    pairs: nat,
    burst: nat,
    pair: int,
    event: EventView,
)
    requires
        sized(k, pairs, burst),
        couple(k, seed, pair, burst),
        0 <= pair < pairs,
        k.threads[2 * pair].pc % 3 == 2,
        k.threads[2 * pair].pc < 3 * burst,
        k.threads[2 * pair + 1].pc % 2 == 0,
        k.threads[2 * pair + 1].pc < 2 * burst,
        event == crossing(rng_of(seed, pair, burst), pair, k.threads[2 * pair].pc / 3),
        n.tasks == k.tasks,
        n.endpoints.len() == k.endpoints.len(),
        n.regions == k.regions,
        n.threads.len() == k.threads.len(),
        n.trace == k.trace.push(k.dispatch_event()).push(event),
        forall|u: int|
            0 <= u < k.threads.len() && u / 2 != pair ==> (#[trigger] n.threads[u])
                == k.threads[u],
        moved_on(k.threads[2 * pair], n.threads[2 * pair]),
        moved_on(k.threads[2 * pair + 1], n.threads[2 * pair + 1]),
    ensures
        turn(k, n, pair, event),
        couple(n, seed, pair, burst),
{
    let rng = rng_of(seed, pair, burst);
    let (here, there) = (k.threads[2 * pair].pc, k.threads[2 * pair + 1].pc);
    lemma_stocked_step(k.regions[pair].data, rng, here, there);
    assert(there == 2 * (here / 3));
    assert(event == producer_deed(rng, pair, here as int));
    assert(event == consumer_deed(rng, pair, there as int));
    lemma_on_record(k, n, rng, pair, here, there, event);
}

/// A couple after one of it parked.
proof fn lemma_after_parking(
    k: KernelView,
    n: KernelView,
    seed: u64,
    pairs: nat,
    burst: nat,
    pair: int,
    event: EventView,
)
    requires
        sized(k, pairs, burst),
        couple(k, seed, pair, burst),
        0 <= pair < pairs,
        event is BlockSend || event is BlockRecv,
        n.tasks == k.tasks,
        n.endpoints.len() == k.endpoints.len(),
        n.regions == k.regions,
        n.threads.len() == k.threads.len(),
        n.trace == k.trace.push(k.dispatch_event()).push(event),
        forall|u: int|
            0 <= u < k.threads.len() && u / 2 != pair ==> (#[trigger] n.threads[u])
                == k.threads[u],
        stayed(k.threads[2 * pair], n.threads[2 * pair]),
        stayed(k.threads[2 * pair + 1], n.threads[2 * pair + 1]),
        ({
            let rng = rng_of(seed, pair, burst);
            let ep = pair as EndpointId;
            let (p, c) = (n.threads[2 * pair], n.threads[2 * pair + 1]);
            ||| {
                &&& p.state == ThreadState::BlockedSend(ep)
                &&& p.pc % 3 == 2
                &&& p.pending == Some(
                    PendingView {
                        label: crate::scenario::label(rng, p.pc / 3),
                        bytes: seq![crate::scenario::payload(rng, p.pc / 3)],
                        cap: None,
                    },
                )
                &&& c == k.threads[2 * pair + 1]
                &&& !(c.state is BlockedRecv)
            }
            ||| {
                &&& c.state == ThreadState::BlockedRecv(ep)
                &&& c.pc % 2 == 0
                &&& c.pc < 2 * burst
                &&& p == k.threads[2 * pair]
                &&& !(p.state is BlockedSend)
            }
        }),
    ensures
        turn(k, n, pair, event),
        couple(n, seed, pair, burst),
{
    lemma_on_record(
        k,
        n,
        rng_of(seed, pair, burst),
        pair,
        k.threads[2 * pair].pc,
        k.threads[2 * pair + 1].pc,
        event,
    );
}

/// What a turn does in which the next thread sends to a couple's endpoint.
proof fn lemma_send_tick(
    k: KernelView,
    pairs: nat,
    msg: MsgView,
) -> (n: KernelView)
    requires
        k.wf(),
        k.sched.ready.len() > 0,
        k.clock < u64::MAX,
        k.next_thread() < 2 * pairs,
        k.next_thread() % 2 == 0,
        k.threads.len() == 2 * pairs + 1,
        k.endpoints.len() == pairs,
        2 * pairs < u32::MAX,
        forall|other: int| 0 <= other < pairs ==> #[trigger] settled(k, other),
        k.threads[2 * pairs as int].state is Ready || k.threads[2 * pairs as int].state is Exited,
        k.threads[k.next_thread() as int].current_op() == Some(OpView::Send { ep: 0, msg }),
        msg.transfer is None,
        k.holds(
            k.threads[k.next_thread() as int].task,
            0,
            ObjectRef::Endpoint((k.next_thread() as int / 2) as EndpointId),
            Rights::send(),
        ),
    ensures
        n == k.tick(),
        k.tick_safe(),
        n.tasks == k.tasks,
        n.endpoints.len() == k.endpoints.len(),
        n.regions == k.regions,
        n.threads.len() == k.threads.len(),
        ({
            let tid = k.next_thread();
            let c = (tid + 1) as ThreadId;
            let ep = (tid as int / 2) as EndpointId;
            let (was, is) = (k.threads[tid as int], n.threads[tid as int]);
            let base = k.trace.push(k.dispatch_event());
            &&& forall|u: int|
                0 <= u < k.threads.len() && u / 2 != tid as int / 2 ==> (#[trigger] n.threads[u])
                    == k.threads[u]
            &&& if k.threads[c as int].state is BlockedRecv {
                &&& n.trace == base.push(
                    EventView::Rendezvous {
                        sender: tid,
                        receiver: c,
                        endpoint: ep,
                        label: msg.label,
                        bytes: msg.bytes.len(),
                    },
                )
                &&& moved_on(was, is)
                &&& moved_on(k.threads[c as int], n.threads[c as int])
            } else {
                &&& n.trace == base.push(EventView::BlockSend { thread: tid, endpoint: ep })
                &&& stayed(was, is)
                &&& is.state == ThreadState::BlockedSend(ep)
                &&& is.pending == Some(
                    PendingView { label: msg.label, bytes: msg.bytes, cap: None },
                )
                &&& n.threads[c as int] == k.threads[c as int]
            }
        }),
{
    let tid = k.next_thread();
    let pair = tid as int / 2;
    let ep = pair as EndpointId;
    let c = (tid + 1) as ThreadId;
    let n = k.tick();
    let up = k.take_up();
    lemma_next_is_ready(k);
    lemma_who_waits(k, pairs, pair);
    assert(settled(k, pair));
    assert(up.resolve(up.threads[tid as int].task, 0, "endpoint", Rights::send()) == Ok::<
        ObjectRef,
        KernelError,
    >(ObjectRef::Endpoint(ep)));
    assert(up.endpoints == k.endpoints);
    if k.threads[c as int].state is BlockedRecv {
        crate::rendezvous::law_a_send_wakes_the_receiver(k, 0, msg, ep);
    } else {
        crate::rendezvous::law_an_early_sender_blocks(k, 0, msg, ep);
    }
    n
}

/// What a turn does in which the next thread receives from a couple's endpoint.
proof fn lemma_recv_tick(k: KernelView, pairs: nat) -> (n: KernelView)
    requires
        k.wf(),
        k.sched.ready.len() > 0,
        k.clock < u64::MAX,
        k.next_thread() < 2 * pairs,
        k.next_thread() % 2 == 1,
        k.threads.len() == 2 * pairs + 1,
        k.endpoints.len() == pairs,
        2 * pairs < u32::MAX,
        forall|other: int| 0 <= other < pairs ==> #[trigger] settled(k, other),
        k.threads[2 * pairs as int].state is Ready || k.threads[2 * pairs as int].state is Exited,
        k.threads[k.next_thread() as int].current_op() == Some(OpView::Recv { ep: 0 }),
        k.holds(
            k.threads[k.next_thread() as int].task,
            0,
            ObjectRef::Endpoint((k.next_thread() as int / 2) as EndpointId),
            Rights::recv(),
        ),
        k.threads[k.next_thread() - 1].state is BlockedSend ==> k.threads[k.next_thread()
            - 1].pending is Some && (k.threads[k.next_thread() - 1].pending->0).cap is None,
    ensures
        n == k.tick(),
        k.tick_safe(),
        n.tasks == k.tasks,
        n.endpoints.len() == k.endpoints.len(),
        n.regions == k.regions,
        n.threads.len() == k.threads.len(),
        ({
            let tid = k.next_thread();
            let p = (tid - 1) as ThreadId;
            let ep = (tid as int / 2) as EndpointId;
            let (was, is) = (k.threads[tid as int], n.threads[tid as int]);
            let msg = k.threads[p as int].pending->0;
            let base = k.trace.push(k.dispatch_event());
            &&& forall|u: int|
                0 <= u < k.threads.len() && u / 2 != tid as int / 2 ==> (#[trigger] n.threads[u])
                    == k.threads[u]
            &&& if k.threads[p as int].state is BlockedSend {
                &&& n.trace == base.push(
                    EventView::Rendezvous {
                        sender: p,
                        receiver: tid,
                        endpoint: ep,
                        label: msg.label,
                        bytes: msg.bytes.len(),
                    },
                )
                &&& moved_on(was, is)
                &&& moved_on(k.threads[p as int], n.threads[p as int])
            } else {
                &&& n.trace == base.push(EventView::BlockRecv { thread: tid, endpoint: ep })
                &&& stayed(was, is)
                &&& is.state == ThreadState::BlockedRecv(ep)
                &&& n.threads[p as int] == k.threads[p as int]
            }
        }),
{
    let tid = k.next_thread();
    let pair = tid as int / 2;
    let ep = pair as EndpointId;
    let p = (tid - 1) as ThreadId;
    let n = k.tick();
    let up = k.take_up();
    lemma_next_is_ready(k);
    lemma_who_waits(k, pairs, pair);
    assert(settled(k, pair));
    assert(up.resolve(up.threads[tid as int].task, 0, "endpoint", Rights::recv()) == Ok::<
        ObjectRef,
        KernelError,
    >(ObjectRef::Endpoint(ep)));
    assert(up.endpoints == k.endpoints);
    if k.threads[p as int].state is BlockedSend {
        crate::rendezvous::law_a_receive_wakes_the_sender(k, 0, ep);
    } else {
        crate::rendezvous::law_an_early_receiver_blocks(k, 0, ep);
    }
    n
}

/// The turn of a producer that announces a message.
proof fn lemma_send_turn(k: KernelView, seed: u64, pairs: nat, burst: nat) -> (event: EventView)
    requires
        stressed(k, seed, pairs, burst),
        k.sched.ready.len() > 0,
        k.clock < u64::MAX,
        k.next_thread() < 2 * pairs,
        k.next_thread() % 2 == 0,
        k.threads[k.next_thread() as int].pc < 3 * burst,
        k.threads[k.next_thread() as int].pc % 3 == 2,
    ensures
        k.tick_safe(),
        turn(k, k.tick(), k.next_thread() as int / 2, event),
        couple(k.tick(), seed, k.next_thread() as int / 2, burst),
{
    let tid = k.next_thread();
    let pair = tid as int / 2;
    let rng = rng_of(seed, pair, burst);
    let i = k.threads[tid as int].pc / 3;
    lemma_next_is_ready(k);
    assert(couple(k, seed, pair, burst));
    lemma_settled(k, seed, pairs, burst);
    let msg = MsgView {
        label: crate::scenario::label(rng, i),
        bytes: seq![crate::scenario::payload(rng, i)],
        transfer: None,
    };
    assert(k.threads[tid as int].current_op() == Some(OpView::Send { ep: 0, msg }));
    let n = lemma_send_tick(k, pairs, msg);
    if k.threads[tid + 1].state is BlockedRecv {
        let event = crossing(rng, pair, i);
        lemma_after_meeting(k, n, seed, pairs, burst, pair, event);
        event
    } else {
        let event = EventView::BlockSend { thread: tid, endpoint: pair as EndpointId };
        lemma_after_parking(k, n, seed, pairs, burst, pair, event);
        event
    }
}

/// The turn of a consumer that waits for a message.
proof fn lemma_recv_turn(k: KernelView, seed: u64, pairs: nat, burst: nat) -> (event: EventView)
    requires
        stressed(k, seed, pairs, burst),
        k.sched.ready.len() > 0,
        k.clock < u64::MAX,
        k.next_thread() < 2 * pairs,
        k.next_thread() % 2 == 1,
        k.threads[k.next_thread() as int].pc < 2 * burst,
        k.threads[k.next_thread() as int].pc % 2 == 0,
    ensures
        k.tick_safe(),
        turn(k, k.tick(), k.next_thread() as int / 2, event),
        couple(k.tick(), seed, k.next_thread() as int / 2, burst),
{
    let tid = k.next_thread();
    let pair = tid as int / 2;
    let rng = rng_of(seed, pair, burst);
    lemma_next_is_ready(k);
    assert(couple(k, seed, pair, burst));
    lemma_settled(k, seed, pairs, burst);
    assert(k.threads[tid as int].current_op() == Some(OpView::Recv { ep: 0 }));
    let n = lemma_recv_tick(k, pairs);
    if k.threads[tid - 1].state is BlockedSend {
        let event = crossing(rng, pair, k.threads[tid - 1].pc / 3);
        lemma_after_meeting(k, n, seed, pairs, burst, pair, event);
        event
    } else {
        let event = EventView::BlockRecv { thread: tid, endpoint: pair as EndpointId };
        lemma_after_parking(k, n, seed, pairs, burst, pair, event);
        event
    }
}

/// A turn of a running stress scenario keeps it running.
proof fn lemma_turn(k: KernelView, seed: u64, pairs: nat, burst: nat)
    requires
        stressed(k, seed, pairs, burst),
        k.sched.ready.len() > 0,
        k.clock < u64::MAX,
    ensures
        k.tick_safe(),
        stressed(k.tick(), seed, pairs, burst),
{
    let tid = k.next_thread();
    let pair = tid as int / 2;
    let n = k.tick();
    lemma_next_is_ready(k);
    let pc = k.threads[tid as int].pc;
    let event = if tid == 2 * pairs {
        if pc == 2 * burst {
            lemma_exit_turn(k, seed, pairs, burst)
        } else {
            lemma_rogue_turn(k, seed, pairs, burst)
        }
    } else {
        assert(couple(k, seed, pair, burst));
        if tid % 2 == 0 {
            if pc == 3 * burst {
                lemma_exit_turn(k, seed, pairs, burst)
            } else if pc % 3 == 0 {
                lemma_write_turn(k, seed, pairs, burst)
            } else if pc % 3 == 1 {
                lemma_compute_turn(k, seed, pairs, burst)
            } else {
                lemma_send_turn(k, seed, pairs, burst)
            }
        } else {
            if pc == 2 * burst {
                lemma_exit_turn(k, seed, pairs, burst)
            } else if pc % 2 == 0 {
                lemma_recv_turn(k, seed, pairs, burst)
            } else {
                lemma_read_turn(k, seed, pairs, burst)
            }
        }
    };
    assert(n.sound()) by {
        crate::soundness::lemma_tick(k);
        crate::history::lemma_tick(k);
        crate::history::lemma_chronicled(k, n);
    }
    lemma_others(k, n, seed, pairs, burst, pair, event);
}

/// What a turn leaves alone stays as it was.
proof fn lemma_others(
    k: KernelView,
    n: KernelView,
    seed: u64,
    pairs: nat,
    burst: nat,
    pair: int,
    event: EventView,
)
    requires
        stressed(k, seed, pairs, burst),
        n.sound(),
        turn(k, n, pair, event),
        0 <= pair < pairs ==> couple(n, seed, pair, burst),
        pair == pairs ==> rogue(n, seed, pairs, burst),
        0 <= pair <= pairs,
    ensures
        stressed(n, seed, pairs, burst),
{
    assert forall|other: int| 0 <= other < pairs implies #[trigger] couple(
        n,
        seed,
        other,
        burst,
    ) by {
        if other != pair {
            assert(couple(k, seed, other, burst));
            lemma_on_record(
                k,
                n,
                rng_of(seed, other, burst),
                other,
                k.threads[2 * other].pc,
                k.threads[2 * other + 1].pc,
                event,
            );
            assert(n.threads[2 * other] == k.threads[2 * other]);
            assert(n.threads[2 * other + 1] == k.threads[2 * other + 1]);
            assert(n.regions[other] == k.regions[other]);
        }
    }
    if pair != pairs {
        let tid = (2 * pairs) as ThreadId;
        lemma_turn_deeds(k, n, event, tid);
        assert(n.threads[tid as int] == k.threads[tid as int]);
        assert forall|s: u32| (#[trigger] n.held((2 * pairs) as u32, s)) is None by {
            assert(k.held((2 * pairs) as u32, s) is None);
        }
        assert(rogue(n, seed, pairs, burst));
    }
    let base = k.trace.push(k.dispatch_event());
    crate::exchange::lemma_tally_push(
        k.trace,
        k.dispatch_event(),
        |e: EventView| e is CapTransfer,
    );
    crate::exchange::lemma_tally_push(base, event, |e: EventView| e is CapTransfer);
    assert forall|i: int| 0 <= i < n.trace.len() && doer(#[trigger] n.trace[i]) is Some implies doer(
        n.trace[i],
    )->0 < 2 * pairs + 1 by {
        if i < k.trace.len() {
            assert(n.trace[i] == k.trace[i]);
        }
    }
}

/// A run of the stress scenario stays in order.
proof fn lemma_run(k: KernelView, seed: u64, pairs: nat, burst: nat, max_ops: nat)
    requires
        stressed(k, seed, pairs, burst),
        k.clock + max_ops <= u64::MAX,
    ensures
        k.run_safe(max_ops),
        stressed(k.run(max_ops), seed, pairs, burst),
    decreases max_ops,
{
    if max_ops > 0 && k.sched.ready.len() > 0 {
        lemma_turn(k, seed, pairs, burst);
        crate::soundness::lemma_tick_clock(k);
        lemma_run(k.tick(), seed, pairs, burst, (max_ops - 1) as nat);
    }
}

// -- the start ----------------------------------------------------------------

/// A stressed couple is a sound state that records nothing.
proof fn lemma_with_stressed_pair(k: KernelView, pair: nat, burst: nat)
    requires
        k.sound(),
        k.tasks.len() + 2 <= u32::MAX,
        k.threads.len() + 2 <= u32::MAX,
        k.endpoints.len() < u32::MAX,
        k.regions.len() < u32::MAX,
        k.next_cap_id + 4 <= u64::MAX,
    ensures
        k.with_stressed_pair(pair, burst).sound(),
        k.with_stressed_pair(pair, burst).trace == k.trace,
{
    let producer = k.tasks.len() as TaskId;
    let consumer = (k.tasks.len() + 1) as TaskId;
    let ep = ObjectRef::Endpoint(k.endpoints.len() as EndpointId);
    let region = ObjectRef::Region(k.regions.len() as RegionId);
    let both = Rights::read().union(Rights::write());
    let draw = |n: nat| crate::prng::reduce(crate::prng::stream(k.rng, n), 4) as u8;
    let sender = crate::scenario::numbered("producer-"@, pair);
    let receiver = crate::scenario::numbered("consumer-"@, pair);
    let a = k.create_task(sender);
    assert(a.wf()) by {
        crate::soundness::lemma_create_task(k, sender);
    }
    let b = a.create_task(receiver);
    assert(b.wf()) by {
        crate::soundness::lemma_create_task(a, receiver);
    }
    let c = b.create_endpoint();
    assert(c.wf()) by {
        crate::soundness::lemma_create_endpoint(b);
    }
    let d = c.create_region(producer, 8);
    assert(d.wf()) by {
        crate::soundness::lemma_create_region(c, producer, 8);
    }
    let e = d.grant(producer, ep, Rights::send());
    crate::soundness::lemma_grant(d, producer, ep, Rights::send());
    let f = e.grant(producer, region, both);
    crate::soundness::lemma_grant(e, producer, region, both);
    let g = f.grant(consumer, ep, Rights::recv());
    crate::soundness::lemma_grant(f, consumer, ep, Rights::recv());
    let h = g.grant(consumer, region, Rights::read());
    crate::soundness::lemma_grant(g, consumer, region, Rights::read());
    let rng = crate::prng::state_after(k.rng, 2 * burst + 2);
    let drawn = h.with_rng(rng);
    assert(drawn.wf()) by {
        crate::soundness::lemma_draw(h, rng);
    }
    crate::history::lemma_unchanged(k, drawn);
    let produce = crate::scenario::producer_program(k.rng, burst);
    let consume = crate::scenario::consumer_program(burst);
    let first = drawn.spawn_thread(producer, sender, draw(2 * burst), produce);
    lemma_spawned(drawn, producer, sender, draw(2 * burst), produce);
    lemma_spawned(first, consumer, receiver, draw(2 * burst + 1), consume);
}

/// Spawning a thread keeps a state sound.
proof fn lemma_spawned(
    k: KernelView,
    task: TaskId,
    name: Seq<char>,
    priority: u8,
    program: Seq<OpView>,
)
    requires
        k.sound(),
        k.threads.len() < u32::MAX,
    ensures
        k.spawn_thread(task, name, priority, program).sound(),
{
    crate::soundness::lemma_spawn(k, task, name, priority, program);
    crate::history::lemma_spawn(k, task, name, priority, program);
}

/// The couples of the stress scenario before they run.
proof fn lemma_stressed_pairs(seed: u64, pairs: nat, burst: nat)
    requires
        2 * pairs <= u32::MAX,
    ensures
        crate::scenario::stressed_pairs(seed, pairs, burst).sound(),
        crate::scenario::stressed_pairs(seed, pairs, burst).trace.len() == 0,
        forall|i: int|
            0 <= i < 2 * pairs ==> (#[trigger] crate::scenario::stressed_pairs(
                seed,
                pairs,
                burst,
            ).threads[i]).task < 2 * pairs,
    decreases pairs,
{
    if pairs == 0 {
        crate::soundness::lemma_boot(seed, Policy::RoundRobin);
        crate::history::lemma_boot(seed, Policy::RoundRobin);
    } else {
        let last = (pairs - 1) as nat;
        let before = crate::scenario::stressed_pairs(seed, last, burst);
        let k = crate::scenario::stressed_pairs(seed, pairs, burst);
        lemma_stressed_pairs(seed, last, burst);
        crate::scenario::lemma_stress_sizes(seed, last, burst);
        crate::scenario::lemma_stress_sizes(seed, pairs, burst);
        lemma_with_stressed_pair(before, last, burst);
        assert forall|i: int| 0 <= i < 2 * pairs implies (#[trigger] k.threads[i]).task
            < 2 * pairs by {
            if i < 2 * last {
                assert(k.threads[i] == before.threads[i]);
            }
        }
    }
}

/// The stress scenario before it runs.
proof fn lemma_stress_starts(seed: u64, pairs: nat, burst: nat)
    requires
        2 * pairs < u32::MAX,
    ensures
        crate::scenario::stress_view(seed, pairs, burst).sound(),
{
    let k = crate::scenario::stressed_pairs(seed, pairs, burst);
    let rng = crate::prng::state_after(k.rng, burst);
    let joined = k.create_task("rogue"@);
    let drawn = joined.with_rng(rng);
    crate::scenario::lemma_stress_sizes(seed, pairs, burst);
    lemma_stressed_pairs(seed, pairs, burst);
    assert(joined.wf()) by {
        crate::soundness::lemma_create_task(k, "rogue"@);
    }
    assert(drawn.wf()) by {
        crate::soundness::lemma_draw(joined, rng);
    }
    crate::history::lemma_unchanged(k, drawn);
    lemma_spawned(
        drawn,
        k.tasks.len() as TaskId,
        "rogue"@,
        0,
        crate::scenario::rogue_program(k.rng, burst),
    );
}

/// Whether a couple is at its first op.
pub open spec fn fresh(k: KernelView, seed: u64, pair: int, burst: nat) -> bool {
    &&& couple(k, seed, pair, burst)
    &&& k.threads[2 * pair].pc == 0
    &&& k.threads[2 * pair + 1].pc == 0
}

/// A couple that was just added is at its first op.
proof fn lemma_new_couple(k: KernelView, seed: u64, pair: nat, burst: nat)
    requires
        k == crate::scenario::stressed_pairs(seed, pair, burst),
        k.tasks.len() == 2 * pair,
        k.threads.len() == 2 * pair,
        k.endpoints.len() == pair,
        k.regions.len() == pair,
        k.trace.len() == 0,
        2 * pair + 2 <= u32::MAX,
    ensures
        fresh(k.with_stressed_pair(pair, burst), seed, pair as int, burst),
{
    let n = k.with_stressed_pair(pair, burst);
    let rights = Rights::read().union(Rights::write());
    crate::capability::law_containment_is_an_order(Rights::send(), Rights::send(), Rights::send());
    crate::capability::law_containment_is_an_order(Rights::recv(), Rights::recv(), Rights::recv());
    crate::capability::law_containment_is_an_order(Rights::read(), Rights::read(), Rights::read());
    assert(rights.contains(Rights::write())) by {
        crate::capability::law_union_is_least(Rights::read(), Rights::write(), rights);
    }
    let rng = k.rng;
    assert(rng_of(seed, pair as int, burst) == rng);
    assert(n.trace == k.trace);
    assert(on_record(n.trace, rng, pair as int, 0, 0)) by {
        reveal(on_record);
        assert(producer_deeds(rng, pair as int, 0) =~= Seq::empty());
        assert(consumer_deeds(rng, pair as int, 0) =~= Seq::empty());
    }
    assert(n.regions[pair as int].data.len() == 8);
    assert(stocked(n.regions[pair as int].data, rng, 0, 0)) by {
        reveal(stocked);
    }
}

/// The couples of the stress scenario start at their first op.
proof fn lemma_couples_start(seed: u64, pairs: nat, burst: nat)
    requires
        2 * pairs <= u32::MAX,
    ensures
        forall|pair: int|
            0 <= pair < pairs ==> #[trigger] fresh(
                crate::scenario::stressed_pairs(seed, pairs, burst),
                seed,
                pair,
                burst,
            ),
    decreases pairs,
{
    if pairs > 0 {
        let last = (pairs - 1) as nat;
        let k = crate::scenario::stressed_pairs(seed, last, burst);
        let n = crate::scenario::stressed_pairs(seed, pairs, burst);
        lemma_couples_start(seed, last, burst);
        lemma_stressed_pairs(seed, last, burst);
        lemma_stressed_pairs(seed, pairs, burst);
        crate::scenario::lemma_stress_sizes(seed, last, burst);
        crate::scenario::lemma_stress_sizes(seed, pairs, burst);
        lemma_new_couple(k, seed, last, burst);
        assert forall|pair: int| 0 <= pair < pairs implies #[trigger] fresh(n, seed, pair, burst) by {
            if pair < last {
                assert(fresh(k, seed, pair, burst));
                assert(n.threads[2 * pair] == k.threads[2 * pair]);
                assert(n.threads[2 * pair + 1] == k.threads[2 * pair + 1]);
                assert(n.tasks[2 * pair].caps == k.tasks[2 * pair].caps);
                assert(n.tasks[2 * pair + 1].caps == k.tasks[2 * pair + 1].caps);
                assert(n.regions[pair] == k.regions[pair]);
                assert(n.trace =~= k.trace);
            }
        }
    }
}

/// The stress scenario before it runs is in order.
proof fn lemma_starts(seed: u64, pairs: nat, burst: nat)
    requires
        2 * pairs < u32::MAX,
        burst <= u32::MAX,
    ensures
        stressed(crate::scenario::stress_view(seed, pairs, burst), seed, pairs, burst),
        crate::scenario::stress_view(seed, pairs, burst).trace.len() == 0,
        crate::scenario::stress_view(seed, pairs, burst).clock == 0,
{
    let k = crate::scenario::stressed_pairs(seed, pairs, burst);
    let n = crate::scenario::stress_view(seed, pairs, burst);
    lemma_stress_starts(seed, pairs, burst);
    lemma_stressed_pairs(seed, pairs, burst);
    crate::scenario::lemma_stress_sizes(seed, pairs, burst);
    crate::scenario::lemma_stress_work(seed, pairs, burst);
    lemma_couples_start(seed, pairs, burst);
    assert(n.trace == k.trace);
    assert forall|pair: int| 0 <= pair < pairs implies #[trigger] couple(n, seed, pair, burst) by {
        assert(fresh(k, seed, pair, burst));
        assert(n.threads[2 * pair] == k.threads[2 * pair]);
        assert(n.threads[2 * pair + 1] == k.threads[2 * pair + 1]);
        assert(n.tasks[2 * pair].caps == k.tasks[2 * pair].caps);
        assert(n.tasks[2 * pair + 1].caps == k.tasks[2 * pair + 1].caps);
        assert(n.regions[pair] == k.regions[pair]);
    }
    assert(rogue(n, seed, pairs, burst)) by {
        let tid = (2 * pairs) as ThreadId;
        assert(rogue_deeds(rogue_rng(seed, pairs, burst), tid, 0) =~= Seq::empty());
        assert(n.table(tid).slots == Map::<u32, crate::capability::CapEntry>::empty());
    }
}

// -- counting -----------------------------------------------------------------

/// Whether an event is of a kind and the deed of a thread.
pub open spec fn done_by(kind: spec_fn(EventView) -> bool, tid: int) -> spec_fn(EventView) -> bool {
    |e: EventView| kind(e) && doer(e) is Some && doer(e)->0 == tid
}

/// How many events of a kind are the deeds of each thread.
pub open spec fn shares(trace: Seq<EventView>, kind: spec_fn(EventView) -> bool) -> spec_fn(
    int,
) -> int {
    |tid: int|
        crate::state::tally(
            crate::history::deeds(trace, tid as ThreadId),
            done_by(kind, tid),
        ) as int
}

/// The events of a kind are those of the threads together.
proof fn lemma_shares(trace: Seq<EventView>, kind: spec_fn(EventView) -> bool, count: nat)
    requires
        done_by_the_first(trace, count),
        count <= u32::MAX,
        forall|e: EventView| #[trigger] kind(e) ==> doer(e) is Some,
    ensures
        crate::state::tally(trace, kind) == crate::exchange::sum_to(shares(trace, kind), count),
    decreases trace.len(),
{
    if trace.len() == 0 {
        assert forall|tid: int| 0 <= tid < count implies #[trigger] shares(trace, kind)(tid)
            == 0 by {}
        crate::exchange::lemma_sum_constant(shares(trace, kind), count, 0);
    } else {
        let before = trace.drop_last();
        let event = trace.last();
        assert(done_by_the_first(before, count)) by {
            assert forall|i: int| 0 <= i < before.len() && doer(#[trigger] before[i]) is Some implies
                doer(before[i])->0 < count by {
                assert(before[i] == trace[i]);
            }
        }
        lemma_shares(before, kind, count);
        assert(trace =~= before.push(event));
        let (f, g) = (shares(before, kind), shares(trace, kind));
        assert forall|tid: int| 0 <= tid < count implies #[trigger] g(tid) == f(tid) + if kind(event)
            && doer(event)->0 == tid {
            1int
        } else {
            0int
        } by {
            crate::history::lemma_deeds_push(before, event, tid as ThreadId);
            crate::exchange::lemma_tally_push(
                crate::history::deeds(before, tid as ThreadId),
                event,
                done_by(kind, tid),
            );
        }
        if kind(event) {
            assert(doer(trace[trace.len() - 1]) is Some);
            crate::exchange::lemma_sum_change(f, g, count, doer(event)->0 as int);
        } else if count > 0 {
            crate::exchange::lemma_sum_change(f, g, count, 0);
        }
    }
}

/// A sum over couples in which only the first of each counts.
proof fn lemma_sum_pairs(f: spec_fn(int) -> int, pairs: nat, first: int, second: int)
    requires
        forall|pair: int|
            0 <= pair < pairs ==> #[trigger] f(2 * pair) == first && f(2 * pair + 1) == second,
    ensures
        crate::exchange::sum_to(f, 2 * pairs) == pairs * (first + second),
    decreases pairs,
{
    if pairs > 0 {
        let last = (pairs - 1) as nat;
        lemma_sum_pairs(f, last, first, second);
        let at = last as int;
        assert(f(2 * at) == first && f(2 * at + 1) == second);
        reveal_with_fuel(crate::exchange::sum_to, 3);
        assert(crate::exchange::sum_to(f, 2 * pairs) == crate::exchange::sum_to(f, 2 * last) + f(
            2 * at,
        ) + f(2 * at + 1));
        assert(pairs * (first + second) == last * (first + second) + (first + second))
            by (nonlinear_arith)
            requires
                pairs == last + 1,
        ;
    } else {
        assert(0 * (first + second) == 0) by (nonlinear_arith);
    }
}

/// What the producer of a couple does, by kind.
proof fn lemma_producer_counts(rng: u64, pair: int, count: nat)
    requires
        0 <= 2 * pair < u32::MAX,
    ensures
        ({
            let done = producer_deeds(rng, pair, count);
            let tid = 2 * pair;
            &&& crate::state::tally(done, done_by(|e: EventView| e is Rendezvous, tid)) == count
                / 3
            &&& crate::state::tally(done, done_by(|e: EventView| e is MemWrite, tid)) == (count + 2)
                / 3
            &&& crate::state::tally(done, done_by(|e: EventView| e is MemRead, tid)) == 0
            &&& crate::state::tally(done, done_by(|e: EventView| e is Denied, tid)) == 0
        }),
    decreases count,
{
    if count > 0 {
        let last = (count - 1) as nat;
        lemma_producer_counts(rng, pair, last);
        assert(producer_deeds(rng, pair, count).drop_last() =~= producer_deeds(rng, pair, last));
    }
}

/// What the consumer of a couple does, by kind.
proof fn lemma_consumer_counts(rng: u64, pair: int, count: nat)
    requires
        0 <= 2 * pair < u32::MAX,
    ensures
        ({
            let done = consumer_deeds(rng, pair, count);
            let tid = 2 * pair + 1;
            &&& crate::state::tally(done, done_by(|e: EventView| e is Rendezvous, tid)) == 0
            &&& crate::state::tally(done, done_by(|e: EventView| e is MemWrite, tid)) == 0
            &&& crate::state::tally(done, done_by(|e: EventView| e is MemRead, tid)) == count / 2
            &&& crate::state::tally(done, done_by(|e: EventView| e is Denied, tid)) == 0
        }),
    decreases count,
{
    if count > 0 {
        let last = (count - 1) as nat;
        lemma_consumer_counts(rng, pair, last);
        assert(consumer_deeds(rng, pair, count).drop_last() =~= consumer_deeds(rng, pair, last));
    }
}

/// What the rogue does, by kind.
proof fn lemma_rogue_counts(rng: u64, tid: ThreadId, count: nat)
    ensures
        ({
            let done = rogue_deeds(rng, tid, count);
            &&& crate::state::tally(done, done_by(|e: EventView| e is Rendezvous, tid as int)) == 0
            &&& crate::state::tally(done, done_by(|e: EventView| e is MemWrite, tid as int)) == 0
            &&& crate::state::tally(done, done_by(|e: EventView| e is MemRead, tid as int)) == 0
            &&& crate::state::tally(done, done_by(|e: EventView| e is Denied, tid as int)) == count
        }),
    decreases count,
{
    if count > 0 {
        let last = (count - 1) as nat;
        lemma_rogue_counts(rng, tid, last);
        assert(rogue_deeds(rng, tid, count).drop_last() =~= rogue_deeds(rng, tid, last));
    }
}

// -- the end ------------------------------------------------------------------

/// When the ready queue is empty, no thread is ready.
proof fn lemma_none_ready(k: KernelView)
    requires
        k.wf(),
        k.sched.ready.len() == 0,
        k.threads.len() <= u32::MAX,
    ensures
        forall|i: int| 0 <= i < k.threads.len() ==> !((#[trigger] k.threads[i]).state is Ready),
{
    reveal(KernelView::wf);
    assert forall|i: int| 0 <= i < k.threads.len() implies !((#[trigger] k.threads[i]).state
        is Ready) by {
        assert(k.thread_wf(i as ThreadId, None));
    }
}

/// A couple of which neither is ready has finished.
proof fn lemma_couple_rests(k: KernelView, seed: u64, pair: int, burst: nat)
    requires
        couple(k, seed, pair, burst),
        !(k.threads[2 * pair].state is Ready),
        !(k.threads[2 * pair + 1].state is Ready),
    ensures
        k.threads[2 * pair].state is Exited,
        k.threads[2 * pair + 1].state is Exited,
{
    let (p, c) = (k.threads[2 * pair], k.threads[2 * pair + 1]);
    if p.state is BlockedSend {
        assert(c.pc == 2 * burst);
        assert(p.pc / 3 == burst);
    }
    if c.state is BlockedRecv {
        assert(p.pc == 3 * burst);
        assert((c.pc + 1) / 2 == burst);
    }
}

/// When no thread is ready, every thread has finished.
proof fn lemma_at_rest(k: KernelView, seed: u64, pairs: nat, burst: nat)
    requires
        stressed(k, seed, pairs, burst),
        k.sched.ready.len() == 0,
    ensures
        forall|i: int| 0 <= i < k.threads.len() ==> (#[trigger] k.threads[i]).state is Exited,
{
    lemma_none_ready(k);
    assert forall|i: int| 0 <= i < k.threads.len() implies (#[trigger] k.threads[i]).state
        is Exited by {
        if i < 2 * pairs {
            let pair = i / 2;
            assert(!(k.threads[2 * pair].state is Ready));
            assert(!(k.threads[2 * pair + 1].state is Ready));
            lemma_couple_rests(k, seed, pair, burst);
        }
    }
}

/// Threads that have finished have no work left.
proof fn lemma_no_work(threads: Seq<ThreadView>)
    requires
        forall|i: int| 0 <= i < threads.len() ==> (#[trigger] threads[i]).state is Exited,
    ensures
        crate::progress::total_chores(threads) == 0,
    decreases threads.len(),
{
    if threads.len() > 0 {
        lemma_no_work(threads.drop_last());
    }
}

// -- the laws -----------------------------------------------------------------

/// A run of the stress scenario stays within the limits of the machine, whatever
/// the seed and the parameters and however many ops it is given, as long as its
/// tasks and its ops can be numbered.
pub proof fn law_a_stress_run_stays_within_the_machine(
    seed: u64,
    pairs: nat,
    burst: nat,
    max_ops: nat,
)
    requires
        2 * pairs < u32::MAX,
        burst <= u32::MAX,
        max_ops <= u64::MAX,
    ensures
        crate::scenario::stress_view(seed, pairs, burst).run_safe(max_ops),
{
    let k = crate::scenario::stress_view(seed, pairs, burst);
    lemma_starts(seed, pairs, burst);
    lemma_run(k, seed, pairs, burst, max_ops);
}

/// Whatever the seed, the parameters and the number of ops, each thread of the
/// stress scenario has done exactly what its program says, in order: every
/// payload published, every message delivered with its label to the consumer of
/// the couple, every byte read back as it was published. All that the rogue did
/// was denied, and no capability changed hands.
pub proof fn law_a_stress_run_does_what_its_programs_say(
    seed: u64,
    pairs: nat,
    burst: nat,
    max_ops: nat,
    pair: int,
)
    requires
        2 * pairs < u32::MAX,
        burst <= u32::MAX,
        max_ops <= u64::MAX,
        0 <= pair < pairs,
    ensures
        ({
            let n = crate::scenario::stress_view(seed, pairs, burst).run(max_ops);
            let rng = rng_of(seed, pair, burst);
            let (p, c) = ((2 * pair) as ThreadId, (2 * pair + 1) as ThreadId);
            let r = (2 * pairs) as ThreadId;
            &&& crate::history::deeds(n.trace, p) == producer_deeds(
                rng,
                pair,
                n.threads[p as int].pc,
            )
            &&& crate::history::deeds(n.trace, c) == consumer_deeds(
                rng,
                pair,
                n.threads[c as int].pc,
            )
            &&& crate::history::deeds(n.trace, r) == rogue_deeds(
                rogue_rng(seed, pairs, burst),
                r,
                n.threads[r as int].pc,
            )
            &&& crate::state::tally(n.trace, |e: EventView| e is CapTransfer) == 0
        }),
{
    reveal(on_record);
    let k = crate::scenario::stress_view(seed, pairs, burst);
    lemma_starts(seed, pairs, burst);
    lemma_run(k, seed, pairs, burst, max_ops);
    assert(couple(k.run(max_ops), seed, pair, burst));
}

/// A run of the stress scenario with enough ops finishes every thread and wastes
/// no op, and the rogue's task still holds nothing.
pub proof fn law_a_stress_run_finishes(seed: u64, pairs: nat, burst: nat, max_ops: nat)
    requires
        2 * pairs < u32::MAX,
        burst <= u32::MAX,
        crate::scenario::stress_work(pairs, burst) <= max_ops <= u64::MAX,
    ensures
        ({
            let k = crate::scenario::stress_view(seed, pairs, burst);
            let n = k.run(max_ops);
            &&& k.trace.len() == 0
            &&& n.sched.ready.len() == 0
            &&& forall|i: int|
                0 <= i < n.threads.len() ==> (#[trigger] n.threads[i]).state is Exited
            &&& forall|pair: int|
                0 <= pair < pairs ==> (#[trigger] n.threads[2 * pair]).pc == 3 * burst
                    && n.threads[2 * pair + 1].pc == 2 * burst
            &&& n.threads[2 * pairs as int].pc == 2 * burst
            &&& n.threads.len() == 2 * pairs + 1
            &&& n.all_done()
            &&& forall|slot: u32| (#[trigger] n.held((2 * pairs) as TaskId, slot)) is None
            &&& k.ops_run(max_ops) == crate::scenario::stress_work(pairs, burst)
        }),
{
    let k = crate::scenario::stress_view(seed, pairs, burst);
    let n = k.run(max_ops);
    lemma_starts(seed, pairs, burst);
    lemma_run(k, seed, pairs, burst, max_ops);
    crate::scenario::lemma_stress_work(seed, pairs, burst);
    crate::progress::law_every_run_comes_to_rest(k, max_ops);
    lemma_at_rest(n, seed, pairs, burst);
    lemma_no_work(n.threads);
    assert forall|pair: int| 0 <= pair < pairs implies (#[trigger] n.threads[2 * pair]).pc == 3
        * burst && n.threads[2 * pair + 1].pc == 2 * burst by {
        assert(couple(n, seed, pair, burst));
        assert(n.threads[2 * pair].state is Exited);
        assert(n.threads[2 * pair + 1].state is Exited);
    }
}

/// A producer that is through has sent and written once for each message.
spec fn counted_producer(done: Seq<EventView>, pair: int, burst: nat) -> bool {
    let tid = 2 * pair;
    &&& crate::state::tally(done, done_by(|e: EventView| e is Rendezvous, tid)) == burst
    &&& crate::state::tally(done, done_by(|e: EventView| e is MemWrite, tid)) == burst
    &&& crate::state::tally(done, done_by(|e: EventView| e is MemRead, tid)) == 0
    &&& crate::state::tally(done, done_by(|e: EventView| e is Denied, tid)) == 0
}

/// A consumer that is through has read once for each message.
spec fn counted_consumer(done: Seq<EventView>, pair: int, burst: nat) -> bool {
    let tid = 2 * pair + 1;
    &&& crate::state::tally(done, done_by(|e: EventView| e is Rendezvous, tid)) == 0
    &&& crate::state::tally(done, done_by(|e: EventView| e is MemWrite, tid)) == 0
    &&& crate::state::tally(done, done_by(|e: EventView| e is MemRead, tid)) == burst
    &&& crate::state::tally(done, done_by(|e: EventView| e is Denied, tid)) == 0
}

/// A rogue that is through was denied twice for each message of the burst.
spec fn counted_rogue(done: Seq<EventView>, tid: int, burst: nat) -> bool {
    &&& crate::state::tally(done, done_by(|e: EventView| e is Rendezvous, tid)) == 0
    &&& crate::state::tally(done, done_by(|e: EventView| e is MemWrite, tid)) == 0
    &&& crate::state::tally(done, done_by(|e: EventView| e is MemRead, tid)) == 0
    &&& crate::state::tally(done, done_by(|e: EventView| e is Denied, tid)) == 2 * burst
}

/// A run of the stress scenario with enough ops records exactly one rendezvous,
/// one write and one read for each message, two denials for each message of the
/// burst, all of them the rogue's, and no transfer. (The trace starts empty, so
/// the report of the run says so.)
pub proof fn law_a_stress_run_counts_exactly(seed: u64, pairs: nat, burst: nat, max_ops: nat)
    requires
        2 * pairs < u32::MAX,
        burst <= u32::MAX,
        crate::scenario::stress_work(pairs, burst) <= max_ops <= u64::MAX,
    ensures
        ({
            let k = crate::scenario::stress_view(seed, pairs, burst);
            let n = k.run(max_ops);
            &&& k.trace.len() == 0
            &&& crate::state::tally(n.trace, |e: EventView| e is Rendezvous) == pairs * burst
            &&& crate::state::tally(n.trace, |e: EventView| e is MemWrite) == pairs * burst
            &&& crate::state::tally(n.trace, |e: EventView| e is MemRead) == pairs * burst
            &&& crate::state::tally(n.trace, |e: EventView| e is Denied) == 2 * burst
            &&& crate::state::tally(n.trace, |e: EventView| e is CapTransfer) == 0
            &&& forall|i: int|
                0 <= i < n.trace.len() && (#[trigger] n.trace[i]) is Denied ==> doer(n.trace[i])
                    == Some((2 * pairs) as ThreadId)
        }),
{
    reveal(on_record);
    let k = crate::scenario::stress_view(seed, pairs, burst);
    let n = k.run(max_ops);
    lemma_starts(seed, pairs, burst);
    lemma_run(k, seed, pairs, burst, max_ops);
    law_a_stress_run_finishes(seed, pairs, burst, max_ops);
    assert forall|rng: u64, pair: int| 0 <= pair < pairs implies counted_producer(
        #[trigger] producer_deeds(rng, pair, 3 * burst),
        pair,
        burst,
    ) by {
        lemma_producer_counts(rng, pair, 3 * burst);
    }
    assert forall|rng: u64, pair: int| 0 <= pair < pairs implies counted_consumer(
        #[trigger] consumer_deeds(rng, pair, 2 * burst),
        pair,
        burst,
    ) by {
        lemma_consumer_counts(rng, pair, 2 * burst);
    }
    assert forall|rng: u64| counted_rogue(
        #[trigger] rogue_deeds(rng, (2 * pairs) as ThreadId, 2 * burst),
        2 * pairs as int,
        burst,
    ) by {
        lemma_rogue_counts(rng, (2 * pairs) as ThreadId, 2 * burst);
    }
    lemma_kind(n, seed, pairs, burst, |e: EventView| e is Rendezvous, burst as int, 0, 0);
    lemma_kind(n, seed, pairs, burst, |e: EventView| e is MemWrite, burst as int, 0, 0);
    lemma_kind(n, seed, pairs, burst, |e: EventView| e is MemRead, 0, burst as int, 0);
    lemma_kind(n, seed, pairs, burst, |e: EventView| e is Denied, 0, 0, 2 * burst as int);
    assert(pairs * 0 == 0);
    assert forall|i: int| 0 <= i < n.trace.len() && (#[trigger] n.trace[i]) is Denied implies doer(
        n.trace[i],
    ) == Some((2 * pairs) as ThreadId) by {
        let tid = doer(n.trace[i])->0;
        assert(doer(n.trace[i]) is Some);
        if tid < 2 * pairs {
            let pair = tid as int / 2;
            assert(couple(n, seed, pair, burst));
            lemma_deeds_contain(n.trace, i, tid);
            let at = choose|at: int|
                0 <= at < crate::history::deeds(n.trace, tid).len() && crate::history::deeds(
                    n.trace,
                    tid,
                )[at] == n.trace[i];
            if tid % 2 == 0 {
                assert(producer_deed(rng_of(seed, pair, burst), pair, at) is Denied);
            } else {
                assert(consumer_deed(rng_of(seed, pair, burst), pair, at) is Denied);
            }
        }
    }
}

/// The events of one kind, from what each sort of thread does.
proof fn lemma_kind(
    n: KernelView,
    seed: u64,
    pairs: nat,
    burst: nat,
    kind: spec_fn(EventView) -> bool,
    producer: int,
    consumer: int,
    last: int,
)
    requires
        stressed(n, seed, pairs, burst),
        forall|pair: int|
            0 <= pair < pairs ==> (#[trigger] n.threads[2 * pair]).pc == 3 * burst
                && n.threads[2 * pair + 1].pc == 2 * burst,
        n.threads[2 * pairs as int].pc == 2 * burst,
        forall|e: EventView| #[trigger] kind(e) ==> doer(e) is Some,
        forall|rng: u64, pair: int|
            0 <= pair < pairs ==> crate::state::tally(
                #[trigger] producer_deeds(rng, pair, 3 * burst),
                done_by(kind, 2 * pair),
            ) == producer,
        forall|rng: u64, pair: int|
            0 <= pair < pairs ==> crate::state::tally(
                #[trigger] consumer_deeds(rng, pair, 2 * burst),
                done_by(kind, 2 * pair + 1),
            ) == consumer,
        forall|rng: u64|
            crate::state::tally(
                #[trigger] rogue_deeds(rng, (2 * pairs) as ThreadId, 2 * burst),
                done_by(kind, 2 * pairs as int),
            ) == last,
    ensures
        crate::state::tally(n.trace, kind) == pairs * (producer + consumer) + last,
{
    reveal(on_record);
    let f = shares(n.trace, kind);
    lemma_shares(n.trace, kind, 2 * pairs + 1);
    assert forall|pair: int| 0 <= pair < pairs implies #[trigger] f(2 * pair) == producer && f(
        2 * pair + 1,
    ) == consumer by {
        assert(couple(n, seed, pair, burst));
        assert(n.threads[2 * pair].pc == 3 * burst);
    }
    lemma_sum_pairs(f, pairs, producer, consumer);
    assert(f(2 * pairs as int) == last);
}

/// A deed on record is among the deeds of the threads it concerns.
proof fn lemma_deeds_contain(trace: Seq<EventView>, i: int, tid: ThreadId)
    requires
        0 <= i < trace.len(),
        crate::history::concerns(trace[i], tid),
    ensures
        crate::history::deeds(trace, tid).contains(trace[i]),
    decreases trace.len(),
{
    let before = trace.drop_last();
    let done = crate::history::deeds(trace, tid);
    if i == trace.len() - 1 {
        assert(done[done.len() - 1] == trace[i]);
    } else {
        lemma_deeds_contain(before, i, tid);
        let earlier = crate::history::deeds(before, tid);
        let at = choose|at: int| 0 <= at < earlier.len() && earlier[at] == before[i];
        assert(done[at] == trace[i]);
    }
}

/// What the writes among some deeds published, in order: where and what.
pub open spec fn written(done: Seq<EventView>) -> Seq<(usize, u8)>
    decreases done.len(),
{
    if done.len() == 0 {
        Seq::empty()
    } else {
        let before = written(done.drop_last());
        match done.last() {
            EventView::MemWrite { offset, value, .. } => before.push((offset, value)),
            _ => before,
        }
    }
}

/// What the reads among some deeds found, in order: where and what.
pub open spec fn read_back(done: Seq<EventView>) -> Seq<(usize, u8)>
    decreases done.len(),
{
    if done.len() == 0 {
        Seq::empty()
    } else {
        let before = read_back(done.drop_last());
        match done.last() {
            EventView::MemRead { offset, value, .. } => before.push((offset, value)),
            _ => before,
        }
    }
}

/// The bytes that a couple publishes, and where: one for each message.
pub open spec fn published(rng: u64, count: nat) -> Seq<(usize, u8)> {
    Seq::new(
        count,
        |i: int| ((i % 8) as usize, crate::scenario::payload(rng, i as nat)),
    )
}

proof fn lemma_written(rng: u64, pair: int, count: nat)
    ensures
        written(producer_deeds(rng, pair, count)) == published(rng, (count + 2) / 3),
    decreases count,
{
    if count == 0 {
        assert(published(rng, 0) =~= Seq::empty());
    } else {
        let last = (count - 1) as nat;
        lemma_written(rng, pair, last);
        assert(producer_deeds(rng, pair, count).drop_last() =~= producer_deeds(rng, pair, last));
        if last % 3 == 0 {
            let i = last / 3;
            assert((count + 2) / 3 == i + 1 && (last + 2) / 3 == i);
            assert(published(rng, i + 1) =~= published(rng, i).push(
                ((i % 8) as usize, crate::scenario::payload(rng, i)),
            ));
        }
    }
}

proof fn lemma_read_back(rng: u64, pair: int, count: nat)
    ensures
        read_back(consumer_deeds(rng, pair, count)) == published(rng, count / 2),
    decreases count,
{
    if count == 0 {
        assert(published(rng, 0) =~= Seq::empty());
    } else {
        let last = (count - 1) as nat;
        lemma_read_back(rng, pair, last);
        assert(consumer_deeds(rng, pair, count).drop_last() =~= consumer_deeds(rng, pair, last));
        if last % 2 == 1 {
            let i = last / 2;
            assert(published(rng, i + 1) =~= published(rng, i).push(
                ((i % 8) as usize, crate::scenario::payload(rng, i)),
            ));
        }
    }
}

/// What a producer publishes is what its consumer reads: over a run with enough
/// ops, the bytes and offsets that the consumer of a couple read are those that
/// the producer wrote, all of them and in the same order.
pub proof fn law_what_is_published_is_read_back(
    seed: u64,
    pairs: nat,
    burst: nat,
    max_ops: nat,
    pair: int,
)
    requires
        2 * pairs < u32::MAX,
        burst <= u32::MAX,
        crate::scenario::stress_work(pairs, burst) <= max_ops <= u64::MAX,
        0 <= pair < pairs,
    ensures
        ({
            let n = crate::scenario::stress_view(seed, pairs, burst).run(max_ops);
            let wrote = written(crate::history::deeds(n.trace, (2 * pair) as ThreadId));
            let read = read_back(crate::history::deeds(n.trace, (2 * pair + 1) as ThreadId));
            &&& read == wrote
            &&& read == published(rng_of(seed, pair, burst), burst)
        }),
{
    let n = crate::scenario::stress_view(seed, pairs, burst).run(max_ops);
    law_a_stress_run_does_what_its_programs_say(seed, pairs, burst, max_ops, pair);
    law_a_stress_run_finishes(seed, pairs, burst, max_ops);
    assert(n.threads[2 * pair].pc == 3 * burst);
    lemma_written(rng_of(seed, pair, burst), pair, 3 * burst);
    lemma_read_back(rng_of(seed, pair, burst), pair, 2 * burst);
}

/// Different seeds take different courses: two runs of the stress scenario that
/// differ in the seed leave different traces.
pub proof fn law_different_seeds_diverge(
    seed: u64,
    other: u64,
    pairs: nat,
    burst: nat,
    max_ops: nat,
)
    requires
        2 * pairs < u32::MAX,
        burst <= u32::MAX,
        crate::scenario::stress_work(pairs, burst) <= max_ops <= u64::MAX,
        pairs > 0,
        burst > 0,
        seed != other,
    ensures
        crate::scenario::stress_view(seed, pairs, burst).run(max_ops).trace
            != crate::scenario::stress_view(other, pairs, burst).run(max_ops).trace,
{
    let a = crate::scenario::stress_view(seed, pairs, burst).run(max_ops);
    let b = crate::scenario::stress_view(other, pairs, burst).run(max_ops);
    law_a_stress_run_does_what_its_programs_say(seed, pairs, burst, max_ops, 0);
    law_a_stress_run_does_what_its_programs_say(other, pairs, burst, max_ops, 0);
    law_a_stress_run_finishes(seed, pairs, burst, max_ops);
    law_a_stress_run_finishes(other, pairs, burst, max_ops);
    crate::prng::law_distinct_seeds_distinct_streams(seed, other, 1);
    assert(a.threads[2 * 0int].pc == 3 * burst);
    assert(b.threads[2 * 0int].pc == 3 * burst);
    assert(rng_of(seed, 0, burst) == seed);
    assert(rng_of(other, 0, burst) == other);
    let (x, y) = (crate::history::deeds(a.trace, 0), crate::history::deeds(b.trace, 0));
    assert(x[2] == crossing(seed, 0, 0));
    assert(y[2] == crossing(other, 0, 0));
}

/// The rogue of the stress scenario never gets through. Whatever the seed and
/// the parameters, every op that its thread gets past in a run was denied, and
/// its task never comes to hold any capability.
pub proof fn law_the_rogue_is_always_denied(
    seed: u64,
    pairs: nat,
    burst: nat,
    max_ops: nat,
    i: int,
)
    requires
        2 * pairs < u32::MAX,
        crate::scenario::stress_view(seed, pairs, burst).run_safe(max_ops),
    ensures
        ({
            let n = crate::scenario::stress_view(seed, pairs, burst).run(max_ops);
            let rogue = (2 * pairs) as ThreadId;
            let done = crate::history::deeds(n.trace, rogue);
            &&& n.has_thread(rogue)
            &&& done.len() == n.threads[rogue as int].pc
            &&& 0 <= i < done.len() ==> done[i] is Denied
            &&& crate::authority::powerless(n, (2 * pairs) as TaskId)
        }),
{
    let pairs_only = crate::scenario::stressed_pairs(seed, pairs, burst);
    let k = crate::scenario::stress_view(seed, pairs, burst);
    let n = k.run(max_ops);
    let task = (2 * pairs) as TaskId;
    let rogue = (2 * pairs) as ThreadId;
    let program = crate::scenario::rogue_program(pairs_only.rng, burst);
    crate::scenario::lemma_stress_sizes(seed, pairs, burst);
    lemma_stressed_pairs(seed, pairs, burst);
    lemma_stress_starts(seed, pairs, burst);
    let drawn = pairs_only.create_task("rogue"@).with_rng(
        crate::prng::state_after(pairs_only.rng, burst),
    );
    assert(k == drawn.spawn_thread(task, "rogue"@, 0, program));
    assert(k.threads[rogue as int].program == program);
    assert(crate::authority::powerless(k, task)) by {
        assert forall|slot: u32| (#[trigger] k.held(task, slot)) is None by {
            assert(k.table(task).slots == Map::<u32, crate::capability::CapEntry>::empty());
        }
        assert forall|tid: ThreadId| #[trigger]
            k.has_thread(tid) && k.threads[tid as int].task == task implies !(
        k.threads[tid as int].state is BlockedSend) && !(k.threads[tid as int].state
            is BlockedRecv) by {
            if tid < 2 * pairs {
                assert(k.threads[tid as int] == pairs_only.threads[tid as int]);
            }
        }
    }
    crate::authority::law_without_capabilities_every_syscall_is_denied(
        k,
        task,
        rogue,
        max_ops,
        i,
    );
    crate::soundness::lemma_run(k, max_ops);
    crate::history::lemma_run(k, max_ops);
    assert(n.accounted(rogue));
    assert(n.threads[rogue as int].program == program);
    let done = crate::history::deeds(n.trace, rogue);
    if 0 <= i < done.len() {
        assert(crate::history::deeds(k.trace, rogue).len() == 0);
        assert(crate::history::completes(done[i], rogue, program[i]));
    }
}

/// All chance in the stress scenario comes from one stream of numbers, the one of
/// the seed. Each couple takes two draws for each message, the payload and then the
/// label, and two more for the priorities of its threads; the rogue takes one for
/// each of its guesses, after all couples.
pub proof fn law_chance_comes_from_the_seed(
    seed: u64,
    pairs: nat,
    burst: nat,
    pair: int,
    i: nat,
)
    requires
        2 * pairs < u32::MAX,
        0 <= pair < pairs,
    ensures
        ({
            let k = crate::scenario::stress_view(seed, pairs, burst);
            let rng = rng_of(seed, pair, burst);
            let from = (pair * (2 * burst + 2)) as nat;
            let last = pairs * (2 * burst + 2);
            let draw = |n: nat| crate::prng::stream(seed, n);
            &&& crate::scenario::payload(rng, i) == crate::prng::low_byte(draw(from + 2 * i))
            &&& crate::scenario::label(rng, i) == draw(from + 2 * i + 1)
            &&& k.threads[2 * pair].priority == crate::prng::reduce(draw(from + 2 * burst), 4)
            &&& k.threads[2 * pair + 1].priority == crate::prng::reduce(
                draw(from + 2 * burst + 1),
                4,
            )
            &&& crate::scenario::guess(rogue_rng(seed, pairs, burst), i) == 1000
                + crate::prng::reduce(draw(last + i), 1000)
            &&& k.threads[2 * pairs as int].priority == 0
            &&& k.rng == crate::prng::state_after(seed, last + burst)
        }),
{
    let k = crate::scenario::stress_view(seed, pairs, burst);
    let from = (pair * (2 * burst + 2)) as nat;
    let last = pairs * (2 * burst + 2);
    lemma_chance(seed, pair as nat, burst);
    lemma_chance(seed, pairs, burst);
    lemma_priorities(seed, pairs, burst, pair);
    assert(pair * (2 * burst + 2) >= 0) by (nonlinear_arith)
        requires
            pair >= 0,
            burst >= 0,
    ;
    crate::prng::law_a_stream_goes_on(seed, from, 2 * i);
    crate::prng::law_a_stream_goes_on(seed, from, 2 * i + 1);
    crate::prng::law_a_stream_goes_on(seed, from, 2 * burst);
    crate::prng::law_a_stream_goes_on(seed, from, 2 * burst + 1);
    crate::prng::law_a_stream_goes_on(seed, last, i);
    crate::prng::law_a_stream_goes_on(seed, last, burst);
    crate::prng::lemma_reduce_below(crate::prng::stream(seed, last + i), 1000);
    crate::prng::lemma_reduce_below(crate::prng::stream(seed, from + 2 * burst), 4);
    crate::prng::lemma_reduce_below(crate::prng::stream(seed, from + 2 * burst + 1), 4);
    crate::scenario::lemma_stress_sizes(seed, pairs, burst);
    assert(k.threads[2 * pair] == crate::scenario::stressed_pairs(
        seed,
        pairs,
        burst,
    ).threads[2 * pair]);
    assert(k.threads[2 * pair + 1] == crate::scenario::stressed_pairs(
        seed,
        pairs,
        burst,
    ).threads[2 * pair + 1]);
}

/// Where the generator stands after some couples.
proof fn lemma_chance(seed: u64, pairs: nat, burst: nat)
    ensures
        crate::scenario::stressed_pairs(seed, pairs, burst).rng == crate::prng::state_after(
            seed,
            pairs * (2 * burst + 2),
        ),
    decreases pairs,
{
    if pairs > 0 {
        let last = (pairs - 1) as nat;
        lemma_chance(seed, last, burst);
        assert(pairs * (2 * burst + 2) == last * (2 * burst + 2) + (2 * burst + 2))
            by (nonlinear_arith)
            requires
                pairs == last + 1,
        ;
        crate::prng::law_a_stream_goes_on(seed, last * (2 * burst + 2), 2 * burst + 2);
    } else {
        assert(0 * (2 * burst + 2) == 0) by (nonlinear_arith);
    }
}

/// The priorities of a couple are drawn after its messages.
proof fn lemma_priorities(seed: u64, pairs: nat, burst: nat, pair: int)
    requires
        0 <= pair < pairs,
    ensures
        ({
            let k = crate::scenario::stressed_pairs(seed, pairs, burst);
            let rng = rng_of(seed, pair, burst);
            let draw = |n: nat| crate::prng::reduce(crate::prng::stream(rng, n), 4) as u8;
            &&& k.threads[2 * pair].priority == draw(2 * burst)
            &&& k.threads[2 * pair + 1].priority == draw(2 * burst + 1)
        }),
    decreases pairs,
{
    let last = (pairs - 1) as nat;
    let before = crate::scenario::stressed_pairs(seed, last, burst);
    let k = crate::scenario::stressed_pairs(seed, pairs, burst);
    crate::scenario::lemma_stress_sizes(seed, last, burst);
    if pair < last {
        lemma_priorities(seed, last, burst, pair);
        assert(k.threads[2 * pair] == before.threads[2 * pair]);
        assert(k.threads[2 * pair + 1] == before.threads[2 * pair + 1]);
    }
}

/// A couple of the stress scenario is built as it should be: two tasks that bear
/// its number, of which the one may send on the endpoint of the couple and read and
/// write its region, and the other may receive and read, and that is all they may.
pub proof fn law_a_stressed_couple_is_built_of_two(
    seed: u64,
    pairs: nat,
    burst: nat,
    pair: int,
    slot: u32,
)
    requires
        2 * pairs <= u32::MAX,
        0 <= pair < pairs,
    ensures
        ({
            let k = crate::scenario::stressed_pairs(seed, pairs, burst);
            let (from, to) = ((2 * pair) as TaskId, (2 * pair + 1) as TaskId);
            let ep = ObjectRef::Endpoint(pair as EndpointId);
            let region = ObjectRef::Region(pair as RegionId);
            let both = Rights::read().union(Rights::write());
            let cap = |t: TaskId, s: u32| k.held(t, s)->0.cap;
            &&& k.tasks[from as int].name == "producer-"@ + crate::text::decimal(pair as nat)
            &&& k.tasks[to as int].name == "consumer-"@ + crate::text::decimal(pair as nat)
            &&& k.threads[2 * pair].name == k.tasks[from as int].name
            &&& k.threads[2 * pair + 1].name == k.tasks[to as int].name
            &&& k.threads[2 * pair].task == from
            &&& k.threads[2 * pair + 1].task == to
            &&& k.held(from, 0) is Some && cap(from, 0) == (Capability {
                object: ep,
                rights: Rights::send(),
            })
            &&& k.held(from, 1) is Some && cap(from, 1) == (Capability {
                object: region,
                rights: both,
            })
            &&& k.held(to, 0) is Some && cap(to, 0) == (Capability {
                object: ep,
                rights: Rights::recv(),
            })
            &&& k.held(to, 1) is Some && cap(to, 1) == (Capability {
                object: region,
                rights: Rights::read(),
            })
            &&& slot > 1 ==> k.held(from, slot) is None && k.held(to, slot) is None
            &&& k.regions[pair].owner == from
            &&& k.regions[pair].data.len() == 8
            &&& k.sched.policy is RoundRobin
        }),
    decreases pairs,
{
    let last = (pairs - 1) as nat;
    let before = crate::scenario::stressed_pairs(seed, last, burst);
    let k = crate::scenario::stressed_pairs(seed, pairs, burst);
    crate::scenario::lemma_stress_sizes(seed, last, burst);
    crate::scenario::lemma_stress_sizes(seed, pairs, burst);
    if pair < last {
        law_a_stressed_couple_is_built_of_two(seed, last, burst, pair, slot);
        assert(k.threads[2 * pair] == before.threads[2 * pair]);
        assert(k.threads[2 * pair + 1] == before.threads[2 * pair + 1]);
        assert(k.tasks[2 * pair].caps == before.tasks[2 * pair].caps);
        assert(k.tasks[2 * pair + 1].caps == before.tasks[2 * pair + 1].caps);
        assert(k.tasks[2 * pair].name == before.tasks[2 * pair].name);
        assert(k.tasks[2 * pair + 1].name == before.tasks[2 * pair + 1].name);
        assert(k.regions[pair] == before.regions[pair]);
    } else if last > 0 {
        law_a_stressed_couple_is_built_of_two(seed, last, burst, 0, slot);
    }
}

} // verus!
