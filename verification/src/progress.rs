//! The laws of progress and determinism.
//!
//! Every program is finite and every turn of the run loop uses up some of it, so
//! every run comes to rest. A run at rest with unfinished threads is a deadlock:
//! each of them waits at an endpoint. And a run is a function of the state it
//! starts from, nothing else.

use crate::capability::{CapSlot, Rights};
use crate::ipc::{EndpointView, MsgView};
use crate::state::KernelView;
use crate::thread::{OpView, PendingView, ThreadState, ThreadView};
use crate::{EndpointId, TaskId, ThreadId};
use vstd::prelude::*;

verus! {

/// How often a thread that stands at an op is dispatched until it has finished,
/// if it never stays parked: once for each op up to the first exit, and once to
/// run off the end where there is none.
pub open spec fn dispatches_left(program: Seq<OpView>, pc: nat) -> nat
    decreases program.len() - pc,
{
    if pc >= program.len() || program[pc as int] is Exit {
        1
    } else {
        1 + dispatches_left(program, pc + 1)
    }
}

/// How often a thread can still be dispatched. A parked thread has already been
/// dispatched for its current op.
pub open spec fn chores(thread: ThreadView) -> nat {
    match thread.state {
        ThreadState::Exited => 0,
        ThreadState::BlockedSend(_) => dispatches_left(thread.program, thread.pc + 1),
        ThreadState::BlockedRecv(_) => dispatches_left(thread.program, thread.pc + 1),
        _ => dispatches_left(thread.program, thread.pc),
    }
}

/// A program whose only exit is its last op takes one dispatch for each op.
pub proof fn lemma_dispatches_left(program: Seq<OpView>, pc: nat)
    requires
        pc < program.len(),
        program.last() is Exit,
        forall|i: int| 0 <= i < program.len() - 1 ==> !((#[trigger] program[i]) is Exit),
    ensures
        dispatches_left(program, pc) == program.len() - pc,
    decreases program.len() - pc,
{
    if pc + 1 < program.len() {
        lemma_dispatches_left(program, pc + 1);
    }
}

/// How often a row of threads can still be dispatched.
pub open spec fn total_chores(threads: Seq<ThreadView>) -> nat
    decreases threads.len(),
{
    if threads.len() == 0 {
        0
    } else {
        total_chores(threads.drop_last()) + chores(threads.last())
    }
}

impl KernelView {
    /// How many ops a run from here can execute, and does if no thread stays parked.
    pub open spec fn work(self) -> nat {
        total_chores(self.threads)
    }
}

/// Replacing one thread changes the total by its share.
proof fn lemma_total_update(threads: Seq<ThreadView>, i: int, thread: ThreadView)
    requires
        0 <= i < threads.len(),
    ensures
        total_chores(threads.update(i, thread)) == total_chores(threads) - chores(threads[i])
            + chores(thread),
    decreases threads.len(),
{
    let n = threads.update(i, thread);
    if i == threads.len() - 1 {
        assert(n.drop_last() =~= threads.drop_last());
    } else {
        lemma_total_update(threads.drop_last(), i, thread);
        assert(n.drop_last() =~= threads.drop_last().update(i, thread));
    }
}

/// Where two threads change, the total changes by their shares.
proof fn lemma_total_two(was: Seq<ThreadView>, is: Seq<ThreadView>, i: int, j: int)
    requires
        was.len() == is.len(),
        0 <= i < was.len(),
        0 <= j < was.len(),
        i != j,
        forall|u: int|
            0 <= u < was.len() && u != i && u != j ==> (#[trigger] is[u]) == was[u],
    ensures
        total_chores(is) == total_chores(was) - chores(was[i]) - chores(was[j]) + chores(is[i])
            + chores(is[j]),
{
    lemma_total_update(was, i, is[i]);
    lemma_total_update(was.update(i, is[i]), j, is[j]);
    assert(was.update(i, is[i]).update(j, is[j]) =~= is);
}

/// Where one thread changes, the total changes by its share.
proof fn lemma_total_one(was: Seq<ThreadView>, is: Seq<ThreadView>, i: int)
    requires
        was.len() == is.len(),
        0 <= i < was.len(),
        forall|u: int| 0 <= u < was.len() && u != i ==> (#[trigger] is[u]) == was[u],
    ensures
        total_chores(is) == total_chores(was) - chores(was[i]) + chores(is[i]),
{
    lemma_total_update(was, i, is[i]);
    assert(was.update(i, is[i]) =~= is);
}

/// A new thread brings its program as work.
pub proof fn lemma_spawn_work(
    k: KernelView,
    task: TaskId,
    name: Seq<char>,
    priority: u8,
    program: Seq<OpView>,
)
    ensures
        k.spawn_thread(task, name, priority, program).work() == k.work()
            + dispatches_left(program, 0),
{
    let n = k.spawn_thread(task, name, priority, program);
    assert(n.threads.drop_last() =~= k.threads);
}

/// A thread that is ready has something left to do.
proof fn lemma_chores_positive(threads: Seq<ThreadView>, i: int)
    requires
        0 <= i < threads.len(),
    ensures
        total_chores(threads) >= chores(threads[i]),
    decreases threads.len(),
{
    if i < threads.len() - 1 {
        lemma_chores_positive(threads.drop_last(), i);
    }
}

/// A message that meets an endpoint uses up one unit of work.
proof fn lemma_post_work(k: KernelView, tid: ThreadId, ep: EndpointId, msg: PendingView)
    requires
        k.sched_wf(Some(tid)),
        k.has_endpoint(ep),
        k.threads[tid as int].current_op() is Some,
        !(k.threads[tid as int].current_op()->0 is Exit),
    ensures
        k.post(tid, ep, msg).work() + 1 == k.work(),
{
    let n = k.post(tid, ep, msg);
    let endpoint = k.endpoints[ep as int];
    assert(k.endpoint_wf(ep));
    assert(k.thread_wf(tid, Some(tid)));
    if endpoint.receivers.len() > 0 {
        let receiver = endpoint.receivers[0];
        assert(k.threads[receiver as int].state == ThreadState::BlockedRecv(ep));
        assert(k.thread_wf(receiver, Some(tid)));
        lemma_total_two(k.threads, n.threads, tid as int, receiver as int);
    } else {
        lemma_total_one(k.threads, n.threads, tid as int);
    }
}

/// A send uses up work.
proof fn lemma_send_work(
    k: KernelView,
    tid: ThreadId,
    ep_slot: CapSlot,
    msg: MsgView,
    consume_reply: bool,
)
    requires
        k.busy_wf(Some(tid), 1),
        k.send_safe(tid, ep_slot, msg),
        k.threads[tid as int].current_op() is Some,
        !(k.threads[tid as int].current_op()->0 is Exit),
    ensures
        k.do_send(tid, ep_slot, msg, consume_reply).work() + 1 == k.work(),
{
    let n = k.do_send(tid, ep_slot, msg, consume_reply);
    let task = k.threads[tid as int].task;
    let answer = k.resolve(task, ep_slot, "endpoint", Rights::send());
    assert(k.thread_wf(tid, Some(tid)));
    if answer is Ok && k.send_refusal(task, answer->Ok_0, msg.transfer) is None {
        let gone = k.departed(tid, ep_slot, msg.transfer, consume_reply);
        crate::soundness::lemma_departed(k, tid, ep_slot, msg, consume_reply);
        assert(gone.threads[tid as int].state == k.threads[tid as int].state);
        assert forall|u: int| 0 <= u < k.threads.len() && u != tid implies (
        #[trigger] gone.threads[u]) == k.threads[u] by {}
        lemma_total_one(k.threads, gone.threads, tid as int);
        lemma_post_work(gone, tid, answer->Ok_0.number(), k.resolved_msg(task, msg));
    } else {
        lemma_total_one(k.threads, n.threads, tid as int);
    }
}

/// A receive uses up work.
proof fn lemma_recv_work(k: KernelView, tid: ThreadId, ep_slot: CapSlot)
    requires
        k.busy_wf(Some(tid), 1),
        k.recv_safe(tid, ep_slot),
        k.threads[tid as int].current_op() is Some,
        !(k.threads[tid as int].current_op()->0 is Exit),
    ensures
        k.do_recv(tid, ep_slot).work() + 1 == k.work(),
{
    let n = k.do_recv(tid, ep_slot);
    let task = k.threads[tid as int].task;
    let answer = k.reach_endpoint(task, ep_slot, Rights::recv());
    assert(k.thread_wf(tid, Some(tid)));
    if answer is Ok {
        let ep = answer->Ok_0;
        let endpoint = k.endpoints[ep as int];
        assert(k.endpoint_wf(ep));
        if endpoint.senders.len() > 0 {
            let sender = endpoint.senders[0];
            assert(k.threads[sender as int].state == ThreadState::BlockedSend(ep));
            assert(k.thread_wf(sender, Some(tid)));
            lemma_total_two(k.threads, n.threads, tid as int, sender as int);
        } else {
            lemma_total_one(k.threads, n.threads, tid as int);
        }
    } else {
        lemma_total_one(k.threads, n.threads, tid as int);
    }
}

/// A step uses up work.
proof fn lemma_step_work(k: KernelView, tid: ThreadId)
    requires
        k.busy_wf(Some(tid), 1),
        k.step_safe(tid),
    ensures
        k.step(tid).work() + 1 == k.work(),
{
    let n = k.step(tid);
    assert(k.thread_wf(tid, Some(tid)));
    match k.threads[tid as int].current_op() {
        Some(OpView::Send { ep, msg }) => {
            lemma_send_work(k, tid, ep, msg, false);
        },
        Some(OpView::Reply { msg }) => {
            match k.threads[tid as int].reply_to {
                Some(slot) => {
                    lemma_send_work(k, tid, slot, msg, true);
                },
                None => {
                    lemma_total_one(k.threads, n.threads, tid as int);
                },
            }
        },
        Some(OpView::Recv { ep }) => {
            lemma_recv_work(k, tid, ep);
        },
        _ => {
            lemma_total_one(k.threads, n.threads, tid as int);
        },
    }
}

/// One turn of the run loop uses up one unit of work.
pub proof fn law_every_turn_uses_up_work(k: KernelView)
    requires
        k.wf(),
        k.sched.ready.len() > 0,
        k.tick_safe(),
    ensures
        k.tick().work() + 1 == k.work(),
{
    reveal(KernelView::wf);
    let tid = k.next_thread();
    let up = k.take_up();
    let done = up.step(tid);
    crate::soundness::lemma_take_up(k);
    crate::soundness::lemma_step(up, tid);
    lemma_total_one(k.threads, up.threads, tid as int);
    lemma_step_work(up, tid);
    if done.threads[tid as int].state is Running {
        lemma_total_one(done.threads, k.tick().threads, tid as int);
    }
}

/// Every run comes to rest: after as many ops as there is work, no thread is
/// ready any more.
pub proof fn law_every_run_comes_to_rest(k: KernelView, max_ops: nat)
    requires
        k.wf(),
        k.run_safe(max_ops),
        max_ops >= k.work(),
    ensures
        k.run(max_ops).sched.ready.len() == 0,
        k.ops_run(max_ops) <= k.work(),
        k.ops_run(max_ops) + k.run(max_ops).work() == k.work(),
    decreases max_ops,
{
    if k.sched.ready.len() > 0 {
        assert(k.work() > 0) by {
            reveal(KernelView::wf);
            crate::soundness::lemma_take_up(k);
            lemma_chores_positive(k.threads, k.next_thread() as int);
        }
        law_every_turn_uses_up_work(k);
        crate::soundness::lemma_tick(k);
        law_every_run_comes_to_rest(k.tick(), (max_ops - 1) as nat);
    }
}

/// A run that has the machine's limits covered for all the work there is has
/// them covered for any number of ops.
pub proof fn lemma_enough_is_enough(k: KernelView, enough: nat, max_ops: nat)
    requires
        k.wf(),
        k.run_safe(enough),
        enough >= k.work(),
    ensures
        k.run_safe(max_ops),
    decreases max_ops,
{
    if max_ops > 0 && k.sched.ready.len() > 0 {
        assert(k.work() > 0) by {
            reveal(KernelView::wf);
            crate::soundness::lemma_take_up(k);
            lemma_chores_positive(k.threads, k.next_thread() as int);
        }
        law_every_turn_uses_up_work(k);
        crate::soundness::lemma_tick(k);
        lemma_enough_is_enough(k.tick(), (enough - 1) as nat, (max_ops - 1) as nat);
    }
}

/// A thread that is not finished when no thread is ready waits at an endpoint,
/// and nobody waits there on the other side.
pub proof fn law_a_stuck_thread_waits_at_an_endpoint(k: KernelView, tid: ThreadId)
    requires
        k.wf(),
        k.sched.ready.len() == 0,
        k.has_thread(tid),
        !(k.threads[tid as int].state is Exited),
    ensures
        ({
            let state = k.threads[tid as int].state;
            ||| state matches ThreadState::BlockedSend(ep) && k.has_endpoint(ep)
                && k.endpoints[ep as int].receivers.len() == 0
            ||| state matches ThreadState::BlockedRecv(ep) && k.has_endpoint(ep)
                && k.endpoints[ep as int].senders.len() == 0
        }),
{
    reveal(KernelView::wf);
    assert(k.thread_wf(tid, None));
    match k.threads[tid as int].state {
        ThreadState::BlockedSend(ep) => {
            assert(k.endpoint_wf(ep));
        },
        ThreadState::BlockedRecv(ep) => {
            assert(k.endpoint_wf(ep));
        },
        _ => {},
    }
}

// -- determinism --------------------------------------------------------------

/// Running in two stretches is the same as running in one.
pub proof fn law_runs_compose(k: KernelView, first: nat, second: nat)
    ensures
        k.run(first + second) == k.run(first).run(second),
        k.ops_run(first + second) == k.ops_run(first) + k.run(first).ops_run(second),
    decreases first,
{
    if first > 0 && k.sched.ready.len() > 0 {
        law_runs_compose(k.tick(), (first - 1) as nat, second);
        assert((first + second - 1) as nat == (first - 1) as nat + second);
    }
}

/// A run depends on nothing but the state it starts from: equal states lead to
/// equal states, equal traces and equally many ops.
pub proof fn law_runs_are_deterministic(a: KernelView, b: KernelView, max_ops: nat)
    requires
        a == b,
    ensures
        a.run(max_ops) == b.run(max_ops),
        a.run(max_ops).trace == b.run(max_ops).trace,
        a.ops_run(max_ops) == b.ops_run(max_ops),
{
}

/// A run does not even depend on the generator: whatever a seed did not put into
/// the programs makes no difference.
pub proof fn law_runs_ignore_the_generator(k: KernelView, rng: u64, max_ops: nat)
    ensures
        k.with_rng(rng).run(max_ops) == k.run(max_ops).with_rng(rng),
        k.with_rng(rng).run(max_ops).trace == k.run(max_ops).trace,
        k.with_rng(rng).ops_run(max_ops) == k.ops_run(max_ops),
    decreases max_ops,
{
    if max_ops > 0 && k.sched.ready.len() > 0 {
        lemma_tick_ignores_the_generator(k, rng);
        law_runs_ignore_the_generator(k.tick(), rng, (max_ops - 1) as nat);
    }
}

/// One turn does not depend on the generator.
proof fn lemma_tick_ignores_the_generator(k: KernelView, rng: u64)
    ensures
        k.with_rng(rng).tick() == k.tick().with_rng(rng),
{
    let tid = k.next_thread();
    let (a, b) = (k.with_rng(rng).take_up(), k.take_up().with_rng(rng));
    assert(a == b);
    lemma_step_ignores_the_generator(k.take_up(), rng, tid);
}

/// A rendezvous does not depend on the generator.
proof fn lemma_deliver_ignores_the_generator(
    k: KernelView,
    rng: u64,
    sender: ThreadId,
    receiver: ThreadId,
    ep: EndpointId,
    msg: PendingView,
    partner: ThreadId,
)
    ensures
        k.with_rng(rng).deliver(sender, receiver, ep, msg, partner) == k.deliver(
            sender,
            receiver,
            ep,
            msg,
            partner,
        ).with_rng(rng),
{
    if let Some(entry) = msg.cap {
        assert(k.with_rng(rng).arrived(sender, receiver, entry) == k.arrived(
            sender,
            receiver,
            entry,
        ).with_rng(rng));
    }
}

/// A message that meets an endpoint does not depend on the generator.
proof fn lemma_post_ignores_the_generator(
    k: KernelView,
    rng: u64,
    tid: ThreadId,
    ep: EndpointId,
    msg: PendingView,
)
    ensures
        k.with_rng(rng).post(tid, ep, msg) == k.post(tid, ep, msg).with_rng(rng),
{
    let endpoint = k.endpoints[ep as int];
    if endpoint.receivers.len() > 0 {
        let popped = EndpointView { receivers: endpoint.receivers.drop_first(), ..endpoint };
        let first = endpoint.receivers[0];
        let m = k.with_endpoint(ep, popped);
        assert(k.with_rng(rng).with_endpoint(ep, popped) == m.with_rng(rng));
        lemma_deliver_ignores_the_generator(m, rng, tid, first, ep, msg, first);
    }
}

/// A send does not depend on the generator.
proof fn lemma_send_ignores_the_generator(
    k: KernelView,
    rng: u64,
    tid: ThreadId,
    ep_slot: CapSlot,
    msg: MsgView,
    consume_reply: bool,
)
    ensures
        k.with_rng(rng).do_send(tid, ep_slot, msg, consume_reply) == k.do_send(
            tid,
            ep_slot,
            msg,
            consume_reply,
        ).with_rng(rng),
{
    let other = k.with_rng(rng);
    let task = k.threads[tid as int].task;
    let answer = k.resolve(task, ep_slot, "endpoint", Rights::send());
    assert(other.resolve(task, ep_slot, "endpoint", Rights::send()) == answer);
    assert(other.transfer_refusal(task, msg.transfer) == k.transfer_refusal(task, msg.transfer));
    assert(other.resolved_msg(task, msg) == k.resolved_msg(task, msg));
    if answer is Ok && k.send_refusal(task, answer->Ok_0, msg.transfer) is None {
        let gone = k.departed(tid, ep_slot, msg.transfer, consume_reply);
        assert(other.departed(tid, ep_slot, msg.transfer, consume_reply) == gone.with_rng(rng));
        lemma_post_ignores_the_generator(
            gone,
            rng,
            tid,
            answer->Ok_0.number(),
            k.resolved_msg(task, msg),
        );
    }
}

/// A receive does not depend on the generator.
proof fn lemma_recv_ignores_the_generator(
    k: KernelView,
    rng: u64,
    tid: ThreadId,
    ep_slot: CapSlot,
)
    ensures
        k.with_rng(rng).do_recv(tid, ep_slot) == k.do_recv(tid, ep_slot).with_rng(rng),
{
    let other = k.with_rng(rng);
    let task = k.threads[tid as int].task;
    let answer = k.reach_endpoint(task, ep_slot, Rights::recv());
    assert(other.resolve(task, ep_slot, "endpoint", Rights::recv()) == k.resolve(
        task,
        ep_slot,
        "endpoint",
        Rights::recv(),
    ));
    assert(other.reach_endpoint(task, ep_slot, Rights::recv()) == answer);
    if answer is Ok {
        let ep = answer->Ok_0;
        let endpoint = k.endpoints[ep as int];
        if endpoint.senders.len() > 0 {
            let sender = endpoint.senders[0];
            let popped = EndpointView { senders: endpoint.senders.drop_first(), ..endpoint };
            let m = k.with_endpoint(ep, popped).with_thread(
                sender,
                k.threads[sender as int].relieved(),
            );
            assert(other.with_endpoint(ep, popped).with_thread(
                sender,
                k.threads[sender as int].relieved(),
            ) == m.with_rng(rng));
            lemma_deliver_ignores_the_generator(
                m,
                rng,
                sender,
                tid,
                ep,
                k.threads[sender as int].pending->0,
                sender,
            );
        }
    }
}

/// A memory access does not depend on the generator.
proof fn lemma_access_ignores_the_generator(
    k: KernelView,
    rng: u64,
    tid: ThreadId,
    mem: CapSlot,
    offset: usize,
    value: u8,
)
    ensures
        k.with_rng(rng).do_read(tid, mem, offset) == k.do_read(tid, mem, offset).with_rng(rng),
        k.with_rng(rng).do_write(tid, mem, offset, value) == k.do_write(
            tid,
            mem,
            offset,
            value,
        ).with_rng(rng),
{
    let other = k.with_rng(rng);
    let task = k.threads[tid as int].task;
    assert(other.resolve(task, mem, "region", Rights::read()) == k.resolve(
        task,
        mem,
        "region",
        Rights::read(),
    ));
    assert(other.resolve(task, mem, "region", Rights::write()) == k.resolve(
        task,
        mem,
        "region",
        Rights::write(),
    ));
    assert(other.region_id(tid, mem) == k.region_id(tid, mem));
}

/// One step does not depend on the generator.
proof fn lemma_step_ignores_the_generator(k: KernelView, rng: u64, tid: ThreadId)
    ensures
        k.with_rng(rng).step(tid) == k.step(tid).with_rng(rng),
{
    match k.threads[tid as int].current_op() {
        Some(OpView::Read { mem, offset }) => {
            lemma_access_ignores_the_generator(k, rng, tid, mem, offset, 0);
        },
        Some(OpView::Write { mem, offset, value }) => {
            lemma_access_ignores_the_generator(k, rng, tid, mem, offset, value);
        },
        Some(OpView::Send { ep, msg }) => {
            lemma_send_ignores_the_generator(k, rng, tid, ep, msg, false);
        },
        Some(OpView::Reply { msg }) => {
            if let Some(slot) = k.threads[tid as int].reply_to {
                lemma_send_ignores_the_generator(k, rng, tid, slot, msg, true);
            }
        },
        Some(OpView::Recv { ep }) => {
            lemma_recv_ignores_the_generator(k, rng, tid, ep);
        },
        _ => {},
    }
}

} // verus!
