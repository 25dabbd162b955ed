//! The law of the guided demo.
//!
//! The demo tells one story: the app asks the filesystem for a file and hands
//! over a reply capability, the filesystem publishes the file in the shared
//! buffer and answers, the app reads the buffer and prints, and its two illegal
//! moves are denied. Here the story is followed turn by turn.

use crate::capability::{CapSlot, Capability, ObjectRef, Rights};
use crate::error::KernelError;
use crate::scheduler::Policy;
use crate::state::KernelView;
use crate::thread::{OpView, ThreadState};
use crate::trace::EventView;
use crate::{EndpointId, TaskId, ThreadId};
use vstd::prelude::*;

verus! {

/// How many events of each kind a trace holds.
#[verifier::ext_equal]
pub struct Counts {
    /// Messages delivered.
    pub rendezvous: nat,
    /// Capabilities moved.
    pub transfers: nat,
    /// Syscalls denied.
    pub denials: nat,
    /// Bytes read.
    pub reads: nat,
    /// Bytes written.
    pub writes: nat,
}

/// How many events of each kind a trace holds.
pub open spec fn counts(trace: Seq<EventView>) -> Counts {
    Counts {
        rendezvous: crate::state::tally(trace, |e: EventView| e is Rendezvous),
        transfers: crate::state::tally(trace, |e: EventView| e is CapTransfer),
        denials: crate::state::tally(trace, |e: EventView| e is Denied),
        reads: crate::state::tally(trace, |e: EventView| e is MemRead),
        writes: crate::state::tally(trace, |e: EventView| e is MemWrite),
    }
}

/// The counts with one more event.
pub open spec fn bump(was: Counts, event: EventView) -> Counts {
    match event {
        EventView::Rendezvous { .. } => Counts { rendezvous: was.rendezvous + 1, ..was },
        EventView::CapTransfer { .. } => Counts { transfers: was.transfers + 1, ..was },
        EventView::Denied { .. } => Counts { denials: was.denials + 1, ..was },
        EventView::MemRead { .. } => Counts { reads: was.reads + 1, ..was },
        EventView::MemWrite { .. } => Counts { writes: was.writes + 1, ..was },
        _ => was,
    }
}

/// The memory accesses on record, in order.
pub open spec fn accesses(trace: Seq<EventView>) -> Seq<EventView>
    decreases trace.len(),
{
    if trace.len() == 0 {
        Seq::empty()
    } else {
        let before = accesses(trace.drop_last());
        let event = trace.last();
        if event is MemRead || event is MemWrite {
            before.push(event)
        } else {
            before
        }
    }
}

/// The accesses of the demo: the filesystem publishes the two bytes of the file
/// in the shared region, and the app reads them back.
pub open spec fn file_story() -> Seq<EventView> {
    seq![
        EventView::MemWrite { thread: 0, region: 0, offset: 0, value: 0x48 },
        EventView::MemWrite { thread: 0, region: 0, offset: 1, value: 0x49 },
        EventView::MemRead { thread: 2, region: 0, offset: 0, value: 0x48 },
        EventView::MemRead { thread: 2, region: 0, offset: 1, value: 0x49 },
    ]
}

/// What is worked, said, handed over and refused on record, in order.
pub open spec fn talk(trace: Seq<EventView>) -> Seq<EventView>
    decreases trace.len(),
{
    if trace.len() == 0 {
        Seq::empty()
    } else {
        let before = talk(trace.drop_last());
        if is_talk(trace.last()) {
            before.push(trace.last())
        } else {
            before
        }
    }
}

/// Whether an event is work, a message, a transfer or a refusal.
pub open spec fn is_talk(event: EventView) -> bool {
    event is Compute || event is Rendezvous || event is CapTransfer || event is Denied
}

/// The talk of the demo: the app thinks and asks for the file, with a reply
/// capability; the filesystem works and answers; the app prints; the console works;
/// and the two illegal moves of the app are refused.
pub open spec fn talk_story() -> Seq<EventView> {
    seq![
        EventView::Compute { thread: 2, cycles: 3 },
        EventView::Rendezvous { sender: 2, receiver: 0, endpoint: 0, label: 1, bytes: 11 },
        EventView::CapTransfer {
            from: 2,
            to: 0,
            object: ObjectRef::Endpoint(2),
            rights: Rights::send().union(Rights::grant()),
            new_slot: 3,
        },
        EventView::Compute { thread: 0, cycles: 5 },
        EventView::Rendezvous { sender: 0, receiver: 2, endpoint: 2, label: 2, bytes: 2 },
        EventView::Rendezvous { sender: 2, receiver: 1, endpoint: 1, label: 9, bytes: 2 },
        EventView::Compute { thread: 1, cycles: 1 },
        EventView::Denied {
            thread: 2,
            syscall: "read"@,
            reason: (KernelError::NoSuchCapability { slot: 99 }).text(),
        },
        EventView::Denied {
            thread: 2,
            syscall: "send"@,
            reason: (KernelError::WrongObject { slot: 3, expected: "endpoint" }).text(),
        },
    ]
}

/// One more event counts for one of its kind, and is an access or none, and talk
/// or none.
proof fn lemma_counts_push()
    ensures
        forall|trace: Seq<EventView>, event: EventView| #[trigger]
            talk(trace.push(event)) == if is_talk(event) {
                talk(trace).push(event)
            } else {
                talk(trace)
            },
        forall|trace: Seq<EventView>, event: EventView| #[trigger]
            accesses(trace.push(event)) == if event is MemRead || event is MemWrite {
                accesses(trace).push(event)
            } else {
                accesses(trace)
            },
        forall|trace: Seq<EventView>, event: EventView| #[trigger]
            counts(trace.push(event)) == bump(counts(trace), event),
{
    assert forall|trace: Seq<EventView>, event: EventView| #[trigger]
        talk(trace.push(event)) == if is_talk(event) {
            talk(trace).push(event)
        } else {
            talk(trace)
        } by {
        assert(trace.push(event).drop_last() =~= trace);
    }
    assert forall|trace: Seq<EventView>, event: EventView| #[trigger]
        accesses(trace.push(event)) == if event is MemRead || event is MemWrite {
            accesses(trace).push(event)
        } else {
            accesses(trace)
        } by {
        assert(trace.push(event).drop_last() =~= trace);
    }
    assert forall|trace: Seq<EventView>, event: EventView| #[trigger]
        counts(trace.push(event)) == bump(counts(trace), event) by {
        assert(trace.push(event).drop_last() =~= trace);
        assert(counts(trace.push(event)) =~= bump(counts(trace), event));
    }
}

/// Where a thread of the demo is: at which op, and in which state.
#[verifier::ext_equal]
pub struct Role {
    /// The op.
    pub pc: nat,
    /// The state.
    pub state: ThreadState,
}

/// A moment of the demo.
#[verifier::ext_equal]
pub struct Scene {
    /// The threads that are ready, oldest first.
    pub ready: Seq<ThreadId>,
    /// The filesystem worker.
    pub fs: Role,
    /// The console worker.
    pub con: Role,
    /// The app.
    pub app: Role,
    /// What is on record.
    pub counts: Counts,
    /// The time.
    pub clock: nat,
}

impl Scene {
    /// Whether the reply capability has left the app.
    pub open spec fn asked(self) -> bool {
        self.app.pc > 1
    }

    /// Whether the reply capability has been used.
    pub open spec fn answered(self) -> bool {
        self.fs.pc > 4
    }

    /// How much of the talk is on record.
    pub open spec fn said(self) -> int {
        let one = |done: bool|
            if done {
                1int
            } else {
                0int
            };
        self.counts.rendezvous + self.counts.transfers + self.counts.denials + one(self.app.pc > 0)
            + one(self.fs.pc > 1) + one(self.con.pc > 1)
    }

    /// Where a thread is.
    pub open spec fn role(self, tid: ThreadId) -> Role {
        if tid == 0 {
            self.fs
        } else if tid == 1 {
            self.con
        } else {
            self.app
        }
    }

    /// The moment with one thread elsewhere.
    pub open spec fn with_role(self, tid: ThreadId, role: Role) -> Scene {
        if tid == 0 {
            Scene { fs: role, ..self }
        } else if tid == 1 {
            Scene { con: role, ..self }
        } else {
            Scene { app: role, ..self }
        }
    }
}

/// Whether a thread is where its role says.
pub open spec fn plays(k: KernelView, s: Scene, tid: ThreadId) -> bool {
    let thread = k.threads[tid as int];
    let role = s.role(tid);
    &&& thread.task == tid
    &&& thread.priority == 0
    &&& thread.pc == role.pc
    &&& thread.state == role.state
    &&& thread.pending is None
    &&& thread.cycles <= 100 * role.pc
    &&& thread.program == if tid == 0 {
        crate::scenario::filesystem_program()
    } else if tid == 1 {
        crate::scenario::console_program()
    } else {
        crate::scenario::client_program()
    }
    &&& thread.reply_to == if tid == 0 && s.asked() && !s.answered() {
        Some(3u32)
    } else {
        None
    }
    &&& k.endpoints[tid as int].senders.len() == 0
    &&& k.endpoints[tid as int].receivers == if role.state == ThreadState::BlockedRecv(tid) {
        seq![tid]
    } else {
        Seq::empty()
    }
}

/// Whether the tasks of the demo hold what they need.
pub open spec fn equipped(k: KernelView, s: Scene) -> bool {
    &&& k.holds(0, 0, ObjectRef::Endpoint(0), Rights::recv())
    &&& k.holds(0, 1, ObjectRef::Region(0), Rights::write())
    &&& k.holds(1, 0, ObjectRef::Endpoint(1), Rights::recv())
    &&& k.holds(2, 0, ObjectRef::Endpoint(0), Rights::send())
    &&& k.holds(2, 1, ObjectRef::Endpoint(2), Rights::recv())
    &&& k.holds(2, 3, ObjectRef::Region(0), Rights::read())
    &&& k.holds(2, 4, ObjectRef::Endpoint(1), Rights::send())
    &&& k.held(2, 99) is None
    &&& k.table(0).next <= 4
    &&& !s.asked() ==> {
        &&& k.table(0).next == 3
        &&& k.holds(2, 2, ObjectRef::Endpoint(2), Rights::send())
        &&& k.holds(2, 2, ObjectRef::Endpoint(2), Rights::grant())
        &&& k.held(2, 2)->0.cap.rights == Rights::send().union(Rights::grant())
    }
    &&& s.asked() ==> k.held(2, 2) is None
    &&& s.asked() && !s.answered() ==> k.holds(0, 3, ObjectRef::Endpoint(2), Rights::send())
    &&& s.answered() ==> k.held(0, 3) is None
}

/// Whether the demo is at a moment.
#[verifier::opaque]
pub open spec fn scene(k: KernelView, s: Scene) -> bool {
    &&& k.wf()
    &&& k.sched.policy is RoundRobin
    &&& k.sched.ready == s.ready.map_values(|tid: ThreadId| (tid, 0u8))
    &&& k.clock == s.clock
    &&& s.clock < 100
    &&& k.tasks.len() == 3
    &&& k.threads.len() == 3
    &&& k.endpoints.len() == 3
    &&& k.regions.len() == 2
    &&& k.regions[0].data.len() == 16
    &&& s.fs.pc > 2 ==> k.regions[0].data[0] == 0x48
    &&& s.fs.pc > 3 ==> k.regions[0].data[1] == 0x49
    &&& accesses(k.trace) == file_story().take((s.counts.writes + s.counts.reads) as int)
    &&& talk(k.trace) == talk_story().take(s.said())
    &&& plays(k, s, 0)
    &&& plays(k, s, 1)
    &&& plays(k, s, 2)
    &&& equipped(k, s)
    &&& counts(k.trace) == s.counts
}

/// The queue after the first thread had its turn and goes on.
pub open spec fn rotated(ready: Seq<ThreadId>) -> Seq<ThreadId> {
    ready.drop_first().push(ready[0])
}

/// A thread one op further, and ready.
pub open spec fn onwards(role: Role) -> Role {
    Role { pc: role.pc + 1, state: ThreadState::Ready }
}

/// The thread that is next.
proof fn lemma_next(k: KernelView, s: Scene)
    requires
        scene(k, s),
        s.ready.len() > 0,
        s.clock < 99,
    ensures
        k.next_thread() == s.ready[0],
        s.ready[0] < 3,
        k.threads[s.ready[0] as int].state is Ready,
{
    reveal(scene);
    assert(k.sched.ready[0] == (s.ready[0], 0u8));
    reveal(KernelView::wf);
    crate::soundness::lemma_take_up(k);
}

/// What a turn leaves in order by itself.
proof fn lemma_kept(k: KernelView)
    requires
        k.wf(),
        k.sched.ready.len() > 0,
        k.tick_safe(),
    ensures
        k.tick().wf(),
{
    crate::soundness::lemma_tick(k);
}

/// What an op that involves nobody else leaves on record.
pub open spec fn quiet_outcome(tid: ThreadId, pc: nat, was: Counts) -> Option<Counts> {
    if tid == 0 && pc == 1 || tid == 1 && pc == 1 || tid == 2 && pc == 0 {
        Some(was)
    } else if tid == 0 && (pc == 2 || pc == 3) {
        Some(Counts { writes: was.writes + 1, ..was })
    } else if tid == 2 && (pc == 3 || pc == 4) {
        Some(Counts { reads: was.reads + 1, ..was })
    } else if tid == 2 && (pc == 6 || pc == 7) {
        Some(Counts { denials: was.denials + 1, ..was })
    } else {
        None
    }
}

/// A turn that involves nobody else.
pub open spec fn quiet(s: Scene) -> Scene {
    let tid = s.ready[0];
    Scene {
        ready: rotated(s.ready),
        clock: s.clock + 1,
        counts: quiet_outcome(tid, s.role(tid).pc, s.counts)->0,
        ..s.with_role(tid, onwards(s.role(tid)))
    }
}

/// Whether everything comes when the story has it: the file is published byte by
/// byte, and then read byte by byte, and nobody talks out of turn.
pub open spec fn in_turn(s: Scene) -> bool {
    let tid = s.ready[0];
    let pc = s.role(tid).pc;
    let (writes, reads) = (s.counts.writes, s.counts.reads);
    &&& tid == 0 && pc == 2 ==> writes == 0 && reads == 0
    &&& tid == 0 && pc == 3 ==> writes == 1 && reads == 0
    &&& tid == 2 && pc == 3 ==> writes == 2 && reads == 0 && s.fs.pc > 3
    &&& tid == 2 && pc == 4 ==> writes == 2 && reads == 1 && s.fs.pc > 3
    &&& tid == 2 && pc == 0 ==> s.said() == 0
    &&& tid == 2 && pc == 1 ==> s.said() == 1
    &&& tid == 0 && pc == 1 ==> s.said() == 3
    &&& tid == 0 && pc == 4 ==> s.said() == 4
    &&& tid == 2 && pc == 5 ==> s.said() == 5
    &&& tid == 1 && pc == 1 ==> s.said() == 6
    &&& tid == 2 && pc == 6 ==> s.said() == 7
    &&& tid == 2 && pc == 7 ==> s.said() == 8
}

/// One more thing said.
proof fn lemma_talk_step(said: int)
    ensures
        0 <= said < 9 ==> talk_story().take(said + 1) == talk_story().take(said).push(
            talk_story()[said],
        ),
{
    if 0 <= said < 9 {
        assert(talk_story().take(said + 1) =~= talk_story().take(said).push(talk_story()[said]));
    }
}

/// A turn that involves nobody else.
proof fn lemma_quiet(k: KernelView, s: Scene)
    requires
        scene(k, s),
        s.ready.len() > 0,
        s.clock < 99,
        quiet_outcome(s.ready[0], s.role(s.ready[0]).pc, s.counts) is Some,
        in_turn(s),
    ensures
        k.tick_safe(),
        scene(k.tick(), quiet(s)),
{
    reveal(scene);
    let n = k.tick();
    let up = k.take_up();
    let tid = s.ready[0];
    lemma_next(k, s);
    lemma_counts_push();
    let thread = k.threads[tid as int];
    if tid == 0 && s.fs.pc == 1 {
        assert(thread.current_op() == Some(OpView::Compute(5)));
    } else if tid == 1 {
        assert(thread.current_op() == Some(OpView::Compute(1)));
    } else if tid == 2 && s.app.pc == 0 {
        assert(thread.current_op() == Some(OpView::Compute(3)));
    } else if tid == 0 {
        let offset = if s.fs.pc == 2 {
            0usize
        } else {
            1usize
        };
        let value = if s.fs.pc == 2 {
            0x48u8
        } else {
            0x49u8
        };
        assert(thread.current_op() == Some(OpView::Write { mem: 1, offset, value }));
        assert(up.resolve(0, 1, "region", Rights::write()) == Ok::<ObjectRef, KernelError>(
            ObjectRef::Region(0),
        ));
        assert(up.regions == k.regions);
    } else if s.app.pc == 3 || s.app.pc == 4 {
        let offset = if s.app.pc == 3 {
            0usize
        } else {
            1usize
        };
        assert(thread.current_op() == Some(OpView::Read { mem: 3, offset }));
        assert(up.resolve(2, 3, "region", Rights::read()) == Ok::<ObjectRef, KernelError>(
            ObjectRef::Region(0),
        ));
        assert(up.regions == k.regions);
        assert(up.sys_read(2, 3, offset) == Ok::<u8, KernelError>(
            k.regions[0].data[offset as int],
        ));
    } else if s.app.pc == 6 {
        assert(thread.current_op() == Some(OpView::Read { mem: 99, offset: 0 }));
        assert(up.held(2, 99) is None);
        assert(up.sys_read(2, 99, 0) is Err);
    } else {
        assert(thread.current_op() is Some && thread.current_op()->0 is Send
            && thread.current_op()->0->Send_ep == 3);
        reveal_strlit("endpoint");
        reveal_strlit("region");
        assert("endpoint"@.len() != "region"@.len());
        assert(up.resolve(2, 3, "endpoint", Rights::send()) is Err);
    }
    assert(k.tick_safe());
    lemma_kept(k);
    assert(n.sched.ready =~= rotated(s.ready).map_values(|tid: ThreadId| (tid, 0u8)));
    assert(n.tasks == k.tasks);
    assert(n.endpoints == k.endpoints);
    assert(n.threads =~= k.threads.update(tid as int, n.threads[tid as int]));
    let count = (s.counts.writes + s.counts.reads) as int;
    if count < 4 {
        assert(file_story().take(count + 1) =~= file_story().take(count).push(file_story()[count]));
    }
    lemma_talk_step(s.said());
}

/// A turn in which a thread finishes.
pub open spec fn finished(s: Scene) -> Scene {
    let tid = s.ready[0];
    Scene {
        ready: s.ready.drop_first(),
        clock: s.clock + 1,
        ..s.with_role(tid, Role { state: ThreadState::Exited, ..s.role(tid) })
    }
}

/// A turn in which a thread finishes.
proof fn lemma_finish(k: KernelView, s: Scene)
    requires
        scene(k, s),
        s.ready.len() > 0,
        s.clock < 99,
        s.ready[0] == 0 ==> s.fs.pc == 5,
        s.ready[0] == 1 ==> s.con.pc == 2,
        s.ready[0] == 2 ==> s.app.pc == 8,
    ensures
        k.tick_safe(),
        scene(k.tick(), finished(s)),
{
    reveal(scene);
    let n = k.tick();
    let tid = s.ready[0];
    lemma_next(k, s);
    lemma_counts_push();
    assert(k.threads[tid as int].current_op() == Some(OpView::Exit));
    lemma_kept(k);
    assert(n.sched.ready =~= s.ready.drop_first().map_values(|tid: ThreadId| (tid, 0u8)));
}

/// A turn in which a thread comes to wait for a message.
pub open spec fn waiting(s: Scene) -> Scene {
    let tid = s.ready[0];
    Scene {
        ready: s.ready.drop_first(),
        clock: s.clock + 1,
        ..s.with_role(tid, Role { state: ThreadState::BlockedRecv(tid), ..s.role(tid) })
    }
}

/// A turn in which a thread comes to wait for a message.
proof fn lemma_wait(k: KernelView, s: Scene)
    requires
        scene(k, s),
        s.ready.len() > 0,
        s.clock < 99,
        s.ready[0] == 0 ==> s.fs.pc == 0,
        s.ready[0] == 1 ==> s.con.pc == 0,
        s.ready[0] == 2 ==> s.app.pc == 2,
    ensures
        k.tick_safe(),
        scene(k.tick(), waiting(s)),
{
    reveal(scene);
    let n = k.tick();
    let up = k.take_up();
    let tid = s.ready[0];
    let slot = if tid == 2 {
        1u32
    } else {
        0u32
    };
    lemma_next(k, s);
    lemma_counts_push();
    assert(k.threads[tid as int].current_op() == Some(OpView::Recv { ep: slot }));
    assert(up.resolve(tid, slot, "endpoint", Rights::recv()) == Ok::<ObjectRef, KernelError>(
        ObjectRef::Endpoint(tid),
    ));
    assert(up.endpoints == k.endpoints);
    assert(k.tick_safe());
    lemma_kept(k);
    assert(n.sched.ready =~= s.ready.drop_first().map_values(|tid: ThreadId| (tid, 0u8)));
    assert(n.endpoints[tid as int].receivers =~= seq![tid]);
}

/// A turn in which a message reaches a thread that waits for it.
pub open spec fn told(s: Scene, to: ThreadId, counts: Counts) -> Scene {
    let tid = s.ready[0];
    Scene {
        ready: s.ready.drop_first().push(to).push(tid),
        clock: s.clock + 1,
        counts,
        ..s.with_role(tid, onwards(s.role(tid))).with_role(to, onwards(s.role(to)))
    }
}

/// The turn in which the app prints.
proof fn lemma_print(k: KernelView, s: Scene)
    requires
        scene(k, s),
        s.ready.len() > 0,
        s.clock < 99,
        in_turn(s),
        s.ready[0] == 2,
        s.app.pc == 5,
        s.con.pc == 0,
        s.con.state == ThreadState::BlockedRecv(1),
    ensures
        k.tick_safe(),
        scene(k.tick(), told(s, 1, Counts { rendezvous: s.counts.rendezvous + 1, ..s.counts })),
{
    reveal(scene);
    let n = k.tick();
    let up = k.take_up();
    lemma_next(k, s);
    lemma_counts_push();
    lemma_talk_step(s.said());
    let op = k.threads[2].current_op();
    assert(op is Some && op->0 is Send && op->0->Send_ep == 4 && op->0->Send_msg.transfer is None);
    assert(up.resolve(2, 4, "endpoint", Rights::send()) == Ok::<ObjectRef, KernelError>(
        ObjectRef::Endpoint(1),
    ));
    assert(up.endpoints == k.endpoints);
    assert(k.tick_safe());
    lemma_kept(k);
    assert(n.sched.ready =~= s.ready.drop_first().push(1u32).push(2u32).map_values(
        |tid: ThreadId| (tid, 0u8),
    ));
    assert(n.endpoints[1].receivers =~= Seq::empty());
    assert(n.tasks == k.tasks);
}

/// The turn in which the app asks and hands over the reply capability.
proof fn lemma_ask(k: KernelView, s: Scene)
    requires
        scene(k, s),
        s.ready.len() > 0,
        s.clock < 99,
        in_turn(s),
        s.ready[0] == 2,
        s.app.pc == 1,
        s.fs.pc == 0,
        s.fs.state == ThreadState::BlockedRecv(0),
    ensures
        k.tick_safe(),
        scene(
            k.tick(),
            told(
                s,
                0,
                Counts {
                    rendezvous: s.counts.rendezvous + 1,
                    transfers: s.counts.transfers + 1,
                    ..s.counts
                },
            ),
        ),
{
    reveal(scene);
    let n = k.tick();
    let up = k.take_up();
    lemma_next(k, s);
    lemma_counts_push();
    lemma_talk_step(s.said());
    lemma_talk_step(s.said() + 1);
    let op = k.threads[2].current_op();
    assert(op is Some && op->0 is Send && op->0->Send_ep == 0 && op->0->Send_msg.transfer == Some(
        2u32,
    ));
    assert(up.resolve(2, 0, "endpoint", Rights::send()) == Ok::<ObjectRef, KernelError>(
        ObjectRef::Endpoint(0),
    ));
    assert(up.endpoints == k.endpoints);
    assert(up.transfer_refusal(2, Some(2u32)) is None);
    assert(k.tick_safe());
    lemma_kept(k);
    assert(n.sched.ready =~= s.ready.drop_first().push(0u32).push(2u32).map_values(
        |tid: ThreadId| (tid, 0u8),
    ));
    assert(n.endpoints[0].receivers =~= Seq::empty());
    assert(n.held(0, 3) == k.held(2, 2));
}

/// The turn in which the filesystem answers through the reply capability.
proof fn lemma_answer(k: KernelView, s: Scene)
    requires
        scene(k, s),
        s.ready.len() > 0,
        s.clock < 99,
        in_turn(s),
        s.ready[0] == 0,
        s.fs.pc == 4,
        s.app.pc == 2,
        s.app.state == ThreadState::BlockedRecv(2),
    ensures
        k.tick_safe(),
        scene(k.tick(), told(s, 2, Counts { rendezvous: s.counts.rendezvous + 1, ..s.counts })),
{
    reveal(scene);
    let n = k.tick();
    let up = k.take_up();
    lemma_next(k, s);
    lemma_counts_push();
    lemma_talk_step(s.said());
    let op = k.threads[0].current_op();
    assert(op is Some && op->0 is Reply && op->0->Reply_msg.transfer is None);
    assert(up.threads[0].reply_to == Some(3u32));
    assert(up.resolve(0, 3, "endpoint", Rights::send()) == Ok::<ObjectRef, KernelError>(
        ObjectRef::Endpoint(2),
    ));
    assert(up.endpoints == k.endpoints);
    assert(k.tick_safe());
    lemma_kept(k);
    assert(n.sched.ready =~= s.ready.drop_first().push(2u32).push(0u32).map_values(
        |tid: ThreadId| (tid, 0u8),
    ));
    assert(n.endpoints[2].receivers =~= Seq::empty());
}

/// A thread that is ready at an op.
pub open spec fn ready_at(pc: nat) -> Role {
    Role { pc, state: ThreadState::Ready }
}

/// A thread that waits for a message.
pub open spec fn waits_at(pc: nat, ep: EndpointId) -> Role {
    Role { pc, state: ThreadState::BlockedRecv(ep) }
}

/// A thread that has finished.
pub open spec fn done_at(pc: nat) -> Role {
    Role { pc, state: ThreadState::Exited }
}

/// So many messages, transfers, denials, reads and writes.
pub open spec fn tallied(
    rendezvous: nat,
    transfers: nat,
    denials: nat,
    reads: nat,
    writes: nat,
) -> Counts {
    Counts { rendezvous, transfers, denials, reads, writes }
}

/// The opening: everybody is ready.
pub open spec fn opening() -> Scene {
    Scene {
        ready: seq![0u32, 1u32, 2u32],
        fs: ready_at(0),
        con: ready_at(0),
        app: ready_at(0),
        counts: tallied(0, 0, 0, 0, 0),
        clock: 0,
    }
}

/// The middle: the request is with the filesystem, the others wait.
pub open spec fn asked_moment() -> Scene {
    Scene {
        ready: seq![0u32],
        fs: ready_at(2),
        con: waits_at(0, 1),
        app: waits_at(2, 2),
        counts: tallied(1, 1, 0, 0, 0),
        clock: 6,
    }
}

/// The file was read, and the filesystem is done.
pub open spec fn answered_moment() -> Scene {
    Scene {
        ready: seq![2u32],
        fs: done_at(5),
        con: waits_at(0, 1),
        app: ready_at(5),
        counts: tallied(2, 1, 0, 2, 2),
        clock: 12,
    }
}

/// The ending: everybody has finished.
pub open spec fn ending() -> Scene {
    Scene {
        ready: Seq::empty(),
        fs: done_at(5),
        con: done_at(2),
        app: done_at(8),
        counts: tallied(3, 1, 2, 2, 2),
        clock: 18,
    }
}

/// Whether a state comes about after a number of ops, whatever the limit.
#[verifier::opaque]
pub open spec fn leads(k: KernelView, n: KernelView, steps: nat) -> bool {
    forall|limit: nat|
        limit >= steps ==> {
            &&& (#[trigger] k.run(limit)) == n.run((limit - steps) as nat)
            &&& k.ops_run(limit) == steps + n.ops_run((limit - steps) as nat)
            &&& n.run_safe((limit - steps) as nat) ==> k.run_safe(limit)
        }
}

/// One more turn.
proof fn lemma_leads(start: KernelView, k: KernelView, steps: nat)
    requires
        leads(start, k, steps),
        k.sched.ready.len() > 0,
        k.tick_safe(),
    ensures
        leads(start, k.tick(), steps + 1),
{
    reveal(leads);
    let n = k.tick();
    assert forall|limit: nat| limit >= steps + 1 implies {
        &&& (#[trigger] start.run(limit)) == n.run((limit - (steps + 1)) as nat)
        &&& start.ops_run(limit) == steps + 1 + n.ops_run((limit - (steps + 1)) as nat)
        &&& n.run_safe((limit - (steps + 1)) as nat) ==> start.run_safe(limit)
    } by {
        let left = (limit - steps) as nat;
        assert(start.run(limit) == k.run(left));
        assert(k.run(left) == n.run((left - 1) as nat));
    }
}

/// The moment after the next turn.
pub open spec fn next_scene(s: Scene) -> Scene {
    let tid = s.ready[0];
    let pc = s.role(tid).pc;
    let met = Counts { rendezvous: s.counts.rendezvous + 1, ..s.counts };
    if quiet_outcome(tid, pc, s.counts) is Some {
        quiet(s)
    } else if tid == 0 && pc == 5 || tid == 1 && pc == 2 || tid == 2 && pc == 8 {
        finished(s)
    } else if tid == 0 && pc == 0 || tid == 1 && pc == 0 || tid == 2 && pc == 2 {
        waiting(s)
    } else if tid == 0 {
        told(s, 2, met)
    } else if pc == 1 {
        told(s, 0, Counts { transfers: s.counts.transfers + 1, ..met })
    } else {
        told(s, 1, met)
    }
}

/// Whether the next turn is one that the demo comes to: whoever is to be told
/// something waits for it.
pub open spec fn playable(s: Scene) -> bool {
    let tid = s.ready[0];
    let pc = s.role(tid).pc;
    &&& s.ready.len() > 0
    &&& s.clock < 99
    &&& tid == 0 ==> pc <= 5
    &&& tid == 1 ==> pc <= 2
    &&& tid == 2 ==> pc <= 8
    &&& tid <= 2
    &&& in_turn(s)
    &&& tid == 0 && pc == 4 ==> s.app.pc == 2 && s.app.state == ThreadState::BlockedRecv(2)
    &&& tid == 2 && pc == 1 ==> s.fs.pc == 0 && s.fs.state == ThreadState::BlockedRecv(0)
    &&& tid == 2 && pc == 5 ==> s.con.pc == 0 && s.con.state == ThreadState::BlockedRecv(1)
}

/// The next turn.
proof fn lemma_turn(start: KernelView, k: KernelView, s: Scene) -> (n: KernelView)
    requires
        leads(start, k, s.clock),
        scene(k, s),
        playable(s),
    ensures
        leads(start, n, s.clock + 1),
        scene(n, next_scene(s)),
{
    let tid = s.ready[0];
    let pc = s.role(tid).pc;
    if quiet_outcome(tid, pc, s.counts) is Some {
        lemma_quiet(k, s);
    } else if tid == 0 && pc == 5 || tid == 1 && pc == 2 || tid == 2 && pc == 8 {
        lemma_finish(k, s);
    } else if tid == 0 && pc == 0 || tid == 1 && pc == 0 || tid == 2 && pc == 2 {
        lemma_wait(k, s);
    } else if tid == 0 {
        lemma_answer(k, s);
    } else if pc == 1 {
        lemma_ask(k, s);
    } else {
        lemma_print(k, s);
    }
    assert(k.sched.ready.len() > 0) by {
        reveal(scene);
    }
    lemma_leads(start, k, s.clock);
    k.tick()
}

/// The app asks, and everybody gets to their places.
proof fn lemma_act_one(start: KernelView, k: KernelView) -> (n: KernelView)
    requires
        leads(start, k, 0),
        scene(k, opening()),
    ensures
        leads(start, n, 6),
        scene(n, asked_moment()),
{
    let k0 = k;
    let s0 = opening();
    let k1 = lemma_turn(start, k0, s0);
    let s1 = Scene {
        ready: seq![1u32, 2u32],
        fs: waits_at(0, 0),
        con: ready_at(0),
        app: ready_at(0),
        counts: tallied(0, 0, 0, 0, 0),
        clock: 1,
    };
    assert(next_scene(s0) =~= s1);
    let k2 = lemma_turn(start, k1, s1);
    let s2 = Scene {
        ready: seq![2u32],
        fs: waits_at(0, 0),
        con: waits_at(0, 1),
        app: ready_at(0),
        counts: tallied(0, 0, 0, 0, 0),
        clock: 2,
    };
    assert(next_scene(s1) =~= s2);
    let k3 = lemma_turn(start, k2, s2);
    let s3 = Scene {
        ready: seq![2u32],
        fs: waits_at(0, 0),
        con: waits_at(0, 1),
        app: ready_at(1),
        counts: tallied(0, 0, 0, 0, 0),
        clock: 3,
    };
    assert(next_scene(s2) =~= s3);
    let k4 = lemma_turn(start, k3, s3);
    let s4 = Scene {
        ready: seq![0u32, 2u32],
        fs: ready_at(1),
        con: waits_at(0, 1),
        app: ready_at(2),
        counts: tallied(1, 1, 0, 0, 0),
        clock: 4,
    };
    assert(next_scene(s3) =~= s4);
    let k5 = lemma_turn(start, k4, s4);
    let s5 = Scene {
        ready: seq![2u32, 0u32],
        fs: ready_at(2),
        con: waits_at(0, 1),
        app: ready_at(2),
        counts: tallied(1, 1, 0, 0, 0),
        clock: 5,
    };
    assert(next_scene(s4) =~= s5);
    let k6 = lemma_turn(start, k5, s5);
    let s6 = Scene {
        ready: seq![0u32],
        fs: ready_at(2),
        con: waits_at(0, 1),
        app: waits_at(2, 2),
        counts: tallied(1, 1, 0, 0, 0),
        clock: 6,
    };
    assert(next_scene(s5) =~= s6);
    k6
}

/// The filesystem answers and is done, and the app reads.
proof fn lemma_act_two(start: KernelView, k: KernelView) -> (n: KernelView)
    requires
        leads(start, k, 6),
        scene(k, asked_moment()),
    ensures
        leads(start, n, 12),
        scene(n, answered_moment()),
{
    let k0 = k;
    let s0 = asked_moment();
    let k1 = lemma_turn(start, k0, s0);
    let s1 = Scene {
        ready: seq![0u32],
        fs: ready_at(3),
        con: waits_at(0, 1),
        app: waits_at(2, 2),
        counts: tallied(1, 1, 0, 0, 1),
        clock: 7,
    };
    assert(next_scene(s0) =~= s1);
    let k2 = lemma_turn(start, k1, s1);
    let s2 = Scene {
        ready: seq![0u32],
        fs: ready_at(4),
        con: waits_at(0, 1),
        app: waits_at(2, 2),
        counts: tallied(1, 1, 0, 0, 2),
        clock: 8,
    };
    assert(next_scene(s1) =~= s2);
    let k3 = lemma_turn(start, k2, s2);
    let s3 = Scene {
        ready: seq![2u32, 0u32],
        fs: ready_at(5),
        con: waits_at(0, 1),
        app: ready_at(3),
        counts: tallied(2, 1, 0, 0, 2),
        clock: 9,
    };
    assert(next_scene(s2) =~= s3);
    let k4 = lemma_turn(start, k3, s3);
    let s4 = Scene {
        ready: seq![0u32, 2u32],
        fs: ready_at(5),
        con: waits_at(0, 1),
        app: ready_at(4),
        counts: tallied(2, 1, 0, 1, 2),
        clock: 10,
    };
    assert(next_scene(s3) =~= s4);
    let k5 = lemma_turn(start, k4, s4);
    let s5 = Scene {
        ready: seq![2u32],
        fs: done_at(5),
        con: waits_at(0, 1),
        app: ready_at(4),
        counts: tallied(2, 1, 0, 1, 2),
        clock: 11,
    };
    assert(next_scene(s4) =~= s5);
    let k6 = lemma_turn(start, k5, s5);
    let s6 = Scene {
        ready: seq![2u32],
        fs: done_at(5),
        con: waits_at(0, 1),
        app: ready_at(5),
        counts: tallied(2, 1, 0, 2, 2),
        clock: 12,
    };
    assert(next_scene(s5) =~= s6);
    k6
}

/// The app prints and tries its illegal moves, and all are done.
proof fn lemma_act_three(start: KernelView, k: KernelView) -> (n: KernelView)
    requires
        leads(start, k, 12),
        scene(k, answered_moment()),
    ensures
        leads(start, n, 18),
        scene(n, ending()),
{
    let k0 = k;
    let s0 = answered_moment();
    let k1 = lemma_turn(start, k0, s0);
    let s1 = Scene {
        ready: seq![1u32, 2u32],
        fs: done_at(5),
        con: ready_at(1),
        app: ready_at(6),
        counts: tallied(3, 1, 0, 2, 2),
        clock: 13,
    };
    assert(next_scene(s0) =~= s1);
    let k2 = lemma_turn(start, k1, s1);
    let s2 = Scene {
        ready: seq![2u32, 1u32],
        fs: done_at(5),
        con: ready_at(2),
        app: ready_at(6),
        counts: tallied(3, 1, 0, 2, 2),
        clock: 14,
    };
    assert(next_scene(s1) =~= s2);
    let k3 = lemma_turn(start, k2, s2);
    let s3 = Scene {
        ready: seq![1u32, 2u32],
        fs: done_at(5),
        con: ready_at(2),
        app: ready_at(7),
        counts: tallied(3, 1, 1, 2, 2),
        clock: 15,
    };
    assert(next_scene(s2) =~= s3);
    let k4 = lemma_turn(start, k3, s3);
    let s4 = Scene {
        ready: seq![2u32],
        fs: done_at(5),
        con: done_at(2),
        app: ready_at(7),
        counts: tallied(3, 1, 1, 2, 2),
        clock: 16,
    };
    assert(next_scene(s3) =~= s4);
    let k5 = lemma_turn(start, k4, s4);
    let s5 = Scene {
        ready: seq![2u32],
        fs: done_at(5),
        con: done_at(2),
        app: ready_at(8),
        counts: tallied(3, 1, 2, 2, 2),
        clock: 17,
    };
    assert(next_scene(s4) =~= s5);
    let k6 = lemma_turn(start, k5, s5);
    let s6 = Scene {
        ready: Seq::empty(),
        fs: done_at(5),
        con: done_at(2),
        app: done_at(8),
        counts: tallied(3, 1, 2, 2, 2),
        clock: 18,
    };
    assert(next_scene(s5) =~= s6);
    k6
}

/// The demo before it runs.
proof fn lemma_opening(seed: u64)
    ensures
        scene(crate::scenario::demo_view(seed), opening()),
        crate::scenario::demo_view(seed).trace.len() == 0,
        crate::scenario::demo_view(seed).held(2, 2) is Some,
{
    reveal(scene);
    let both = Rights::read().union(Rights::write());
    let sharing = Rights::send().union(Rights::grant());
    let k = crate::scenario::demo_view(seed);
    lemma_demo_wf(seed);
    let equipment = crate::scenario::demo_client(seed);
    crate::capability::law_containment_is_an_order(Rights::send(), Rights::send(), Rights::send());
    crate::capability::law_containment_is_an_order(Rights::recv(), Rights::recv(), Rights::recv());
    crate::capability::law_union_is_least(Rights::read(), Rights::write(), both);
    crate::capability::law_union_is_least(Rights::send(), Rights::grant(), sharing);
    assert(k.tasks[0].caps == equipment.tasks[0].caps);
    assert(k.tasks[1].caps == equipment.tasks[1].caps);
    assert(k.tasks[2].caps == equipment.tasks[2].caps);
    lemma_equipment(seed);
    assert(k.sched.ready =~= opening().ready.map_values(|tid: ThreadId| (tid, 0u8)));
    assert(equipment.threads =~= Seq::empty());
    assert(k.endpoints[0].receivers =~= Seq::empty());
    assert(k.endpoints[1].receivers =~= Seq::empty());
    assert(k.endpoints[2].receivers =~= Seq::empty());
    assert(equipped(k, opening()));
    assert(k.trace =~= Seq::empty());
    assert(file_story().take(0) =~= Seq::empty());
    assert(talk_story().take(0) =~= Seq::empty());
}

/// What the tasks of the demo hold at the start.
proof fn lemma_equipment(seed: u64)
    ensures
        ({
            let k = crate::scenario::demo_client(seed);
            &&& k.tasks.len() == 3
            &&& k.table(0).next == 3
            &&& k.held(0, 0) is Some && k.held(0, 0)->0.cap == (Capability {
                object: ObjectRef::Endpoint(0),
                rights: Rights::recv(),
            })
            &&& k.held(0, 1) is Some && k.held(0, 1)->0.cap == (Capability {
                object: ObjectRef::Region(0),
                rights: Rights::read().union(Rights::write()),
            })
            &&& k.held(1, 0) is Some && k.held(1, 0)->0.cap == (Capability {
                object: ObjectRef::Endpoint(1),
                rights: Rights::recv(),
            })
            &&& k.held(2, 0) is Some && k.held(2, 0)->0.cap == (Capability {
                object: ObjectRef::Endpoint(0),
                rights: Rights::send(),
            })
            &&& k.held(2, 1) is Some && k.held(2, 1)->0.cap == (Capability {
                object: ObjectRef::Endpoint(2),
                rights: Rights::recv(),
            })
            &&& k.held(2, 2) is Some && k.held(2, 2)->0.cap == (Capability {
                object: ObjectRef::Endpoint(2),
                rights: Rights::send().union(Rights::grant()),
            })
            &&& k.held(2, 3) is Some && k.held(2, 3)->0.cap == (Capability {
                object: ObjectRef::Region(0),
                rights: Rights::read().union(Rights::write()),
            })
            &&& k.held(2, 4) is Some && k.held(2, 4)->0.cap == (Capability {
                object: ObjectRef::Endpoint(1),
                rights: Rights::send(),
            })
            &&& k.held(2, 99) is None
        }),
{
}

/// The demo starts in order.
proof fn lemma_demo_wf(seed: u64)
    ensures
        crate::scenario::demo_view(seed).wf(),
{
    let both = Rights::read().union(Rights::write());
    let sharing = Rights::send().union(Rights::grant());
    let a = KernelView::boot(seed, Policy::RoundRobin);
    crate::soundness::lemma_boot(seed, Policy::RoundRobin);
    crate::soundness::lemma_create_task(a, "filesystem"@);
    let a = a.create_task("filesystem"@);
    crate::soundness::lemma_create_task(a, "console"@);
    let a = a.create_task("console"@);
    crate::soundness::lemma_create_task(a, "app"@);
    let a = a.create_task("app"@);
    crate::soundness::lemma_create_endpoint(a);
    let a = a.create_endpoint();
    crate::soundness::lemma_create_endpoint(a);
    let a = a.create_endpoint();
    crate::soundness::lemma_create_endpoint(a);
    let a = a.create_endpoint();
    crate::soundness::lemma_create_region(a, 0, 16);
    let a = a.create_region(0, 16);
    crate::soundness::lemma_create_region(a, 0, 16);
    let a = a.create_region(0, 16);
    assert(a == crate::scenario::demo_objects(seed));
    crate::soundness::lemma_grant(a, 0, ObjectRef::Endpoint(0), Rights::recv());
    let b = a.grant(0, ObjectRef::Endpoint(0), Rights::recv());
    crate::soundness::lemma_grant(b, 0, ObjectRef::Region(0), both);
    let b = b.grant(0, ObjectRef::Region(0), both);
    crate::soundness::lemma_grant(b, 0, ObjectRef::Region(1), both);
    let b = b.grant(0, ObjectRef::Region(1), both);
    crate::soundness::lemma_grant(b, 1, ObjectRef::Endpoint(1), Rights::recv());
    let b = b.grant(1, ObjectRef::Endpoint(1), Rights::recv());
    assert(b == crate::scenario::demo_services(seed));
    crate::soundness::lemma_grant(b, 2, ObjectRef::Endpoint(0), Rights::send());
    let c = b.grant(2, ObjectRef::Endpoint(0), Rights::send());
    crate::soundness::lemma_grant(c, 2, ObjectRef::Endpoint(2), Rights::recv());
    let c = c.grant(2, ObjectRef::Endpoint(2), Rights::recv());
    crate::soundness::lemma_grant(c, 2, ObjectRef::Endpoint(2), sharing);
    let c = c.grant(2, ObjectRef::Endpoint(2), sharing);
    crate::soundness::lemma_grant(c, 2, ObjectRef::Region(0), both);
    let c = c.grant(2, ObjectRef::Region(0), both);
    crate::soundness::lemma_grant(c, 2, ObjectRef::Endpoint(1), Rights::send());
    let c = c.grant(2, ObjectRef::Endpoint(1), Rights::send());
    assert(c == crate::scenario::demo_client(seed));
    let fs = crate::scenario::filesystem_program();
    let con = crate::scenario::console_program();
    let app = crate::scenario::client_program();
    crate::soundness::lemma_spawn(c, 0, "fs-worker"@, 0, fs);
    let d = c.spawn_thread(0, "fs-worker"@, 0, fs);
    crate::soundness::lemma_spawn(d, 1, "con-worker"@, 0, con);
    let d = d.spawn_thread(1, "con-worker"@, 0, con);
    crate::soundness::lemma_spawn(d, 2, "app-main"@, 0, app);
}

/// What a run has come to when everybody has finished.
proof fn lemma_ending(k: KernelView, end: KernelView, max_ops: nat)
    requires
        leads(k, end, 18),
        scene(end, ending()),
        max_ops >= 18,
    ensures
        k.run(max_ops) == end,
        k.ops_run(max_ops) == 18,
        k.run_safe(max_ops),
        counts(end.trace) == ending().counts,
        accesses(end.trace) == file_story(),
        talk(end.trace) == talk_story(),
        end.regions.len() == 2,
        end.regions[0].data.len() == 16,
        end.regions[0].data[0] == 0x48,
        end.regions[0].data[1] == 0x49,
        end.held(0, 3) is None,
        end.held(2, 2) is None,
        end.threads[0].reply_to is None,
        end.threads.len() == 3,
        forall|i: int| 0 <= i < 3 ==> (#[trigger] end.threads[i]).state is Exited,
{
    reveal(leads);
    reveal(scene);
    assert(end.sched.ready.len() == 0);
    assert(k.run(max_ops) == end.run((max_ops - 18) as nat));
    assert(plays(end, ending(), 0) && plays(end, ending(), 1) && plays(end, ending(), 2));
    assert(file_story().take(4) =~= file_story());
    assert(talk_story().take(9) =~= talk_story());
}

/// The demo tells its story: whatever the seed, a run with enough ops delivers
/// three messages, moves one capability, denies the two illegal moves, reads two
/// bytes and writes two, and finishes every thread, in exactly 18 ops. The file
/// arrives: its bytes stand at the start of the shared region, and they are what
/// the app read. All that is worked, said, handed over and refused is the talk of
/// the demo, in order. The reply capability was used once: the app gave it away, and
/// the filesystem has it no more. (The trace starts empty, so the report of the
/// run says so.)
pub proof fn law_the_demo_tells_its_story(seed: u64, max_ops: nat)
    requires
        max_ops >= 18,
    ensures
        ({
            let k = crate::scenario::demo_view(seed);
            let n = k.run(max_ops);
            &&& k.run_safe(max_ops)
            &&& k.ops_run(max_ops) == 18
            &&& counts(n.trace) == (Counts {
                rendezvous: 3,
                transfers: 1,
                denials: 2,
                reads: 2,
                writes: 2,
            })
            &&& k.trace.len() == 0
            &&& accesses(n.trace) == file_story()
            &&& talk(n.trace) == talk_story()
            &&& n.regions[0].data.len() == 16
            &&& n.regions[0].data[0] == 0x48
            &&& n.regions[0].data[1] == 0x49
            &&& k.held(2, 2) is Some
            &&& n.held(2, 2) is None
            &&& n.held(0, 3) is None
            &&& n.threads[0].reply_to is None
            &&& n.threads.len() == 3
            &&& forall|i: int| 0 <= i < 3 ==> (#[trigger] n.threads[i]).state is Exited
            &&& n.all_done()
        }),
{
    let k = crate::scenario::demo_view(seed);
    lemma_opening(seed);
    assert(leads(k, k, 0)) by {
        reveal(leads);
    }
    let one = lemma_act_one(k, k);
    let two = lemma_act_two(k, one);
    let end = lemma_act_three(k, two);
    lemma_ending(k, end, max_ops);
}

/// The demo tells the same story whatever its seed.
pub proof fn law_the_demo_is_the_same_for_every_seed(seed: u64, other: u64, max_ops: nat)
    ensures
        crate::scenario::demo_view(seed).run(max_ops).trace == crate::scenario::demo_view(
            other,
        ).run(max_ops).trace,
        crate::scenario::demo_view(seed).ops_run(max_ops) == crate::scenario::demo_view(
            other,
        ).ops_run(max_ops),
{
    let (a, b) = (crate::scenario::demo_view(seed), crate::scenario::demo_view(other));
    assert(a == b.with_rng(seed)) by {
        assert(crate::scenario::demo_objects(seed) == crate::scenario::demo_objects(
            other,
        ).with_rng(seed));
        assert(crate::scenario::demo_services(seed) == crate::scenario::demo_services(
            other,
        ).with_rng(seed));
        assert(crate::scenario::demo_client(seed) == crate::scenario::demo_client(
            other,
        ).with_rng(seed));
    }
    crate::progress::law_runs_ignore_the_generator(b, seed, max_ops);
}

/// Whether a task of the demo holds a capability in a slot.
pub open spec fn owns(
    k: KernelView,
    task: TaskId,
    slot: CapSlot,
    object: ObjectRef,
    rights: Rights,
) -> bool {
    k.held(task, slot) matches Some(entry) && entry.cap.object == object && entry.cap.rights
        == rights
}

/// The demo is set up with the least that it needs, whatever the seed: the
/// filesystem may receive on its endpoint and use the shared and its own region; the
/// console may receive on its endpoint; and the app may send to both, receive
/// replies, hand over the right to send one, and use the shared region. Nobody holds
/// anything else.
pub proof fn law_the_demo_is_set_up_with_the_least(seed: u64, task: TaskId, slot: CapSlot)
    ensures
        ({
            let k = crate::scenario::demo_view(seed);
            let both = Rights::read().union(Rights::write());
            &&& k.tasks.len() == 3
            &&& k.tasks[0].name == "filesystem"@
            &&& k.tasks[1].name == "console"@
            &&& k.tasks[2].name == "app"@
            &&& k.threads.len() == 3
            &&& k.threads[0].name == "fs-worker"@ && k.threads[0].task == 0
            &&& k.threads[1].name == "con-worker"@ && k.threads[1].task == 1
            &&& k.threads[2].name == "app-main"@ && k.threads[2].task == 2
            &&& k.endpoints.len() == 3
            &&& k.regions.len() == 2
            &&& k.sched.policy is RoundRobin
            &&& owns(k, 0, 0, ObjectRef::Endpoint(0), Rights::recv())
            &&& owns(k, 0, 1, ObjectRef::Region(0), both)
            &&& owns(k, 0, 2, ObjectRef::Region(1), both)
            &&& owns(k, 1, 0, ObjectRef::Endpoint(1), Rights::recv())
            &&& owns(k, 2, 0, ObjectRef::Endpoint(0), Rights::send())
            &&& owns(k, 2, 1, ObjectRef::Endpoint(2), Rights::recv())
            &&& owns(k, 2, 2, ObjectRef::Endpoint(2), Rights::send().union(Rights::grant()))
            &&& owns(k, 2, 3, ObjectRef::Region(0), both)
            &&& owns(k, 2, 4, ObjectRef::Endpoint(1), Rights::send())
            &&& k.held(task, slot) is Some <==> task == 0 && slot < 3 || task == 1 && slot < 1
                || task == 2 && slot < 5
        }),
{
    let k = crate::scenario::demo_view(seed);
    let equipment = crate::scenario::demo_client(seed);
    assert(equipment.threads =~= Seq::empty());
    assert(k.tasks[0].caps == equipment.tasks[0].caps);
    assert(k.tasks[1].caps == equipment.tasks[1].caps);
    assert(k.tasks[2].caps == equipment.tasks[2].caps);
    assert(k.tasks[0].name == equipment.tasks[0].name);
    assert(k.tasks[1].name == equipment.tasks[1].name);
    assert(k.tasks[2].name == equipment.tasks[2].name);
    lemma_names(seed);
}

/// The tasks of the demo, and what they hold.
proof fn lemma_names(seed: u64)
    ensures
        ({
            let k = crate::scenario::demo_client(seed);
            let both = Rights::read().union(Rights::write());
            &&& k.tasks.len() == 3
            &&& k.tasks[0].name == "filesystem"@
            &&& k.tasks[1].name == "console"@
            &&& k.tasks[2].name == "app"@
            &&& owns(k, 0, 0, ObjectRef::Endpoint(0), Rights::recv())
            &&& owns(k, 0, 1, ObjectRef::Region(0), both)
            &&& owns(k, 0, 2, ObjectRef::Region(1), both)
            &&& owns(k, 1, 0, ObjectRef::Endpoint(1), Rights::recv())
            &&& owns(k, 2, 0, ObjectRef::Endpoint(0), Rights::send())
            &&& owns(k, 2, 1, ObjectRef::Endpoint(2), Rights::recv())
            &&& owns(k, 2, 2, ObjectRef::Endpoint(2), Rights::send().union(Rights::grant()))
            &&& owns(k, 2, 3, ObjectRef::Region(0), both)
            &&& owns(k, 2, 4, ObjectRef::Endpoint(1), Rights::send())
            &&& forall|t: TaskId, s: CapSlot| #[trigger]
                k.held(t, s) is Some <==> t == 0 && s < 3 || t == 1 && s < 1 || t == 2 && s < 5
        }),
{
}

} // verus!
