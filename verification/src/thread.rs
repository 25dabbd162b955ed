//! Threads and the tiny program they run.
//!
//! A real microkernel context switches register state. Seedcore has no
//! registers. Instead each thread carries a small program: a list of [`Op`]
//! values, each of which is one syscall level step. The kernel is the
//! interpreter. It dispatches a thread, executes one op, accounts for the cost,
//! and moves on. An op that blocks (a send or receive with no partner yet)
//! parks the thread until IPC wakes it, and execution resumes at the next op.
//!
//! Modelling execution as an explicit instruction stream is what makes the whole
//! simulator deterministic and inspectable. There is no hidden state inside a
//! task, only its program, its program counter, and its capabilities.

use std::collections::BTreeSet;

use crate::capability::{CapEntry, CapId, CapSlot};
use crate::ipc::{MsgSpec, MsgView};
use crate::text::IntoName;
use crate::{EndpointId, TaskId, ThreadId};
use vstd::prelude::*;

verus! {

/// What a step of a program asks for.
#[verifier::ext_equal]
pub enum OpView {
    /// Burn compute cycles.
    Compute(u32),
    /// Send a message.
    Send { ep: CapSlot, msg: MsgView },
    /// Receive a message.
    Recv { ep: CapSlot },
    /// Reply to the most recently received message.
    Reply { msg: MsgView },
    /// Read one byte.
    Read { mem: CapSlot, offset: usize },
    /// Write one byte.
    Write { mem: CapSlot, offset: usize, value: u8 },
    /// Terminate.
    Exit,
}

/// One step of a thread program. Each variant is a syscall the task asks the
/// kernel to perform on its behalf, named by capability slot.
#[derive(Debug, PartialEq, Eq)]
pub enum Op {
    /// Burn compute cycles. Models useful work between syscalls and feeds the
    /// context switch accounting.
    Compute(u32),
    /// Send a message on the endpoint named by capability slot `ep`. Requires
    /// [`crate::Rights::send`]. Blocks until a receiver is ready.
    Send { ep: CapSlot, msg: MsgSpec },
    /// Receive a message on the endpoint named by `ep`. Requires
    /// [`crate::Rights::recv`]. Blocks until a sender is ready.
    Recv { ep: CapSlot },
    /// Reply to the most recently received message, using the reply capability
    /// that arrived with it. This is how a user space service answers a client
    /// without holding a standing capability back to every client.
    Reply { msg: MsgSpec },
    /// Read one byte from the region named by memory capability `mem` at
    /// `offset`. Requires [`crate::Rights::read`].
    Read { mem: CapSlot, offset: usize },
    /// Write one byte to the region named by `mem`. Requires
    /// [`crate::Rights::write`].
    Write { mem: CapSlot, offset: usize, value: u8 },
    /// Terminate the thread.
    Exit,
}

impl View for Op {
    type V = OpView;

    open spec fn view(&self) -> OpView {
        match *self {
            Op::Compute(cycles) => OpView::Compute(cycles),
            Op::Send { ep, msg } => OpView::Send { ep, msg: msg@ },
            Op::Recv { ep } => OpView::Recv { ep },
            Op::Reply { msg } => OpView::Reply { msg: msg@ },
            Op::Read { mem, offset } => OpView::Read { mem, offset },
            Op::Write { mem, offset, value } => OpView::Write { mem, offset, value },
            Op::Exit => OpView::Exit,
        }
    }
}

impl Clone for Op {
    fn clone(&self) -> (copy: Op)
        ensures
            copy@ == self@,
    {
        match self {
            Op::Compute(cycles) => Op::Compute(*cycles),
            Op::Send { ep, msg } => Op::Send { ep: *ep, msg: msg.clone() },
            Op::Recv { ep } => Op::Recv { ep: *ep },
            Op::Reply { msg } => Op::Reply { msg: msg.clone() },
            Op::Read { mem, offset } => Op::Read { mem: *mem, offset: *offset },
            Op::Write { mem, offset, value } => Op::Write {
                mem: *mem,
                offset: *offset,
                value: *value,
            },
            Op::Exit => Op::Exit,
        }
    }
}

/// The steps that a program consists of.
pub open spec fn program_view(program: Seq<Op>) -> Seq<OpView> {
    program.map_values(|op: Op| op@)
}

/// The runtime state of a thread.
#[derive(Debug, Clone, Copy, PartialEq, Eq, Structural)]
pub enum ThreadState {
    /// Runnable and waiting for the scheduler.
    Ready,
    /// Currently running (held only transiently during a dispatch).
    Running,
    /// Parked waiting to send on an endpoint.
    BlockedSend(EndpointId),
    /// Parked waiting to receive on an endpoint.
    BlockedRecv(EndpointId),
    /// Finished.
    Exited,
}

/// A message in flight: what it says, and the capability that travels with it.
#[verifier::ext_equal]
pub struct PendingView {
    /// The label.
    pub label: u64,
    /// The payload.
    pub bytes: Seq<u8>,
    /// The capability that has already left the sender.
    pub cap: Option<CapEntry>,
}

impl PendingView {
    /// The message without the capability it carries, if that is doomed.
    pub open spec fn without(self, doomed: spec_fn(CapId) -> bool) -> PendingView {
        PendingView {
            cap: if self.cap is Some && doomed((self.cap->0).id) {
                None
            } else {
                self.cap
            },
            ..self
        }
    }
}

/// A message that a blocked sender is holding, fully resolved.
///
/// The capability was captured out of the sender at send time and waits to be
/// installed into a receiver at delivery. Holding the resolved entry rather than
/// a slot is what makes the move atomic: the sender has already lost it. The
/// entry keeps its identity, so it stays the same capability after the move and
/// remains reachable by transitive revocation.
#[derive(Debug, Clone)]
pub(crate) struct PendingMsg {
    pub(crate) label: u64,
    pub(crate) bytes: Vec<u8>,
    pub(crate) cap: Option<CapEntry>,
}

impl View for PendingMsg {
    type V = PendingView;

    open(crate) spec fn view(&self) -> PendingView {
        PendingView { label: self.label, bytes: self.bytes@, cap: self.cap }
    }
}

/// What there is to know about a thread.
#[verifier::ext_equal]
pub struct ThreadView {
    /// Thread identifier.
    pub id: ThreadId,
    /// The owning task.
    pub task: TaskId,
    /// The name.
    pub name: Seq<char>,
    /// Scheduling state.
    pub state: ThreadState,
    /// The program.
    pub program: Seq<OpView>,
    /// The program counter.
    pub pc: nat,
    /// Scheduling priority.
    pub priority: u8,
    /// Compute cycles consumed.
    pub cycles: nat,
    /// Number of dispatches.
    pub dispatches: nat,
    /// The message held while blocked on a send.
    pub pending: Option<PendingView>,
    /// The slot of the reply capability, if one was received and not yet used.
    pub reply_to: Option<CapSlot>,
}

impl ThreadView {
    /// The op at the program counter, if any remain.
    pub open spec fn current_op(self) -> Option<OpView> {
        if self.pc < self.program.len() {
            Some(self.program[self.pc as int])
        } else {
            None
        }
    }

    /// Whether the thread has finished or run off the end of its program.
    pub open spec fn is_done(self) -> bool {
        self.state is Exited || self.pc >= self.program.len()
    }

    /// The thread in another state.
    pub open spec fn in_state(self, state: ThreadState) -> ThreadView {
        ThreadView { state, ..self }
    }

    /// The thread one step further.
    pub open spec fn advanced(self) -> ThreadView {
        ThreadView { pc: self.pc + 1, ..self }
    }

    /// The thread taken up by the scheduler.
    pub open spec fn dispatched(self) -> ThreadView {
        ThreadView { state: ThreadState::Running, dispatches: self.dispatches + 1, ..self }
    }

    /// The thread after it burned some cycles.
    pub open spec fn computed(self, cycles: u32) -> ThreadView {
        ThreadView { cycles: self.cycles + cycles as nat, pc: self.pc + 1, ..self }
    }

    /// The thread parked with a message to send.
    pub open spec fn parked_sending(self, ep: EndpointId, msg: PendingView) -> ThreadView {
        ThreadView { state: ThreadState::BlockedSend(ep), pending: Some(msg), ..self }
    }

    /// The thread relieved of the message it held.
    pub open spec fn relieved(self) -> ThreadView {
        ThreadView { pending: None, ..self }
    }

    /// The thread without the capability in its message, if that is doomed.
    pub open spec fn without(self, doomed: spec_fn(CapId) -> bool) -> ThreadView {
        ThreadView {
            pending: match self.pending {
                Some(msg) => Some(msg.without(doomed)),
                None => None,
            },
            ..self
        }
    }

    /// Whether the thread has a capability in its message.
    pub open spec fn carries(self) -> bool {
        self.pending is Some && (self.pending->0).cap is Some
    }

    /// Whether the capability in the thread's message has a given identity.
    pub open spec fn carries_id(self, id: CapId) -> bool {
        self.carries() && (self.pending->0).cap->0.id == id
    }

    /// The thread with a reply slot set or cleared.
    pub open spec fn replying_to(self, slot: Option<CapSlot>) -> ThreadView {
        ThreadView { reply_to: slot, ..self }
    }
}

/// A thread of execution belonging to a task.
#[derive(Debug, Clone)]
pub struct Thread {
    /// Thread identifier.
    pub id: ThreadId,
    /// The owning task.
    pub task: TaskId,
    /// A human readable name.
    pub name: String,
    /// Scheduling state.
    pub state: ThreadState,
    /// The program this thread runs.
    pub program: Vec<Op>,
    /// The program counter, an index into `program`.
    pub pc: usize,
    /// Scheduling priority, smaller is more urgent.
    pub priority: u8,
    /// Total compute cycles consumed.
    pub cycles: u64,
    /// Number of times this thread was dispatched.
    pub dispatches: u64,
    /// A message held while blocked on a send.
    pending: Option<PendingMsg>,
    /// The slot to reply through, set when a received message carried a reply
    /// capability.
    reply_to: Option<CapSlot>,
}

impl View for Thread {
    type V = ThreadView;

    closed spec fn view(&self) -> ThreadView {
        ThreadView {
            id: self.id,
            task: self.task,
            name: self.name@,
            state: self.state,
            program: program_view(self.program@),
            pc: self.pc as nat,
            priority: self.priority,
            cycles: self.cycles as nat,
            dispatches: self.dispatches as nat,
            pending: match self.pending {
                Some(msg) => Some(msg@),
                None => None,
            },
            reply_to: self.reply_to,
        }
    }
}

impl Thread {
    /// Build a ready thread.
    pub fn new(
        id: ThreadId,
        task: TaskId,
        name: impl IntoName,
        priority: u8,
        program: Vec<Op>,
    ) -> (thread: Thread)
        ensures
            thread@ == (ThreadView {
                id,
                task,
                name: name.name_text(),
                state: ThreadState::Ready,
                program: program_view(program@),
                pc: 0,
                priority,
                cycles: 0,
                dispatches: 0,
                pending: None,
                reply_to: None,
            }),
    {
        Thread {
            id,
            task,
            name: name.into_name(),
            state: ThreadState::Ready,
            program,
            pc: 0,
            priority,
            cycles: 0,
            dispatches: 0,
            pending: None,
            reply_to: None,
        }
    }

    /// The op at the program counter, if any remain.
    pub fn current_op(&self) -> (op: Option<&Op>)
        ensures
            (match op {
                Some(op) => Some(op@),
                None => None,
            }) == self@.current_op(),
    {
        if self.pc < self.program.len() {
            Some(&self.program[self.pc])
        } else {
            None
        }
    }

    /// Whether the thread has finished or run off the end of its program.
    pub fn is_done(&self) -> (done: bool)
        ensures
            done == self@.is_done(),
    {
        let exited: bool = match self.state {
            ThreadState::Exited => true,
            _ => false,
        };
        exited || self.pc >= self.program.len()
    }

    /// The thread identifier.
    pub fn id(&self) -> (id: ThreadId)
        ensures
            id == self@.id,
    {
        self.id
    }

    /// The human readable name.
    pub fn name(&self) -> (name: &str)
        ensures
            name@ == self@.name,
    {
        self.name.as_str()
    }

    /// The program.
    pub fn program(&self) -> (program: &Vec<Op>)
        ensures
            program_view(program@) == self@.program,
    {
        &self.program
    }

    /// The program counter, an index into the program.
    pub fn pc(&self) -> (pc: usize)
        ensures
            pc == self@.pc,
    {
        self.pc
    }

    /// The compute cycles consumed.
    pub fn cycles(&self) -> (cycles: u64)
        ensures
            cycles == self@.cycles,
    {
        self.cycles
    }

    /// The number of times the thread was dispatched.
    pub fn dispatches(&self) -> (count: u64)
        ensures
            count == self@.dispatches,
    {
        self.dispatches
    }

    /// The task the thread belongs to.
    pub fn task(&self) -> (task: TaskId)
        ensures
            task == self@.task,
    {
        self.task
    }

    /// The scheduling state.
    pub fn state(&self) -> (state: ThreadState)
        ensures
            state == self@.state,
    {
        self.state
    }

    /// The scheduling priority.
    pub fn priority(&self) -> (priority: u8)
        ensures
            priority == self@.priority,
    {
        self.priority
    }

    /// The slot to reply through, if there is one.
    pub(crate) fn reply_to(&self) -> (slot: Option<CapSlot>)
        ensures
            slot == self@.reply_to,
    {
        self.reply_to
    }

    /// Put the thread in another state.
    pub(crate) fn set_state(&mut self, state: ThreadState)
        ensures
            final(self)@ == old(self)@.in_state(state),
    {
        self.state = state;
    }

    /// Step past the current op.
    pub(crate) fn advance(&mut self)
        requires
            old(self)@.pc < old(self)@.program.len(),
        ensures
            final(self)@ == old(self)@.advanced(),
    {
        proof {
            assert(self.program.len() == self@.program.len());
        }
        self.pc = self.pc + 1;
    }

    /// Account for a dispatch.
    pub(crate) fn take_up(&mut self)
        requires
            old(self)@.dispatches < u64::MAX,
        ensures
            final(self)@ == old(self)@.dispatched(),
    {
        self.state = ThreadState::Running;
        self.dispatches = self.dispatches + 1;
    }

    /// Burn cycles and step on.
    pub(crate) fn compute(&mut self, cycles: u32)
        requires
            old(self)@.pc < old(self)@.program.len(),
            old(self)@.cycles + cycles <= u64::MAX,
        ensures
            final(self)@ == old(self)@.computed(cycles),
    {
        proof {
            assert(self.program.len() == self@.program.len());
        }
        self.cycles = self.cycles + cycles as u64;
        self.pc = self.pc + 1;
    }

    /// Park with a message to send.
    pub(crate) fn park_sending(&mut self, ep: EndpointId, msg: PendingMsg)
        ensures
            final(self)@ == old(self)@.parked_sending(ep, msg@),
    {
        self.state = ThreadState::BlockedSend(ep);
        self.pending = Some(msg);
    }

    /// Drop the capability in the held message if its identity is doomed.
    /// Returns whether there was one to drop.
    pub(crate) fn drop_doomed(&mut self, doomed: &BTreeSet<CapId>) -> (dropped: bool)
        ensures
            final(self)@ == old(self)@.without(|id: CapId| doomed@.contains(id)),
            dropped == (old(self)@.carries() && doomed@.contains(
                (old(self)@.pending->0).cap->0.id,
            )),
    {
        let held = self.pending.take();
        match held {
            Some(msg) => {
                let dead: bool = match &msg.cap {
                    Some(entry) => doomed.contains(&entry.id),
                    None => false,
                };
                self.pending = if dead {
                    Some(PendingMsg { label: msg.label, bytes: msg.bytes, cap: None })
                } else {
                    Some(msg)
                };
                dead
            },
            None => false,
        }
    }

    /// Hand over the message held.
    pub(crate) fn take_pending(&mut self) -> (msg: Option<PendingMsg>)
        ensures
            final(self)@ == old(self)@.relieved(),
            (match msg {
                Some(msg) => Some(msg@),
                None => None,
            }) == old(self)@.pending,
    {
        self.pending.take()
    }

    /// Set or clear the slot to reply through.
    pub(crate) fn set_reply_to(&mut self, slot: Option<CapSlot>)
        ensures
            final(self)@ == old(self)@.replying_to(slot),
    {
        self.reply_to = slot;
    }
}

/// An op asks for what it says: each part of it is the part of the same name.
pub proof fn law_an_op_asks_for_what_it_says(op: Op)
    ensures
        op matches Op::Compute(cycles) ==> op@ == OpView::Compute(cycles),
        op matches Op::Send { ep, msg } ==> op@ == (OpView::Send { ep, msg: msg@ }),
        op matches Op::Recv { ep } ==> op@ == (OpView::Recv { ep }),
        op matches Op::Reply { msg } ==> op@ == (OpView::Reply { msg: msg@ }),
        op matches Op::Read { mem, offset } ==> op@ == (OpView::Read { mem, offset }),
        op matches Op::Write { mem, offset, value } ==> op@ == (OpView::Write {
            mem,
            offset,
            value,
        }),
        op matches Op::Exit ==> op@ == OpView::Exit,
{
}

/// A thread has an op to execute for as long as its program counter is in its
/// program, and it is the op there. It is done once it has exited or has none left.
pub proof fn law_a_thread_is_done_at_the_end(thread: ThreadView)
    ensures
        thread.current_op() is Some <==> thread.pc < thread.program.len(),
        thread.current_op() matches Some(op) ==> op == thread.program[thread.pc as int],
        thread.is_done() <==> thread.state is Exited || thread.current_op() is None,
{
}

} // verus!
