//! The execution trace.
//!
//! Every observable effect the kernel produces is appended to a trace as an
//! [`Event`]. The trace is the ground truth of a run. Determinism is defined in
//! terms of it: two runs from the same seed must produce identical traces. The
//! command line tool prints the trace, and the correctness laws speak of it.

use crate::capability::{CapSlot, ObjectRef, Rights};
use crate::text::{decimal_text, hex_byte_text, pad_left_text};
use crate::{EndpointId, RegionId, TaskId, ThreadId};
use vstd::prelude::*;

verus! {

/// What an event records.
#[verifier::ext_equal]
pub enum EventView {
    /// The scheduler dispatched a thread at a tick.
    Dispatch { tick: nat, thread: ThreadId, task: TaskId },
    /// A thread consumed compute cycles.
    Compute { thread: ThreadId, cycles: u32 },
    /// A thread blocked waiting to send.
    BlockSend { thread: ThreadId, endpoint: EndpointId },
    /// A thread blocked waiting to receive.
    BlockRecv { thread: ThreadId, endpoint: EndpointId },
    /// A send and a receive met and a message crossed the endpoint.
    Rendezvous {
        sender: ThreadId,
        receiver: ThreadId,
        endpoint: EndpointId,
        label: u64,
        bytes: nat,
    },
    /// A capability was moved from one task to another inside a message.
    CapTransfer {
        from: TaskId,
        to: TaskId,
        object: ObjectRef,
        rights: Rights,
        new_slot: CapSlot,
    },
    /// A thread read a byte from a region.
    MemRead { thread: ThreadId, region: RegionId, offset: usize, value: u8 },
    /// A thread wrote a byte to a region.
    MemWrite { thread: ThreadId, region: RegionId, offset: usize, value: u8 },
    /// A syscall was denied.
    Denied { thread: ThreadId, syscall: Seq<char>, reason: Seq<char> },
    /// A thread finished.
    Exit { thread: ThreadId },
}

impl EventView {
    /// The line that describes the event.
    pub open spec fn text(self) -> Seq<char> {
        match self {
            EventView::Dispatch { tick, thread, task } => "[t"@ + crate::text::pad_left(
                crate::text::decimal(tick),
                3,
            ) + "] dispatch thread#"@ + crate::text::decimal(thread as nat) + " (task#"@
                + crate::text::decimal(task as nat) + ")"@,
            EventView::Compute { thread, cycles } => "        thread#"@ + crate::text::decimal(
                thread as nat,
            ) + " compute "@ + crate::text::decimal(cycles as nat) + " cycles"@,
            EventView::BlockSend { thread, endpoint } => "        thread#"@ + crate::text::decimal(
                thread as nat,
            ) + " blocks on send endpoint#"@ + crate::text::decimal(endpoint as nat),
            EventView::BlockRecv { thread, endpoint } => "        thread#"@ + crate::text::decimal(
                thread as nat,
            ) + " blocks on recv endpoint#"@ + crate::text::decimal(endpoint as nat),
            EventView::Rendezvous { sender, receiver, endpoint, label, bytes } =>
                "        IPC endpoint#"@ + crate::text::decimal(endpoint as nat) + ": thread#"@
                + crate::text::decimal(sender as nat) + " -> thread#"@ + crate::text::decimal(
                receiver as nat,
            ) + " label="@ + crate::text::decimal(label as nat) + " ("@ + crate::text::decimal(bytes)
                + " bytes)"@,
            EventView::CapTransfer { from, to, object, rights, new_slot } =>
                "        cap transfer "@ + object.text() + " ["@ + rights.text() + "] task#"@
                + crate::text::decimal(from as nat) + " -> task#"@ + crate::text::decimal(to as nat)
                + " into slot "@ + crate::text::decimal(new_slot as nat),
            EventView::MemRead { thread, region, offset, value } => "        thread#"@
                + crate::text::decimal(thread as nat) + " read region#"@ + crate::text::decimal(
                region as nat,
            ) + "["@ + crate::text::decimal(offset as nat) + "] = "@ + crate::text::hex_byte(value),
            EventView::MemWrite { thread, region, offset, value } => "        thread#"@
                + crate::text::decimal(thread as nat) + " write region#"@ + crate::text::decimal(
                region as nat,
            ) + "["@ + crate::text::decimal(offset as nat) + "] = "@ + crate::text::hex_byte(value),
            EventView::Denied { thread, syscall, reason } => "        thread#"@
                + crate::text::decimal(thread as nat) + " "@ + syscall + " DENIED: "@ + reason,
            EventView::Exit { thread } => "        thread#"@ + crate::text::decimal(thread as nat)
                + " exit"@,
        }
    }
}

/// A single recorded effect, in order of occurrence.
#[derive(Debug, Clone, PartialEq, Eq)]
pub enum Event {
    /// The scheduler dispatched a thread at a tick.
    Dispatch { tick: u64, thread: ThreadId, task: TaskId },
    /// A thread consumed compute cycles.
    Compute { thread: ThreadId, cycles: u32 },
    /// A thread blocked waiting to send.
    BlockSend { thread: ThreadId, endpoint: EndpointId },
    /// A thread blocked waiting to receive.
    BlockRecv { thread: ThreadId, endpoint: EndpointId },
    /// A send and a receive met and a message crossed the endpoint.
    Rendezvous {
        sender: ThreadId,
        receiver: ThreadId,
        endpoint: EndpointId,
        label: u64,
        bytes: usize,
    },
    /// A capability was moved from one task to another inside a message.
    CapTransfer {
        from: TaskId,
        to: TaskId,
        object: ObjectRef,
        rights: Rights,
        new_slot: CapSlot,
    },
    /// A thread read a byte from a region.
    MemRead { thread: ThreadId, region: RegionId, offset: usize, value: u8 },
    /// A thread wrote a byte to a region.
    MemWrite { thread: ThreadId, region: RegionId, offset: usize, value: u8 },
    /// A syscall was denied. This is the visible face of capability enforcement.
    Denied { thread: ThreadId, syscall: &'static str, reason: String },
    /// A thread finished.
    Exit { thread: ThreadId },
}

impl View for Event {
    type V = EventView;

    open spec fn view(&self) -> EventView {
        match *self {
            Event::Dispatch { tick, thread, task } => EventView::Dispatch {
                tick: tick as nat,
                thread,
                task,
            },
            Event::Compute { thread, cycles } => EventView::Compute { thread, cycles },
            Event::BlockSend { thread, endpoint } => EventView::BlockSend { thread, endpoint },
            Event::BlockRecv { thread, endpoint } => EventView::BlockRecv { thread, endpoint },
            Event::Rendezvous { sender, receiver, endpoint, label, bytes } =>
                EventView::Rendezvous { sender, receiver, endpoint, label, bytes: bytes as nat },
            Event::CapTransfer { from, to, object, rights, new_slot } => EventView::CapTransfer {
                from,
                to,
                object,
                rights,
                new_slot,
            },
            Event::MemRead { thread, region, offset, value } => EventView::MemRead {
                thread,
                region,
                offset,
                value,
            },
            Event::MemWrite { thread, region, offset, value } => EventView::MemWrite {
                thread,
                region,
                offset,
                value,
            },
            Event::Denied { thread, syscall, reason } => EventView::Denied {
                thread,
                syscall: syscall@,
                reason: reason@,
            },
            Event::Exit { thread } => EventView::Exit { thread },
        }
    }
}

/// The effects that a trace records.
pub open spec fn trace_view(trace: Seq<Event>) -> Seq<EventView> {
    trace.map_values(|e: Event| e@)
}

/// Append a number in decimal.
fn append_number(text: &mut String, number: u64)
    ensures
        final(text)@ == old(text)@ + crate::text::decimal(number as nat),
{
    text.append(decimal_text(number).as_str());
}

/// Start a line about a thread.
fn thread_line(thread: ThreadId) -> (text: String)
    ensures
        text@ == "        thread#"@ + crate::text::decimal(thread as nat),
{
    let mut text = "        thread#".to_owned();
    append_number(&mut text, thread as u64);
    text
}

impl Event {
    /// Render the line that describes the event.
    pub fn to_string(&self) -> (text: String)
        ensures
            text@ == self@.text(),
    {
        match self {
            Event::Dispatch { tick, thread, task } => {
                let mut text = "[t".to_owned();
                text.append(pad_left_text(decimal_text(*tick), 3).as_str());
                text.append("] dispatch thread#");
                append_number(&mut text, *thread as u64);
                text.append(" (task#");
                append_number(&mut text, *task as u64);
                text.append(")");
                text
            },
            Event::Compute { thread, cycles } => {
                let mut text = thread_line(*thread);
                text.append(" compute ");
                append_number(&mut text, *cycles as u64);
                text.append(" cycles");
                text
            },
            Event::BlockSend { thread, endpoint } => {
                let mut text = thread_line(*thread);
                text.append(" blocks on send endpoint#");
                append_number(&mut text, *endpoint as u64);
                text
            },
            Event::BlockRecv { thread, endpoint } => {
                let mut text = thread_line(*thread);
                text.append(" blocks on recv endpoint#");
                append_number(&mut text, *endpoint as u64);
                text
            },
            Event::Rendezvous { sender, receiver, endpoint, label, bytes } => {
                let mut text = "        IPC endpoint#".to_owned();
                append_number(&mut text, *endpoint as u64);
                text.append(": thread#");
                append_number(&mut text, *sender as u64);
                text.append(" -> thread#");
                append_number(&mut text, *receiver as u64);
                text.append(" label=");
                append_number(&mut text, *label);
                text.append(" (");
                append_number(&mut text, *bytes as u64);
                text.append(" bytes)");
                text
            },
            Event::CapTransfer { from, to, object, rights, new_slot } => {
                let mut text = "        cap transfer ".to_owned();
                text.append(object.to_string().as_str());
                text.append(" [");
                text.append(rights.to_string().as_str());
                text.append("] task#");
                append_number(&mut text, *from as u64);
                text.append(" -> task#");
                append_number(&mut text, *to as u64);
                text.append(" into slot ");
                append_number(&mut text, *new_slot as u64);
                text
            },
            Event::MemRead { thread, region, offset, value } => {
                let mut text = thread_line(*thread);
                text.append(" read region#");
                append_number(&mut text, *region as u64);
                text.append("[");
                append_number(&mut text, *offset as u64);
                text.append("] = ");
                text.append(hex_byte_text(*value).as_str());
                text
            },
            Event::MemWrite { thread, region, offset, value } => {
                let mut text = thread_line(*thread);
                text.append(" write region#");
                append_number(&mut text, *region as u64);
                text.append("[");
                append_number(&mut text, *offset as u64);
                text.append("] = ");
                text.append(hex_byte_text(*value).as_str());
                text
            },
            Event::Denied { thread, syscall, reason } => {
                let mut text = thread_line(*thread);
                text.append(" ");
                text.append(syscall);
                text.append(" DENIED: ");
                text.append(reason.as_str());
                text
            },
            Event::Exit { thread } => {
                let mut text = thread_line(*thread);
                text.append(" exit");
                text
            },
        }
    }
}

/// An event that was recorded is read as it was recorded: each part of it is the
/// part of the same name.
pub proof fn law_an_event_is_read_as_recorded(event: Event)
    ensures
        event matches Event::Dispatch { tick, thread, task } ==> event@ == (EventView::Dispatch {
            tick: tick as nat,
            thread,
            task,
        }),
        event matches Event::Compute { thread, cycles } ==> event@ == (EventView::Compute {
            thread,
            cycles,
        }),
        event matches Event::BlockSend { thread, endpoint } ==> event@ == (
        EventView::BlockSend { thread, endpoint }),
        event matches Event::BlockRecv { thread, endpoint } ==> event@ == (
        EventView::BlockRecv { thread, endpoint }),
        event matches Event::Rendezvous { sender, receiver, endpoint, label, bytes } ==> event@
            == (EventView::Rendezvous { sender, receiver, endpoint, label, bytes: bytes as nat }),
        event matches Event::CapTransfer { from, to, object, rights, new_slot } ==> event@ == (
        EventView::CapTransfer { from, to, object, rights, new_slot }),
        event matches Event::MemRead { thread, region, offset, value } ==> event@ == (
        EventView::MemRead { thread, region, offset, value }),
        event matches Event::MemWrite { thread, region, offset, value } ==> event@ == (
        EventView::MemWrite { thread, region, offset, value }),
        event matches Event::Denied { thread, syscall, reason } ==> event@ == (
        EventView::Denied { thread, syscall: syscall@, reason: reason@ }),
        event matches Event::Exit { thread } ==> event@ == (EventView::Exit { thread }),
{
}

} // verus!
