//! Synchronous IPC: endpoints and messages.
//!
//! IPC in Seedcore is a blocking rendezvous, the same shape as seL4 style
//! synchronous message passing. A send and a receive on the same endpoint must
//! meet. Whichever side arrives first blocks and waits for the other. When they
//! meet the message is copied exactly once from sender to receiver and both
//! sides become runnable again. No message is ever lost, duplicated, or
//! delivered without a matching receive.
//!
//! A message can carry a capability. When it does, the capability is moved out
//! of the sender table at send time and installed into the receiver table on
//! delivery. This is how authority travels between tasks, and it is the only way
//! a task ever gains a capability it was not given at creation.

use crate::capability::CapSlot;
use crate::{EndpointId, ThreadId};
use std::collections::VecDeque;
use vstd::prelude::*;

verus! {

/// What a message says.
#[verifier::ext_equal]
pub struct MsgView {
    /// The label.
    pub label: u64,
    /// The payload.
    pub bytes: Seq<u8>,
    /// The slot whose capability travels along.
    pub transfer: Option<CapSlot>,
}

/// A message as described by a sending program, before the kernel resolves it.
///
/// The `transfer` field names a slot in the sender own table whose capability
/// should travel with the message. The kernel removes it from the sender and
/// installs it in the receiver, which is capability transfer.
#[derive(Debug, PartialEq, Eq)]
pub struct MsgSpec {
    /// A small integer tag, like a message label or method selector.
    pub label: u64,
    /// The payload bytes.
    pub bytes: Vec<u8>,
    /// An optional capability slot to transfer with the message.
    pub transfer: Option<CapSlot>,
}

impl View for MsgSpec {
    type V = MsgView;

    open spec fn view(&self) -> MsgView {
        MsgView { label: self.label, bytes: self.bytes@, transfer: self.transfer }
    }
}

/// Copy a byte string.
pub(crate) fn copy_bytes(bytes: &Vec<u8>) -> (copy: Vec<u8>)
    ensures
        copy@ == bytes@,
{
    let copy = bytes.clone();
    proof {
        assert(copy@ =~= bytes@);
    }
    copy
}

impl Clone for MsgSpec {
    fn clone(&self) -> (copy: MsgSpec)
        ensures
            copy@ == self@,
    {
        MsgSpec { label: self.label, bytes: copy_bytes(&self.bytes), transfer: self.transfer }
    }
}

impl MsgSpec {
    /// A message with a label and payload and no capability transfer.
    pub fn new(label: u64, bytes: Vec<u8>) -> (msg: MsgSpec)
        ensures
            msg@ == (MsgView { label, bytes: bytes@, transfer: None }),
    {
        MsgSpec { label, bytes, transfer: None }
    }

    /// A message that also transfers the capability in `slot`.
    pub fn with_cap(label: u64, bytes: Vec<u8>, slot: CapSlot) -> (msg: MsgSpec)
        ensures
            msg@ == (MsgView { label, bytes: bytes@, transfer: Some(slot) }),
    {
        MsgSpec { label, bytes, transfer: Some(slot) }
    }
}

/// Who waits on an endpoint, in order of arrival.
#[verifier::ext_equal]
pub struct EndpointView {
    /// Threads blocked trying to send.
    pub senders: Seq<ThreadId>,
    /// Threads blocked trying to receive.
    pub receivers: Seq<ThreadId>,
}

/// An IPC endpoint kernel object.
///
/// The endpoint holds two queues of waiting threads. At most one queue is ever
/// non empty at a time, because as soon as a sender and a receiver are both
/// present the kernel pairs them off immediately.
#[derive(Debug, Clone)]
pub struct Endpoint {
    /// Threads blocked trying to send.
    pub senders: VecDeque<ThreadId>,
    /// Threads blocked trying to receive.
    pub receivers: VecDeque<ThreadId>,
}

impl View for Endpoint {
    type V = EndpointView;

    open spec fn view(&self) -> EndpointView {
        EndpointView { senders: self.senders@, receivers: self.receivers@ }
    }
}

impl Default for Endpoint {
    fn default() -> (endpoint: Endpoint)
        ensures
            endpoint@ == (EndpointView { senders: Seq::empty(), receivers: Seq::empty() }),
    {
        Endpoint { senders: VecDeque::new(), receivers: VecDeque::new() }
    }
}

impl Endpoint {
    /// A fresh endpoint with empty queues.
    pub fn new() -> (endpoint: Endpoint)
        ensures
            endpoint@ == (EndpointView { senders: Seq::empty(), receivers: Seq::empty() }),
    {
        Endpoint::default()
    }
}

/// The identifier form used when queueing. Kept as a thin alias for clarity at
/// call sites that pass endpoint ids around.
pub type EndpointRef = EndpointId;

/// A message says what it says: label, payload and the slot to hand over are the
/// parts of those names.
pub proof fn law_a_message_says_what_it_says(msg: MsgSpec)
    ensures
        msg@.label == msg.label,
        msg@.bytes == msg.bytes@,
        msg@.transfer == msg.transfer,
{
}

} // verus!
