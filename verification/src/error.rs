//! Kernel side error results.
//!
//! Every syscall that touches a kernel object goes through capability
//! resolution, and every way that resolution can fail is one of these variants.
//! A denial is not a panic. It is a value the kernel records and returns, just
//! as a real microkernel returns an error code to a misbehaving task.

use crate::capability::{CapSlot, ObjectRef, Rights};
use crate::text::decimal_text;
use vstd::prelude::*;

verus! {

/// The reason a syscall was refused.
#[derive(Debug, Clone, PartialEq, Eq)]
pub enum KernelError {
    /// The slot is not present in the caller capability table. This covers a
    /// fabricated index, a guessed index, and a slot that was revoked. From the
    /// core's point of view they are indistinguishable, which is exactly the
    /// unforgeability property: there is no such capability.
    NoSuchCapability { slot: CapSlot },
    /// The slot holds a capability, but for a different kind of object than the
    /// syscall needs. A memory capability cannot be used to send on an endpoint.
    WrongObject { slot: CapSlot, expected: &'static str },
    /// The capability exists and names the right object, but does not carry the
    /// permission the operation requires. This is an escalation attempt and it
    /// is denied.
    MissingRight { slot: CapSlot, needed: Rights },
    /// A memory access fell outside the bounds of the region.
    OutOfBounds { object: ObjectRef, offset: usize, len: usize },
    /// A reply was attempted but no reply capability was received.
    NoReplyCapability,
    /// A referenced task, thread, endpoint or region does not exist.
    NoSuchObject { object: ObjectRef },
}

impl KernelError {
    /// The denial message.
    pub open spec fn text(self) -> Seq<char> {
        match self {
            KernelError::NoSuchCapability { slot } => "denied: no capability in slot "@
                + crate::text::decimal(slot as nat),
            KernelError::WrongObject { slot, expected } => "denied: slot "@ + crate::text::decimal(
                slot as nat,
            ) + " is not a capability of kind "@ + expected@,
            KernelError::MissingRight { slot, needed } => "denied: slot "@ + crate::text::decimal(
                slot as nat,
            ) + " lacks right "@ + needed.text(),
            KernelError::OutOfBounds { object, offset, len } => "denied: offset "@
                + crate::text::decimal(offset as nat) + " out of bounds for "@ + object.text()
                + " of length "@ + crate::text::decimal(len as nat),
            KernelError::NoReplyCapability => "denied: no reply capability available"@,
            KernelError::NoSuchObject { object } => "denied: object "@ + object.text()
                + " does not exist"@,
        }
    }

    /// Render the denial message.
    pub fn to_string(&self) -> (text: String)
        ensures
            text@ == self.text(),
    {
        match self {
            KernelError::NoSuchCapability { slot } => {
                let mut text = "denied: no capability in slot ".to_owned();
                text.append(decimal_text(*slot as u64).as_str());
                text
            },
            KernelError::WrongObject { slot, expected } => {
                let mut text = "denied: slot ".to_owned();
                text.append(decimal_text(*slot as u64).as_str());
                text.append(" is not a capability of kind ");
                text.append(expected);
                text
            },
            KernelError::MissingRight { slot, needed } => {
                let mut text = "denied: slot ".to_owned();
                text.append(decimal_text(*slot as u64).as_str());
                text.append(" lacks right ");
                text.append(needed.to_string().as_str());
                text
            },
            KernelError::OutOfBounds { object, offset, len } => {
                let mut text = "denied: offset ".to_owned();
                text.append(decimal_text(*offset as u64).as_str());
                text.append(" out of bounds for ");
                text.append(object.to_string().as_str());
                text.append(" of length ");
                text.append(decimal_text(*len as u64).as_str());
                text
            },
            KernelError::NoReplyCapability => { "denied: no reply capability available".to_owned() },
            KernelError::NoSuchObject { object } => {
                let mut text = "denied: object ".to_owned();
                text.append(object.to_string().as_str());
                text.append(" does not exist");
                text
            },
        }
    }
}

} // verus!
