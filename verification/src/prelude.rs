//! The everyday imports for building and running a scenario.

pub use crate::capability::{CapId, CapSlot, Capability, ObjectRef, Rights};
pub use crate::error::KernelError;
pub use crate::ipc::MsgSpec;
pub use crate::kernel::{Kernel, RunReport};
pub use crate::scheduler::Policy;
pub use crate::thread::{Op, ThreadState};
pub use crate::trace::Event;
pub use crate::{EndpointId, RegionId, TaskId, ThreadId};
