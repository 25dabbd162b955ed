//! Seedcore: a deterministic microkernel simulator with machine checked laws.
//!
//! Seedcore models the microkernel philosophy. A tiny privileged core provides
//! only four things: threads with a scheduler, address spaces, synchronous IPC,
//! and capabilities. Everything else (a memory pager, a filesystem, a console
//! driver) runs as an unprivileged user space service reached only through IPC.
//!
//! This is a teaching accurate model, not a bootable kernel. There is no
//! assembly, no hardware, no real context switch. Instead every task runs a
//! small deterministic program of syscall level operations, the core interprets
//! them, and every effect is recorded in a trace so the behaviour can be
//! inspected and reasoned about.
//!
//! The security spine is capability based access control. A task can only touch
//! a kernel object (an endpoint, a memory region, a thread) when it holds a
//! capability for that object with the right permission. Capabilities are just
//! integer slots into a per task table. A task can never fabricate one: a slot
//! it was never granted, a guessed index, or a revoked slot all resolve to a
//! denial. Capabilities move between tasks only by explicit transfer inside an
//! IPC message.
//!
//! ```
//! use seedcore::prelude::*;
//!
//! let mut k = Kernel::new(42);
//! let server = k.create_task("server");
//! let client = k.create_task("client");
//! let ep = k.create_endpoint();
//!
//! // The client may send on the endpoint, the server may receive on it.
//! let c_send = k.grant(client, ObjectRef::Endpoint(ep), Rights::send());
//! let s_recv = k.grant(server, ObjectRef::Endpoint(ep), Rights::recv());
//!
//! k.spawn_thread(server, "srv", 0, vec![Op::Recv { ep: s_recv }]);
//! k.spawn_thread(client, "cli", 0, vec![Op::Send {
//!     ep: c_send,
//!     msg: MsgSpec::new(1, b"ping".to_vec()),
//! }]);
//!
//! let report = k.run(64);
//! assert!(report.rendezvous >= 1);
//! ```
//!
//! # How the library is laid out
//!
//! The objects of the kernel have a module each: [`capability`], [`ipc`],
//! [`memory`], [`thread`], [`scheduler`], [`trace`], [`prng`] and [`error`]. The
//! [`kernel`] puts them together, [`scenario`] has ready made kernels to run, and
//! [`console`] computes all that the command line tool says.
//!
//! Every contract speaks of a mathematical state. [`state`] says how each
//! operation changes it, and [`soundness`] states the invariant that holds of it.
//! What the library promises as a whole is stated and proved as laws: new objects
//! and the reasons of refusals in [`objects`], enforcement in [`authority`], memory
//! in [`isolation`], message passing in [`rendezvous`] and [`messages`], single
//! turns and their accounting in [`turns`], exactly once execution in [`history`],
//! delegation and transitive revocation in [`derivation`], termination and
//! determinism in [`progress`], any sequence of operations in [`actions`], the
//! report of a run in [`report`], what is printed in [`reading`], what a command
//! line asks for in [`commands`], and the ready made scenarios in [`demo`],
//! [`exchange`] and [`stress`].

pub mod actions;
pub mod authority;
pub mod capability;
pub mod commands;
pub mod console;
pub mod demo;
pub mod derivation;
pub mod error;
pub mod exchange;
pub mod history;
pub mod ipc;
pub mod isolation;
pub mod kernel;
pub mod memory;
pub mod messages;
pub mod objects;
pub mod prelude;
pub mod prng;
pub mod progress;
pub mod reading;
pub mod rendezvous;
pub mod report;
pub mod scenario;
pub mod scheduler;
pub mod soundness;
pub mod state;
pub mod stress;
pub mod text;
pub mod thread;
pub mod trace;
pub mod turns;

use vstd::prelude::*;

pub use capability::{CapEntry, CapId, CapSlot, CapTable, Capability, ObjectRef, Rights};
pub use error::KernelError;
pub use ipc::{Endpoint, MsgSpec};
pub use kernel::{Kernel, RunReport};
pub use memory::Region;
pub use prng::Prng;
pub use scheduler::{Policy, Scheduler};
pub use thread::{Op, Thread, ThreadState};
pub use trace::Event;

verus! {

/// Identifier of a task.
pub type TaskId = u32;

/// Identifier of a thread of execution inside a task.
pub type ThreadId = u32;

/// Identifier of an IPC endpoint kernel object.
pub type EndpointId = u32;

/// Identifier of a memory region kernel object.
pub type RegionId = u32;

} // verus!
