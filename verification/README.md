# Seedcore

A deterministic microkernel simulator with capability based isolation,
synchronous IPC and user space services, whose laws are proved with Verus.

A tiny privileged core provides only four things: threads and a deterministic
scheduler, address spaces, a blocking send and receive rendezvous over
endpoints, and capabilities, unforgeable tokens that gate every access to every
object, including delegation with reduced rights and transitive revocation.
Everything else runs as an ordinary task that answers IPC.

Each thread runs a small program of syscall level operations. The core
interprets them and records every effect in a trace. The only inputs are the
seed and the programs, so a run is a function of them.

## Layout

- `src/capability.rs`, `ipc.rs`, `memory.rs`, `thread.rs`, `scheduler.rs`,
  `trace.rs`, `prng.rs`, `error.rs`, `text.rs`: the objects of the kernel, each
  with its mathematical view.
- `src/state.rs`: the state of the kernel and how each operation changes it.
- `src/kernel.rs`: the kernel itself, proved to follow `state.rs` exactly.
- `src/soundness.rs`: the invariant, and that every operation keeps it.
- `src/scenario.rs`: ready made kernels to run.
- `src/console.rs`: all that the command line tool understands and says.
- `app/`: the tool, which reads arguments and prints.

## What is proved

- `authority.rs`: a syscall succeeds if and only if the caller holds a matching
  capability. Fabricated and revoked slots are denied, identities are unique, no
  run creates authority or adds capabilities, and a task without capabilities
  gets nowhere.
- `isolation.rs`: bytes change only by authorized writes, a shared region carries
  data, and outsiders see nothing of it.
- `rendezvous.rs`: who arrives first blocks, who arrives second completes both,
  and a transferred capability moves.
- `history.rs`: every op that a thread is past happened exactly once, so messages
  are neither lost nor duplicated, and dispatches count the ticks without gaps.
- `derivation.rs`: delegation only narrows, and revoking a subtree removes exactly
  that subtree, from tables and from messages in flight, for ever. Descent lasts
  over any sequence of operations, so a later revocation reaches all of it.
- `actions.rs`: the same over any sequence of operations. A slot keeps its
  capability while it is live, and the trace only grows.
- `progress.rs`: every run comes to rest, a stuck thread waits at an endpoint, and
  runs are deterministic.
- `scheduler.rs`: a whole queue drains in the order of its policy.
- `demo.rs`: the guided demo tells the same story for every seed, down to the
  number of messages, transfers and denials and to every byte of the file.
- `exchange.rs`: a pipeline delivers everything exactly once and in order.
- `stress.rs`: in the stress scenario every thread does exactly what its program
  says, consumers read back what producers wrote, the rogue is always denied, and
  different seeds leave different traces.

## Use

```rust
use seedcore::prelude::*;

let mut k = Kernel::new(42);
let server = k.create_task("server");
let client = k.create_task("client");
let ep = k.create_endpoint();

let c_send = k.grant(client, ObjectRef::Endpoint(ep), Rights::send());
let s_recv = k.grant(server, ObjectRef::Endpoint(ep), Rights::recv());

k.spawn_thread(server, "srv", 0, vec![Op::Recv { ep: s_recv }, Op::Exit]);
k.spawn_thread(client, "cli", 0, vec![
    Op::Send { ep: c_send, msg: MsgSpec::new(1, b"ping".to_vec()) },
    Op::Exit,
]);

let report = k.run(64);
assert_eq!(report.rendezvous, 1);
```
