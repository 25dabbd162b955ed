//! Ready made scenarios.
//!
//! These build a [`Kernel`] populated with tasks, services, endpoints and
//! regions, wired together with capabilities. They are the same building blocks
//! a user of the library would assemble by hand, collected here so the command
//! line tool and the examples have something concrete to run.

use crate::capability::{CapSlot, ObjectRef, Rights};
use crate::ipc::{MsgSpec, MsgView};
use crate::kernel::Kernel;
use crate::scheduler::Policy;
use crate::state::KernelView;
use crate::text::decimal_text;
use crate::thread::{Op, OpView};
use crate::{EndpointId, RegionId, TaskId};
use vstd::prelude::*;

verus! {

/// A name with a number at the end.
pub open spec fn numbered(prefix: Seq<char>, number: nat) -> Seq<char> {
    prefix + crate::text::decimal(number)
}

/// Render a name with a number at the end.
fn numbered_name(prefix: &str, number: u32) -> (name: String)
    ensures
        name@ == numbered(prefix@, number as nat),
{
    let mut name = prefix.to_owned();
    let digits = decimal_text(number as u64);
    name.append(digits.as_str());
    name
}

/// At least one.
pub open spec fn at_least_one(count: u32) -> nat {
    if count == 0 {
        1
    } else {
        count as nat
    }
}

/// At least one.
fn clamp_to_one(count: u32) -> (clamped: u32)
    ensures
        clamped == at_least_one(count),
{
    if count == 0 {
        1
    } else {
        count
    }
}

// -- the guided demo ----------------------------------------------------------

/// A message without a capability.
pub open spec fn plain(label: u64, bytes: Seq<u8>) -> MsgView {
    MsgView { label, bytes, transfer: None }
}

/// What the filesystem service does: take one request, work, publish the file in
/// the shared buffer, and answer.
pub open spec fn filesystem_program() -> Seq<OpView> {
    seq![
        OpView::Recv { ep: 0 },
        OpView::Compute(5),
        OpView::Write { mem: 1, offset: 0, value: 0x48 },
        OpView::Write { mem: 1, offset: 1, value: 0x49 },
        OpView::Reply { msg: plain(2, seq![0x6f, 0x6b]) },
        OpView::Exit,
    ]
}

/// What the console service does: take one print request and finish.
pub open spec fn console_program() -> Seq<OpView> {
    seq![OpView::Recv { ep: 0 }, OpView::Compute(1), OpView::Exit]
}

/// What the client does: ask for a file, handing over a reply capability, read
/// the answer from the shared buffer, print it, and make two illegal moves.
pub open spec fn client_program() -> Seq<OpView> {
    seq![
        OpView::Compute(3),
        OpView::Send {
            ep: 0,
            msg: MsgView {
                label: 1,
                bytes: seq![
                    0x72,
                    0x65,
                    0x61,
                    0x64,
                    0x3a,
                    0x2f,
                    0x68,
                    0x65,
                    0x6c,
                    0x6c,
                    0x6f,
                ],
                transfer: Some(2),
            },
        },
        OpView::Recv { ep: 1 },
        OpView::Read { mem: 3, offset: 0 },
        OpView::Read { mem: 3, offset: 1 },
        OpView::Send { ep: 4, msg: plain(9, seq![0x48, 0x49]) },
        OpView::Read { mem: 99, offset: 0 },
        OpView::Send { ep: 3, msg: plain(7, seq![0x6e, 0x6f, 0x70, 0x65]) },
        OpView::Exit,
    ]
}

/// The objects of the demo: a filesystem, a console and an app, an endpoint for
/// each service and one for replies, a buffer that the app and the filesystem
/// share, and a scratch region that is private to the filesystem.
pub open spec fn demo_objects(seed: u64) -> KernelView {
    KernelView::boot(seed, Policy::RoundRobin).create_task("filesystem"@).create_task(
        "console"@,
    ).create_task("app"@).create_endpoint().create_endpoint().create_endpoint().create_region(
        0,
        16,
    ).create_region(0, 16)
}

/// The capabilities of the two services.
pub open spec fn demo_services(seed: u64) -> KernelView {
    let both = Rights::read().union(Rights::write());
    demo_objects(seed).grant(0, ObjectRef::Endpoint(0), Rights::recv()).grant(
        0,
        ObjectRef::Region(0),
        both,
    ).grant(0, ObjectRef::Region(1), both).grant(1, ObjectRef::Endpoint(1), Rights::recv())
}

/// The capabilities of the app, in slots 0 to 4.
pub open spec fn demo_client(seed: u64) -> KernelView {
    let both = Rights::read().union(Rights::write());
    demo_services(seed).grant(2, ObjectRef::Endpoint(0), Rights::send()).grant(
        2,
        ObjectRef::Endpoint(2),
        Rights::recv(),
    ).grant(2, ObjectRef::Endpoint(2), Rights::send().union(Rights::grant())).grant(
        2,
        ObjectRef::Region(0),
        both,
    ).grant(2, ObjectRef::Endpoint(1), Rights::send())
}

/// The state of the guided demo before it runs.
pub open spec fn demo_view(seed: u64) -> KernelView {
    demo_client(seed).spawn_thread(0, "fs-worker"@, 0, filesystem_program()).spawn_thread(
        1,
        "con-worker"@,
        0,
        console_program(),
    ).spawn_thread(2, "app-main"@, 0, client_program())
}

/// The demo is little work.
pub proof fn lemma_demo_work(seed: u64)
    ensures
        demo_view(seed).work() == 18,
        demo_view(seed).counters_fit(demo_view(seed).work()),
{
    let k = demo_client(seed);
    let a = k.spawn_thread(0, "fs-worker"@, 0, filesystem_program());
    let b = a.spawn_thread(1, "con-worker"@, 0, console_program());
    crate::progress::lemma_spawn_work(k, 0, "fs-worker"@, 0, filesystem_program());
    crate::progress::lemma_spawn_work(a, 1, "con-worker"@, 0, console_program());
    crate::progress::lemma_spawn_work(b, 2, "app-main"@, 0, client_program());
    assert(k.work() == 0);
    crate::progress::lemma_dispatches_left(filesystem_program(), 0);
    crate::progress::lemma_dispatches_left(console_program(), 0);
    crate::progress::lemma_dispatches_left(client_program(), 0);
}

/// Build the program of the filesystem service.
fn filesystem_ops(fs_recv: CapSlot, fs_shared: CapSlot) -> (program: Vec<Op>)
    requires
        fs_recv == 0,
        fs_shared == 1,
    ensures
        crate::thread::program_view(program@) == filesystem_program(),
{
    let ok: Vec<u8> = vec![0x6f, 0x6b];
    proof {
        assert(ok@ =~= seq![0x6f, 0x6b]);
    }
    let program: Vec<Op> = vec![
        Op::Recv { ep: fs_recv },
        Op::Compute(5),
        Op::Write { mem: fs_shared, offset: 0, value: 0x48 },
        Op::Write { mem: fs_shared, offset: 1, value: 0x49 },
        Op::Reply { msg: MsgSpec::new(2, ok) },
        Op::Exit,
    ];
    proof {
        assert(crate::thread::program_view(program@) =~= filesystem_program());
    }
    program
}

/// Build the program of the console service.
fn console_ops(con_recv: CapSlot) -> (program: Vec<Op>)
    requires
        con_recv == 0,
    ensures
        crate::thread::program_view(program@) == console_program(),
{
    let program: Vec<Op> = vec![Op::Recv { ep: con_recv }, Op::Compute(1), Op::Exit];
    proof {
        assert(crate::thread::program_view(program@) =~= console_program());
    }
    program
}

/// Build the program of the client.
fn client_ops(
    app_fs: CapSlot,
    app_reply_recv: CapSlot,
    app_reply_grant: CapSlot,
    app_shared: CapSlot,
    app_con: CapSlot,
) -> (program: Vec<Op>)
    requires
        app_fs == 0,
        app_reply_recv == 1,
        app_reply_grant == 2,
        app_shared == 3,
        app_con == 4,
    ensures
        crate::thread::program_view(program@) == client_program(),
{
    // "read:/hello", "HI" and "nope".
    let path: Vec<u8> = vec![
        0x72, 0x65, 0x61, 0x64, 0x3a, 0x2f, 0x68, 0x65, 0x6c, 0x6c, 0x6f,
    ];
    let greeting: Vec<u8> = vec![0x48, 0x49];
    let nope: Vec<u8> = vec![0x6e, 0x6f, 0x70, 0x65];
    proof {
        assert(path@ =~= seq![
            0x72,
            0x65,
            0x61,
            0x64,
            0x3a,
            0x2f,
            0x68,
            0x65,
            0x6c,
            0x6c,
            0x6f,
        ]);
        assert(greeting@ =~= seq![0x48, 0x49]);
        assert(nope@ =~= seq![0x6e, 0x6f, 0x70, 0x65]);
    }
    let program: Vec<Op> = vec![
        Op::Compute(3),
        Op::Send { ep: app_fs, msg: MsgSpec::with_cap(1, path, app_reply_grant) },
        Op::Recv { ep: app_reply_recv },
        Op::Read { mem: app_shared, offset: 0 },
        Op::Read { mem: app_shared, offset: 1 },
        Op::Send { ep: app_con, msg: MsgSpec::new(9, greeting) },
        // Unauthorized: a capability slot the app was never granted.
        Op::Read { mem: 99, offset: 0 },
        // Unauthorized: using a region capability where an endpoint is required.
        // The core refuses the type confusion.
        Op::Send { ep: app_shared, msg: MsgSpec::new(7, nope) },
        Op::Exit,
    ];
    proof {
        assert(crate::thread::program_view(program@) =~= client_program());
    }
    program
}

/// The guided demo.
///
/// It stands up two user space services, a filesystem and a console, then runs a
/// client task that reads a file through the filesystem over IPC and prints
/// through the console. The client hands the filesystem a one shot reply
/// capability inside the request, the filesystem writes the file bytes into a
/// region shared with the client and replies, and the client reads them back.
/// Finally the client makes two illegal moves that the core denies: it names a
/// capability slot it never held, and it tries to send on a region capability.
///
/// Everything here is ordinary task code. The only privileged steps are the
/// object creations and the grants, which model a boot time capability
/// distribution.
pub fn demo(seed: u64) -> (k: Kernel)
    ensures
        k@ == demo_view(seed),
        k.wf(),
        forall|max_ops: nat| #[trigger] k@.can_run(max_ops),
{
    let mut k = Kernel::new(seed);

    let fs: TaskId = k.create_task("filesystem");
    let con: TaskId = k.create_task("console");
    let app: TaskId = k.create_task("app");

    let fs_ep: EndpointId = k.create_endpoint();
    let con_ep: EndpointId = k.create_endpoint();
    let reply_ep: EndpointId = k.create_endpoint();

    let shared: RegionId = k.create_region(fs, 16);
    let fs_private: RegionId = k.create_region(fs, 16);
    proof {
        assert(k@ == demo_objects(seed));
    }

    // Filesystem capabilities: receive on its endpoint, and read and write both
    // the shared buffer and its own private scratch.
    let fs_recv: CapSlot = k.grant(fs, ObjectRef::Endpoint(fs_ep), Rights::recv());
    let fs_shared: CapSlot = k.grant(
        fs,
        ObjectRef::Region(shared),
        Rights::read() | Rights::write(),
    );
    k.grant(fs, ObjectRef::Region(fs_private), Rights::read() | Rights::write());

    // Console capability: receive on its endpoint.
    let con_recv: CapSlot = k.grant(con, ObjectRef::Endpoint(con_ep), Rights::recv());
    proof {
        assert(k@ == demo_services(seed));
    }

    // App capabilities, granted in a fixed order so the program can name slots.
    let app_fs: CapSlot = k.grant(app, ObjectRef::Endpoint(fs_ep), Rights::send());
    let app_reply_recv: CapSlot = k.grant(app, ObjectRef::Endpoint(reply_ep), Rights::recv());
    let app_reply_grant: CapSlot = k.grant(
        app,
        ObjectRef::Endpoint(reply_ep),
        Rights::send() | Rights::grant(),
    );
    let app_shared: CapSlot = k.grant(
        app,
        ObjectRef::Region(shared),
        Rights::read() | Rights::write(),
    );
    let app_con: CapSlot = k.grant(app, ObjectRef::Endpoint(con_ep), Rights::send());
    proof {
        assert(k@ == demo_client(seed));
    }

    k.spawn_thread(fs, "fs-worker", 0, filesystem_ops(fs_recv, fs_shared));
    k.spawn_thread(con, "con-worker", 0, console_ops(con_recv));
    k.spawn_thread(
        app,
        "app-main",
        0,
        client_ops(app_fs, app_reply_recv, app_reply_grant, app_shared, app_con),
    );
    proof {
        lemma_demo_work(seed);
    }
    k
}

// -- the pipeline -------------------------------------------------------------

/// A program that sends `burst` numbered messages on slot 0 and finishes.
pub open spec fn send_program(burst: nat) -> Seq<OpView> {
    Seq::new(
        burst + 1,
        |i: int|
            if i < burst {
                OpView::Send {
                    ep: 0,
                    msg: MsgView {
                        label: i as u64,
                        bytes: seq![(i as u32) as u8],
                        transfer: None,
                    },
                }
            } else {
                OpView::Exit
            },
    )
}

/// A program that receives `burst` messages on slot 0 and finishes.
pub open spec fn recv_program(burst: nat) -> Seq<OpView> {
    Seq::new(
        burst + 1,
        |i: int|
            if i < burst {
                OpView::Recv { ep: 0 }
            } else {
                OpView::Exit
            },
    )
}

/// Whether the consumer of a pair is spawned before its producer.
pub open spec fn consumer_first(seed: u64, pair: nat) -> bool {
    (pair + seed) % 2 == 0
}

impl KernelView {
    /// A producer task and a consumer task, joined by a private endpoint that the
    /// one may send on and the other receive on.
    pub open spec fn with_couple(self, pair: nat) -> KernelView {
        let producer = self.tasks.len() as TaskId;
        let consumer = (self.tasks.len() + 1) as TaskId;
        let ep = ObjectRef::Endpoint(self.endpoints.len() as EndpointId);
        self.create_task(numbered("producer-"@, pair)).create_task(
            numbered("consumer-"@, pair),
        ).create_endpoint().grant(producer, ep, Rights::send()).grant(
            consumer,
            ep,
            Rights::recv(),
        )
    }

    /// A couple with its threads, the consumer first or last.
    pub open spec fn with_pair(self, seed: u64, pair: nat, burst: nat) -> KernelView {
        let producer = self.tasks.len() as TaskId;
        let consumer = (self.tasks.len() + 1) as TaskId;
        let sender = numbered("producer-"@, pair);
        let receiver = numbered("consumer-"@, pair);
        if consumer_first(seed, pair) {
            self.with_couple(pair).spawn_thread(
                consumer,
                receiver,
                0,
                recv_program(burst),
            ).spawn_thread(producer, sender, 0, send_program(burst))
        } else {
            self.with_couple(pair).spawn_thread(
                producer,
                sender,
                0,
                send_program(burst),
            ).spawn_thread(consumer, receiver, 0, recv_program(burst))
        }
    }
}

/// The state of a pipeline of `pairs` couples before it runs.
pub open spec fn pipeline_view(seed: u64, pairs: nat, burst: nat) -> KernelView
    decreases pairs,
{
    if pairs == 0 {
        KernelView::boot(seed, Policy::RoundRobin)
    } else {
        let before = (pairs - 1) as nat;
        pipeline_view(seed, before, burst).with_pair(seed, before, burst)
    }
}

/// How many objects a pipeline has.
pub proof fn lemma_pipeline_sizes(seed: u64, pairs: nat, burst: nat)
    ensures
        pipeline_view(seed, pairs, burst).tasks.len() == 2 * pairs,
        pipeline_view(seed, pairs, burst).threads.len() == 2 * pairs,
        pipeline_view(seed, pairs, burst).endpoints.len() == pairs,
        pipeline_view(seed, pairs, burst).next_cap_id == 2 * pairs,
    decreases pairs,
{
    if pairs > 0 {
        lemma_pipeline_sizes(seed, (pairs - 1) as nat, burst);
    }
}

/// Build a program that sends `burst` numbered messages and finishes.
fn sending(ep: CapSlot, burst: u32) -> (program: Vec<Op>)
    requires
        ep == 0,
    ensures
        crate::thread::program_view(program@) == send_program(burst as nat),
{
    let mut program: Vec<Op> = Vec::new();
    let mut i: u32 = 0;
    while i < burst
        invariant
            i <= burst,
            ep == 0,
            program@.len() == i,
            forall|j: int|
                0 <= j < i ==> (#[trigger] program@[j])@ == send_program(burst as nat)[j],
        decreases burst - i,
    {
        let byte: u8 = i as u8;
        let bytes: Vec<u8> = vec![byte];
        proof {
            assert(bytes@ =~= seq![byte]);
        }
        program.push(Op::Send { ep, msg: MsgSpec::new(i as u64, bytes) });
        i = i + 1;
    }
    program.push(Op::Exit);
    proof {
        assert(crate::thread::program_view(program@) =~= send_program(burst as nat));
    }
    program
}

/// Build a program that receives `burst` messages and finishes.
fn receiving(ep: CapSlot, burst: u32) -> (program: Vec<Op>)
    requires
        ep == 0,
    ensures
        crate::thread::program_view(program@) == recv_program(burst as nat),
{
    let mut program: Vec<Op> = Vec::new();
    let mut i: u32 = 0;
    while i < burst
        invariant
            i <= burst,
            ep == 0,
            program@.len() == i,
            forall|j: int|
                0 <= j < i ==> (#[trigger] program@[j])@ == recv_program(burst as nat)[j],
        decreases burst - i,
    {
        program.push(Op::Recv { ep });
        i = i + 1;
    }
    program.push(Op::Exit);
    proof {
        assert(crate::thread::program_view(program@) =~= recv_program(burst as nat));
    }
    program
}

/// A clean producer and consumer pipeline, with no rogue task and no denials.
///
/// Each of `pairs` producers sends a burst of `burst` messages to its own
/// consumer over a private endpoint. Half the pairs spawn the consumer first so
/// it blocks waiting, half spawn the producer first, so both IPC arrival orders
/// are exercised. Nothing here forges or misuses a capability, so a run records
/// exactly `pairs * burst` rendezvous and zero denials.
pub fn pipeline(seed: u64, pairs: u32, burst: u32) -> (k: Kernel)
    requires
        2 * at_least_one(pairs) <= u32::MAX,
    ensures
        k@ == pipeline_view(seed, at_least_one(pairs), at_least_one(burst)),
        k.wf(),
        forall|max_ops: nat| #[trigger] k@.can_run(max_ops),
{
    let mut k = Kernel::new(seed);
    let pairs: u32 = clamp_to_one(pairs);
    let burst: u32 = clamp_to_one(burst);
    let mut pair: u32 = 0;
    while pair < pairs
        invariant
            pair <= pairs,
            2 * pairs <= u32::MAX,
            k@ == pipeline_view(seed, pair as nat, burst as nat),
            k.wf(),
        decreases pairs - pair,
    {
        let ghost before = k@;
        proof {
            lemma_pipeline_sizes(seed, pair as nat, burst as nat);
        }
        let producer: TaskId = k.create_task(numbered_name("producer-", pair));
        let consumer: TaskId = k.create_task(numbered_name("consumer-", pair));
        let ep: EndpointId = k.create_endpoint();
        let p_send: CapSlot = k.grant(producer, ObjectRef::Endpoint(ep), Rights::send());
        let c_recv: CapSlot = k.grant(consumer, ObjectRef::Endpoint(ep), Rights::recv());
        proof {
            assert(k@ == before.with_couple(pair as nat));
        }
        let prod = sending(p_send, burst);
        let cons = receiving(c_recv, burst);
        if (pair % 2) as u64 == seed % 2 {
            k.spawn_thread(consumer, numbered_name("consumer-", pair), 0, cons);
            k.spawn_thread(producer, numbered_name("producer-", pair), 0, prod);
        } else {
            k.spawn_thread(producer, numbered_name("producer-", pair), 0, prod);
            k.spawn_thread(consumer, numbered_name("consumer-", pair), 0, cons);
        }
        proof {
            assert(k@ == before.with_pair(seed, pair as nat, burst as nat));
        }
        pair = pair + 1;
    }
    proof {
        assert forall|max_ops: nat| #[trigger] k@.can_run(max_ops) by {
            crate::exchange::law_a_pipeline_delivers_everything_exactly_once(
                seed,
                pairs as nat,
                burst as nat,
                max_ops,
            );
        }
    }
    k
}

// -- the stress scenario ------------------------------------------------------

/// The byte of message `i` of a burst drawn from a generator state.
pub open spec fn payload(rng: u64, i: nat) -> u8 {
    crate::prng::low_byte(crate::prng::stream(rng, 2 * i))
}

/// The label of message `i` of a burst drawn from a generator state.
pub open spec fn label(rng: u64, i: nat) -> u64 {
    crate::prng::stream(rng, 2 * i + 1)
}

/// A producer that for each message publishes the payload in its region, works a
/// little, and sends.
pub open spec fn producer_program(rng: u64, burst: nat) -> Seq<OpView> {
    Seq::new(
        3 * burst + 1,
        |j: int|
            {
                let i = (j / 3) as nat;
                if j == 3 * burst {
                    OpView::Exit
                } else if j % 3 == 0 {
                    OpView::Write { mem: 1, offset: (i % 8) as usize, value: payload(rng, i) }
                } else if j % 3 == 1 {
                    OpView::Compute((1 + payload(rng, i) % 3) as u32)
                } else {
                    OpView::Send {
                        ep: 0,
                        msg: MsgView {
                            label: label(rng, i),
                            bytes: seq![payload(rng, i)],
                            transfer: None,
                        },
                    }
                }
            },
    )
}

/// A consumer that for each message receives and reads what was published.
pub open spec fn consumer_program(burst: nat) -> Seq<OpView> {
    Seq::new(
        2 * burst + 1,
        |j: int|
            {
                let i = (j / 2) as nat;
                if j == 2 * burst {
                    OpView::Exit
                } else if j % 2 == 0 {
                    OpView::Recv { ep: 0 }
                } else {
                    OpView::Read { mem: 1, offset: (i % 8) as usize }
                }
            },
    )
}

/// The fabricated slot of attempt `i` of the rogue.
pub open spec fn guess(rng: u64, i: nat) -> CapSlot {
    (1000 + crate::prng::reduce(crate::prng::stream(rng, i), 1000)) as CapSlot
}

/// A rogue that only tries to read and send through slots it was never given.
pub open spec fn rogue_program(rng: u64, burst: nat) -> Seq<OpView> {
    Seq::new(
        2 * burst + 1,
        |j: int|
            {
                let i = (j / 2) as nat;
                if j == 2 * burst {
                    OpView::Exit
                } else if j % 2 == 0 {
                    OpView::Read { mem: guess(rng, i), offset: 0 }
                } else {
                    OpView::Send {
                        ep: guess(rng, i),
                        msg: MsgView { label: 0, bytes: seq![0u8], transfer: None },
                    }
                }
            },
    )
}

impl KernelView {
    /// A producer and a consumer with an endpoint and a region between them,
    /// whose programs and priorities are drawn from the generator.
    pub open spec fn with_stressed_pair(self, pair: nat, burst: nat) -> KernelView {
        let producer = self.tasks.len() as TaskId;
        let consumer = (self.tasks.len() + 1) as TaskId;
        let ep = ObjectRef::Endpoint(self.endpoints.len() as EndpointId);
        let region = ObjectRef::Region(self.regions.len() as RegionId);
        let draw = |n: nat| crate::prng::reduce(crate::prng::stream(self.rng, n), 4) as u8;
        self.create_task(numbered("producer-"@, pair)).create_task(
            numbered("consumer-"@, pair),
        ).create_endpoint().create_region(producer, 8).grant(
            producer,
            ep,
            Rights::send(),
        ).grant(producer, region, Rights::read().union(Rights::write())).grant(
            consumer,
            ep,
            Rights::recv(),
        ).grant(consumer, region, Rights::read()).with_rng(
            crate::prng::state_after(self.rng, 2 * burst + 2),
        ).spawn_thread(
            producer,
            numbered("producer-"@, pair),
            draw(2 * burst),
            producer_program(self.rng, burst),
        ).spawn_thread(
            consumer,
            numbered("consumer-"@, pair),
            draw(2 * burst + 1),
            consumer_program(burst),
        )
    }

    /// The rogue task, which holds nothing.
    pub open spec fn with_rogue(self, burst: nat) -> KernelView {
        self.create_task("rogue"@).with_rng(
            crate::prng::state_after(self.rng, burst),
        ).spawn_thread(
            self.tasks.len() as TaskId,
            "rogue"@,
            0,
            rogue_program(self.rng, burst),
        )
    }
}

/// The state of `pairs` stressed couples before they run.
pub open spec fn stressed_pairs(seed: u64, pairs: nat, burst: nat) -> KernelView
    decreases pairs,
{
    if pairs == 0 {
        KernelView::boot(seed, Policy::RoundRobin)
    } else {
        let before = (pairs - 1) as nat;
        stressed_pairs(seed, before, burst).with_stressed_pair(before, burst)
    }
}

/// The state of the stress scenario before it runs.
pub open spec fn stress_view(seed: u64, pairs: nat, burst: nat) -> KernelView {
    stressed_pairs(seed, pairs, burst).with_rogue(burst)
}

/// How many objects the couples of the stress scenario have.
pub proof fn lemma_stress_sizes(seed: u64, pairs: nat, burst: nat)
    ensures
        stressed_pairs(seed, pairs, burst).tasks.len() == 2 * pairs,
        stressed_pairs(seed, pairs, burst).threads.len() == 2 * pairs,
        stressed_pairs(seed, pairs, burst).endpoints.len() == pairs,
        stressed_pairs(seed, pairs, burst).regions.len() == pairs,
        stressed_pairs(seed, pairs, burst).next_cap_id == 4 * pairs,
    decreases pairs,
{
    if pairs > 0 {
        lemma_stress_sizes(seed, (pairs - 1) as nat, burst);
    }
}

/// How many ops the stress scenario executes.
pub open spec fn stress_work(pairs: nat, burst: nat) -> nat {
    pairs * (5 * burst + 2) + 2 * burst + 1
}

/// How many ops the programs of the stress scenario have.
proof fn lemma_program_work(rng: u64, burst: nat)
    ensures
        crate::progress::dispatches_left(producer_program(rng, burst), 0) == 3 * burst + 1,
        crate::progress::dispatches_left(consumer_program(burst), 0) == 2 * burst + 1,
        crate::progress::dispatches_left(rogue_program(rng, burst), 0) == 2 * burst + 1,
{
    crate::progress::lemma_dispatches_left(producer_program(rng, burst), 0);
    crate::progress::lemma_dispatches_left(consumer_program(burst), 0);
    crate::progress::lemma_dispatches_left(rogue_program(rng, burst), 0);
}

/// How much work the couples of the stress scenario are.
proof fn lemma_stressed_pairs_work(seed: u64, pairs: nat, burst: nat)
    ensures
        stressed_pairs(seed, pairs, burst).work() == pairs * (5 * burst + 2),
        stressed_pairs(seed, pairs, burst).clock == 0,
    decreases pairs,
{
    if pairs > 0 {
        let before = stressed_pairs(seed, (pairs - 1) as nat, burst);
        lemma_stressed_pairs_work(seed, (pairs - 1) as nat, burst);
        let pair = (pairs - 1) as nat;
        let producer = before.tasks.len() as TaskId;
        let consumer = (before.tasks.len() + 1) as TaskId;
        let draw = |n: nat| crate::prng::reduce(crate::prng::stream(before.rng, n), 4) as u8;
        let ep = ObjectRef::Endpoint(before.endpoints.len() as EndpointId);
        let region = ObjectRef::Region(before.regions.len() as RegionId);
        let wired = before.create_task(numbered("producer-"@, pair)).create_task(
            numbered("consumer-"@, pair),
        ).create_endpoint().create_region(producer, 8).grant(
            producer,
            ep,
            Rights::send(),
        ).grant(producer, region, Rights::read().union(Rights::write())).grant(
            consumer,
            ep,
            Rights::recv(),
        ).grant(consumer, region, Rights::read()).with_rng(
            crate::prng::state_after(before.rng, 2 * burst + 2),
        );
        let half = wired.spawn_thread(
            producer,
            numbered("producer-"@, pair),
            draw(2 * burst),
            producer_program(before.rng, burst),
        );
        crate::progress::lemma_spawn_work(
            wired,
            producer,
            numbered("producer-"@, pair),
            draw(2 * burst),
            producer_program(before.rng, burst),
        );
        crate::progress::lemma_spawn_work(
            half,
            consumer,
            numbered("consumer-"@, pair),
            draw(2 * burst + 1),
            consumer_program(burst),
        );
        assert(wired.work() == before.work());
        lemma_program_work(before.rng, burst);
        assert(pairs * (5 * burst + 2) == (pairs - 1) * (5 * burst + 2) + (5 * burst + 2))
            by (nonlinear_arith);
    } else {
        assert(0 * (5 * burst + 2) == 0) by (nonlinear_arith);
    }
}

/// How much work the stress scenario is, and how many identities it starts with.
pub proof fn lemma_stress_work(seed: u64, pairs: nat, burst: nat)
    ensures
        stress_view(seed, pairs, burst).work() == stress_work(pairs, burst),
        stress_view(seed, pairs, burst).clock == 0,
        stress_view(seed, pairs, burst).next_cap_id == 4 * pairs,
{
    let k = stressed_pairs(seed, pairs, burst);
    lemma_stressed_pairs_work(seed, pairs, burst);
    lemma_stress_sizes(seed, pairs, burst);
    let joined = k.create_task("rogue"@).with_rng(crate::prng::state_after(k.rng, burst));
    lemma_program_work(k.rng, burst);
    assert(joined.work() == k.work());
    crate::progress::lemma_spawn_work(
        joined,
        k.tasks.len() as TaskId,
        "rogue"@,
        0,
        rogue_program(k.rng, burst),
    );
}

/// Draw the programs of a stressed couple.
#[verifier::rlimit(30)]
fn stressed_programs(
    k: &mut Kernel,
    p_mem: CapSlot,
    p_send: CapSlot,
    c_mem: CapSlot,
    c_recv: CapSlot,
    burst: u32,
) -> (programs: (Vec<Op>, Vec<Op>))
    requires
        old(k).wf(),
        p_mem == 1,
        p_send == 0,
        c_mem == 1,
        c_recv == 0,
    ensures
        final(k)@ == old(k)@.with_rng(crate::prng::state_after(old(k)@.rng, 2 * burst as nat)),
        final(k).wf(),
        crate::thread::program_view(programs.0@) == producer_program(old(k)@.rng, burst as nat),
        crate::thread::program_view(programs.1@) == consumer_program(burst as nat),
{
    let ghost before = k@;
    let ghost rng = k@.rng;
    let mut prod: Vec<Op> = Vec::new();
    let mut cons: Vec<Op> = Vec::new();
    let mut i: u32 = 0;
    while i < burst
        invariant
            i <= burst,
            p_mem == 1,
            p_send == 0,
            c_mem == 1,
            c_recv == 0,
            rng == before.rng,
            k@ == before.with_rng(crate::prng::state_after(rng, 2 * i as nat)),
            k.wf(),
            prod@.len() == 3 * i,
            cons@.len() == 2 * i,
            forall|j: int|
                0 <= j < 3 * i ==> (#[trigger] prod@[j])@ == producer_program(
                    rng,
                    burst as nat,
                )[j],
            forall|j: int|
                0 <= j < 2 * i ==> (#[trigger] cons@[j])@ == consumer_program(burst as nat)[j],
        decreases burst - i,
    {
        let value: u8 = k.prng().byte();
        let tag: u64 = k.prng().next_u64();
        proof {
            lemma_two_draws(rng, i as nat);
            assert(value == payload(rng, i as nat));
            assert(tag == label(rng, i as nat));
        }
        let offset: usize = (i % 8) as usize;
        prod.push(Op::Write { mem: p_mem, offset, value });
        prod.push(Op::Compute(1 + (value as u32 % 3)));
        let bytes: Vec<u8> = vec![value];
        proof {
            assert(bytes@ =~= seq![value]);
        }
        prod.push(Op::Send { ep: p_send, msg: MsgSpec::new(tag, bytes) });
        cons.push(Op::Recv { ep: c_recv });
        cons.push(Op::Read { mem: c_mem, offset });
        proof {
            lemma_produced(rng, burst as nat, i as nat);
            lemma_consumed(burst as nat, i as nat);
            assert(prod@[3 * i]@ == producer_program(rng, burst as nat)[3 * i]);
            assert(prod@[3 * i + 1]@ == producer_program(rng, burst as nat)[3 * i + 1]);
            assert(prod@[3 * i + 2]@ == producer_program(rng, burst as nat)[3 * i + 2]);
            assert(cons@[2 * i]@ == consumer_program(burst as nat)[2 * i]);
            assert(cons@[2 * i + 1]@ == consumer_program(burst as nat)[2 * i + 1]);
        }
        i = i + 1;
    }
    prod.push(Op::Exit);
    cons.push(Op::Exit);
    proof {
        assert(crate::thread::program_view(prod@) =~= producer_program(rng, burst as nat));
        assert(crate::thread::program_view(cons@) =~= consumer_program(burst as nat));
    }
    (prod, cons)
}

/// The ops of a producer for one message.
proof fn lemma_produced(rng: u64, burst: nat, i: nat)
    requires
        i < burst,
    ensures
        ({
            let program = producer_program(rng, burst);
            let msg = MsgView {
                label: label(rng, i),
                bytes: seq![payload(rng, i)],
                transfer: None,
            };
            &&& program[3 * i as int] == (OpView::Write {
                mem: 1,
                offset: (i % 8) as usize,
                value: payload(rng, i),
            })
            &&& program[(3 * i + 1) as int] == OpView::Compute((1 + payload(rng, i) % 3) as u32)
            &&& program[(3 * i + 2) as int] == (OpView::Send { ep: 0, msg })
        }),
{
}

/// The ops of a consumer for one message.
proof fn lemma_consumed(burst: nat, i: nat)
    requires
        i < burst,
    ensures
        consumer_program(burst)[2 * i as int] == (OpView::Recv { ep: 0 }),
        consumer_program(burst)[(2 * i + 1) as int] == (OpView::Read {
            mem: 1,
            offset: (i % 8) as usize,
        }),
{
}

/// Two draws in a row.
proof fn lemma_two_draws(rng: u64, i: nat)
    ensures
        crate::prng::stream(rng, 2 * i) == crate::prng::output(
            crate::prng::next_state(crate::prng::state_after(rng, 2 * i)),
        ),
        crate::prng::stream(rng, 2 * i + 1) == crate::prng::output(
            crate::prng::next_state(
                crate::prng::next_state(crate::prng::state_after(rng, 2 * i)),
            ),
        ),
        crate::prng::state_after(rng, 2 * (i + 1)) == crate::prng::next_state(
            crate::prng::next_state(crate::prng::state_after(rng, 2 * i)),
        ),
{
    assert(crate::prng::state_after(rng, 2 * i + 1) == crate::prng::next_state(
        crate::prng::state_after(rng, 2 * i),
    ));
    assert(crate::prng::state_after(rng, 2 * i + 2) == crate::prng::next_state(
        crate::prng::state_after(rng, 2 * i + 1),
    ));
}

/// Add a producer and a consumer to the stress scenario.
fn add_stressed_pair(k: &mut Kernel, pair: u32, burst: u32)
    requires
        old(k).wf(),
        old(k)@.tasks.len() + 2 <= u32::MAX,
        old(k)@.threads.len() + 2 <= u32::MAX,
        old(k)@.endpoints.len() < u32::MAX,
        old(k)@.regions.len() < u32::MAX,
        old(k)@.next_cap_id + 4 <= u64::MAX,
    ensures
        final(k)@ == old(k)@.with_stressed_pair(pair as nat, burst as nat),
        final(k).wf(),
{
    let ghost before = k@;
    let ghost rng = k@.rng;
    let producer: TaskId = k.create_task(numbered_name("producer-", pair));
    let consumer: TaskId = k.create_task(numbered_name("consumer-", pair));
    let ep: EndpointId = k.create_endpoint();
    let region: RegionId = k.create_region(producer, 8);
    let p_send: CapSlot = k.grant(producer, ObjectRef::Endpoint(ep), Rights::send());
    let p_mem: CapSlot = k.grant(
        producer,
        ObjectRef::Region(region),
        Rights::read() | Rights::write(),
    );
    let c_recv: CapSlot = k.grant(consumer, ObjectRef::Endpoint(ep), Rights::recv());
    let c_mem: CapSlot = k.grant(consumer, ObjectRef::Region(region), Rights::read());
    let (prod, cons) = stressed_programs(k, p_mem, p_send, c_mem, c_recv, burst);
    let prod_prio: u8 = k.prng().below(4) as u8;
    let cons_prio: u8 = k.prng().below(4) as u8;
    proof {
        lemma_two_draws(rng, burst as nat);
    }
    k.spawn_thread(producer, numbered_name("producer-", pair), prod_prio, prod);
    k.spawn_thread(consumer, numbered_name("consumer-", pair), cons_prio, cons);
    proof {
        assert(k@ == before.with_stressed_pair(pair as nat, burst as nat));
    }
}

/// Add the rogue task to the stress scenario.
fn add_rogue(k: &mut Kernel, burst: u32)
    requires
        old(k).wf(),
        old(k)@.tasks.len() < u32::MAX,
        old(k)@.threads.len() < u32::MAX,
    ensures
        final(k)@ == old(k)@.with_rogue(burst as nat),
        final(k).wf(),
{
    let ghost rng = k@.rng;
    let rogue: TaskId = k.create_task("rogue");
    let ghost joined = k@;
    let mut program: Vec<Op> = Vec::new();
    let mut i: u32 = 0;
    while i < burst
        invariant
            i <= burst,
            rng == joined.rng,
            k@ == joined.with_rng(crate::prng::state_after(rng, i as nat)),
            k.wf(),
            program@.len() == 2 * i,
            forall|j: int|
                0 <= j < 2 * i ==> (#[trigger] program@[j])@ == rogue_program(
                    rng,
                    burst as nat,
                )[j],
        decreases burst - i,
    {
        let slot: CapSlot = 1000 + k.prng().below(1000);
        proof {
            assert(slot == guess(rng, i as nat));
        }
        program.push(Op::Read { mem: slot, offset: 0 });
        let bytes: Vec<u8> = vec![0];
        proof {
            assert(bytes@ =~= seq![0u8]);
        }
        program.push(Op::Send { ep: slot, msg: MsgSpec::new(0, bytes) });
        i = i + 1;
    }
    program.push(Op::Exit);
    proof {
        assert(crate::thread::program_view(program@) =~= rogue_program(rng, burst as nat));
    }
    k.spawn_thread(rogue, "rogue", 0, program);
}

/// A randomized producer and consumer stress scenario for the command line `run`
/// mode.
///
/// It creates `pairs` producer and consumer couples. Each producer sends a burst
/// of messages to its consumer over a private endpoint, with the payload driven
/// by the seed, and each consumer receives them. A shared region per pair lets
/// the producer publish a byte the consumer reads back, exercising shared memory.
/// One extra rogue task repeatedly attempts to use fabricated capability slots
/// so the denial path is always exercised. The whole thing is a pure function of
/// the seed and the parameters.
pub fn stress(seed: u64, pairs: u32, burst: u32) -> (k: Kernel)
    requires
        2 * at_least_one(pairs) < u32::MAX,
    ensures
        k@ == stress_view(seed, at_least_one(pairs), at_least_one(burst)),
        k.wf(),
        forall|max_ops: nat| max_ops <= u64::MAX ==> #[trigger] k@.can_run(max_ops),
{
    let mut k = Kernel::new(seed);
    let pairs: u32 = clamp_to_one(pairs);
    let burst: u32 = clamp_to_one(burst);
    let mut pair: u32 = 0;
    while pair < pairs
        invariant
            pair <= pairs,
            2 * pairs < u32::MAX,
            k@ == stressed_pairs(seed, pair as nat, burst as nat),
            k.wf(),
        decreases pairs - pair,
    {
        proof {
            lemma_stress_sizes(seed, pair as nat, burst as nat);
        }
        add_stressed_pair(&mut k, pair, burst);
        pair = pair + 1;
    }
    proof {
        lemma_stress_sizes(seed, pairs as nat, burst as nat);
    }
    // A rogue task that only ever tries to touch things it has no capability
    // for. Every one of its accesses is denied.
    add_rogue(&mut k, burst);
    proof {
        assert forall|max_ops: nat| max_ops <= u64::MAX implies #[trigger] k@.can_run(max_ops) by {
            crate::stress::law_a_stress_run_stays_within_the_machine(
                seed,
                pairs as nat,
                burst as nat,
                max_ops,
            );
        }
    }
    k
}

} // verus!
