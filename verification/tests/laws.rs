//! The laws of the library, each on concrete values.

use seedcore::prelude::{
    Event, Kernel, KernelError, MsgSpec, ObjectRef, Op, Policy, Rights, ThreadState,
};
use seedcore::scenario;

fn rw() -> Rights {
    Rights::read() | Rights::write()
}

/// The events that complete an op of a thread, in order.
fn deeds(k: &Kernel, tid: u32) -> Vec<Event> {
    k.trace()
        .iter()
        .filter(|e| match e {
            Event::Compute { thread, .. } => *thread == tid,
            Event::MemRead { thread, .. } => *thread == tid,
            Event::MemWrite { thread, .. } => *thread == tid,
            Event::Denied { thread, .. } => *thread == tid,
            Event::Rendezvous { sender, receiver, .. } => *sender == tid || *receiver == tid,
            _ => false,
        })
        .cloned()
        .collect()
}

#[test]
fn every_denial_has_its_reason() {
    let mut k = Kernel::new(1);
    let t = k.create_task("t");
    let th = k.spawn_thread(t, "th", 0, vec![]);
    let r = k.create_region(t, 4);
    let ep = k.create_endpoint();
    let ro = k.grant(t, ObjectRef::Region(r), Rights::read());
    let send = k.grant(t, ObjectRef::Endpoint(ep), Rights::send());
    let ghost = k.grant(t, ObjectRef::Region(77), rw());

    assert_eq!(k.sys_read(th, 9, 0), Err(KernelError::NoSuchCapability { slot: 9 }));
    assert_eq!(
        k.sys_read(th, send, 0),
        Err(KernelError::WrongObject { slot: send, expected: "region" })
    );
    assert_eq!(
        k.sys_write(th, ro, 0, 1),
        Err(KernelError::MissingRight { slot: ro, needed: Rights::write() })
    );
    assert_eq!(
        k.sys_read(th, ro, 4),
        Err(KernelError::OutOfBounds { object: ObjectRef::Region(r), offset: 4, len: 4 })
    );
    assert_eq!(
        k.sys_read(th, ghost, 0),
        Err(KernelError::NoSuchObject { object: ObjectRef::Region(77) })
    );
    assert_eq!(
        k.sys_read(th + 1, ro, 0),
        Err(KernelError::NoSuchObject { object: ObjectRef::Thread(th + 1) })
    );
    assert_eq!(
        k.resolve(5, 0, "region", Rights::read()),
        Err(KernelError::NoSuchObject { object: ObjectRef::Task(5) })
    );
    assert_eq!(k.resolve(t, ro, "region", Rights::read()), Ok(ObjectRef::Region(r)));
}

#[test]
fn denials_are_spelled_out() {
    assert_eq!(
        KernelError::NoSuchCapability { slot: 99 }.to_string(),
        "denied: no capability in slot 99"
    );
    assert_eq!(
        KernelError::WrongObject { slot: 3, expected: "endpoint" }.to_string(),
        "denied: slot 3 is not a capability of kind endpoint"
    );
    assert_eq!(
        KernelError::MissingRight { slot: 1, needed: Rights::send() | Rights::grant() }.to_string(),
        "denied: slot 1 lacks right send|grant"
    );
    assert_eq!(
        KernelError::OutOfBounds { object: ObjectRef::Region(2), offset: 9, len: 8 }.to_string(),
        "denied: offset 9 out of bounds for region#2 of length 8"
    );
    assert_eq!(
        KernelError::NoReplyCapability.to_string(),
        "denied: no reply capability available"
    );
    assert_eq!(
        KernelError::NoSuchObject { object: ObjectRef::Task(4) }.to_string(),
        "denied: object task#4 does not exist"
    );
    assert_eq!(Rights::none().to_string(), "none");
    assert_eq!(ObjectRef::Thread(12).to_string(), "thread#12");
}

#[test]
fn events_are_spelled_out() {
    assert_eq!(
        Event::Dispatch { tick: 7, thread: 1, task: 2 }.to_string(),
        "[t  7] dispatch thread#1 (task#2)"
    );
    assert_eq!(
        Event::Dispatch { tick: 1234, thread: 1, task: 2 }.to_string(),
        "[t1234] dispatch thread#1 (task#2)"
    );
    assert_eq!(
        Event::Compute { thread: 3, cycles: 40 }.to_string(),
        "        thread#3 compute 40 cycles"
    );
    assert_eq!(
        Event::BlockSend { thread: 3, endpoint: 5 }.to_string(),
        "        thread#3 blocks on send endpoint#5"
    );
    assert_eq!(
        Event::BlockRecv { thread: 3, endpoint: 5 }.to_string(),
        "        thread#3 blocks on recv endpoint#5"
    );
    assert_eq!(
        Event::Rendezvous { sender: 1, receiver: 2, endpoint: 0, label: 9, bytes: 11 }.to_string(),
        "        IPC endpoint#0: thread#1 -> thread#2 label=9 (11 bytes)"
    );
    assert_eq!(
        Event::CapTransfer {
            from: 0,
            to: 1,
            object: ObjectRef::Endpoint(2),
            rights: Rights::send() | Rights::grant(),
            new_slot: 3,
        }
        .to_string(),
        "        cap transfer endpoint#2 [send|grant] task#0 -> task#1 into slot 3"
    );
    assert_eq!(
        Event::MemRead { thread: 0, region: 1, offset: 2, value: 0x0f }.to_string(),
        "        thread#0 read region#1[2] = 0x0f"
    );
    assert_eq!(
        Event::MemWrite { thread: 0, region: 1, offset: 2, value: 0xab }.to_string(),
        "        thread#0 write region#1[2] = 0xab"
    );
    assert_eq!(
        Event::Denied { thread: 4, syscall: "send", reason: "why".to_string() }.to_string(),
        "        thread#4 send DENIED: why"
    );
    assert_eq!(Event::Exit { thread: 4 }.to_string(), "        thread#4 exit");
}

#[test]
fn a_revoked_slot_stays_dead_whatever_happens() {
    let mut k = Kernel::new(1);
    let t = k.create_task("t");
    let u = k.create_task("u");
    let r = k.create_region(t, 4);
    let first = k.grant(t, ObjectRef::Region(r), rw());
    let again = k.grant(u, ObjectRef::Region(r), rw());
    assert_eq!(k.revoke(t, first).map(|c| c.rights), Some(rw()));
    assert_eq!(k.revoke(t, first), None);
    assert_eq!(k.revoke(9, 0), None);
    for _ in 0..20 {
        k.grant(t, ObjectRef::Region(r), rw());
        k.mint(u, again, t, Rights::none()).unwrap();
        assert_eq!(k.cap_id(t, first), None);
    }
    assert!(k.resolve(t, first, "region", Rights::read()).is_err());
}

#[test]
fn minting_into_a_missing_task_is_denied() {
    let mut k = Kernel::new(1);
    let t = k.create_task("t");
    let r = k.create_region(t, 4);
    let root = k.grant(t, ObjectRef::Region(r), rw());
    assert_eq!(
        k.mint(t, root, 8, Rights::none()),
        Err(KernelError::NoSuchObject { object: ObjectRef::Task(8) })
    );
    assert_eq!(
        k.mint(8, root, t, Rights::none()),
        Err(KernelError::NoSuchObject { object: ObjectRef::Task(8) })
    );
    // The refused request still used up an identity.
    let (slot, _) = k.mint(t, root, t, Rights::none()).unwrap();
    assert_eq!(k.cap_id(t, root), Some(0));
    assert_eq!(k.cap_id(t, slot), Some(2));
}

#[test]
fn revocation_reaches_a_capability_that_travelled() {
    let mut k = Kernel::new(1);
    let a = k.create_task("a");
    let b = k.create_task("b");
    let c = k.create_task("c");
    let ep = k.create_endpoint();
    let r = k.create_region(a, 8);
    let root = k.grant(a, ObjectRef::Region(r), rw() | Rights::grant());
    let (child, _) = k.mint(a, root, b, Rights::write()).unwrap();
    let id = k.cap_id(b, child).unwrap();
    let b_send = k.grant(b, ObjectRef::Endpoint(ep), Rights::send());
    let c_recv = k.grant(c, ObjectRef::Endpoint(ep), Rights::recv());
    let tb = k.spawn_thread(
        b,
        "tb",
        0,
        vec![Op::Send { ep: b_send, msg: MsgSpec::with_cap(1, vec![], child) }, Op::Exit],
    );
    let tc = k.spawn_thread(c, "tc", 0, vec![Op::Recv { ep: c_recv }, Op::Exit]);
    let report = k.run(100);
    assert_eq!((report.rendezvous, report.cap_transfers), (1, 1));

    // The same identity, now in another table.
    assert_eq!(k.cap_id(b, child), None);
    let landed = c_recv + 1;
    assert_eq!(k.cap_id(c, landed), Some(id));
    assert!(k.sys_read(tc, landed, 0).is_ok());
    assert_eq!(k.revoke_tree(a, root), 2);
    assert!(k.sys_read(tc, landed, 0).is_err());
    assert_eq!(k.revoke_tree(a, root), 0);
    assert!(matches!(k.thread(tb).unwrap().state, ThreadState::Exited));
}

#[test]
fn revocation_reaches_a_capability_in_flight() {
    let mut k = Kernel::new(1);
    let a = k.create_task("a");
    let b = k.create_task("b");
    let ep = k.create_endpoint();
    let r = k.create_region(a, 8);
    let root = k.grant(a, ObjectRef::Region(r), rw() | Rights::grant());
    let (child, _) = k.mint(a, root, a, Rights::none()).unwrap();
    let a_send = k.grant(a, ObjectRef::Endpoint(ep), Rights::send());
    let b_recv = k.grant(b, ObjectRef::Endpoint(ep), Rights::recv());
    k.spawn_thread(
        a,
        "ta",
        0,
        vec![Op::Send { ep: a_send, msg: MsgSpec::with_cap(1, vec![], child) }, Op::Exit],
    );
    k.run(10);
    assert_eq!(k.cap_id(a, child), None);
    assert_eq!(k.revoke_tree(a, root), 2, "the root and the child in the message");
    let tb = k.spawn_thread(b, "tb", 0, vec![Op::Recv { ep: b_recv }, Op::Exit]);
    let report = k.run(10);

    // The message arrives, the capability does not.
    assert_eq!((report.rendezvous, report.cap_transfers, report.denials), (1, 0, 0));
    assert!(matches!(
        k.sys_read(tb, b_recv + 1, 0),
        Err(KernelError::NoSuchCapability { .. })
    ));
    for task in k.tasks() {
        assert!(task.caps.iter().iter().all(|(_, cap)| cap.object != ObjectRef::Region(r)));
    }
}

#[test]
fn revocation_spares_other_capabilities_in_flight() {
    let mut k = Kernel::new(1);
    let a = k.create_task("a");
    let b = k.create_task("b");
    let ep = k.create_endpoint();
    let r = k.create_region(a, 8);
    let root = k.grant(a, ObjectRef::Region(r), rw() | Rights::grant());
    let (left, _) = k.mint(a, root, a, Rights::none()).unwrap();
    let (right, _) = k.mint(a, root, a, Rights::none()).unwrap();
    let id = k.cap_id(a, right).unwrap();
    let a_send = k.grant(a, ObjectRef::Endpoint(ep), Rights::send());
    let b_recv = k.grant(b, ObjectRef::Endpoint(ep), Rights::recv());
    k.spawn_thread(
        a,
        "ta",
        0,
        vec![Op::Send { ep: a_send, msg: MsgSpec::with_cap(1, vec![], right) }, Op::Exit],
    );
    k.run(10);
    assert_eq!(k.revoke_tree(a, left), 1);
    k.spawn_thread(b, "tb", 0, vec![Op::Recv { ep: b_recv }, Op::Exit]);
    assert_eq!(k.run(10).cap_transfers, 1);
    assert_eq!(k.cap_id(b, b_recv + 1), Some(id));
}

#[test]
fn a_later_revocation_reaches_what_was_minted() {
    let mut k = Kernel::new(1);
    let a = k.create_task("a");
    let b = k.create_task("b");
    let c = k.create_task("c");
    let ep = k.create_endpoint();
    let r = k.create_region(a, 8);
    let root = k.grant(a, ObjectRef::Region(r), rw() | Rights::grant());
    let (middle, _) = k.mint(a, root, b, Rights::none()).unwrap();
    let (child, _) = k.mint(b, middle, b, Rights::write()).unwrap();
    let (spare, _) = k.mint(b, middle, c, Rights::write()).unwrap();
    let id = k.cap_id(b, child).unwrap();

    // The link in between goes, its sibling's subtree goes, and the child moves.
    k.revoke(b, middle);
    assert_eq!(k.revoke_tree(c, spare), 1);
    k.grant(c, ObjectRef::Region(r), Rights::read());
    let b_send = k.grant(b, ObjectRef::Endpoint(ep), Rights::send());
    let c_recv = k.grant(c, ObjectRef::Endpoint(ep), Rights::recv());
    k.spawn_thread(
        b,
        "tb",
        0,
        vec![Op::Send { ep: b_send, msg: MsgSpec::with_cap(1, vec![], child) }, Op::Exit],
    );
    let tc = k.spawn_thread(c, "tc", 0, vec![Op::Recv { ep: c_recv }, Op::Exit]);
    k.run(10);
    let landed = c_recv + 1;
    assert_eq!(k.cap_id(c, landed), Some(id));
    assert!(k.sys_read(tc, landed, 0).is_ok());

    // The root still reaches it, and nothing else.
    assert_eq!(k.revoke_tree(a, root), 2);
    assert_eq!(k.cap_id(c, landed), None);
    assert!(k.sys_read(tc, landed, 0).is_err());
    assert!(k.sys_read(tc, c_recv - 1, 0).is_ok());
}

#[test]
fn the_demo_delivers_its_file_and_uses_its_reply_capability_once() {
    for seed in [0u64, 1, 99] {
        let mut k = scenario::demo(seed);
        assert!(k.trace().is_empty());
        assert!(k.cap_id(2, 2).is_some());
        k.run(18);
        let accesses: Vec<(u32, u32, usize, u8)> = k
            .trace()
            .iter()
            .filter_map(|e| match e {
                Event::MemWrite { thread, region, offset, value }
                | Event::MemRead { thread, region, offset, value } => {
                    Some((*thread, *region, *offset, *value))
                }
                _ => None,
            })
            .collect();
        assert_eq!(
            accesses,
            vec![(0, 0, 0, 0x48), (0, 0, 1, 0x49), (2, 0, 0, 0x48), (2, 0, 1, 0x49)]
        );
        assert_eq!(k.sys_read(2, 3, 0), Ok(0x48));
        assert_eq!(k.sys_read(2, 3, 1), Ok(0x49));
        assert_eq!(k.cap_id(2, 2), None);
        assert_eq!(k.cap_id(0, 3), None);
    }
}

#[test]
fn a_missing_endpoint_is_a_denial() {
    let mut k = Kernel::new(1);
    let t = k.create_task("t");
    let cap = k.grant(t, ObjectRef::Endpoint(99), Rights::send() | Rights::recv());
    let s = k.spawn_thread(
        t,
        "s",
        0,
        vec![Op::Send { ep: cap, msg: MsgSpec::new(1, vec![1]) }, Op::Exit],
    );
    let report = k.run(10);
    assert_eq!((report.denials, report.rendezvous), (1, 0));
    assert!(!report.deadlocked);
    assert!(matches!(k.thread(s).unwrap().state, ThreadState::Exited));

    let r = k.spawn_thread(t, "r", 0, vec![Op::Recv { ep: cap }, Op::Exit]);
    let report = k.run(10);
    assert_eq!((report.denials, report.rendezvous), (1, 0));
    assert!(matches!(k.thread(r).unwrap().state, ThreadState::Exited));
    let missing = KernelError::NoSuchObject { object: ObjectRef::Endpoint(99) };
    let reasons: Vec<(&str, String)> = k
        .trace()
        .iter()
        .filter_map(|e| match e {
            Event::Denied { syscall, reason, .. } => Some((*syscall, reason.to_string())),
            _ => None,
        })
        .collect();
    assert_eq!(reasons, vec![("send", missing.to_string()), ("recv", missing.to_string())]);
}

#[test]
fn a_live_slot_keeps_its_identity() {
    let mut k = Kernel::new(3);
    let a = k.create_task("a");
    let b = k.create_task("b");
    let r = k.create_region(a, 8);
    let slot = k.grant(a, ObjectRef::Region(r), rw());
    let id = k.cap_id(a, slot);
    let (child, _) = k.mint(a, slot, b, Rights::none()).unwrap();
    k.grant(a, ObjectRef::Region(r), Rights::read());
    k.spawn_thread(a, "t", 0, vec![Op::Write { mem: slot, offset: 0, value: 1 }, Op::Exit]);
    k.run(10);
    assert_eq!(k.cap_id(a, slot), id);
    k.revoke_tree(b, child);
    assert_eq!(k.cap_id(a, slot), id);
    k.revoke(a, slot);
    k.grant(a, ObjectRef::Region(r), rw());
    assert_eq!(k.cap_id(a, slot), None);
}

#[test]
fn a_run_adds_no_capability() {
    let held = |k: &Kernel| k.tasks().iter().map(|t| t.caps.len()).sum::<usize>();
    for seed in 0..4u64 {
        let mut k = scenario::stress(seed, 3, 4);
        let before = held(&k);
        k.run(4096);
        assert_eq!(held(&k), before);
    }
    // The reply capability of the demo is used up.
    let mut k = scenario::demo(1);
    let before = held(&k);
    k.run(256);
    assert_eq!(held(&k), before - 1);
}

#[test]
fn pipeline_messages_arrive_in_the_order_of_their_labels() {
    for seed in 0..4u64 {
        let (pairs, burst) = (3u32, 5u32);
        let mut k = scenario::pipeline(seed, pairs, burst);
        let report = k.run(10_000);
        assert_eq!((report.rendezvous, report.cap_transfers), (15, 0));
        for pair in 0..pairs {
            let labels: Vec<u64> = k
                .trace()
                .iter()
                .filter_map(|e| match e {
                    Event::Rendezvous { endpoint, label, .. } if *endpoint == pair => Some(*label),
                    _ => None,
                })
                .collect();
            assert_eq!(labels, (0..burst as u64).collect::<Vec<_>>());
        }
    }
}

#[test]
fn a_stress_run_counts_exactly() {
    for (seed, pairs, burst) in [(1u64, 1u32, 1u32), (2, 4, 4), (3, 3, 11)] {
        let mut k = scenario::stress(seed, pairs, burst);
        let work = (pairs * (5 * burst + 2) + 2 * burst + 1) as u64;
        let report = k.run(work);
        let each = (pairs * burst) as u64;
        assert_eq!(report.ops_executed, work);
        assert_eq!(
            (report.rendezvous, report.mem_writes, report.mem_reads),
            (each, each, each)
        );
        assert_eq!((report.denials, report.cap_transfers), (2 * burst as u64, 0));
        assert!(!report.deadlocked);
        assert_eq!(k.run(1000).ops_executed, 0);
        for e in k.trace() {
            if let Event::Denied { thread, .. } = e {
                assert_eq!(*thread, 2 * pairs);
            }
        }
        assert!(k.task(2 * pairs).unwrap().caps.is_empty());
    }
}

#[test]
fn consumers_read_back_what_producers_wrote() {
    let mut k = scenario::stress(7, 3, 10);
    k.run(4096);
    for pair in 0..3u32 {
        let mut wrote: Vec<(usize, u8)> = Vec::new();
        let mut read: Vec<(usize, u8)> = Vec::new();
        for e in k.trace() {
            match e {
                Event::MemWrite { thread, region, offset, value } if *thread == 2 * pair => {
                    assert_eq!(*region, pair);
                    wrote.push((*offset, *value));
                }
                Event::MemRead { thread, region, offset, value } if *thread == 2 * pair + 1 => {
                    assert_eq!(*region, pair);
                    read.push((*offset, *value));
                }
                _ => {}
            }
        }
        assert_eq!(wrote.len(), 10);
        assert_eq!(read, wrote);
    }
}

#[test]
fn dispatches_count_the_ticks() {
    let mut k = scenario::stress(5, 3, 3);
    k.run(20);
    let early: Vec<Event> = k.trace().to_vec();
    let report = k.run(4096);
    assert_eq!(k.trace()[..early.len()], early[..]);
    let ticks: Vec<u64> = k
        .trace()
        .iter()
        .filter_map(|e| match e {
            Event::Dispatch { tick, .. } => Some(*tick),
            _ => None,
        })
        .collect();
    assert_eq!(ticks, (1..=report.final_tick).collect::<Vec<_>>());
}

#[test]
fn different_seeds_leave_different_traces() {
    let mut a = scenario::stress(1, 4, 4);
    let mut b = scenario::stress(2, 4, 4);
    a.run(4096);
    b.run(4096);
    assert_ne!(a.trace(), b.trace());
}

#[test]
fn a_reply_capability_serves_once() {
    let mut k = Kernel::new(1);
    let client = k.create_task("client");
    let server = k.create_task("server");
    let main = k.create_endpoint();
    let back = k.create_endpoint();
    let c_send = k.grant(client, ObjectRef::Endpoint(main), Rights::send());
    let c_back = k.grant(client, ObjectRef::Endpoint(back), Rights::recv());
    let c_gift = k.grant(client, ObjectRef::Endpoint(back), Rights::send() | Rights::grant());
    let s_recv = k.grant(server, ObjectRef::Endpoint(main), Rights::recv());
    let c = k.spawn_thread(
        client,
        "c",
        0,
        vec![
            Op::Send { ep: c_send, msg: MsgSpec::with_cap(1, vec![1], c_gift) },
            Op::Recv { ep: c_back },
            Op::Exit,
        ],
    );
    let s = k.spawn_thread(
        server,
        "s",
        0,
        vec![
            Op::Reply { msg: MsgSpec::new(0, vec![]) },
            Op::Recv { ep: s_recv },
            Op::Reply { msg: MsgSpec::new(2, vec![2, 2]) },
            Op::Reply { msg: MsgSpec::new(3, vec![]) },
            Op::Exit,
        ],
    );
    let report = k.run(100);
    assert_eq!((report.rendezvous, report.cap_transfers, report.denials), (2, 1, 2));
    assert!(!report.deadlocked);
    assert_eq!(k.task(server).unwrap().caps.len(), 1, "the reply capability is used up");
    let denied: Vec<Event> =
        deeds(&k, s).into_iter().filter(|e| matches!(e, Event::Denied { .. })).collect();
    assert_eq!(
        denied,
        vec![
            Event::Denied {
                thread: s,
                syscall: "reply",
                reason: "denied: no reply capability available".to_string(),
            };
            2
        ]
    );
    assert_eq!(deeds(&k, c).len(), 2);
}

#[test]
fn every_op_leaves_exactly_one_mark() {
    let mut k = scenario::stress(11, 3, 4);
    k.run(100_000);
    for t in k.threads() {
        let done = deeds(&k, t.id);
        assert_eq!(done.len(), t.pc, "thread {}", t.id);
        for (event, op) in done.iter().zip(&t.program) {
            let fits = match op {
                Op::Compute(c) => *event == Event::Compute { thread: t.id, cycles: *c },
                Op::Read { .. } => {
                    matches!(event, Event::MemRead { .. } | Event::Denied { syscall: "read", .. })
                }
                Op::Write { .. } => {
                    matches!(event, Event::MemWrite { .. } | Event::Denied { syscall: "write", .. })
                }
                Op::Send { msg, .. } => match event {
                    Event::Rendezvous { sender, label, bytes, .. } => {
                        *sender == t.id && *label == msg.label && *bytes == msg.bytes.len()
                    }
                    Event::Denied { syscall, .. } => *syscall == "send",
                    _ => false,
                },
                Op::Recv { .. } => {
                    matches!(event, Event::Rendezvous { receiver, .. } if *receiver == t.id)
                }
                _ => false,
            };
            assert!(fits, "{:?} is no outcome of {:?}", event, op);
        }
    }
}

#[test]
fn adjacent_pairs_start_in_different_orders() {
    for seed in 0..4u64 {
        let k = scenario::pipeline(seed, 6, 2);
        let first: Vec<bool> = (0..6u32)
            .map(|pair| k.thread(2 * pair).unwrap().task == 2 * pair)
            .collect();
        assert!(first.windows(2).all(|two| two[0] != two[1]));
    }
}

#[test]
fn the_rogue_never_gets_through() {
    for seed in 0..20u64 {
        let mut k = scenario::stress(seed, 2, 5);
        k.run(10_000);
        let rogue = 4;
        assert_eq!(k.thread(rogue).unwrap().name, "rogue");
        let done = deeds(&k, rogue);
        assert_eq!(done.len(), 10);
        assert!(done.iter().all(|e| matches!(e, Event::Denied { .. })));
        assert!(k.task(4).unwrap().caps.is_empty());
    }
}

#[test]
fn a_pipeline_takes_exactly_the_turns_it_needs() {
    for seed in 0..6u64 {
        for pairs in 1..4u32 {
            for burst in 1..5u32 {
                let needed = 2 * u64::from(pairs) * (u64::from(burst) + 1);
                let mut k = scenario::pipeline(seed, pairs, burst);
                let report = k.run(needed);
                assert_eq!(report.ops_executed, needed);
                assert_eq!(report.rendezvous, u64::from(pairs * burst));
                assert_eq!(report.denials, 0);
                assert!(!report.deadlocked);
                assert!(k.threads().iter().all(|t| matches!(t.state, ThreadState::Exited)));
                let more = k.run(u64::MAX);
                assert_eq!(more.ops_executed, 0);
                let mut short = scenario::pipeline(seed, pairs, burst);
                short.run(needed - 1);
                assert!(!short.threads().iter().all(|t| matches!(t.state, ThreadState::Exited)));
            }
        }
    }
}

#[test]
fn a_pipeline_has_at_least_one_pair_and_one_message() {
    let mut k = scenario::pipeline(3, 0, 0);
    assert_eq!(k.tasks().len(), 2);
    assert_eq!(k.run(100).rendezvous, 1);
}

#[test]
fn a_run_in_two_stretches_is_one_run() {
    for split in [0u64, 1, 7, 30] {
        let mut whole = scenario::stress(5, 2, 3);
        let mut parts = scenario::stress(5, 2, 3);
        whole.run(60);
        parts.run(split);
        parts.run(60 - split);
        assert_eq!(whole.trace(), parts.trace());
        assert_eq!(whole.clock(), parts.clock());
    }
}

#[test]
fn a_run_ignores_the_generator() {
    let mut a = scenario::stress(5, 2, 3);
    let mut b = scenario::stress(5, 2, 3);
    for _ in 0..10 {
        b.prng().next_u64();
    }
    a.run(1000);
    b.run(1000);
    assert_eq!(a.trace(), b.trace());
    let mut c = scenario::demo(1);
    let mut d = scenario::demo(99);
    c.run(256);
    d.run(256);
    assert_eq!(c.trace(), d.trace());
}

#[test]
fn every_run_comes_to_rest() {
    let mut k = scenario::stress(9, 3, 3);
    let bound: u64 = k.threads().iter().map(|t| t.program.len() as u64 + 1).sum();
    let report = k.run(bound);
    assert!(report.ops_executed <= bound);
    assert_eq!(k.run(1000).ops_executed, 0);
}

#[test]
fn a_stuck_run_is_a_deadlock() {
    let mut k = Kernel::new(1);
    let t = k.create_task("t");
    let ep = k.create_endpoint();
    let recv = k.grant(t, ObjectRef::Endpoint(ep), Rights::recv());
    let th = k.spawn_thread(t, "th", 0, vec![Op::Recv { ep: recv }, Op::Exit]);
    let report = k.run(10);
    assert!(report.deadlocked);
    assert_eq!(report.ops_executed, 1);
    assert_eq!(k.thread(th).unwrap().state, ThreadState::BlockedRecv(ep));
    assert_eq!(k.thread(th).unwrap().dispatches, 1);
    let cut_short = scenario::demo(1).run(3);
    assert!(!cut_short.deadlocked, "threads are still ready");
}

#[test]
fn priority_policy_runs_the_most_urgent_first() {
    let mut k = Kernel::with_policy(1, Policy::Priority);
    let t = k.create_task("t");
    let slow = k.spawn_thread(t, "slow", 9, vec![Op::Compute(1)]);
    let fast = k.spawn_thread(t, "fast", 1, vec![Op::Compute(2), Op::Compute(3)]);
    let report = k.run(100);
    assert_eq!(report.ops_executed, 5);
    assert_eq!(report.context_switches, 5);
    assert_eq!(report.final_tick, 5);
    let order: Vec<u32> = k
        .trace()
        .iter()
        .filter_map(|e| match e {
            Event::Dispatch { thread, .. } => Some(*thread),
            _ => None,
        })
        .collect();
    assert_eq!(order, vec![fast, fast, fast, slow, slow]);
    assert_eq!(k.thread(fast).unwrap().cycles, 5);
    assert!(k.thread(slow).unwrap().is_done());
    assert!(k.thread(slow).unwrap().current_op().is_none());
}

#[test]
fn a_thread_of_a_missing_task_is_denied() {
    let mut k = Kernel::new(1);
    let th = k.spawn_thread(3, "lost", 0, vec![Op::Read { mem: 0, offset: 0 }, Op::Exit]);
    let report = k.run(10);
    assert_eq!(report.denials, 1);
    assert_eq!(
        deeds(&k, th),
        vec![Event::Denied {
            thread: th,
            syscall: "read",
            reason: "denied: object task#3 does not exist".to_string(),
        }]
    );
}

#[test]
fn the_demo_tells_its_story() {
    let mut k = scenario::demo(1);
    let report = k.run(256);
    assert_eq!(report.rendezvous, 3);
    assert_eq!(report.cap_transfers, 1);
    assert_eq!(report.denials, 2);
    assert_eq!(report.mem_reads, 2);
    assert_eq!(report.mem_writes, 2);
    assert!(!report.deadlocked);
    let reads: Vec<u8> = k
        .trace()
        .iter()
        .filter_map(|e| match e {
            Event::MemRead { value, .. } => Some(*value),
            _ => None,
        })
        .collect();
    assert_eq!(reads, b"HI".to_vec());
    let reasons: Vec<String> = k
        .trace()
        .iter()
        .filter_map(|e| match e {
            Event::Denied { reason, .. } => Some(reason.clone()),
            _ => None,
        })
        .collect();
    assert_eq!(
        reasons,
        vec![
            "denied: no capability in slot 99".to_string(),
            "denied: slot 3 is not a capability of kind endpoint".to_string(),
        ]
    );
    assert_eq!(k.region(0).unwrap().read(1), Ok(b'I'));
    assert!(k.region(2).is_none());
}

#[test]
fn a_write_touches_one_byte_of_one_region() {
    let mut k = Kernel::new(1);
    let t = k.create_task("t");
    let th = k.spawn_thread(t, "th", 0, vec![]);
    let a = k.create_region(t, 4);
    let b = k.create_region(t, 4);
    let cap = k.grant(t, ObjectRef::Region(a), rw());
    k.sys_write(th, cap, 2, 7).unwrap();
    let bytes: Vec<u8> = (0..4).map(|i| k.region(a).unwrap().read(i).unwrap()).collect();
    assert_eq!(bytes, vec![0, 0, 7, 0]);
    assert!((0..4).all(|i| k.region(b).unwrap().read(i) == Ok(0)));
    assert!(k.sys_write(th, cap, 4, 7).is_err());
    let after: Vec<u8> = (0..4).map(|i| k.region(a).unwrap().read(i).unwrap()).collect();
    assert_eq!(after, bytes, "a denied write changes nothing");
}

#[test]
fn a_region_nobody_may_write_keeps_its_contents() {
    let mut k = Kernel::new(1);
    let t = k.create_task("t");
    let r = k.create_region(t, 2);
    let boot = k.grant(t, ObjectRef::Region(r), rw());
    let ro = k.grant(t, ObjectRef::Region(r), Rights::read());
    let th = k.spawn_thread(
        t,
        "th",
        0,
        vec![
            Op::Write { mem: boot, offset: 0, value: 1 },
            Op::Write { mem: ro, offset: 0, value: 2 },
            Op::Write { mem: 50, offset: 0, value: 3 },
            Op::Read { mem: ro, offset: 0 },
        ],
    );
    k.sys_write(th, boot, 0, 9).unwrap();
    k.revoke(t, boot);
    let report = k.run(100);
    assert_eq!((report.denials, report.mem_writes, report.mem_reads), (3, 0, 1));
    assert_eq!(k.region(r).unwrap().read(0), Ok(9));
    assert_eq!(
        deeds(&k, th)[3],
        Event::MemRead { thread: th, region: r, offset: 0, value: 9 }
    );
}

#[test]
fn a_task_without_capabilities_gets_nowhere() {
    let mut k = Kernel::new(1);
    let rich = k.create_task("rich");
    let poor = k.create_task("poor");
    let ep = k.create_endpoint();
    let r = k.create_region(rich, 2);
    let recv = k.grant(rich, ObjectRef::Endpoint(ep), Rights::recv());
    k.grant(rich, ObjectRef::Region(r), rw());
    k.spawn_thread(rich, "rich", 0, vec![Op::Recv { ep: recv }]);
    let th = k.spawn_thread(
        poor,
        "poor",
        0,
        vec![
            Op::Read { mem: 0, offset: 0 },
            Op::Compute(4),
            Op::Write { mem: 1, offset: 0, value: 5 },
            Op::Send { ep: 0, msg: MsgSpec::with_cap(1, vec![], 0) },
            Op::Recv { ep: 0 },
            Op::Reply { msg: MsgSpec::new(1, vec![]) },
        ],
    );
    let report = k.run(100);
    assert_eq!((report.denials, report.rendezvous), (5, 0));
    assert!(report.deadlocked, "the receiver waits in vain");
    let marks = deeds(&k, th);
    assert_eq!(marks.len(), 6);
    assert_eq!(marks[1], Event::Compute { thread: th, cycles: 4 });
    assert!(k.task(poor).unwrap().caps.is_empty());
}

#[test]
fn an_early_sender_blocks_with_its_message() {
    let mut k = Kernel::new(1);
    let a = k.create_task("a");
    let b = k.create_task("b");
    let ep = k.create_endpoint();
    let send = k.grant(a, ObjectRef::Endpoint(ep), Rights::send());
    let recv = k.grant(b, ObjectRef::Endpoint(ep), Rights::recv());
    let one = k.spawn_thread(a, "one", 0, vec![Op::Send { ep: send, msg: MsgSpec::new(1, vec![1]) }]);
    let two = k.spawn_thread(a, "two", 0, vec![Op::Send { ep: send, msg: MsgSpec::new(2, vec![2]) }]);
    k.run(2);
    assert_eq!(k.thread(one).unwrap().state, ThreadState::BlockedSend(ep));
    assert_eq!(k.thread(one).unwrap().pc, 0);
    let sink = k.spawn_thread(b, "sink", 0, vec![Op::Recv { ep: recv }, Op::Recv { ep: recv }]);
    k.run(100);
    let labels: Vec<u64> = k
        .trace()
        .iter()
        .filter_map(|e| match e {
            Event::Rendezvous { label, receiver, .. } if *receiver == sink => Some(*label),
            _ => None,
        })
        .collect();
    assert_eq!(labels, vec![1, 2], "who waited longest is served first");
    assert!(k.thread(two).unwrap().is_done());
}

#[test]
fn a_grant_and_a_revocation_touch_one_slot() {
    let mut k = Kernel::new(1);
    let t = k.create_task("t");
    let u = k.create_task("u");
    let r = k.create_region(t, 2);
    let kept = k.grant(u, ObjectRef::Region(r), rw());
    let first = k.grant(t, ObjectRef::Region(r), Rights::read());
    let second = k.grant(t, ObjectRef::Region(r), Rights::write());
    assert_eq!((first, second), (0, 1));
    assert_eq!(
        [k.cap_id(u, kept), k.cap_id(t, first), k.cap_id(t, second)],
        [Some(0), Some(1), Some(2)]
    );
    k.revoke(t, first);
    assert_eq!([k.cap_id(u, kept), k.cap_id(t, first), k.cap_id(t, second)], [Some(0), None, Some(2)]);
}

#[test]
fn identities_are_unique_and_keep_their_meaning() {
    let mut k = scenario::demo(1);
    let mut before = Vec::new();
    for t in k.tasks() {
        for (_, e) in t.caps.iter_entries() {
            before.push(e);
        }
    }
    k.run(256);
    let mut after = Vec::new();
    for t in k.tasks() {
        for (_, e) in t.caps.iter_entries() {
            after.push(e);
        }
    }
    assert!(after.len() < before.len(), "the reply capability was used up");
    for (i, e) in after.iter().enumerate() {
        assert!(before.contains(e), "no run creates authority");
        assert!(after[..i].iter().all(|other| other.id != e.id));
    }
}

#[test]
fn right_sets_form_an_order() {
    for a in 0..32u32 {
        for b in 0..32u32 {
            let (x, y) = (Rights::from_bits(a), Rights::from_bits(b));
            assert!(x.union(y).contains(x) && x.union(y).contains(y));
            assert!(x.contains(x.minus(y)));
            assert_eq!(x.minus(y).bits() & b, 0);
            assert_eq!(x.contains(y) && y.contains(x), a == b);
        }
    }
}
