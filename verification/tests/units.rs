//! One object at a time: tables, rights, regions, the generator, the scheduler.

use seedcore::{
    CapTable, Capability, KernelError, ObjectRef, Op, Policy, Prng, Region, Rights, Scheduler,
    Thread,
};

#[test]
fn slots_are_never_reused() {
    let mut t = CapTable::new();
    let a = t.install(Capability::new(ObjectRef::Endpoint(0), Rights::send()));
    t.remove(a);
    let b = t.install(Capability::new(ObjectRef::Endpoint(0), Rights::send()));
    assert_ne!(a, b, "a revoked slot must never be handed out again");
    assert!(!t.contains(a));
    assert!(t.contains(b));
}

#[test]
fn rights_contains_is_subset() {
    let rw = Rights::read() | Rights::write();
    assert!(rw.contains(Rights::read()));
    assert!(rw.contains(Rights::write()));
    assert!(rw.contains(Rights::read() | Rights::write()));
    assert!(!rw.contains(Rights::send()));
    assert!(!Rights::read().contains(rw));
}

#[test]
fn rights_minus_only_weakens() {
    let full = Rights::read() | Rights::write();
    let ro = full.minus(Rights::write());
    assert!(ro.contains(Rights::read()));
    assert!(!ro.contains(Rights::write()));
}

#[test]
fn high_water_marks_absent_slots() {
    let mut t = CapTable::new();
    for _ in 0..5 {
        t.install(Capability::new(ObjectRef::Region(0), Rights::read()));
    }
    let hw = t.high_water();
    assert!(!t.contains(hw));
    assert!(!t.contains(hw + 100));
}

#[test]
fn read_write_roundtrip() {
    let mut r = Region::new(0, 1, 16);
    assert_eq!(r.read(3).unwrap(), 0);
    r.write(3, 0xAB).unwrap();
    assert_eq!(r.read(3).unwrap(), 0xAB);
}

#[test]
fn access_past_end_is_denied() {
    let mut r = Region::new(0, 1, 4);
    assert!(matches!(r.read(4), Err(KernelError::OutOfBounds { .. })));
    assert!(matches!(r.write(99, 1), Err(KernelError::OutOfBounds { .. })));
}

#[test]
fn same_seed_same_stream() {
    let mut a = Prng::new(12345);
    let mut b = Prng::new(12345);
    for _ in 0..1000 {
        assert_eq!(a.next_u64(), b.next_u64());
    }
}

#[test]
fn different_seed_diverges() {
    let mut a = Prng::new(1);
    let mut b = Prng::new(2);
    let mut differences = 0;
    for _ in 0..100 {
        if a.next_u64() != b.next_u64() {
            differences += 1;
        }
    }
    assert!(differences > 90, "streams should mostly differ");
}

#[test]
fn below_respects_bound() {
    let mut p = Prng::new(99);
    for _ in 0..10_000 {
        assert!(p.below(7) < 7);
    }
    assert_eq!(p.below(0), 0);
    assert_eq!(p.below(1), 0);
}

#[test]
fn round_robin_is_fifo() {
    let mut s = Scheduler::new(Policy::RoundRobin);
    s.enqueue(10, 0);
    s.enqueue(20, 0);
    s.enqueue(30, 0);
    assert_eq!(s.dispatch(), Some(10));
    assert_eq!(s.dispatch(), Some(20));
    assert_eq!(s.dispatch(), Some(30));
    assert_eq!(s.dispatch(), None);
    assert_eq!(s.context_switches, 3);
}

#[test]
fn priority_prefers_smaller_value() {
    let mut s = Scheduler::new(Policy::Priority);
    s.enqueue(1, 5);
    s.enqueue(2, 1);
    s.enqueue(3, 3);
    assert_eq!(s.dispatch(), Some(2));
    assert_eq!(s.dispatch(), Some(3));
    assert_eq!(s.dispatch(), Some(1));
}

#[test]
fn priority_ties_break_by_arrival() {
    let mut s = Scheduler::new(Policy::Priority);
    s.enqueue(7, 4);
    s.enqueue(8, 4);
    s.enqueue(9, 4);
    assert_eq!(s.dispatch(), Some(7));
    assert_eq!(s.dispatch(), Some(8));
    assert_eq!(s.dispatch(), Some(9));
}

#[test]
fn remove_pulls_thread_out() {
    let mut s = Scheduler::new(Policy::RoundRobin);
    s.enqueue(1, 0);
    s.enqueue(2, 0);
    s.remove(1);
    assert_eq!(s.dispatch(), Some(2));
    assert_eq!(s.dispatch(), None);
}

#[test]
fn scheduler_reports_what_is_ready() {
    let mut s = Scheduler::new(Policy::Priority);
    assert_eq!(s.policy(), Policy::Priority);
    assert!(!s.has_ready());
    s.enqueue(4, 9);
    s.enqueue(5, 9);
    s.enqueue(4, 9);
    assert_eq!(s.ready_len(), 3);
    s.remove(4);
    assert_eq!(s.ready_len(), 1);
    assert!(s.has_ready());
    assert_eq!(s.dispatch(), Some(5));
    assert_eq!(s.switches(), 1);
}

#[test]
fn generator_matches_the_published_stream() {
    // The first outputs of SplitMix64 from seed 1234567.
    let mut p = Prng::new(1_234_567);
    assert_eq!(p.next_u64(), 6_457_827_717_110_365_317);
    assert_eq!(p.next_u64(), 3_203_168_211_198_807_973);
    assert_eq!(p.next_u64(), 9_817_491_932_198_370_423);
    assert_eq!(p.next_u64(), 4_593_380_528_125_082_431);
    assert_eq!(p.next_u64(), 16_408_922_859_458_223_821);
}

#[test]
fn generator_reductions_agree_with_the_raw_output() {
    let mut raw = Prng::new(77);
    let mut low = Prng::new(77);
    let mut high = Prng::new(77);
    let mut coin = Prng::new(77);
    for _ in 0..200 {
        let z = raw.next_u64();
        assert_eq!(low.byte(), (z & 0xFF) as u8);
        let scaled = ((z as u128 * 10) >> 64) as u32;
        assert_eq!(high.below(10), scaled);
        assert_eq!(coin.one_in(10), scaled == 0);
    }
    assert!(!coin.one_in(0));
}

#[test]
fn a_table_lists_and_counts_its_entries() {
    let mut t = CapTable::new();
    assert!(t.is_empty());
    let a = t.install(Capability::new(ObjectRef::Endpoint(3), Rights::send()));
    let b = t.install(Capability::new(ObjectRef::Region(4), Rights::read()));
    let c = t.install(Capability::new(ObjectRef::Task(5), Rights::none()));
    assert_eq!((a, b, c), (0, 1, 2));
    assert_eq!(t.remove(b), Some(Capability::new(ObjectRef::Region(4), Rights::read())));
    assert_eq!(t.remove(b), None);
    assert_eq!(t.len(), 2);
    assert_eq!(t.high_water(), 3);
    assert_eq!(t.get(b), None);
    assert_eq!(t.get(a).unwrap().object, ObjectRef::Endpoint(3));
    let slots: Vec<u32> = t.iter().into_iter().map(|(slot, _)| slot).collect();
    assert_eq!(slots, vec![0, 2]);
    let listed: Vec<u32> = t.iter_entries().into_iter().map(|(slot, _)| slot).collect();
    assert_eq!(listed, vec![0, 2]);
    assert_eq!(t.id_of(c), t.entry(c).map(|e| e.id));
    assert_eq!(t.id_of(b), None);
}

#[test]
fn a_region_has_its_length_and_owner() {
    let r = Region::new(7, 2, 3);
    assert_eq!((r.id, r.owner, r.len()), (7, 2, 3));
    assert!(!r.is_empty());
    assert!(Region::new(0, 0, 0).is_empty());
    assert_eq!(
        r.read(3),
        Err(KernelError::OutOfBounds { object: ObjectRef::Region(7), offset: 3, len: 3 })
    );
}

#[test]
fn rights_round_trip_through_bits() {
    let all = Rights::send() | Rights::recv() | Rights::grant() | Rights::read() | Rights::write();
    assert_eq!(all.bits(), 31);
    assert_eq!(Rights::from_bits(31), all);
    assert_eq!(Rights::none().bits(), 0);
    assert_eq!(Rights::send().union(Rights::grant()).bits(), 5);
    assert!(all.contains(Rights::none()));
}

#[test]
fn round_robin_serves_newcomers_last() {
    let mut s = Scheduler::new(Policy::RoundRobin);
    s.enqueue(1, 9);
    s.enqueue(2, 0);
    assert_eq!(s.dispatch(), Some(1));
    s.enqueue(1, 9);
    s.enqueue(3, 0);
    assert_eq!(s.dispatch(), Some(2));
    assert_eq!(s.dispatch(), Some(1));
    assert_eq!(s.dispatch(), Some(3));
}

#[test]
fn a_queue_drains_in_the_order_of_its_policy() {
    let entries = [(4u32, 2u8), (1, 0), (7, 2), (2, 1), (9, 0)];
    let drain = |policy: Policy| {
        let mut s = Scheduler::new(policy);
        for (thread, priority) in entries {
            s.enqueue(thread, priority);
        }
        let order: Vec<u32> = (0..entries.len()).map(|_| s.dispatch().unwrap()).collect();
        assert_eq!(s.dispatch(), None);
        assert_eq!(s.context_switches, entries.len() as u64);
        order
    };
    assert_eq!(drain(Policy::RoundRobin), vec![4, 1, 7, 2, 9]);
    assert_eq!(drain(Policy::Priority), vec![1, 9, 2, 4, 7]);
}

#[test]
fn a_thread_shows_its_fields() {
    let t = Thread::new(3, 1, "worker", 2, vec![Op::Compute(1), Op::Exit]);
    assert_eq!((t.id(), t.task(), t.name()), (t.id, t.task, t.name.as_str()));
    assert_eq!((t.pc(), t.priority(), t.cycles()), (t.pc, t.priority, t.cycles));
    assert_eq!((t.dispatches(), t.state()), (t.dispatches, t.state));
    assert_eq!(t.program().len(), 2);
}
