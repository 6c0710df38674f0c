use unlock::tracing_context::{
    baseline_for, capturing_at, collect, event_id_from_counter, leave_record, lock_id_from_counter,
    new_event, shard_index,
    IDLE,
};
use unlock::{Event, EventId, Events, Leave, LockId, LockKind, ThreadStorage, TracingContext};

fn record(id: usize, timestamp: u64, thread_index: usize) -> Event {
    new_event(
        EventId(id),
        timestamp,
        thread_index,
        None,
        "critical",
        "u64",
        LockId::new(LockKind::Mutex, 1),
        None,
    )
}

fn leave(sibling: usize, timestamp: u64) -> Leave {
    Leave { sibling: EventId(sibling), thread_index: 0, timestamp }
}

fn ids(events: &Events) -> Vec<usize> {
    events.enters.iter().map(|e| e.id.0).collect()
}

#[test]
fn shard_index_wraps_by_count() {
    assert_eq!(shard_index(0, 4), 0);
    assert_eq!(shard_index(5, 4), 1);
    assert_eq!(shard_index(7, 1), 0);
}

#[test]
fn baseline_is_never_idle() {
    assert_eq!(baseline_for(0), 0);
    assert_eq!(baseline_for(12345), 12345);
    assert_eq!(baseline_for(IDLE), IDLE - 1);
}

#[test]
fn counters_become_identifiers() {
    assert_eq!(event_id_from_counter(0), None);
    assert_eq!(event_id_from_counter(9), Some(EventId(9)));
    assert_eq!(lock_id_from_counter(LockKind::Mutex, 0), None);
    assert_eq!(lock_id_from_counter(LockKind::Mutex, 0x4000_0000), None);
    let id = lock_id_from_counter(LockKind::RwLock, 3).unwrap();
    assert_eq!(id.kind(), LockKind::RwLock);
    assert_eq!(id.index(), 3);
}

#[test]
fn new_context_has_at_least_one_shard() {
    assert_eq!(TracingContext::new(0).shard_count(), 1);
    assert_eq!(TracingContext::new(3).shard_count(), 3);
    assert!(TracingContext::detect().shard_count() >= 1);
}

#[test]
fn collect_shifts_and_orders() {
    let shards = vec![
        ThreadStorage { enters: vec![record(5, 150, 0), record(2, 120, 0)], leaves: vec![leave(5, 160)] },
        ThreadStorage {
            enters: vec![record(3, 130, 1), record(1, 90, 1)],
            leaves: vec![leave(2, 170), leave(1, 140)],
        },
    ];
    let events = collect(shards, 100);
    assert_eq!(ids(&events), vec![1, 2, 3, 5]);
    let stamps: Vec<u64> = events.enters.iter().map(|e| e.timestamp).collect();
    // A record from before the baseline lands at zero.
    assert_eq!(stamps, vec![0, 20, 30, 50]);
    let siblings: Vec<usize> = events.leaves.iter().map(|l| l.sibling.0).collect();
    assert_eq!(siblings, vec![1, 2, 5]);
    let closes: Vec<u64> = events.leaves.iter().map(|l| l.timestamp).collect();
    assert_eq!(closes, vec![40, 70, 60]);
}

#[test]
fn drain_without_capture_is_empty() {
    let cx = TracingContext::new(2);
    assert!(!cx.is_capturing());
    let lock = cx.next_lock_id(LockKind::Mutex).unwrap();
    for _ in 0..100 {
        let (_, event) = cx.acquire(0, lock, "lock", "u64", || ()).unwrap();
        assert_eq!(event, None);
        cx.leave(0, event);
    }
    let events = cx.drain();
    assert_eq!(events.enters.len(), 0);
    assert_eq!(events.leaves.len(), 0);
}

#[test]
fn drain_again_is_empty_until_capture() {
    let cx = TracingContext::new(2);
    let lock = cx.next_lock_id(LockKind::RwLock).unwrap();
    cx.capture();
    assert!(cx.is_capturing());
    let id = cx.enter(0, lock, "critical", "u64", None).unwrap();
    assert!(id.is_some());
    cx.leave(0, id);
    let first = cx.drain();
    assert_eq!(first.len(), 1);
    assert_eq!(first.leaves.len(), 1);
    assert!(!cx.is_capturing());

    // Records made while idle are dropped.
    assert_eq!(cx.enter(0, lock, "critical", "u64", None).unwrap(), None);
    for _ in 0..3 {
        let again = cx.drain();
        assert!(again.is_empty());
        assert!(again.leaves.is_empty());
    }

    cx.capture();
    let id = cx.enter(1, lock, "critical", "u64", None).unwrap();
    cx.leave(1, id);
    assert_eq!(cx.drain().len(), 1);
}

#[test]
fn acquire_nests_the_lock_span_under_critical() {
    let cx = TracingContext::new(4);
    let lock = cx.next_lock_id(LockKind::Mutex).unwrap();
    cx.capture();
    let (value, critical) = cx.acquire(2, lock, "lock", "u64", || 7u64).unwrap();
    assert_eq!(value, 7);
    let critical = critical.unwrap();
    cx.leave(2, Some(critical));
    let events = cx.drain();

    assert_eq!(events.len(), 2);
    let outer = &events.enters[0];
    let inner = &events.enters[1];
    assert_eq!(outer.id, critical);
    assert_eq!(outer.name, "critical");
    assert_eq!(outer.parent, None);
    assert_eq!(outer.guarded_type, "u64");
    assert_eq!(outer.thread_index, 2);
    assert_eq!(outer.lock, lock);
    assert_eq!(inner.name, "lock");
    assert_eq!(inner.parent, Some(critical));
    assert!(inner.id.0 > outer.id.0);

    // Each span is left exactly once.
    assert_eq!(events.leaves.len(), 2);
    assert_eq!(events.leaves[0].sibling, outer.id);
    assert_eq!(events.leaves[1].sibling, inner.id);
    assert!(events.leaves[0].timestamp >= outer.timestamp);
}

#[test]
fn leave_after_early_return_still_recorded() {
    fn guarded(cx: &TracingContext, lock: LockId, fail: bool) -> Result<u64, ()> {
        let (_, critical) = cx.acquire(0, lock, "write", "u64", || ()).unwrap();
        let result = if fail { Err(()) } else { Ok(1) };
        cx.leave(0, critical);
        result
    }
    let cx = TracingContext::new(1);
    let lock = cx.next_lock_id(LockKind::RwLock).unwrap();
    cx.capture();
    assert_eq!(guarded(&cx, lock, true), Err(()));
    assert_eq!(guarded(&cx, lock, false), Ok(1));
    let events = cx.drain();
    let critical: Vec<usize> =
        events.enters.iter().filter(|e| e.name == "critical").map(|e| e.id.0).collect();
    assert_eq!(critical.len(), 2);
    for id in critical {
        assert_eq!(events.leaves.iter().filter(|l| l.sibling.0 == id).count(), 1);
    }
}

#[test]
fn drained_ids_strictly_increase() {
    let cx = TracingContext::new(3);
    let lock = cx.next_lock_id(LockKind::Mutex).unwrap();
    cx.capture();
    for slot in 0..9 {
        let (_, id) = cx.acquire(slot, lock, "lock", "u64", || ()).unwrap();
        cx.leave(slot, id);
    }
    let events = cx.drain();
    assert_eq!(events.len(), 18);
    for pair in events.enters.windows(2) {
        assert!(pair[0].id.0 < pair[1].id.0);
    }
    let max = events.enters.last().unwrap().id.0;
    for pair in events.leaves.windows(2) {
        assert!(pair[0].sibling.0 <= pair[1].sibling.0);
    }
    assert!(events.leaves.iter().all(|l| l.sibling.0 <= max));
}

#[test]
fn lock_ids_are_unique_per_context() {
    let cx = TracingContext::new(1);
    let a = cx.next_lock_id(LockKind::RwLock).unwrap();
    let b = cx.next_lock_id(LockKind::Mutex).unwrap();
    assert_ne!(a.index(), b.index());
    assert_eq!(a.kind(), LockKind::RwLock);
    assert_eq!(b.kind(), LockKind::Mutex);
}

#[test]
fn slots_rotate() {
    let cx = TracingContext::new(2);
    let a = cx.next_slot();
    let b = cx.next_slot();
    assert_eq!(b, a + 1);
}

#[test]
fn threads_reading_and_writing_one_lock() {
    // Ten workers, each with its own slot, interleaved one operation at a
    // time: each performs a thousand operations, writes and reads in turn.
    let cx = TracingContext::new(4);
    let lock_id = cx.next_lock_id(LockKind::RwLock).unwrap();
    let lock = parking_lot::RwLock::new(0u64);
    cx.capture();
    let slots: Vec<usize> = (0..10).map(|_| cx.next_slot()).collect();
    let mut writes = 0u64;
    for n in 0..1000u64 {
        for &slot in &slots {
            if n % 2 == 1 {
                let (mut guard, event) = cx.acquire(slot, lock_id, "write", "u64", || lock.write()).unwrap();
                *guard += 1;
                writes += 1;
                drop(guard);
                cx.leave(slot, event);
            } else {
                let (guard, event) = cx.acquire(slot, lock_id, "read", "u64", || lock.read()).unwrap();
                let _ = *guard;
                drop(guard);
                cx.leave(slot, event);
            }
        }
    }
    let events = cx.drain();
    let critical = events.enters.iter().filter(|e| e.name == "critical").count();
    assert_eq!(critical, 10_000);
    let critical_ids: std::collections::HashSet<usize> =
        events.enters.iter().filter(|e| e.name == "critical").map(|e| e.id.0).collect();
    let closed = events.leaves.iter().filter(|l| critical_ids.contains(&l.sibling.0)).count();
    assert_eq!(closed, critical);
    assert_eq!(events.leaves.len(), events.enters.len());
    assert_eq!(*lock.read(), writes);
    assert_eq!(writes, 5000);
}

#[test]
fn free_functions_drive_a_context() {
    let cx = TracingContext::new(1);
    let lock = cx.next_lock_id(LockKind::Mutex).unwrap();
    unlock::capture(&cx);
    let (_, id) = cx.acquire(0, lock, "lock", "u64", || ()).unwrap();
    cx.leave(0, id);
    let events = unlock::drain(&cx);
    assert_eq!(events.len(), 2);
    assert!(unlock::drain(&cx).is_empty());
}

#[test]
fn tracing_left_out_records_nothing() {
    unlock::fake_context::capture();
    let events = unlock::fake_context::drain();
    assert!(events.is_empty());
    assert!(events.leaves.is_empty());
}

#[test]
fn capturing_follows_the_baseline() {
    assert!(!capturing_at(IDLE));
    assert!(capturing_at(0));
    assert!(capturing_at(IDLE - 1));
}

#[test]
fn leave_records_only_while_capturing() {
    assert!(leave_record(None, true, 3, 10).is_none());
    assert!(leave_record(Some(EventId(4)), false, 3, 10).is_none());
    let leave = leave_record(Some(EventId(4)), true, 3, 10).unwrap();
    assert_eq!(leave.sibling, EventId(4));
    assert_eq!(leave.thread_index, 3);
    assert_eq!(leave.timestamp, 10);
}

#[test]
fn idle_baseline_records_nothing() {
    let cx = TracingContext::new(2);
    let lock = cx.next_lock_id(LockKind::Mutex).unwrap();
    assert_eq!(cx.enter_at(IDLE, 0, lock, "critical", "u64", None), Ok(None));
    assert!(!cx.leave_at(IDLE, 0, Some(EventId(1))));
    assert_eq!(cx.with_instrumentation_at(IDLE, 0, lock, "lock", "u64", None, || 5), Ok(5));
    let (value, critical) = cx.acquire_at(IDLE, 0, lock, "lock", "u64", || 6).unwrap();
    assert_eq!((value, critical), (6, None));
    let events = cx.drain_from(IDLE);
    assert!(events.is_empty() && events.leaves.is_empty());
}

#[test]
fn explicit_baseline_records_and_drains() {
    let cx = TracingContext::new(2);
    let lock = cx.next_lock_id(LockKind::Mutex).unwrap();
    let id = cx.enter_at(0, 1, lock, "critical", "u64", None).unwrap().unwrap();
    assert!(cx.leave_at(0, 1, Some(id)));
    assert!(!cx.leave_at(0, 1, None));
    let events = cx.drain_from(0);
    assert_eq!(events.len(), 1);
    assert_eq!(events.enters[0].id, id);
    assert_eq!(events.enters[0].thread_index, 1);
    assert_eq!(events.leaves.len(), 1);
    assert_eq!(events.leaves[0].sibling, id);
    // The shards were emptied.
    assert!(cx.drain_from(0).is_empty());
}
