use unlock::{Events, LockId, LockKind};

#[test]
fn lock_id_packs_kind_and_index() {
    let id = LockId::new(LockKind::RwLock, 5);
    assert_eq!(id.index(), 5);
    assert_eq!(id.kind(), LockKind::RwLock);
    assert_eq!(id.raw(), (1u32 << 30) | 5);

    let id = LockId::new(LockKind::Mutex, 0x3FFF_FFFF);
    assert_eq!(id.index(), 0x3FFF_FFFF);
    assert_eq!(id.kind(), LockKind::Mutex);
    assert_eq!(id.raw(), (2u32 << 30) | 0x3FFF_FFFF);
}

#[test]
fn lock_id_round_trips_through_raw() {
    let id = LockId::new(LockKind::Mutex, 42);
    assert_eq!(LockId::from_raw(id.raw()), Some(id));
    let id = LockId::new(LockKind::RwLock, 1);
    assert_eq!(LockId::from_raw(id.raw()), Some(id));
}

#[test]
fn lock_id_rejects_invalid_raw() {
    assert_eq!(LockId::from_raw(0), None);
    assert_eq!(LockId::from_raw(1 << 30), None);
    assert_eq!(LockId::from_raw(7), None);
    assert_eq!(LockId::from_raw((3u32 << 30) | 7), None);
}

#[test]
fn empty_events() {
    let events = Events::new();
    assert_eq!(events.len(), 0);
    assert!(events.is_empty());
    assert!(events.leaves.is_empty());
}
