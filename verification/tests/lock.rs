use dechst::obj::lock::{LockAccess, LockState};
use dechst::obj::ObjectKind;
use dechst::repo::marker::LockMarker;

const LEVELS: [LockAccess; 3] = [LockAccess::Idle, LockAccess::Shared, LockAccess::Exclusive];

#[test]
fn lock_table() {
    let (idle, shared, exclusive) = (LockAccess::Idle, LockAccess::Shared, LockAccess::Exclusive);
    assert!(idle.coexists(idle));
    assert!(idle.coexists(shared));
    assert!(idle.coexists(exclusive));
    assert!(shared.coexists(idle));
    assert!(shared.coexists(shared));
    assert!(!shared.coexists(exclusive));
    assert!(exclusive.coexists(idle));
    assert!(!exclusive.coexists(shared));
    assert!(!exclusive.coexists(exclusive));
}

#[test]
fn lock_access_levels() {
    assert!(!LockAccess::Idle.can_read());
    assert!(LockAccess::Shared.can_read());
    assert!(LockAccess::Exclusive.can_read());
    assert!(!LockAccess::Idle.can_write());
    assert!(!LockAccess::Shared.can_write());
    assert!(LockAccess::Exclusive.can_write());
}

#[test]
fn lock_states_are_compatible_kind_by_kind() {
    let kinds = [
        ObjectKind::Config,
        ObjectKind::Index,
        ObjectKind::Key,
        ObjectKind::Snapshot,
        ObjectKind::Pack,
    ];
    // every pair of states that differ from idle on one kind each
    for a in LEVELS {
        for b in LEVELS {
            for (i, kind_a) in kinds.iter().enumerate() {
                for (j, kind_b) in kinds.iter().enumerate() {
                    let left = with(LockMarker::no(), *kind_a, a).into_state();
                    let right = with(LockMarker::no(), *kind_b, b).into_state();
                    let expected = if i == j { a.coexists(b) } else { true };
                    assert_eq!(left.compatible(&right), expected);
                    assert_eq!(right.compatible(&left), expected);
                    let by_kind = kinds
                        .iter()
                        .all(|k| left.access(*k).coexists(right.access(*k)));
                    assert_eq!(left.compatible(&right), by_kind);
                }
            }
        }
    }
    let read = LockMarker::read().into_state();
    let write = LockMarker::write().into_state();
    let none = LockMarker::no().into_state();
    assert!(read.compatible(&read));
    assert!(!read.compatible(&write));
    assert!(!write.compatible(&read));
    assert!(!write.compatible(&write));
    assert!(none.compatible(&write));
    assert!(write.compatible(&none));
    assert_eq!(write.access(ObjectKind::Lock), LockAccess::Idle);
}

fn with(marker: LockMarker, kind: ObjectKind, access: LockAccess) -> LockMarker {
    match kind {
        ObjectKind::Config => marker.config(access),
        ObjectKind::Index => marker.index(access),
        ObjectKind::Key => marker.key(access),
        ObjectKind::Snapshot => marker.snapshot(access),
        ObjectKind::Pack => marker.pack(access),
        ObjectKind::Lock => marker,
    }
}

#[test]
fn lock_marker_builds_state() {
    let marker = LockMarker::new()
        .config(LockAccess::Exclusive)
        .index(LockAccess::Shared)
        .pack(LockAccess::Shared);
    assert_eq!(
        marker.into_state(),
        LockState {
            config: LockAccess::Exclusive,
            index: LockAccess::Shared,
            key: LockAccess::Idle,
            snapshot: LockAccess::Idle,
            pack: LockAccess::Shared,
        }
    );
    assert_eq!(LockMarker::default(), LockMarker::no());
    assert_eq!(LockMarker::all(LockAccess::Shared), LockMarker::read());
    assert_eq!(
        LockMarker::write().key(LockAccess::Idle).snapshot(LockAccess::Shared).state.key,
        LockAccess::Idle
    );
    assert_eq!(
        LockMarker::write().key(LockAccess::Idle).snapshot(LockAccess::Shared).state.snapshot,
        LockAccess::Shared
    );
}
