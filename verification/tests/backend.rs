use dechst::backend::ext::{find_id, find_ids, find_in, find_one, read_to_end, Find};
use dechst::backend::layout::{object_path, Layout};
use dechst::backend::memory::MemoryBackend;
use dechst::backend::typed::{
    DirectoryKind, GenericRead, GenericReadDid, GenericReadExt, GenericWrite, GenericWriteDid,
    TypedBackend,
};
use dechst::backend::{BackendError, BackendRead, BackendWrite};
use dechst::id::{Id, WIDTH};
use dechst::obj::{directory_objects, ObjectKind};

fn id_with(first: u8, second: u8) -> Id {
    let mut bytes = [0u8; WIDTH];
    bytes[0] = first;
    bytes[1] = second;
    Id(bytes)
}

#[test]
fn asdf() {
    let backend = MemoryBackend::new("/home/mtx/tmp/dechst/crates/dechst-cli/test_repo");
    let typd = TypedBackend::new(backend);

    for x in typd.key().find_ids(&["x"]).unwrap() {
        println!("{x:?}");
        assert_eq!(x, Find::Absent);
    }
    assert_eq!(typd.key().find_ids(&["x"]).unwrap().len(), 1);
}

#[test]
fn partial_id_resolution() {
    let mut backend = MemoryBackend::new("memory");
    let first = id_with(0xa1, 0xb2);
    let second = id_with(0xa1, 0xc3);
    backend.write_all(ObjectKind::Key, &first, b"one").unwrap();
    backend.write_all(ObjectKind::Key, &second, b"two").unwrap();

    assert_eq!(find_id(&backend, ObjectKind::Key, "a1"), Ok(Find::NonUnique));
    assert_eq!(find_id(&backend, ObjectKind::Key, "a1b"), Ok(Find::Unique(first)));
    assert_eq!(find_id(&backend, ObjectKind::Key, "dead"), Ok(Find::Absent));
    assert_eq!(
        find_ids(&backend, ObjectKind::Key, &["a1", "a1b", "dead", "a1c3", ""]),
        Ok(vec![
            Find::NonUnique,
            Find::Unique(first),
            Find::Absent,
            Find::Unique(second),
            Find::NonUnique
        ])
    );
    // Another kind holds nothing.
    assert_eq!(find_id(&backend, ObjectKind::Lock, "a1"), Ok(Find::Absent));
    // Only lowercase matches, as identifiers are written in lowercase.
    assert_eq!(find_id(&backend, ObjectKind::Key, "A1B"), Ok(Find::Absent));
    // A text longer than an identifier matches nothing.
    let long = format!("{}0", first.to_hex());
    assert_eq!(find_id(&backend, ObjectKind::Key, &long), Ok(Find::Absent));
    assert_eq!(find_id(&backend, ObjectKind::Key, &first.to_hex()), Ok(Find::Unique(first)));
}

#[test]
fn find_in_listing() {
    let first = id_with(0xa1, 0xb2);
    let second = id_with(0xa1, 0xc3);
    let third = id_with(0xff, 0x00);
    let ids = vec![first, second, third];
    assert_eq!(
        find_in(&ids, &["a", "ff", "b"]),
        vec![Find::NonUnique, Find::Unique(third), Find::Absent]
    );
    assert_eq!(find_in(&ids, &[]), Vec::<Find>::new());
    assert_eq!(find_in(&Vec::new(), &["a"]), vec![Find::Absent]);
    // every answer non unique: the rest of the listing changes nothing
    assert_eq!(find_in(&ids, &["a1", "a"]), vec![Find::NonUnique, Find::NonUnique]);
    assert_eq!(find_one(&ids, "a1c"), Find::Unique(second));
    assert_eq!(find_one(&ids, ""), Find::NonUnique);
    assert!(Find::Absent.is_none());
    assert!(Find::Unique(first).is_unique());
    assert!(Find::NonUnique.is_non_unique());
    assert!(!Find::NonUnique.is_unique());
}

#[test]
fn memory_backend_objects() {
    let mut backend = MemoryBackend::new("somewhere");
    assert_eq!(backend.mount_point(), "somewhere");
    assert_eq!(backend.verify(), Err(BackendError::InvalidLayout));
    assert_eq!(backend.create(), Ok(()));
    assert_eq!(backend.verify(), Ok(()));

    let id = id_with(1, 2);
    assert_eq!(backend.contains(ObjectKind::Pack, &id), Err(BackendError::NotFound));
    assert_eq!(backend.meta(ObjectKind::Pack, &id).map(|m| m.len), Err(BackendError::NotFound));
    assert_eq!(backend.remove(ObjectKind::Pack, &id), Err(BackendError::NotFound));
    assert_eq!(read_to_end(&backend, ObjectKind::Pack, &id), Err(BackendError::NotFound));

    assert_eq!(backend.write_all(ObjectKind::Pack, &id, b"0123456789"), Ok(()));
    assert_eq!(backend.contains(ObjectKind::Pack, &id), Ok(()));
    assert_eq!(backend.contains(ObjectKind::Index, &id), Err(BackendError::NotFound));
    assert_eq!(backend.meta(ObjectKind::Pack, &id).unwrap().len, 10);
    assert_eq!(read_to_end(&backend, ObjectKind::Pack, &id), Ok(b"0123456789".to_vec()));
    assert_eq!(backend.read_at(ObjectKind::Pack, &id, 3, 4), Ok(b"3456".to_vec()));
    assert_eq!(backend.read_at(ObjectKind::Pack, &id, 10, 0), Ok(Vec::new()));
    assert_eq!(backend.read_at(ObjectKind::Pack, &id, 8, 3), Err(BackendError::Io));
    assert_eq!(backend.read_at(ObjectKind::Index, &id, 0, 1), Err(BackendError::NotFound));

    let mut buf = b"ab".to_vec();
    assert_eq!(backend.read_all(ObjectKind::Pack, &id, &mut buf), Ok(10));
    assert_eq!(buf, b"ab0123456789".to_vec());

    // a second write replaces the object whole
    assert_eq!(backend.write_all(ObjectKind::Pack, &id, b"xy"), Ok(()));
    assert_eq!(read_to_end(&backend, ObjectKind::Pack, &id), Ok(b"xy".to_vec()));
    assert_eq!(backend.iter(ObjectKind::Pack), Ok(vec![id]));

    let other = id_with(3, 4);
    backend.write_all(ObjectKind::Pack, &other, b"").unwrap();
    backend.write_all(ObjectKind::Index, &other, b"i").unwrap();
    assert_eq!(backend.iter(ObjectKind::Pack), Ok(vec![id, other]));
    assert_eq!(backend.iter(ObjectKind::Index), Ok(vec![other]));
    assert_eq!(backend.iter(ObjectKind::Lock), Ok(Vec::new()));

    assert_eq!(backend.remove(ObjectKind::Pack, &id), Ok(()));
    assert_eq!(backend.iter(ObjectKind::Pack), Ok(vec![other]));
    assert_eq!(read_to_end(&backend, ObjectKind::Index, &other), Ok(b"i".to_vec()));

    // laying out again keeps what is there
    assert_eq!(backend.create(), Ok(()));
    assert_eq!(backend.iter(ObjectKind::Pack), Ok(vec![other]));
}

#[test]
fn typed_backend_kinds() {
    let mut typed = TypedBackend::new(MemoryBackend::new("typed"));
    let id = id_with(0xab, 0xcd);
    assert_eq!(typed.config().contains(), Err(BackendError::NotFound));
    assert_eq!(typed.write_config(b"config"), Ok(()));
    assert_eq!(typed.config().contains(), Ok(()));
    assert_eq!(typed.config().read_to_end(), Ok(b"config".to_vec()));
    assert_eq!(typed.config().meta().unwrap().len, 6);
    let mut buf = Vec::new();
    assert_eq!(typed.config().read_all(&mut buf), Ok(6));
    assert_eq!(buf, b"config".to_vec());

    assert_eq!(typed.write_all(DirectoryKind::Pack, &id, b"pack bytes"), Ok(()));
    assert_eq!(typed.write_all(DirectoryKind::Snapshot, &id, b"snap"), Ok(()));
    assert_eq!(typed.pack().read_at(&id, 5, 5), Ok(b"bytes".to_vec()));
    assert_eq!(typed.pack().iter(), Ok(vec![id]));
    assert_eq!(typed.pack().contains(&id), Ok(()));
    assert_eq!(typed.pack().meta(&id).unwrap().len, 10);
    assert_eq!(typed.pack().read_to_end(&id), Ok(b"pack bytes".to_vec()));
    assert_eq!(typed.pack().find_id("abcd"), Ok(Find::Unique(id)));
    assert_eq!(typed.pack().find_ids(&["ab", "00"]), Ok(vec![Find::Unique(id), Find::Absent]));
    assert_eq!(typed.snapshot().read_to_end(&id), Ok(b"snap".to_vec()));
    assert_eq!(typed.snapshot().find_id("ab"), Ok(Find::Unique(id)));
    assert_eq!(typed.index().iter(), Ok(Vec::new()));
    assert_eq!(typed.lock().contains(&id), Err(BackendError::NotFound));
    assert_eq!(typed.key().meta(&id).map(|m| m.len), Err(BackendError::NotFound));
    let mut buf = Vec::new();
    assert_eq!(typed.snapshot().read_all(&id, &mut buf), Ok(4));

    assert_eq!(typed.remove(DirectoryKind::Pack, &id), Ok(()));
    assert_eq!(typed.pack().iter(), Ok(Vec::new()));
    assert_eq!(typed.remove_config(), Ok(()));
    assert_eq!(typed.config().contains(), Err(BackendError::NotFound));
    assert_eq!(DirectoryKind::Lock.kind(), ObjectKind::Lock);

    let read = TypedBackend::read_only(typed.into_inner());
    assert_eq!(read.snapshot().iter(), Ok(vec![id]));
}

#[test]
fn object_kind_names() {
    assert_eq!(ObjectKind::Config.name(), "config");
    assert_eq!(ObjectKind::Index.name(), "indices");
    assert_eq!(ObjectKind::Key.name(), "keys");
    assert_eq!(ObjectKind::Snapshot.name(), "snapshots");
    assert_eq!(ObjectKind::Pack.name(), "packs");
    assert_eq!(ObjectKind::Lock.name(), "locks");
    assert!(ObjectKind::Snapshot.is_cacheable());
    assert!(ObjectKind::Index.is_cacheable());
    assert!(!ObjectKind::Config.is_cacheable());
    assert!(!ObjectKind::Key.is_cacheable());
    assert!(!ObjectKind::Pack.is_cacheable());
    assert!(!ObjectKind::Lock.is_cacheable());
    assert_eq!(
        directory_objects(),
        vec![
            ObjectKind::Index,
            ObjectKind::Key,
            ObjectKind::Snapshot,
            ObjectKind::Pack,
            ObjectKind::Lock
        ]
    );
}

#[test]
fn layout_paths() {
    let id = id_with(0xa1, 0xb2);
    let hex = id.to_hex();
    assert_eq!(id.shard(), "a1");
    assert_eq!(Id::zero().shard(), "00");
    for layout in [Layout::V1, Layout::V2] {
        assert_eq!(object_path(layout, ObjectKind::Config, &Id::zero()), vec!["config"]);
        assert_eq!(object_path(layout, ObjectKind::Config, &id), vec!["config"]);
        assert_eq!(object_path(layout, ObjectKind::Key, &id), vec!["keys", hex.as_str()]);
        assert_eq!(object_path(layout, ObjectKind::Index, &id), vec!["indices", hex.as_str()]);
        assert_eq!(object_path(layout, ObjectKind::Snapshot, &id), vec!["snapshots", hex.as_str()]);
        assert_eq!(object_path(layout, ObjectKind::Lock, &id), vec!["locks", hex.as_str()]);
    }
    assert_eq!(object_path(Layout::V1, ObjectKind::Pack, &id), vec!["packs", hex.as_str()]);
    assert_eq!(object_path(Layout::V2, ObjectKind::Pack, &id), vec!["packs", "a1", hex.as_str()]);
    assert!(Layout::V2.shards(ObjectKind::Pack));
    assert!(!Layout::V1.shards(ObjectKind::Pack));
    assert!(!Layout::V2.shards(ObjectKind::Key));
}
