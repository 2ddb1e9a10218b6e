use dechst::id::Id;
use dechst::obj::blob::BlobKind;
use dechst::obj::index::{BlobEntry, Index, PackEntry};
use dechst::obj::pack::{HeaderEntry, Pack, PackHeader, ENTRY_LEN};

fn entries() -> Vec<HeaderEntry> {
    vec![
        HeaderEntry::Data { processed_len: 3, unprocessed_len: 10, id: Id([1; 32]) },
        HeaderEntry::Tree { processed_len: 0x01020304, unprocessed_len: 0, id: Id([2; 32]) },
        HeaderEntry::Data { processed_len: 5, unprocessed_len: u32::MAX, id: Id([3; 32]) },
    ]
}

#[test]
fn pack_layout() {
    let pack = Pack::new(b"blobs".to_vec(), b"header!".to_vec()).unwrap();
    assert_eq!(pack.header_len, 7);
    let bytes = pack.to_bytes();
    assert_eq!(bytes, b"blobsheader!\x07\x00\x00\x00".to_vec());
    assert_eq!(Pack::from_bytes(&bytes), Some(pack));
    assert_eq!(
        Pack::from_bytes(&[0, 0, 0, 0]),
        Some(Pack { blobs: vec![], header: vec![], header_len: 0 })
    );
    assert_eq!(Pack::from_bytes(&[0, 0, 0]), None);
    assert_eq!(Pack::from_bytes(&[]), None);
    // a header longer than what stands before its length
    assert_eq!(Pack::from_bytes(&[9, 9, 3, 0, 0, 0]), None);
    assert_eq!(
        Pack::from_bytes(&[9, 9, 2, 0, 0, 0]),
        Some(Pack { blobs: vec![], header: vec![9, 9], header_len: 2 })
    );
    // the length is read least significant byte first
    let mut long = vec![7u8; 300];
    long.extend_from_slice(&[0x00, 0x01, 0, 0]);
    let pack = Pack::from_bytes(&long).unwrap();
    assert_eq!(pack.header.len(), 256);
    assert_eq!(pack.blobs.len(), 44);
}

#[test]
fn pack_header_entries() {
    let header = PackHeader { entries: entries() };
    let bytes = header.to_bytes();
    assert_eq!(bytes.len(), 3 * ENTRY_LEN);
    assert_eq!(&bytes[..9], &[0, 3, 0, 0, 0, 10, 0, 0, 0]);
    assert_eq!(&bytes[9..41], &[1u8; 32]);
    assert_eq!(&bytes[41..50], &[1, 4, 3, 2, 1, 0, 0, 0, 0]);
    assert_eq!(&bytes[82..91], &[0, 5, 0, 0, 0, 255, 255, 255, 255]);
    assert_eq!(PackHeader::from_bytes(&bytes), Some(header.clone()));
    assert_eq!(PackHeader::from_bytes(&[]), Some(PackHeader { entries: vec![] }));
    assert_eq!(PackHeader::from_bytes(&bytes[..40]), None);
    assert_eq!(PackHeader::from_bytes(&bytes[..42]), None);
    let mut bad = bytes.clone();
    bad[41] = 2;
    assert_eq!(PackHeader::from_bytes(&bad), None);

    assert_eq!(header.total(), Some(3 + 0x01020304 + 5));
    assert_eq!(header.start(0), Some(0));
    assert_eq!(header.start(2), Some(3 + 0x01020304));
    assert_eq!(header.range(0), Some((0, 3)));
    assert_eq!(header.range(1), Some((3, 3 + 0x01020304)));
    assert_eq!(header.range(2), Some((3 + 0x01020304, 3 + 0x01020304 + 5)));
    assert_eq!(header.entries[1].kind(), BlobKind::Tree);
    assert_eq!(header.entries[0].kind(), BlobKind::Data);
    assert_eq!(header.entries[1].processed_len(), 0x01020304);
    assert_eq!(header.entries[2].unprocessed_len(), u32::MAX);
    assert_eq!(header.entries[2].id(), Id([3; 32]));
    assert_eq!(HeaderEntry::get(&bytes, 41), Some(header.entries[1]));
    let mut out = vec![9];
    header.entries[0].put(&mut out);
    assert_eq!(&out[1..], &bytes[..41]);

    let small = PackHeader { entries: entries()[..1].to_vec() };
    let pack = Pack::new(b"abc".to_vec(), small.to_bytes()).unwrap();
    assert!(pack.matches_header(&small));
    assert!(!pack.matches_header(&header));
    let whole = pack.to_bytes();
    assert_eq!(whole.len(), 3 + 41 + 4);
    let back = Pack::from_bytes(&whole).unwrap();
    assert_eq!(PackHeader::from_bytes(&back.header), Some(small));
    assert_eq!(back.blobs, b"abc".to_vec());
}

fn blob(id: u8, offset: u32, len: u32) -> BlobEntry {
    BlobEntry {
        id: Id([id; 32]),
        kind: BlobKind::Data,
        offset,
        processed_len: len,
        unprocessed_len: len * 2,
    }
}

#[test]
fn index_entries() {
    let good = PackEntry {
        id: Id([7; 32]),
        blobs: vec![blob(1, 0, 10), blob(2, 10, 5), blob(3, 20, 0), blob(4, 20, 1)],
        time: None,
        size: Some(21),
    };
    assert!(good.is_well_formed());
    assert_eq!(good.find(&Id([2; 32])), Some(blob(2, 10, 5)));
    assert_eq!(good.find(&Id([9; 32])), None);
    let overlap = PackEntry { blobs: vec![blob(1, 0, 10), blob(2, 9, 5)], ..good.clone() };
    assert!(!overlap.is_well_formed());
    let descending = PackEntry { blobs: vec![blob(1, 10, 1), blob(2, 0, 1)], ..good.clone() };
    assert!(!descending.is_well_formed());
    let wide = PackEntry { blobs: vec![blob(1, u32::MAX, u32::MAX), blob(2, u32::MAX, 0)], ..good.clone() };
    assert!(!wide.is_well_formed());
    let twice = PackEntry { blobs: vec![blob(1, 0, 1), blob(2, 1, 1), blob(1, 2, 1)], ..good.clone() };
    assert!(!twice.is_well_formed());
    assert!(!twice.has_distinct_blobs());
    assert!(good.has_distinct_blobs());
    let empty_size = PackEntry { size: Some(0), ..good.clone() };
    assert!(!empty_size.is_well_formed());
    let none = PackEntry { blobs: vec![], size: None, ..good.clone() };
    assert!(none.is_well_formed());

    let other = PackEntry { id: Id([8; 32]), blobs: vec![blob(2, 0, 1), blob(5, 1, 1)], time: None, size: None };
    let index = Index { supersedes: vec![], packs: vec![good.clone(), other.clone()], delete: vec![] };
    assert!(index.is_well_formed());
    assert_eq!(index.locate(&Id([5; 32])), Some((Id([8; 32]), blob(5, 1, 1))));
    assert_eq!(index.locate(&Id([2; 32])), Some((Id([7; 32]), blob(2, 10, 5))));
    assert_eq!(index.locate(&Id([6; 32])), None);
    let bad = Index { supersedes: vec![], packs: vec![good, overlap], delete: vec![] };
    assert!(!bad.is_well_formed());
}
