//! Packs: many blobs in one object.
//!
//! A pack is the blobs one after the other, then the header, then the
//! length of the header as four bytes, least significant first. The header
//! is one entry of 41 bytes for each blob, in the order of the blobs: the
//! kind, the stored length, the length of the content, both as four bytes,
//! least significant first, and the identifier.

use vstd::prelude::*;
use crate::id::Id;
use crate::obj::blob::BlobKind;
use crate::process::format::put_all;

verus! {

/// The number of bytes of one header entry.
pub const ENTRY_LEN: usize = 41;

/// What the header of a pack says of one blob.
#[derive(Debug, Clone, Copy, PartialEq, Eq)]
pub enum HeaderEntry {
    Data { processed_len: u32, unprocessed_len: u32, id: Id },
    Tree { processed_len: u32, unprocessed_len: u32, id: Id },
}

/// The header of a pack.
#[derive(Debug, Clone, PartialEq, Eq)]
pub struct PackHeader {
    pub entries: Vec<HeaderEntry>,
}

/// A pack, taken apart.
#[derive(Debug, Clone, PartialEq, Eq)]
pub struct Pack {
    pub blobs: Vec<u8>,
    pub header: Vec<u8>,
    pub header_len: u32,
}

/// The four bytes of a number, least significant first.
pub open spec fn spec_le32(n: u32) -> Seq<u8> {
    seq![
        (n & 0xff) as u8,
        ((n >> 8) & 0xff) as u8,
        ((n >> 16) & 0xff) as u8,
        ((n >> 24) & 0xff) as u8,
    ]
}

/// The number that four bytes stand for, least significant first.
pub open spec fn spec_from_le32(b: Seq<u8>) -> u32 {
    (b[0] as u32) | ((b[1] as u32) << 8) | ((b[2] as u32) << 16) | ((b[3] as u32) << 24)
}

/// Reading the four bytes of a number gives the number.
pub proof fn lemma_le32_roundtrip(n: u32)
    ensures
        spec_from_le32(spec_le32(n)) == n,
{
    assert((((n & 0xff) as u8) as u32) | ((((n >> 8) & 0xff) as u8) as u32) << 8 | ((((n >> 16)
        & 0xff) as u8) as u32) << 16 | ((((n >> 24) & 0xff) as u8) as u32) << 24 == n)
        by (bit_vector);
}

fn put_le32(out: &mut Vec<u8>, n: u32)
    ensures
        final(out)@ == old(out)@ + spec_le32(n),
{
    let ghost before = out@;
    out.push((n & 0xff) as u8);
    out.push(((n >> 8) & 0xff) as u8);
    out.push(((n >> 16) & 0xff) as u8);
    out.push(((n >> 24) & 0xff) as u8);
    assert(out@ =~= before + spec_le32(n));
}

fn get_le32(bytes: &[u8], at: usize) -> (n: u32)
    requires
        at + 4 <= bytes@.len(),
    ensures
        n == spec_from_le32(bytes@.subrange(at as int, at + 4)),
{
    let len = bytes.len();
    (bytes[at] as u32) | ((bytes[at + 1] as u32) << 8) | ((bytes[at + 2] as u32) << 16) | ((bytes[at
        + 3] as u32) << 24)
}

impl HeaderEntry {
    pub open spec fn spec_processed_len(self) -> u32 {
        match self {
            HeaderEntry::Data { processed_len, .. } => processed_len,
            HeaderEntry::Tree { processed_len, .. } => processed_len,
        }
    }

    pub open spec fn spec_unprocessed_len(self) -> u32 {
        match self {
            HeaderEntry::Data { unprocessed_len, .. } => unprocessed_len,
            HeaderEntry::Tree { unprocessed_len, .. } => unprocessed_len,
        }
    }

    pub open spec fn spec_id(self) -> Id {
        match self {
            HeaderEntry::Data { id, .. } => id,
            HeaderEntry::Tree { id, .. } => id,
        }
    }

    pub open spec fn spec_kind(self) -> BlobKind {
        match self {
            HeaderEntry::Data { .. } => BlobKind::Data,
            HeaderEntry::Tree { .. } => BlobKind::Tree,
        }
    }

    /// The 41 bytes of the entry.
    pub open spec fn spec_bytes(self) -> Seq<u8> {
        seq![
            match self {
                HeaderEntry::Data { .. } => 0u8,
                HeaderEntry::Tree { .. } => 1u8,
            },
        ] + spec_le32(self.spec_processed_len()) + spec_le32(self.spec_unprocessed_len())
            + self.spec_id()@
    }

    /// The stored length of the blob.
    pub fn processed_len(&self) -> (r: u32)
        ensures
            r == self.spec_processed_len(),
    {
        match self {
            HeaderEntry::Data { processed_len, .. } => *processed_len,
            HeaderEntry::Tree { processed_len, .. } => *processed_len,
        }
    }

    /// The length of what the blob holds.
    pub fn unprocessed_len(&self) -> (r: u32)
        ensures
            r == self.spec_unprocessed_len(),
    {
        match self {
            HeaderEntry::Data { unprocessed_len, .. } => *unprocessed_len,
            HeaderEntry::Tree { unprocessed_len, .. } => *unprocessed_len,
        }
    }

    /// The identifier of the blob.
    pub fn id(&self) -> (r: Id)
        ensures
            r == self.spec_id(),
    {
        match self {
            HeaderEntry::Data { id, .. } => *id,
            HeaderEntry::Tree { id, .. } => *id,
        }
    }

    /// What the blob holds.
    pub fn kind(&self) -> (r: BlobKind)
        ensures
            r == self.spec_kind(),
    {
        match self {
            HeaderEntry::Data { .. } => BlobKind::Data,
            HeaderEntry::Tree { .. } => BlobKind::Tree,
        }
    }

    /// Appends the 41 bytes of the entry.
    pub fn put(&self, out: &mut Vec<u8>)
        ensures
            final(out)@ == old(out)@ + self.spec_bytes(),
            self.spec_bytes().len() == ENTRY_LEN,
    {
        let ghost before = out@;
        out.push(
            match self {
                HeaderEntry::Data { .. } => 0u8,
                HeaderEntry::Tree { .. } => 1u8,
            },
        );
        put_le32(out, self.processed_len());
        put_le32(out, self.unprocessed_len());
        let id = self.id();
        put_all(out, id.as_bytes());
        assert(out@ =~= before + self.spec_bytes());
    }

    /// Reads the entry whose 41 bytes start at place `at`; `None` where the
    /// first of them names no kind.
    #[verifier::rlimit(50)]
    pub fn get(bytes: &[u8], at: usize) -> (r: Option<Self>)
        requires
            at + ENTRY_LEN <= bytes@.len(),
        ensures
            r is Some <==> bytes@[at as int] <= 1,
            r matches Some(entry) ==> entry.spec_bytes() == bytes@.subrange(
                at as int,
                at + ENTRY_LEN,
            ),
    {
        let len = bytes.len();
        let tag = bytes[at];
        let processed_len = get_le32(bytes, at + 1);
        let unprocessed_len = get_le32(bytes, at + 5);
        let id = Id::from_bytes(vstd::slice::slice_subrange(bytes, at + 9, at + 41));
        let ghost part = bytes@.subrange(at as int, at + ENTRY_LEN);
        proof {
            assert(id@ =~= part.subrange(9, 41));
            let a = bytes@.subrange(at + 1, at + 5);
            let b = bytes@.subrange(at + 5, at + 9);
            lemma_le32_bytes(a);
            lemma_le32_bytes(b);
            assert(a =~= part.subrange(1, 5));
            assert(b =~= part.subrange(5, 9));
        }
        if tag == 0 {
            let entry = HeaderEntry::Data { processed_len, unprocessed_len, id };
            assert(entry.spec_bytes() =~= part);
            Some(entry)
        } else if tag == 1 {
            let entry = HeaderEntry::Tree { processed_len, unprocessed_len, id };
            assert(entry.spec_bytes() =~= part);
            Some(entry)
        } else {
            None
        }
    }
}

/// Writing the number that four bytes stand for gives the four bytes.
pub proof fn lemma_le32_bytes(b: Seq<u8>)
    requires
        b.len() == 4,
    ensures
        spec_le32(spec_from_le32(b)) == b,
{
    let b0 = b[0];
    let b1 = b[1];
    let b2 = b[2];
    let b3 = b[3];
    let n: u32 = (b0 as u32) | ((b1 as u32) << 8) | ((b2 as u32) << 16) | ((b3 as u32) << 24);
    assert(((n & 0xff) as u8) == b0 && (((n >> 8) & 0xff) as u8) == b1 && (((n >> 16)
        & 0xff) as u8) == b2 && (((n >> 24) & 0xff) as u8) == b3) by (bit_vector)
        requires
            n == (b0 as u32) | ((b1 as u32) << 8) | ((b2 as u32) << 16) | ((b3 as u32) << 24),
    ;
    assert(spec_le32(n) =~= b);
}

/// The bytes of the entries, one after the other.
pub open spec fn spec_header_bytes(entries: Seq<HeaderEntry>) -> Seq<u8>
    decreases entries.len(),
{
    if entries.len() == 0 {
        Seq::empty()
    } else {
        spec_header_bytes(entries.drop_last()) + entries.last().spec_bytes()
    }
}

/// The stored lengths of the first `n` blobs together: where blob `n`
/// starts in the blob region.
pub open spec fn spec_start(entries: Seq<HeaderEntry>, n: int) -> int
    decreases n,
{
    if n <= 0 {
        0
    } else {
        spec_start(entries, n - 1) + entries[n - 1].spec_processed_len()
    }
}

proof fn lemma_header_len(entries: Seq<HeaderEntry>)
    ensures
        spec_header_bytes(entries).len() == ENTRY_LEN * entries.len(),
    decreases entries.len(),
{
    if entries.len() > 0 {
        lemma_header_len(entries.drop_last());
    }
}

impl PackHeader {
    /// The bytes of the header.
    pub fn to_bytes(&self) -> (out: Vec<u8>)
        ensures
            out@ == spec_header_bytes(self.entries@),
            out@.len() == ENTRY_LEN * self.entries@.len(),
    {
        let mut out: Vec<u8> = Vec::new();
        let mut i: usize = 0;
        assert(self.entries@.subrange(0, 0) =~= Seq::<HeaderEntry>::empty());
        while i < self.entries.len()
            invariant
                i <= self.entries@.len(),
                out@ == spec_header_bytes(self.entries@.subrange(0, i as int)),
            decreases self.entries@.len() - i,
        {
            self.entries[i].put(&mut out);
            proof {
                let next = self.entries@.subrange(0, i + 1);
                assert(next.drop_last() =~= self.entries@.subrange(0, i as int));
                assert(next.last() == self.entries@[i as int]);
            }
            i = i + 1;
        }
        proof {
            assert(self.entries@.subrange(0, i as int) =~= self.entries@);
            lemma_header_len(self.entries@);
        }
        out
    }

    /// Reads a header; `None` where the bytes are no whole number of
    /// entries, or an entry names no kind.
    #[verifier::rlimit(50)]
    pub fn from_bytes(bytes: &[u8]) -> (r: Option<Self>)
        ensures
            r matches Some(header) ==> spec_header_bytes(header.entries@) == bytes@,
            r is None ==> forall|entries: Seq<HeaderEntry>| #[trigger]
                spec_header_bytes(entries) != bytes@,
    {
        let len = bytes.len();
        if len % ENTRY_LEN != 0 {
            proof {
                assert forall|entries: Seq<HeaderEntry>| #[trigger]
                    spec_header_bytes(entries) != bytes@ by {
                    lemma_header_len(entries);
                    if spec_header_bytes(entries) == bytes@ {
                        assert((ENTRY_LEN * entries.len()) % (ENTRY_LEN as int) == 0)
                            by (nonlinear_arith);
                    }
                }
            }
            return None;
        }
        let count = len / ENTRY_LEN;
        let mut entries: Vec<HeaderEntry> = Vec::new();
        let mut i: usize = 0;
        assert(bytes@.subrange(0, 0) =~= Seq::<u8>::empty());
        while i < count
            invariant
                i <= count,
                count * ENTRY_LEN == bytes@.len(),
                bytes@.len() <= usize::MAX,
                entries@.len() == i,
                spec_header_bytes(entries@) == bytes@.subrange(0, i * ENTRY_LEN),
            decreases count - i,
        {
            assert(i * ENTRY_LEN + ENTRY_LEN <= count * ENTRY_LEN) by (nonlinear_arith)
                requires
                    i < count,
            ;
            let at = i * ENTRY_LEN;
            match HeaderEntry::get(bytes, at) {
                Some(entry) => {
                    let ghost before = entries@;
                    entries.push(entry);
                    proof {
                        assert(entries@.drop_last() =~= before);
                        assert(entries@.last() == entry);
                        assert(bytes@.subrange(0, at as int) + bytes@.subrange(
                            at as int,
                            at + ENTRY_LEN,
                        ) =~= bytes@.subrange(0, (i + 1) * ENTRY_LEN));
                    }
                },
                None => {
                    proof {
                        assert forall|other: Seq<HeaderEntry>| #[trigger]
                            spec_header_bytes(other) != bytes@ by {
                            if spec_header_bytes(other) == bytes@ {
                                lemma_header_len(other);
                                assert(other.len() == count) by (nonlinear_arith)
                                    requires
                                        ENTRY_LEN * other.len() == count * ENTRY_LEN,
                                ;
                                lemma_header_entry(other, i as int);
                            }
                        }
                    }
                    return None;
                },
            }
            i = i + 1;
        }
        assert(bytes@.subrange(0, i * ENTRY_LEN) =~= bytes@);
        Some(PackHeader { entries })
    }

    /// The stored lengths of all blobs together; `None` where that is more
    /// than 64 bits hold.
    pub fn total(&self) -> (r: Option<u64>)
        ensures
            match r {
                Some(sum) => sum == spec_start(self.entries@, self.entries@.len() as int),
                None => spec_start(self.entries@, self.entries@.len() as int) > u64::MAX,
            },
    {
        self.start(self.entries.len())
    }

    /// Where blob `n` starts in the blob region; `None` where that is more
    /// than 64 bits hold.
    pub fn start(&self, n: usize) -> (r: Option<u64>)
        requires
            n <= self.entries@.len(),
        ensures
            match r {
                Some(sum) => sum == spec_start(self.entries@, n as int),
                None => spec_start(self.entries@, n as int) > u64::MAX,
            },
    {
        let mut sum: u64 = 0;
        let mut i: usize = 0;
        while i < n
            invariant
                i <= n <= self.entries@.len(),
                sum == spec_start(self.entries@, i as int),
            decreases n - i,
        {
            match sum.checked_add(self.entries[i].processed_len() as u64) {
                Some(next) => {
                    sum = next;
                },
                None => {
                    proof {
                        lemma_start_grows(self.entries@, i + 1, n as int);
                    }
                    return None;
                },
            }
            i = i + 1;
        }
        Some(sum)
    }

    /// Where blob `n` lies in the blob region: where it starts, and where
    /// it ends; `None` where that is more than 64 bits hold.
    pub fn range(&self, n: usize) -> (r: Option<(u64, u64)>)
        requires
            n < self.entries@.len(),
        ensures
            match r {
                Some((start, end)) => start == spec_start(self.entries@, n as int) && end
                    == spec_start(self.entries@, n + 1),
                None => spec_start(self.entries@, n + 1) > u64::MAX,
            },
    {
        match self.start(n) {
            Some(start) => match start.checked_add(self.entries[n].processed_len() as u64) {
                Some(end) => Some((start, end)),
                None => None,
            },
            None => {
                proof {
                    lemma_start_grows(self.entries@, n as int, n + 1);
                }
                None
            },
        }
    }
}

/// Blobs start no earlier the further back they are.
pub proof fn lemma_start_grows(entries: Seq<HeaderEntry>, a: int, b: int)
    requires
        0 <= a <= b,
    ensures
        spec_start(entries, a) <= spec_start(entries, b),
    decreases b - a,
{
    if a < b {
        lemma_start_grows(entries, a, b - 1);
    }
}

/// The bytes of entry `i` stand at their place in the bytes of the header.
proof fn lemma_header_entry(entries: Seq<HeaderEntry>, i: int)
    requires
        0 <= i < entries.len(),
    ensures
        spec_header_bytes(entries).len() == ENTRY_LEN * entries.len(),
        spec_header_bytes(entries)[i * ENTRY_LEN] <= 1,
    decreases entries.len(),
{
    lemma_header_len(entries);
    lemma_header_len(entries.drop_last());
    let front = spec_header_bytes(entries.drop_last());
    let last = entries.last().spec_bytes();
    if i == entries.len() - 1 {
        assert(spec_header_bytes(entries)[i * ENTRY_LEN] == last[0]);
    } else {
        lemma_header_entry(entries.drop_last(), i);
        assert(i * ENTRY_LEN < front.len()) by (nonlinear_arith)
            requires
                i < entries.len() - 1,
                front.len() == ENTRY_LEN * (entries.len() - 1),
        ;
        assert(spec_header_bytes(entries)[i * ENTRY_LEN] == front[i * ENTRY_LEN]);
    }
}

/// The bytes of a pack: the blobs, the header, and the length of the
/// header.
pub open spec fn spec_pack_bytes(blobs: Seq<u8>, header: Seq<u8>) -> Seq<u8> {
    blobs + header + spec_le32(header.len() as u32)
}

impl Pack {
    /// Whether the pack is well formed: the length of the header is the
    /// one that is noted.
    pub open spec fn spec_well_formed(&self) -> bool {
        self.header_len == self.header@.len()
    }

    /// A pack of the given blob region and header; `None` where the header
    /// is longer than 32 bits count.
    pub fn new(blobs: Vec<u8>, header: Vec<u8>) -> (r: Option<Self>)
        ensures
            r is Some <==> header@.len() <= u32::MAX,
            r matches Some(pack) ==> pack.spec_well_formed() && pack.blobs == blobs && pack.header
                == header,
    {
        if header.len() > u32::MAX as usize {
            None
        } else {
            let header_len = header.len() as u32;
            Some(Pack { blobs, header, header_len })
        }
    }

    /// The bytes of the pack.
    pub fn to_bytes(&self) -> (out: Vec<u8>)
        requires
            self.spec_well_formed(),
        ensures
            out@ == spec_pack_bytes(self.blobs@, self.header@),
    {
        let mut out: Vec<u8> = Vec::new();
        put_all(&mut out, self.blobs.as_slice());
        put_all(&mut out, self.header.as_slice());
        put_le32(&mut out, self.header_len);
        assert(out@ =~= spec_pack_bytes(self.blobs@, self.header@));
        out
    }

    /// Takes a pack apart; `None` where the bytes are fewer than the four
    /// of the length, or the length is more than what stands before it.
    pub fn from_bytes(bytes: &[u8]) -> (r: Option<Self>)
        ensures
            r is Some <==> bytes@.len() >= 4 && spec_from_le32(
                bytes@.subrange(bytes@.len() - 4, bytes@.len() as int),
            ) <= bytes@.len() - 4,
            r matches Some(pack) ==> pack.spec_well_formed() && spec_pack_bytes(
                pack.blobs@,
                pack.header@,
            ) == bytes@,
    {
        let len = bytes.len();
        if len < 4 {
            return None;
        }
        let header_len = get_le32(bytes, len - 4);
        if header_len as usize > len - 4 {
            return None;
        }
        let split = len - 4 - header_len as usize;
        let mut blobs: Vec<u8> = Vec::new();
        put_all(&mut blobs, vstd::slice::slice_subrange(bytes, 0, split));
        let mut header: Vec<u8> = Vec::new();
        put_all(&mut header, vstd::slice::slice_subrange(bytes, split, len - 4));
        proof {
            lemma_le32_bytes(bytes@.subrange(len - 4, len as int));
            assert(blobs@ =~= bytes@.subrange(0, split as int));
            assert(header@ =~= bytes@.subrange(split as int, len - 4));
            assert(spec_pack_bytes(blobs@, header@) =~= bytes@);
        }
        Some(Pack { blobs, header, header_len })
    }

    /// Whether the header tells of the blob region: the stored lengths of
    /// its blobs together are the length of the region.
    pub fn matches_header(&self, header: &PackHeader) -> (r: bool)
        ensures
            r == (spec_start(header.entries@, header.entries@.len() as int) == self.blobs@.len()),
    {
        match header.total() {
            Some(total) => total == self.blobs.len() as u64,
            None => {
                let len = self.blobs.len();
                false
            },
        }
    }
}

/// Taking apart the bytes of a pack gives the blob region and the header
/// that it was made of.
pub proof fn lemma_pack_roundtrip(blobs: Seq<u8>, header: Seq<u8>)
    requires
        header.len() <= u32::MAX,
    ensures
        ({
            let bytes = spec_pack_bytes(blobs, header);
            &&& bytes.len() == blobs.len() + header.len() + 4
            &&& spec_from_le32(bytes.subrange(bytes.len() - 4, bytes.len() as int)) == header.len()
            &&& bytes.subrange(0, blobs.len() as int) == blobs
            &&& bytes.subrange(blobs.len() as int, (blobs.len() + header.len()) as int) == header
        }),
{
    let bytes = spec_pack_bytes(blobs, header);
    lemma_le32_roundtrip(header.len() as u32);
    assert(bytes.subrange(bytes.len() - 4, bytes.len() as int) =~= spec_le32(header.len() as u32));
    assert(bytes.subrange(0, blobs.len() as int) =~= blobs);
    assert(bytes.subrange(blobs.len() as int, (blobs.len() + header.len()) as int) =~= header);
}

} // verus!
