//! The record format: every stored record is one CBOR array of fields, in the
//! shortest encoding. Reading accepts exactly what writing produces, so the
//! mapping between field lists and bytes is one to one.

use vstd::prelude::*;

verus! {

/// One field of a record.
#[derive(Debug, Clone, PartialEq, Eq)]
pub enum Field {
    /// A number from 0 up.
    Uint(u64),
    /// A number below 0: the field `Nint(n)` stands for `-1 - n`.
    Nint(u64),
    /// A byte string.
    Bytes(Vec<u8>),
    /// An absent value.
    Null,
}

/// What a [`Field`] holds.
pub enum FieldView {
    Uint(u64),
    Nint(u64),
    Bytes(Seq<u8>),
    Null,
}

impl View for Field {
    type V = FieldView;

    open spec fn view(&self) -> FieldView {
        match self {
            Field::Uint(n) => FieldView::Uint(*n),
            Field::Nint(n) => FieldView::Nint(*n),
            Field::Bytes(b) => FieldView::Bytes(b@),
            Field::Null => FieldView::Null,
        }
    }
}

/// What a list of fields holds.
pub open spec fn spec_views(fields: Seq<Field>) -> Seq<FieldView> {
    Seq::new(fields.len(), |i: int| fields[i]@)
}

/// Why bytes are no record.
#[derive(Debug, Clone, Copy, PartialEq, Eq, Hash, Structural)]
pub enum FormatFailure {
    /// The bytes are no array of fields in the shortest encoding, or other
    /// bytes follow the array.
    Malformed,
    /// The fields are not those of the record that was asked for.
    WrongShape,
}

/// A record could not be written or read.
#[derive(Debug, Clone, Copy, PartialEq, Eq, Hash, Structural)]
pub enum FormatError {
    Failed(FormatFailure),
}

impl FormatError {
    pub fn from_err(failure: FormatFailure) -> (r: Self)
        ensures
            r == FormatError::Failed(failure),
    {
        FormatError::Failed(failure)
    }
}

/// Selects a record format.
#[derive(Debug, Clone, Copy, PartialEq, Eq, Hash, Structural)]
pub enum FormatterParams {
    Cbor,
}

/// A record format.
#[derive(Debug, Clone, Copy, PartialEq, Eq, Hash, Structural)]
pub enum Formatter {
    Cbor,
}

pub const MAJOR_UINT: u8 = 0;

pub const MAJOR_NINT: u8 = 1;

pub const MAJOR_BYTES: u8 = 2;

pub const MAJOR_ARRAY: u8 = 4;

/// The byte that encodes an absent value.
pub const NULL_BYTE: u8 = 0xf6;

/// The head of an item: its major type and its argument, the argument in the
/// fewest bytes that hold it, most significant byte first.
pub open spec fn spec_head(major: u8, n: u64) -> Seq<u8> {
    let m: u8 = major << 5;
    if n < 24 {
        seq![m | (n as u8)]
    } else if n < 0x100 {
        seq![m | 24, (n & 0xff) as u8]
    } else if n < 0x1_0000 {
        seq![m | 25, ((n >> 8) & 0xff) as u8, (n & 0xff) as u8]
    } else if n < 0x1_0000_0000 {
        seq![
            m | 26,
            ((n >> 24) & 0xff) as u8,
            ((n >> 16) & 0xff) as u8,
            ((n >> 8) & 0xff) as u8,
            (n & 0xff) as u8,
        ]
    } else {
        seq![
            m | 27,
            ((n >> 56) & 0xff) as u8,
            ((n >> 48) & 0xff) as u8,
            ((n >> 40) & 0xff) as u8,
            ((n >> 32) & 0xff) as u8,
            ((n >> 24) & 0xff) as u8,
            ((n >> 16) & 0xff) as u8,
            ((n >> 8) & 0xff) as u8,
            (n & 0xff) as u8,
        ]
    }
}

/// The bytes of one field.
pub open spec fn spec_field(f: FieldView) -> Seq<u8> {
    match f {
        FieldView::Uint(n) => spec_head(MAJOR_UINT, n),
        FieldView::Nint(n) => spec_head(MAJOR_NINT, n),
        FieldView::Bytes(b) => spec_head(MAJOR_BYTES, b.len() as u64) + b,
        FieldView::Null => seq![NULL_BYTE],
    }
}

/// The bytes of fields written one after the other.
pub open spec fn spec_fields(fs: Seq<FieldView>) -> Seq<u8>
    decreases fs.len(),
{
    if fs.len() == 0 {
        Seq::empty()
    } else {
        spec_field(fs[0]) + spec_fields(fs.skip(1))
    }
}

/// The bytes of a record: the head of an array of as many items as there
/// are fields, then the fields.
pub open spec fn spec_record(fs: Seq<FieldView>) -> Seq<u8> {
    spec_head(MAJOR_ARRAY, fs.len() as u64) + spec_fields(fs)
}

/// Whether a record of these fields can be written: every length fits a head.
pub open spec fn spec_encodable(fs: Seq<FieldView>) -> bool {
    &&& fs.len() <= u64::MAX
    &&& forall|i: int|
        0 <= i < fs.len() ==> ((#[trigger] fs[i]) matches FieldView::Bytes(b) ==> b.len()
            <= u64::MAX)
}

pub open spec fn spec_be2(b: Seq<u8>) -> u64 {
    ((b[1] as u64) << 8) | (b[2] as u64)
}

pub open spec fn spec_be4(b: Seq<u8>) -> u64 {
    ((b[1] as u64) << 24) | ((b[2] as u64) << 16) | ((b[3] as u64) << 8) | (b[4] as u64)
}

pub open spec fn spec_be8(b: Seq<u8>) -> u64 {
    ((b[1] as u64) << 56) | ((b[2] as u64) << 48) | ((b[3] as u64) << 40) | ((b[4] as u64) << 32)
        | ((b[5] as u64) << 24) | ((b[6] as u64) << 16) | ((b[7] as u64) << 8) | (b[8] as u64)
}

/// Reads a head at the start of `b`: its major type, its argument and its
/// length. `None` where `b` ends too early or the argument is not in its
/// shortest form.
pub open spec fn spec_parse_head(b: Seq<u8>) -> Option<(u8, u64, int)> {
    if b.len() == 0 {
        None
    } else {
        let major: u8 = b[0] >> 5;
        let info: u8 = b[0] & 0x1f;
        if info < 24 {
            Some((major, info as u64, 1))
        } else if info == 24 {
            if b.len() >= 2 && b[1] >= 24 {
                Some((major, b[1] as u64, 2))
            } else {
                None
            }
        } else if info == 25 {
            if b.len() >= 3 && spec_be2(b) >= 0x100 {
                Some((major, spec_be2(b), 3))
            } else {
                None
            }
        } else if info == 26 {
            if b.len() >= 5 && spec_be4(b) >= 0x1_0000 {
                Some((major, spec_be4(b), 5))
            } else {
                None
            }
        } else if info == 27 {
            if b.len() >= 9 && spec_be8(b) >= 0x1_0000_0000 {
                Some((major, spec_be8(b), 9))
            } else {
                None
            }
        } else {
            None
        }
    }
}

/// Reads one field at the start of `b`: the field and its length.
pub open spec fn spec_parse_field(b: Seq<u8>) -> Option<(FieldView, int)> {
    match spec_parse_head(b) {
        None => None,
        Some((major, n, k)) => {
            if major == MAJOR_UINT {
                Some((FieldView::Uint(n), k))
            } else if major == MAJOR_NINT {
                Some((FieldView::Nint(n), k))
            } else if major == MAJOR_BYTES {
                if b.len() - k >= n {
                    Some((FieldView::Bytes(b.subrange(k, k + n)), k + n))
                } else {
                    None
                }
            } else if b[0] == NULL_BYTE {
                Some((FieldView::Null, 1))
            } else {
                None
            }
        },
    }
}

/// Reads `count` fields at the start of `b`: the fields and their length.
pub open spec fn spec_parse_fields(b: Seq<u8>, count: nat) -> Option<(Seq<FieldView>, int)>
    decreases count,
{
    if count == 0 {
        Some((Seq::empty(), 0))
    } else {
        match spec_parse_field(b) {
            None => None,
            Some((f, k)) => match spec_parse_fields(b.skip(k), (count - 1) as nat) {
                None => None,
                Some((rest, k2)) => Some((seq![f] + rest, k + k2)),
            },
        }
    }
}

/// Reads a record: `b` must be one array of fields and nothing else.
pub open spec fn spec_parse_record(b: Seq<u8>) -> Option<Seq<FieldView>> {
    match spec_parse_head(b) {
        None => None,
        Some((major, n, k)) => if major == MAJOR_ARRAY {
            match spec_parse_fields(b.skip(k), n as nat) {
                None => None,
                Some((fs, k2)) => if k + k2 == b.len() {
                    Some(fs)
                } else {
                    None
                },
            }
        } else {
            None
        },
    }
}

proof fn lemma_head_bits(major: u8, n: u64)
    requires
        major < 8,
    ensures
        n < 24 ==> ((major << 5) | (n as u8)) >> 5 == major && ((major << 5) | (n as u8)) & 0x1f
            == n as u8,
        ((major << 5) | 24u8) >> 5 == major && ((major << 5) | 24u8) & 0x1f == 24,
        ((major << 5) | 25u8) >> 5 == major && ((major << 5) | 25u8) & 0x1f == 25,
        ((major << 5) | 26u8) >> 5 == major && ((major << 5) | 26u8) & 0x1f == 26,
        ((major << 5) | 27u8) >> 5 == major && ((major << 5) | 27u8) & 0x1f == 27,
{
    let small: u8 = if n < 24 {
        n as u8
    } else {
        0
    };
    assert(small < 24 && major < 8 ==> ((major << 5) | small) >> 5 == major && ((major << 5)
        | small) & 0x1f == small) by (bit_vector);
    assert(major < 8 ==> ((major << 5) | 24u8) >> 5 == major && ((major << 5) | 24u8) & 0x1f == 24)
        by (bit_vector);
    assert(major < 8 ==> ((major << 5) | 25u8) >> 5 == major && ((major << 5) | 25u8) & 0x1f == 25)
        by (bit_vector);
    assert(major < 8 ==> ((major << 5) | 26u8) >> 5 == major && ((major << 5) | 26u8) & 0x1f == 26)
        by (bit_vector);
    assert(major < 8 ==> ((major << 5) | 27u8) >> 5 == major && ((major << 5) | 27u8) & 0x1f == 27)
        by (bit_vector);
}

proof fn lemma_be_roundtrip(n: u64)
    ensures
        n < 0x100 ==> ((n & 0xff) as u8) as u64 == n,
        n < 0x1_0000 ==> ((((n >> 8) & 0xff) as u8) as u64) << 8 | (((n & 0xff) as u8) as u64)
            == n,
        n < 0x1_0000_0000 ==> ((((n >> 24) & 0xff) as u8) as u64) << 24 | ((((n >> 16)
            & 0xff) as u8) as u64) << 16 | ((((n >> 8) & 0xff) as u8) as u64) << 8 | (((n
            & 0xff) as u8) as u64) == n,
        ((((n >> 56) & 0xff) as u8) as u64) << 56 | ((((n >> 48) & 0xff) as u8) as u64) << 48 | ((((n
            >> 40) & 0xff) as u8) as u64) << 40 | ((((n >> 32) & 0xff) as u8) as u64) << 32 | ((((n
            >> 24) & 0xff) as u8) as u64) << 24 | ((((n >> 16) & 0xff) as u8) as u64) << 16 | ((((n
            >> 8) & 0xff) as u8) as u64) << 8 | (((n & 0xff) as u8) as u64) == n,
{
    assert(n < 0x100 ==> ((n & 0xff) as u8) as u64 == n) by (bit_vector);
    assert(n < 0x1_0000 ==> ((((n >> 8) & 0xff) as u8) as u64) << 8 | (((n & 0xff) as u8) as u64)
        == n) by (bit_vector);
    assert(n < 0x1_0000_0000 ==> ((((n >> 24) & 0xff) as u8) as u64) << 24 | ((((n >> 16)
        & 0xff) as u8) as u64) << 16 | ((((n >> 8) & 0xff) as u8) as u64) << 8 | (((n
        & 0xff) as u8) as u64) == n) by (bit_vector);
    assert(((((n >> 56) & 0xff) as u8) as u64) << 56 | ((((n >> 48) & 0xff) as u8) as u64) << 48 | ((((n
        >> 40) & 0xff) as u8) as u64) << 40 | ((((n >> 32) & 0xff) as u8) as u64) << 32 | ((((n >> 24)
        & 0xff) as u8) as u64) << 24 | ((((n >> 16) & 0xff) as u8) as u64) << 16 | ((((n >> 8)
        & 0xff) as u8) as u64) << 8 | (((n & 0xff) as u8) as u64) == n) by (bit_vector);
}

/// A head that was written is read back, whatever follows it.
#[verifier::rlimit(50)]
pub proof fn lemma_head_roundtrip(major: u8, n: u64, rest: Seq<u8>)
    requires
        major < 8,
    ensures
        spec_parse_head(spec_head(major, n) + rest) == Some(
            (major, n, spec_head(major, n).len() as int),
        ),
        1 <= spec_head(major, n).len() <= 9,
        (spec_head(major, n) + rest)[0] == spec_head(major, n)[0],
{
    lemma_head_bits(major, n);
    lemma_be_roundtrip(n);
    let h = spec_head(major, n);
    let b = h + rest;
    assert(forall|i: int| 0 <= i < h.len() ==> b[i] == h[i]);
    if n < 24 {
    } else if n < 0x100 {
        assert(b[1] == (n & 0xff) as u8);
    } else if n < 0x1_0000 {
        assert(b[1] == ((n >> 8) & 0xff) as u8);
        assert(b[2] == (n & 0xff) as u8);
    } else if n < 0x1_0000_0000 {
        assert(b[1] == ((n >> 24) & 0xff) as u8);
        assert(b[2] == ((n >> 16) & 0xff) as u8);
        assert(b[3] == ((n >> 8) & 0xff) as u8);
        assert(b[4] == (n & 0xff) as u8);
    } else {
        assert(b[1] == ((n >> 56) & 0xff) as u8);
        assert(b[2] == ((n >> 48) & 0xff) as u8);
        assert(b[3] == ((n >> 40) & 0xff) as u8);
        assert(b[4] == ((n >> 32) & 0xff) as u8);
        assert(b[5] == ((n >> 24) & 0xff) as u8);
        assert(b[6] == ((n >> 16) & 0xff) as u8);
        assert(b[7] == ((n >> 8) & 0xff) as u8);
        assert(b[8] == (n & 0xff) as u8);
    }
}

/// A field that was written is read back, whatever follows it.
pub proof fn lemma_field_roundtrip(f: FieldView, rest: Seq<u8>)
    requires
        f matches FieldView::Bytes(b) ==> b.len() <= u64::MAX,
    ensures
        spec_parse_field(spec_field(f) + rest) == Some((f, spec_field(f).len() as int)),
{
    let all = spec_field(f) + rest;
    match f {
        FieldView::Uint(n) => {
            lemma_head_roundtrip(MAJOR_UINT, n, rest);
        },
        FieldView::Nint(n) => {
            lemma_head_roundtrip(MAJOR_NINT, n, rest);
        },
        FieldView::Bytes(b) => {
            let h = spec_head(MAJOR_BYTES, b.len() as u64);
            assert(all =~= h + (b + rest));
            lemma_head_roundtrip(MAJOR_BYTES, b.len() as u64, b + rest);
            assert(all.subrange(h.len() as int, (h.len() + b.len()) as int) =~= b);
        },
        FieldView::Null => {
            assert(all[0] == NULL_BYTE);
            assert(NULL_BYTE >> 5 == 7 && NULL_BYTE & 0x1f == 22) by (bit_vector);
        },
    }
}

/// Fields that were written are read back, whatever follows them.
pub proof fn lemma_fields_roundtrip(fs: Seq<FieldView>, rest: Seq<u8>)
    requires
        spec_encodable(fs),
    ensures
        spec_parse_fields(spec_fields(fs) + rest, fs.len()) == Some(
            (fs, spec_fields(fs).len() as int),
        ),
    decreases fs.len(),
{
    if fs.len() == 0 {
        assert(fs =~= Seq::empty());
    } else {
        let head = spec_field(fs[0]);
        let tail = fs.skip(1);
        let all = spec_fields(fs) + rest;
        assert(all =~= head + (spec_fields(tail) + rest));
        lemma_field_roundtrip(fs[0], spec_fields(tail) + rest);
        assert(all.skip(head.len() as int) =~= spec_fields(tail) + rest);
        assert(spec_encodable(tail)) by {
            assert forall|i: int| 0 <= i < tail.len() implies ((#[trigger] tail[i]) matches FieldView::Bytes(
                b,
            ) ==> b.len() <= u64::MAX) by {
                assert(tail[i] == fs[i + 1]);
            }
        }
        lemma_fields_roundtrip(tail, rest);
        assert(seq![fs[0]] + tail =~= fs);
    }
}

/// A record that was written is read back: reading undoes writing.
pub proof fn lemma_record_roundtrip(fs: Seq<FieldView>)
    requires
        spec_encodable(fs),
    ensures
        spec_parse_record(spec_record(fs)) == Some(fs),
{
    let h = spec_head(MAJOR_ARRAY, fs.len() as u64);
    let body = spec_fields(fs);
    lemma_head_roundtrip(MAJOR_ARRAY, fs.len() as u64, body);
    assert((h + body).skip(h.len() as int) =~= body);
    assert(body =~= body + Seq::<u8>::empty());
    lemma_fields_roundtrip(fs, Seq::empty());
}

proof fn lemma_be_canonical(b0: u8, b1: u8, b2: u8, b3: u8, b4: u8, b5: u8, b6: u8, b7: u8, b8: u8)
    ensures
        ((b0 >> 5) << 5) | (b0 & 0x1f) == b0,
        (b0 >> 5) < 8,
        ({
            let n = b1 as u64;
            ((n & 0xff) as u8) == b1 && n < 0x100
        }),
        ({
            let n = ((b1 as u64) << 8) | (b2 as u64);
            (((n >> 8) & 0xff) as u8) == b1 && ((n & 0xff) as u8) == b2 && n < 0x1_0000
        }),
        ({
            let n = ((b1 as u64) << 24) | ((b2 as u64) << 16) | ((b3 as u64) << 8) | (b4 as u64);
            (((n >> 24) & 0xff) as u8) == b1 && (((n >> 16) & 0xff) as u8) == b2 && (((n >> 8)
                & 0xff) as u8) == b3 && ((n & 0xff) as u8) == b4 && n < 0x1_0000_0000
        }),
        ({
            let n = ((b1 as u64) << 56) | ((b2 as u64) << 48) | ((b3 as u64) << 40) | ((b4 as u64)
                << 32) | ((b5 as u64) << 24) | ((b6 as u64) << 16) | ((b7 as u64) << 8) | (b8 as u64);
            (((n >> 56) & 0xff) as u8) == b1 && (((n >> 48) & 0xff) as u8) == b2 && (((n >> 40)
                & 0xff) as u8) == b3 && (((n >> 32) & 0xff) as u8) == b4 && (((n >> 24)
                & 0xff) as u8) == b5 && (((n >> 16) & 0xff) as u8) == b6 && (((n >> 8)
                & 0xff) as u8) == b7 && ((n & 0xff) as u8) == b8
        }),
{
    assert(((b0 >> 5) << 5) | (b0 & 0x1f) == b0 && (b0 >> 5) < 8) by (bit_vector);
    assert(({
        let n = b1 as u64;
        ((n & 0xff) as u8) == b1 && n < 0x100
    })) by (bit_vector);
    assert(({
        let n = ((b1 as u64) << 8) | (b2 as u64);
        (((n >> 8) & 0xff) as u8) == b1 && ((n & 0xff) as u8) == b2 && n < 0x1_0000
    })) by (bit_vector);
    assert(({
        let n = ((b1 as u64) << 24) | ((b2 as u64) << 16) | ((b3 as u64) << 8) | (b4 as u64);
        (((n >> 24) & 0xff) as u8) == b1 && (((n >> 16) & 0xff) as u8) == b2 && (((n >> 8)
            & 0xff) as u8) == b3 && ((n & 0xff) as u8) == b4 && n < 0x1_0000_0000
    })) by (bit_vector);
    assert(({
        let n = ((b1 as u64) << 56) | ((b2 as u64) << 48) | ((b3 as u64) << 40) | ((b4 as u64)
            << 32) | ((b5 as u64) << 24) | ((b6 as u64) << 16) | ((b7 as u64) << 8) | (b8 as u64);
        (((n >> 56) & 0xff) as u8) == b1 && (((n >> 48) & 0xff) as u8) == b2 && (((n >> 40)
            & 0xff) as u8) == b3 && (((n >> 32) & 0xff) as u8) == b4 && (((n >> 24)
            & 0xff) as u8) == b5 && (((n >> 16) & 0xff) as u8) == b6 && (((n >> 8)
            & 0xff) as u8) == b7 && ((n & 0xff) as u8) == b8
    })) by (bit_vector);
}

/// A head that is read is the head that writing its major type and argument
/// gives: no other bytes stand for them.
pub proof fn lemma_head_canonical(b: Seq<u8>)
    requires
        spec_parse_head(b) is Some,
    ensures
        ({
            let (major, n, k) = spec_parse_head(b)->0;
            &&& major < 8
            &&& 1 <= k <= b.len()
            &&& spec_head(major, n) == b.subrange(0, k)
        }),
{
    let (major, n, k) = spec_parse_head(b)->0;
    let info: u8 = b[0] & 0x1f;
    let b0 = b[0];
    let at = |i: int| -> u8 {
        if i < b.len() {
            b[i]
        } else {
            0u8
        }
    };
    lemma_be_canonical(b0, at(1), at(2), at(3), at(4), at(5), at(6), at(7), at(8));
    assert(((major << 5) | info) == b0);
    if info < 24 {
        assert(n == info as u64);
        assert((n as u8) == info);
        assert(spec_head(major, n) =~= b.subrange(0, k));
    } else if info == 24 {
        assert(spec_head(major, n) =~= b.subrange(0, k));
    } else if info == 25 {
        assert(spec_head(major, n) =~= b.subrange(0, k));
    } else if info == 26 {
        assert(spec_head(major, n) =~= b.subrange(0, k));
    } else {
        assert(spec_head(major, n) =~= b.subrange(0, k));
    }
}

/// A field that is read is the field that writing it gives.
pub proof fn lemma_field_canonical(b: Seq<u8>)
    requires
        spec_parse_field(b) is Some,
    ensures
        ({
            let (f, k) = spec_parse_field(b)->0;
            &&& 1 <= k <= b.len()
            &&& spec_field(f) == b.subrange(0, k)
            &&& (f matches FieldView::Bytes(bytes) ==> bytes.len() <= u64::MAX)
        }),
{
    let (f, k) = spec_parse_field(b)->0;
    let (major, n, k0) = spec_parse_head(b)->0;
    lemma_head_canonical(b);
    match f {
        FieldView::Uint(_) => {},
        FieldView::Nint(_) => {},
        FieldView::Bytes(bytes) => {
            assert(bytes.len() == n);
            assert(spec_field(f) =~= b.subrange(0, k0) + b.subrange(k0, k0 + n));
            assert(b.subrange(0, k0) + b.subrange(k0, k0 + n) =~= b.subrange(0, k));
        },
        FieldView::Null => {
            assert(spec_field(f) =~= b.subrange(0, 1));
        },
    }
}

/// Fields that are read are the fields that writing them gives.
pub proof fn lemma_fields_canonical(b: Seq<u8>, count: nat)
    requires
        spec_parse_fields(b, count) is Some,
    ensures
        ({
            let (fs, k) = spec_parse_fields(b, count)->0;
            &&& fs.len() == count
            &&& 0 <= k <= b.len()
            &&& spec_fields(fs) == b.subrange(0, k)
            &&& forall|i: int|
                0 <= i < fs.len() ==> ((#[trigger] fs[i]) matches FieldView::Bytes(bytes)
                    ==> bytes.len() <= u64::MAX)
        }),
    decreases count,
{
    let (fs, k) = spec_parse_fields(b, count)->0;
    if count == 0 {
        assert(spec_fields(fs) =~= b.subrange(0, 0));
    } else {
        let (f, k1) = spec_parse_field(b)->0;
        lemma_field_canonical(b);
        let rest = b.skip(k1);
        let (tail, k2) = spec_parse_fields(rest, (count - 1) as nat)->0;
        lemma_fields_canonical(rest, (count - 1) as nat);
        assert(fs == seq![f] + tail);
        assert(fs[0] == f);
        assert(fs.skip(1) =~= tail);
        assert(rest.subrange(0, k2) =~= b.subrange(k1, k1 + k2));
        assert(b.subrange(0, k1) + b.subrange(k1, k1 + k2) =~= b.subrange(0, k));
        assert forall|i: int| 0 <= i < fs.len() implies ((#[trigger] fs[i]) matches FieldView::Bytes(
            bytes,
        ) ==> bytes.len() <= u64::MAX) by {
            if i > 0 {
                assert(fs[i] == tail[i - 1]);
            }
        }
    }
}

/// Bytes that are read as a record are the bytes that writing the record
/// gives: reading and writing are inverse to each other, and no record has
/// two forms.
pub proof fn lemma_record_canonical(b: Seq<u8>)
    requires
        spec_parse_record(b) is Some,
    ensures
        spec_record(spec_parse_record(b)->0) == b,
        spec_encodable(spec_parse_record(b)->0),
{
    let (major, n, k) = spec_parse_head(b)->0;
    lemma_head_canonical(b);
    let rest = b.skip(k);
    let (fs, k2) = spec_parse_fields(rest, n as nat)->0;
    lemma_fields_canonical(rest, n as nat);
    assert(rest.subrange(0, k2) =~= b.subrange(k, k + k2));
    assert(b.subrange(0, k) + b.subrange(k, k + k2) =~= b);
    assert(fs.len() as u64 == n);
}

/// Appends the head of an item to `out`.
pub fn put_head(out: &mut Vec<u8>, major: u8, n: u64)
    requires
        major < 8,
    ensures
        final(out)@ == old(out)@ + spec_head(major, n),
{
    let m: u8 = major << 5;
    let ghost before = out@;
    if n < 24 {
        out.push(m | (n as u8));
    } else if n < 0x100 {
        out.push(m | 24);
        out.push((n & 0xff) as u8);
    } else if n < 0x1_0000 {
        out.push(m | 25);
        out.push(((n >> 8) & 0xff) as u8);
        out.push((n & 0xff) as u8);
    } else if n < 0x1_0000_0000 {
        out.push(m | 26);
        out.push(((n >> 24) & 0xff) as u8);
        out.push(((n >> 16) & 0xff) as u8);
        out.push(((n >> 8) & 0xff) as u8);
        out.push((n & 0xff) as u8);
    } else {
        out.push(m | 27);
        out.push(((n >> 56) & 0xff) as u8);
        out.push(((n >> 48) & 0xff) as u8);
        out.push(((n >> 40) & 0xff) as u8);
        out.push(((n >> 32) & 0xff) as u8);
        out.push(((n >> 24) & 0xff) as u8);
        out.push(((n >> 16) & 0xff) as u8);
        out.push(((n >> 8) & 0xff) as u8);
        out.push((n & 0xff) as u8);
    }
    assert(out@ =~= before + spec_head(major, n));
}

/// Appends `bytes` to `out`.
pub fn put_all(out: &mut Vec<u8>, bytes: &[u8])
    ensures
        final(out)@ == old(out)@ + bytes@,
{
    let ghost before = out@;
    let mut i: usize = 0;
    while i < bytes.len()
        invariant
            i <= bytes@.len(),
            out@ == before + bytes@.subrange(0, i as int),
        decreases bytes@.len() - i,
    {
        out.push(bytes[i]);
        assert(out@ =~= before + bytes@.subrange(0, i + 1));
        i = i + 1;
    }
    assert(bytes@.subrange(0, i as int) =~= bytes@);
}

/// Appends one field to `out`.
pub fn put_field(out: &mut Vec<u8>, field: &Field)
    ensures
        final(out)@ == old(out)@ + spec_field(field@),
        field@ matches FieldView::Bytes(b) ==> b.len() <= u64::MAX,
{
    let ghost before = out@;
    match field {
        Field::Uint(n) => put_head(out, MAJOR_UINT, *n),
        Field::Nint(n) => put_head(out, MAJOR_NINT, *n),
        Field::Bytes(b) => {
            put_head(out, MAJOR_BYTES, b.len() as u64);
            put_all(out, b.as_slice());
            assert(out@ =~= before + spec_field(field@));
        },
        Field::Null => {
            out.push(NULL_BYTE);
            assert(out@ =~= before + spec_field(field@));
        },
    }
}

proof fn lemma_fields_append(fs: Seq<FieldView>, f: FieldView)
    ensures
        spec_fields(fs.push(f)) == spec_fields(fs) + spec_field(f),
    decreases fs.len(),
{
    let all = fs.push(f);
    if fs.len() == 0 {
        assert(all.skip(1) =~= Seq::<FieldView>::empty());
        assert(spec_fields(all.skip(1)) =~= Seq::<u8>::empty());
        assert(all[0] == f);
        assert(spec_fields(all) =~= spec_field(f) + spec_fields(all.skip(1)));
        assert(spec_fields(all) =~= spec_fields(fs) + spec_field(f));
    } else {
        assert(all.skip(1) =~= fs.skip(1).push(f));
        lemma_fields_append(fs.skip(1), f);
        assert(all[0] == fs[0]);
        assert(spec_fields(all) =~= spec_field(fs[0]) + spec_fields(all.skip(1)));
        assert(spec_fields(all) =~= spec_fields(fs) + spec_field(f));
    }
}

impl Formatter {
    /// Writes a record of the given fields.
    pub fn format(&self, fields: &Vec<Field>) -> (r: Result<Vec<u8>, FormatError>)
        ensures
            r matches Ok(out) && out@ == spec_record(spec_views(fields@)),
            spec_encodable(spec_views(fields@)),
    {
        let mut out: Vec<u8> = Vec::new();
        put_head(&mut out, MAJOR_ARRAY, fields.len() as u64);
        let ghost head = out@;
        let mut i: usize = 0;
        while i < fields.len()
            invariant
                i <= fields@.len(),
                out@ == head + spec_fields(spec_views(fields@).subrange(0, i as int)),
                forall|j: int|
                    0 <= j < i ==> ((#[trigger] spec_views(fields@)[j]) matches FieldView::Bytes(b)
                        ==> b.len() <= u64::MAX),
            decreases fields@.len() - i,
        {
            put_field(&mut out, &fields[i]);
            proof {
                let views = spec_views(fields@);
                lemma_fields_append(views.subrange(0, i as int), views[i as int]);
                assert(views.subrange(0, i + 1) =~= views.subrange(0, i as int).push(
                    views[i as int],
                ));
                assert(out@ =~= head + spec_fields(views.subrange(0, i + 1)));
            }
            i = i + 1;
        }
        proof {
            let views = spec_views(fields@);
            assert(views.subrange(0, i as int) =~= views);
        }
        Ok(out)
    }

    /// Reads a record: the fields of the one array that `bytes` is.
    #[verifier::rlimit(50)]
    pub fn parse(&self, bytes: &[u8]) -> (r: Result<Vec<Field>, FormatError>)
        ensures
            match spec_parse_record(bytes@) {
                Some(fs) => r matches Ok(fields) && spec_views(fields@) == fs && spec_record(fs)
                    == bytes@,
                None => r == Err::<Vec<Field>, FormatError>(
                    FormatError::Failed(FormatFailure::Malformed),
                ),
            },
    {
        proof {
            if spec_parse_record(bytes@) is Some {
                lemma_record_canonical(bytes@);
            }
        }
        assert(bytes@.skip(0) =~= bytes@);
        let (major, count, start) = match parse_head(bytes, 0) {
            None => {
                return malformed();
            },
            Some(head) => head,
        };
        if major != MAJOR_ARRAY {
            return malformed();
        }
        let mut fields: Vec<Field> = Vec::new();
        let mut pos: usize = start;
        let mut i: u64 = 0;
        proof {
            match spec_parse_fields(bytes@.skip(start as int), count as nat) {
                None => {},
                Some((rest, k)) => {
                    assert(spec_views(fields@) + rest =~= rest);
                },
            }
        }
        while i < count
            invariant
                i <= count,
                start <= pos <= bytes@.len(),
                fields@.len() == i,
                spec_parse_head(bytes@) == Some((MAJOR_ARRAY, count, start as int)),
                spec_parse_fields(bytes@.skip(start as int), count as nat) == (match spec_parse_fields(
                    bytes@.skip(pos as int),
                    (count - i) as nat,
                ) {
                    None => None,
                    Some((rest, k)) => Some((spec_views(fields@) + rest, pos - start + k)),
                }),
            decreases count - i,
        {
            match parse_field(bytes, pos) {
                None => {
                    return malformed();
                },
                Some((field, next)) => {
                    proof {
                        let here = bytes@.skip(pos as int);
                        let k = next - pos;
                        assert(here.skip(k) =~= bytes@.skip(next as int));
                        let ghost old_views = spec_views(fields@);
                        match spec_parse_fields(bytes@.skip(next as int), (count - i - 1) as nat) {
                            None => {},
                            Some((rest, k2)) => {
                                assert(old_views + (seq![field@] + rest) =~= spec_views(
                                    fields@.push(field),
                                ) + rest);
                            },
                        }
                    }
                    fields.push(field);
                    pos = next;
                },
            }
            i = i + 1;
        }
        proof {
            assert(spec_views(fields@) + Seq::<FieldView>::empty() =~= spec_views(fields@));
        }
        if pos != bytes.len() {
            return malformed();
        }
        Ok(fields)
    }
}

fn malformed<T>() -> (r: Result<T, FormatError>)
    ensures
        r == Err::<T, FormatError>(FormatError::Failed(FormatFailure::Malformed)),
{
    Err(FormatError::Failed(FormatFailure::Malformed))
}

/// Reads the head that starts at `pos`: its major type, its argument, and
/// the position after it.
#[verifier::rlimit(50)]
pub fn parse_head(bytes: &[u8], pos: usize) -> (r: Option<(u8, u64, usize)>)
    requires
        pos <= bytes@.len(),
    ensures
        match spec_parse_head(bytes@.skip(pos as int)) {
            None => r is None,
            Some((major, n, k)) => r matches Some((m, arg, next)) && m == major && arg == n && next
                == pos + k && next <= bytes@.len() && k >= 1,
        },
{
    let ghost b = bytes@.skip(pos as int);
    let len = bytes.len();
    if pos >= len {
        return None;
    }
    let rest: usize = len - pos;
    let first: u8 = bytes[pos];
    assert(b[0] == first);
    let major: u8 = first >> 5;
    let info: u8 = first & 0x1f;
    if info < 24 {
        Some((major, info as u64, pos + 1))
    } else if info == 24 {
        if rest >= 2 && bytes[pos + 1] >= 24 {
            assert(b[1] == bytes@[pos + 1]);
            Some((major, bytes[pos + 1] as u64, pos + 2))
        } else {
            assert(rest >= 2 ==> b[1] == bytes@[pos + 1]);
            None
        }
    } else if info == 25 {
        if rest < 3 {
            return None;
        }
        assert(b[1] == bytes@[pos + 1] && b[2] == bytes@[pos + 2]);
        let n: u64 = ((bytes[pos + 1] as u64) << 8) | (bytes[pos + 2] as u64);
        if n >= 0x100 {
            Some((major, n, pos + 3))
        } else {
            None
        }
    } else if info == 26 {
        if rest < 5 {
            return None;
        }
        assert(b[1] == bytes@[pos + 1] && b[2] == bytes@[pos + 2] && b[3] == bytes@[pos + 3] && b[4]
            == bytes@[pos + 4]);
        let n: u64 = ((bytes[pos + 1] as u64) << 24) | ((bytes[pos + 2] as u64) << 16) | ((bytes[pos
            + 3] as u64) << 8) | (bytes[pos + 4] as u64);
        if n >= 0x1_0000 {
            Some((major, n, pos + 5))
        } else {
            None
        }
    } else if info == 27 {
        if rest < 9 {
            return None;
        }
        assert(b[1] == bytes@[pos + 1] && b[2] == bytes@[pos + 2] && b[3] == bytes@[pos + 3] && b[4]
            == bytes@[pos + 4]);
        assert(b[5] == bytes@[pos + 5] && b[6] == bytes@[pos + 6] && b[7] == bytes@[pos + 7] && b[8]
            == bytes@[pos + 8]);
        let n: u64 = ((bytes[pos + 1] as u64) << 56) | ((bytes[pos + 2] as u64) << 48) | ((bytes[pos
            + 3] as u64) << 40) | ((bytes[pos + 4] as u64) << 32) | ((bytes[pos + 5] as u64) << 24)
            | ((bytes[pos + 6] as u64) << 16) | ((bytes[pos + 7] as u64) << 8) | (bytes[pos
            + 8] as u64);
        if n >= 0x1_0000_0000 {
            Some((major, n, pos + 9))
        } else {
            None
        }
    } else {
        None
    }
}

/// Reads the field that starts at `pos`: the field, and the position after
/// it.
pub fn parse_field(bytes: &[u8], pos: usize) -> (r: Option<(Field, usize)>)
    requires
        pos <= bytes@.len(),
    ensures
        match spec_parse_field(bytes@.skip(pos as int)) {
            None => r is None,
            Some((f, k)) => r matches Some((field, next)) && field@ == f && next == pos + k && next
                <= bytes@.len() && k >= 1,
        },
{
    let ghost b = bytes@.skip(pos as int);
    let (major, n, after) = match parse_head(bytes, pos) {
        None => {
            return None;
        },
        Some(head) => head,
    };
    let ghost k = after - pos;
    assert(spec_parse_head(b) == Some((major, n, k)));
    if major == MAJOR_UINT {
        assert(spec_parse_field(b) == Some((FieldView::Uint(n), k)));
        Some((Field::Uint(n), after))
    } else if major == MAJOR_NINT {
        assert(spec_parse_field(b) == Some((FieldView::Nint(n), k)));
        Some((Field::Nint(n), after))
    } else if major == MAJOR_BYTES {
        let left: usize = bytes.len() - after;
        assert(b.len() - k == left);
        if n > left as u64 {
            assert(spec_parse_field(b) is None);
            return None;
        }
        let end: usize = after + n as usize;
        let mut data: Vec<u8> = Vec::new();
        let mut i: usize = after;
        while i < end
            invariant
                after <= i <= end <= bytes@.len(),
                data@ == bytes@.subrange(after as int, i as int),
            decreases end - i,
        {
            data.push(bytes[i]);
            assert(data@ =~= bytes@.subrange(after as int, i + 1));
            i = i + 1;
        }
        assert(data@ =~= b.subrange(k, k + n));
        assert(spec_parse_field(b) == Some((FieldView::Bytes(data@), k + n)));
        Some((Field::Bytes(data), end))
    } else if bytes[pos] == NULL_BYTE {
        assert(b[0] == bytes@[pos as int]);
        assert(spec_parse_field(b) == Some((FieldView::Null, 1int)));
        Some((Field::Null, pos + 1))
    } else {
        assert(b[0] == bytes@[pos as int]);
        assert(spec_parse_field(b) is None);
        None
    }
}


/// A format that writes the fields of a record as bytes, and reads them
/// back.
pub trait Format {
    fn format(&self, fields: &Vec<Field>) -> Result<Vec<u8>, FormatError>;

    fn parse(&self, bytes: &[u8]) -> Result<Vec<Field>, FormatError>;
}

impl Format for Formatter {
    fn format(&self, fields: &Vec<Field>) -> (r: Result<Vec<u8>, FormatError>)
        ensures
            r matches Ok(out) && out@ == spec_record(spec_views(fields@)),
    {
        Formatter::format(self, fields)
    }

    fn parse(&self, bytes: &[u8]) -> (r: Result<Vec<Field>, FormatError>)
        ensures
            match spec_parse_record(bytes@) {
                Some(fs) => r matches Ok(fields) && spec_views(fields@) == fs,
                None => r == Err::<Vec<Field>, FormatError>(
                    FormatError::Failed(FormatFailure::Malformed),
                ),
            },
    {
        Formatter::parse(self, bytes)
    }
}

impl FormatterParams {
    /// The format that these parameters select.
    pub fn create(&self) -> (r: Formatter)
        ensures
            r == Formatter::Cbor,
    {
        Formatter::Cbor
    }
}

impl crate::process::Instanciate for FormatterParams {
    type Instance = Formatter;

    fn create(&self) -> (r: Formatter)
        ensures
            r == Formatter::Cbor,
    {
        FormatterParams::create(self)
    }
}


impl FormatError {
    pub open spec fn spec_message(self) -> Seq<char> {
        "Failed"@
    }

    /// What went wrong, in words.
    pub fn message(&self) -> (r: &'static str)
        ensures
            r@ == self.spec_message(),
    {
        "Failed"
    }
}

impl Formatter {
    /// The name of the format.
    pub fn name(&self) -> (r: &'static str)
        ensures
            r@ == "Cbor"@,
    {
        "Cbor"
    }
}

} // verus!
