//! Object identifiers: 32 opaque bytes, written as 64 hexadecimal digits.

use vstd::prelude::*;
use vstd::string::StringSliceAdditionalSpecFns;

verus! {

/// Number of bytes in an [`Id`].
pub const WIDTH: usize = 32;

/// The ASCII code of the hexadecimal digit for `n`, for `n` below 16.
pub open spec fn spec_hex_digit(n: int, upper: bool) -> u8 {
    if n < 10 {
        (48 + n) as u8
    } else if upper {
        (55 + n) as u8
    } else {
        (87 + n) as u8
    }
}

/// The hexadecimal rendering of `bytes` as ASCII codes: two digits per byte,
/// the high half first.
pub open spec fn spec_hex(bytes: Seq<u8>, upper: bool) -> Seq<u8> {
    Seq::new(
        2 * bytes.len(),
        |i: int|
            if i % 2 == 0 {
                spec_hex_digit(bytes[i / 2] as int / 16, upper)
            } else {
                spec_hex_digit(bytes[i / 2] as int % 16, upper)
            },
    )
}

/// The characters that a sequence of ASCII codes stands for.
pub open spec fn spec_ascii_chars(codes: Seq<u8>) -> Seq<char> {
    Seq::new(codes.len(), |i: int| codes[i] as char)
}

/// The value of a hexadecimal digit given by its ASCII code, in either case.
pub open spec fn spec_hex_value(c: u8) -> Option<u8> {
    if 48 <= c <= 57 {
        Some((c - 48) as u8)
    } else if 97 <= c <= 102 {
        Some((c - 87) as u8)
    } else if 65 <= c <= 70 {
        Some((c - 55) as u8)
    } else {
        None
    }
}

/// The byte that two hexadecimal digits denote, the high half first; `None`
/// unless both are digits.
pub open spec fn spec_hex_pair(a: u8, b: u8) -> Option<u8> {
    match (spec_hex_value(a), spec_hex_value(b)) {
        (Some(hi), Some(lo)) => Some((hi * 16 + lo) as u8),
        _ => None,
    }
}

/// The identifier that a text denotes: exactly 64 bytes of text, read pair by
/// pair. `None` where the length is wrong or a byte is no hexadecimal digit.
pub open spec fn spec_parse_hex(text: Seq<u8>) -> Option<Seq<u8>> {
    if text.len() == 2 * WIDTH && forall|i: int|
        0 <= i < WIDTH ==> (#[trigger] spec_hex_pair(text[2 * i], text[2 * i + 1])) is Some {
        Some(Seq::new(WIDTH as nat, |i: int| spec_hex_pair(text[2 * i], text[2 * i + 1])->0))
    } else {
        None
    }
}

/// The lowercase form of a hexadecimal digit given by its ASCII code; other
/// codes stay.
pub open spec fn spec_lower_digit(c: u8) -> u8 {
    if 65 <= c <= 70 {
        (c + 32) as u8
    } else {
        c
    }
}

/// A text denotes an identifier exactly where it is 64 hexadecimal digits.
pub proof fn lemma_parse_hex_digits(text: Seq<u8>)
    ensures
        spec_parse_hex(text) is Some <==> text.len() == 2 * WIDTH && forall|i: int|
            0 <= i < text.len() ==> (#[trigger] spec_hex_value(text[i])) is Some,
{
    if text.len() == 2 * WIDTH {
        if spec_parse_hex(text) is Some {
            assert forall|i: int| 0 <= i < text.len() implies (#[trigger] spec_hex_value(
                text[i],
            )) is Some by {
                let k = i / 2;
                assert(spec_hex_pair(text[2 * k], text[2 * k + 1]) is Some);
                assert(i == 2 * k || i == 2 * k + 1);
            }
        }
        if forall|i: int| 0 <= i < text.len() ==> (#[trigger] spec_hex_value(text[i])) is Some {
            assert forall|k: int| 0 <= k < WIDTH implies (#[trigger] spec_hex_pair(
                text[2 * k],
                text[2 * k + 1],
            )) is Some by {
                assert(spec_hex_value(text[2 * k]) is Some);
                assert(spec_hex_value(text[2 * k + 1]) is Some);
            }
        }
    }
}

/// Reading what was written gives the identifier back, in either case of
/// the digits.
pub proof fn lemma_parse_hex_of_hex(bytes: Seq<u8>, upper: bool)
    requires
        bytes.len() == WIDTH,
    ensures
        spec_parse_hex(spec_hex(bytes, upper)) == Some(bytes),
{
    let text = spec_hex(bytes, upper);
    assert forall|k: int| 0 <= k < WIDTH implies #[trigger] spec_hex_pair(
        text[2 * k],
        text[2 * k + 1],
    ) == Some(bytes[k]) by {
        let b = bytes[k] as int;
        assert((2 * k) / 2 == k && (2 * k) % 2 == 0);
        assert((2 * k + 1) / 2 == k && (2 * k + 1) % 2 == 1);
        assert(text[2 * k] == spec_hex_digit(b / 16, upper));
        assert(text[2 * k + 1] == spec_hex_digit(b % 16, upper));
        assert(0 <= b / 16 < 16 && 0 <= b % 16 < 16);
        assert(spec_hex_value(spec_hex_digit(b / 16, upper)) == Some((b / 16) as u8));
        assert(spec_hex_value(spec_hex_digit(b % 16, upper)) == Some((b % 16) as u8));
        assert((b / 16) * 16 + b % 16 == b);
    }
    assert(spec_parse_hex(text)->0 =~= bytes);
}

/// Writing what was read gives the text back, in lowercase.
pub proof fn lemma_hex_of_parse(text: Seq<u8>)
    requires
        spec_parse_hex(text) is Some,
    ensures
        spec_hex(spec_parse_hex(text)->0, false) == text.map_values(|c: u8| spec_lower_digit(c)),
{
    let bytes = spec_parse_hex(text)->0;
    let back = spec_hex(bytes, false);
    let lower = text.map_values(|c: u8| spec_lower_digit(c));
    assert forall|i: int| 0 <= i < back.len() implies back[i] == lower[i] by {
        let k = i / 2;
        assert(spec_hex_pair(text[2 * k], text[2 * k + 1]) is Some);
        assert(bytes[k] == spec_hex_pair(text[2 * k], text[2 * k + 1])->0);
        let hi = spec_hex_value(text[2 * k])->0 as int;
        let lo = spec_hex_value(text[2 * k + 1])->0 as int;
        assert(0 <= hi < 16 && 0 <= lo < 16);
        assert(bytes[k] as int == hi * 16 + lo);
        assert((hi * 16 + lo) / 16 == hi && (hi * 16 + lo) % 16 == lo);
        assert(spec_hex_digit(hi, false) == spec_lower_digit(text[2 * k]));
        assert(spec_hex_digit(lo, false) == spec_lower_digit(text[2 * k + 1]));
        assert(i == 2 * k || i == 2 * k + 1);
    }
    assert(back =~= lower);
}

/// The first `WIDTH` bytes of `bytes`, padded with zeros at the end.
pub open spec fn spec_padded(bytes: Seq<u8>) -> Seq<u8> {
    Seq::new(
        WIDTH as nat,
        |i: int|
            if i < bytes.len() {
                bytes[i]
            } else {
                0u8
            },
    )
}

/// Whether `prefix` is the beginning of `full`.
pub open spec fn spec_starts_with(full: Seq<u8>, prefix: Seq<u8>) -> bool {
    prefix.len() <= full.len() && full.subrange(0, prefix.len() as int) == prefix
}

/// Turns ASCII codes into a `String` with `String::from_utf8`: one character
/// per code, in order.
#[verifier::external_body]
fn string_from_ascii(codes: Vec<u8>) -> (s: String)
    requires
        forall|i: int| 0 <= i < codes@.len() ==> codes@[i] < 128,
    ensures
        s@ == spec_ascii_chars(codes@),
{
    String::from_utf8(codes).unwrap_or_default()
}

fn hex_digit(n: u8, upper: bool) -> (c: u8)
    requires
        n < 16,
    ensures
        c == spec_hex_digit(n as int, upper),
        c < 128,
{
    if n < 10 {
        48 + n
    } else if upper {
        55 + n
    } else {
        87 + n
    }
}

fn hex_value(c: u8) -> (r: Option<u8>)
    ensures
        r == spec_hex_value(c),
        r matches Some(v) ==> v < 16,
{
    if 48 <= c && c <= 57 {
        Some(c - 48)
    } else if 97 <= c && c <= 102 {
        Some(c - 87)
    } else if 65 <= c && c <= 70 {
        Some(c - 55)
    } else {
        None
    }
}

fn hex_pair(a: u8, b: u8) -> (r: Option<u8>)
    ensures
        r == spec_hex_pair(a, b),
{
    match (hex_value(a), hex_value(b)) {
        (Some(hi), Some(lo)) => Some(hi * 16 + lo),
        _ => None,
    }
}

/// The hexadecimal rendering of `bytes` as ASCII codes.
pub fn hex_encode(bytes: &[u8], upper: bool) -> (out: Vec<u8>)
    ensures
        out@ == spec_hex(bytes@, upper),
        forall|i: int| 0 <= i < out@.len() ==> out@[i] < 128,
{
    let mut out: Vec<u8> = Vec::new();
    let mut i: usize = 0;
    while i < bytes.len()
        invariant
            i <= bytes@.len(),
            out@.len() == 2 * i,
            forall|j: int| 0 <= j < out@.len() ==> out@[j] == spec_hex(bytes@, upper)[j],
            forall|j: int| 0 <= j < out@.len() ==> out@[j] < 128,
        decreases bytes@.len() - i,
    {
        let byte: u8 = bytes[i];
        out.push(hex_digit(byte / 16, upper));
        out.push(hex_digit(byte % 16, upper));
        i = i + 1;
    }
    assert(out@ =~= spec_hex(bytes@, upper));
    out
}

/// Whether `full` begins with `prefix`.
pub fn starts_with(full: &[u8], prefix: &[u8]) -> (r: bool)
    ensures
        r == spec_starts_with(full@, prefix@),
{
    if prefix.len() > full.len() {
        return false;
    }
    let mut i: usize = 0;
    while i < prefix.len()
        invariant
            i <= prefix@.len() <= full@.len(),
            forall|j: int| 0 <= j < i ==> full@[j] == prefix@[j],
        decreases prefix@.len() - i,
    {
        if full[i] != prefix[i] {
            assert(full@.subrange(0, prefix@.len() as int)[i as int] != prefix@[i as int]);
            return false;
        }
        i = i + 1;
    }
    assert(full@.subrange(0, prefix@.len() as int) =~= prefix@);
    true
}

/// A 32-byte identifier. Equality is byte-wise.
#[derive(Debug, Clone, Copy, Hash)]
pub struct Id(pub [u8; WIDTH]);

/// The text given to [`Id::parse_hex`] denotes no identifier.
#[derive(Debug, Clone, Copy, PartialEq, Eq, Hash, Structural)]
pub struct ParseHexIdError;

impl View for Id {
    type V = Seq<u8>;

    open spec fn view(&self) -> Seq<u8> {
        self.0@
    }
}

impl PartialEq for Id {
    fn eq(&self, other: &Self) -> (r: bool) {
        let mut i: usize = 0;
        while i < WIDTH
            invariant
                i <= WIDTH,
                forall|j: int| 0 <= j < i ==> self.0@[j] == other.0@[j],
            decreases WIDTH - i,
        {
            if self.0[i] != other.0[i] {
                return false;
            }
            i = i + 1;
        }
        assert(self.0@ =~= other.0@);
        true
    }
}

impl Eq for Id {

}

impl vstd::std_specs::cmp::PartialEqSpecImpl for Id {
    open spec fn obeys_eq_spec() -> bool {
        true
    }

    open spec fn eq_spec(&self, other: &Self) -> bool {
        self.0@ == other.0@
    }
}

impl Default for Id {
    fn default() -> (r: Self)
        ensures
            r@ == Id::spec_zero()@,
    {
        Id::zero()
    }
}

impl core::str::FromStr for Id {
    type Err = ParseHexIdError;

    /// Reads an identifier as [`Id::parse_hex`] does.
    fn from_str(s: &str) -> (r: Result<Self, Self::Err>)
        ensures
            match spec_parse_hex(s.spec_bytes()) {
                Some(bytes) => r matches Ok(id) && id@ == bytes,
                None => r is Err,
            },
    {
        Id::parse_hex(s)
    }
}

impl Id {
    /// The identifier of all zeros, reserved for objects of which a repository
    /// holds one.
    pub open spec fn spec_zero() -> Id {
        Id([0u8; WIDTH])
    }

    /// The identifier of all zeros.
    pub fn zero() -> (r: Self)
        ensures
            r == Id::spec_zero(),
            forall|i: int| 0 <= i < WIDTH ==> r@[i] == 0,
    {
        Id([0u8; WIDTH])
    }

    /// A random identifier, from the thread's cryptographically secure
    /// generator.
    pub fn random() -> Self {
        let bytes = crate::secret::random_bytes(WIDTH);
        Id::from_bytes(bytes.as_slice())
    }

    /// Lowercase hexadecimal, 64 digits.
    pub fn to_hex_lower(self) -> (s: String)
        ensures
            s@ == spec_ascii_chars(spec_hex(self@, false)),
    {
        string_from_ascii(hex_encode(&self.0, false))
    }

    /// Uppercase hexadecimal, 64 digits.
    pub fn to_hex_upper(self) -> (s: String)
        ensures
            s@ == spec_ascii_chars(spec_hex(self@, true)),
    {
        string_from_ascii(hex_encode(&self.0, true))
    }

    /// The serialized form of an identifier: lowercase hexadecimal.
    pub fn to_hex(&self) -> (s: String)
        ensures
            s@ == spec_ascii_chars(spec_hex(self@, false)),
    {
        self.to_hex_lower()
    }

    /// The first two digits of [`Id::to_hex`]: they name the directory of
    /// the object where a directory is split in 256.
    pub fn shard(&self) -> (s: String)
        ensures
            s@ == spec_ascii_chars(spec_hex(self@, false)).subrange(0, 2),
    {
        let mut digits: Vec<u8> = Vec::new();
        digits.push(hex_digit(self.0[0] / 16, false));
        digits.push(hex_digit(self.0[0] % 16, false));
        let s = string_from_ascii(digits);
        assert(s@ =~= spec_ascii_chars(spec_hex(self@, false)).subrange(0, 2));
        s
    }

    /// The ASCII codes of [`Id::to_hex`].
    pub fn to_hex_bytes(&self) -> (out: Vec<u8>)
        ensures
            out@ == spec_hex(self@, false),
            out@.len() == 2 * WIDTH,
    {
        hex_encode(&self.0, false)
    }

    /// Takes the first 32 bytes of `slice`; a shorter slice is padded with
    /// zeros at the end.
    pub fn from_bytes(slice: &[u8]) -> (r: Self)
        ensures
            r@ == spec_padded(slice@),
    {
        let mut id: [u8; WIDTH] = [0u8; WIDTH];
        let mut i: usize = 0;
        while i < WIDTH
            invariant
                i <= WIDTH,
                forall|j: int| 0 <= j < i ==> id@[j] == spec_padded(slice@)[j],
            decreases WIDTH - i,
        {
            id[i] = if i < slice.len() {
                slice[i]
            } else {
                0
            };
            i = i + 1;
        }
        assert(id@ =~= spec_padded(slice@));
        Id(id)
    }

    /// The 32 bytes.
    pub fn as_bytes(&self) -> (r: &[u8])
        ensures
            r@ == self@,
    {
        &self.0
    }

    /// Attaches this identifier to `value`.
    pub fn idd<T>(self, value: T) -> (r: Idd<T>)
        ensures
            r.id == self,
            r.value == value,
    {
        Idd::new(self, value)
    }

    /// Reads an identifier from 64 hexadecimal digits of either case, two per
    /// byte. Any other text is refused.
    pub fn parse_hex(s: &str) -> (r: Result<Self, ParseHexIdError>)
        ensures
            match spec_parse_hex(s.spec_bytes()) {
                Some(bytes) => r matches Ok(id) && id@ == bytes,
                None => r is Err,
            },
    {
        let text = s.as_bytes();
        if text.len() != 2 * WIDTH {
            return Err(ParseHexIdError);
        }
        let mut id: [u8; WIDTH] = [0u8; WIDTH];
        let mut i: usize = 0;
        while i < WIDTH
            invariant
                i <= WIDTH,
                text@ == s.spec_bytes(),
                text@.len() == 2 * WIDTH,
                forall|j: int|
                    0 <= j < i ==> (#[trigger] spec_hex_pair(text@[2 * j], text@[2 * j + 1]))
                        == Some(id@[j]),
            decreases WIDTH - i,
        {
            match hex_pair(text[2 * i], text[2 * i + 1]) {
                Some(byte) => {
                    id[i] = byte;
                },
                None => {
                    assert(spec_hex_pair(text@[2 * (i as int)], text@[2 * (i as int) + 1])
                        is None);
                    return Err(ParseHexIdError);
                },
            }
            i = i + 1;
        }
        assert(id@ =~= spec_parse_hex(text@)->0);
        Ok(Id(id))
    }
}

/// A value together with the identifier under which it is stored.
///
/// Two of these are equal where their identifiers are: the values are not
/// compared, and need not even have the same type.
#[derive(Debug)]
pub struct Idd<T> {
    pub id: Id,
    pub value: T,
}

impl<T> Idd<T> {
    pub fn new(id: Id, value: T) -> (r: Self)
        ensures
            r.id == id,
            r.value == value,
    {
        Self { id, value }
    }

    pub fn id(&self) -> (r: &Id)
        ensures
            *r == self.id,
    {
        &self.id
    }

    pub fn value(&self) -> (r: &T)
        ensures
            *r == self.value,
    {
        &self.value
    }

    pub fn into_inner(self) -> (r: (Id, T))
        ensures
            r.0 == self.id,
            r.1 == self.value,
    {
        (self.id, self.value)
    }

    pub fn into_value(self) -> (r: T)
        ensures
            r == self.value,
    {
        self.value
    }
}

impl<T, U> PartialEq<Idd<U>> for Idd<T> {
    fn eq(&self, other: &Idd<U>) -> (r: bool) {
        self.id == other.id
    }
}

impl<T, U> vstd::std_specs::cmp::PartialEqSpecImpl<Idd<U>> for Idd<T> {
    open spec fn obeys_eq_spec() -> bool {
        true
    }

    open spec fn eq_spec(&self, other: &Idd<U>) -> bool {
        self.id@ == other.id@
    }
}

impl<U> PartialEq<Idd<U>> for Id {
    fn eq(&self, other: &Idd<U>) -> (r: bool) {
        *self == other.id
    }
}

/// An identifier equals a value with its identifier where the identifiers
/// are equal.
impl<U> vstd::std_specs::cmp::PartialEqSpecImpl<Idd<U>> for Id {
    open spec fn obeys_eq_spec() -> bool {
        true
    }

    open spec fn eq_spec(&self, other: &Idd<U>) -> bool {
        self@ == other.id@
    }
}

impl<T> PartialEq<Id> for Idd<T> {
    fn eq(&self, other: &Id) -> (r: bool) {
        self.id == *other
    }
}

/// A value with its identifier equals an identifier where the identifiers
/// are equal.
impl<T> vstd::std_specs::cmp::PartialEqSpecImpl<Id> for Idd<T> {
    open spec fn obeys_eq_spec() -> bool {
        true
    }

    open spec fn eq_spec(&self, other: &Id) -> bool {
        self.id@ == other@
    }
}

impl<T> From<(Id, T)> for Idd<T> {
    fn from(value: (Id, T)) -> (r: Self) {
        Idd::new(value.0, value.1)
    }
}

/// The pair of an identifier and a value makes the value with that
/// identifier.
impl<T> vstd::std_specs::convert::FromSpecImpl<(Id, T)> for Idd<T> {
    open spec fn obeys_from_spec() -> bool {
        true
    }

    open spec fn from_spec(value: (Id, T)) -> Self {
        Idd { id: value.0, value: value.1 }
    }
}

impl<T> From<Idd<T>> for (Id, T) {
    fn from(value: Idd<T>) -> (r: Self) {
        value.into_inner()
    }
}

/// A value with its identifier gives the pair of the two.
impl<T> vstd::std_specs::convert::FromSpecImpl<Idd<T>> for (Id, T) {
    open spec fn obeys_from_spec() -> bool {
        true
    }

    open spec fn from_spec(value: Idd<T>) -> Self {
        (value.id, value.value)
    }
}

/// The pair that a value with its identifier gives makes that value with
/// its identifier again.
pub proof fn lemma_idd_pair<T>(x: Idd<T>)
    ensures
        <Idd<T> as vstd::std_specs::convert::FromSpec<(Id, T)>>::from_spec(
            <(Id, T) as vstd::std_specs::convert::FromSpec<Idd<T>>>::from_spec(x),
        ) == x,
{
}

} // verus!
