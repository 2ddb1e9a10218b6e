//! Authentication of stored bytes with a keyed tag.

use vstd::prelude::*;
use crate::id::{spec_padded, Id};
use crate::obj::key::Key;

verus! {

/// Number of bytes in a BLAKE3 tag.
pub const TAG_LEN: usize = 32;

/// A tag could not be made or did not match.
#[derive(Debug, Clone, Copy, PartialEq, Eq, Hash, Structural)]
pub enum VerifyError {
    /// The tag is not the tag of the bytes under the key.
    VerificationFailed,
}

/// Selects a tagging algorithm.
#[derive(Debug, Clone, Copy, PartialEq, Eq, Hash, Structural)]
pub enum VerifierParams {
    /// No tag is made, and every tag is accepted.
    Off,
    Blake3,
}

/// A tagging algorithm.
#[derive(Debug, Clone, Copy, PartialEq, Eq, Hash, Structural)]
pub enum Verifier {
    /// No tag is made, and every tag is accepted.
    Off,
    Blake3,
}

/// The 32 bytes of the BLAKE3 keyed hash of `input` under a 32-byte `key`.
pub uninterp spec fn blake3_keyed_hash(key: Seq<u8>, input: Seq<u8>) -> Seq<u8>;

/// Hashes with `blake3::keyed_hash`: the result is a function of the key and
/// the input.
#[verifier::external_body]
pub(crate) fn keyed_hash(key: &[u8; 32], input: &[u8]) -> (r: [u8; 32])
    ensures
        r@ == blake3_keyed_hash(key@, input@),
{
    *blake3::keyed_hash(key, input).as_bytes()
}

/// Compares two hashes with the `==` of `blake3::Hash`, which takes the same
/// time whatever the bytes are: true exactly where all 32 bytes agree.
#[verifier::external_body]
fn hash_eq(a: &[u8; 32], b: &[u8; 32]) -> (r: bool)
    ensures
        r == (a@ == b@),
{
    blake3::Hash::from_bytes(*a) == blake3::Hash::from_bytes(*b)
}

impl VerifierParams {
    pub open spec fn spec_create(self) -> Verifier {
        match self {
            VerifierParams::Off => Verifier::Off,
            VerifierParams::Blake3 => Verifier::Blake3,
        }
    }

    /// The algorithm that these parameters select.
    pub fn create(&self) -> (r: Verifier)
        ensures
            r == self.spec_create(),
    {
        match self {
            VerifierParams::Off => Verifier::Off,
            VerifierParams::Blake3 => Verifier::Blake3,
        }
    }
}

impl Verifier {
    /// The tag of `bytes` under `key`: the keyed hash under the key cut or
    /// padded to 32 bytes, or nothing.
    pub open spec fn spec_tag(self, key: Seq<u8>, bytes: Seq<u8>) -> Seq<u8> {
        match self {
            Verifier::Off => Seq::empty(),
            Verifier::Blake3 => blake3_keyed_hash(spec_padded(key), bytes),
        }
    }

    /// Whether `tag` is accepted for `bytes` under `key`: it is the tag, byte
    /// for byte.
    pub open spec fn spec_verifies(self, key: Seq<u8>, tag: Seq<u8>, bytes: Seq<u8>) -> bool {
        match self {
            Verifier::Off => true,
            Verifier::Blake3 => tag == blake3_keyed_hash(spec_padded(key), bytes),
        }
    }

    /// The tag of `bytes` under the raw key `key`.
    pub fn tag_bytes(&self, key: &[u8], bytes: &[u8]) -> (r: Result<Vec<u8>, VerifyError>)
        ensures
            r matches Ok(tag) && tag@ == self.spec_tag(key@, bytes@),
            r matches Ok(tag) && self.spec_verifies(key@, tag@, bytes@),
    {
        match self {
            Verifier::Off => Ok(Vec::new()),
            Verifier::Blake3 => {
                let mut padded = Id::from_bytes(key);
                let hash = keyed_hash(&padded.0, bytes);
                crate::secret::wipe_key(&mut padded.0);
                Ok(crate::process::compress::copy_bytes(&hash))
            },
        }
    }

    /// Checks `tag` against `bytes` under the raw key `key`.
    pub fn verify_bytes(&self, key: &[u8], tag: &[u8], bytes: &[u8]) -> (r: Result<
        (),
        VerifyError,
    >)
        ensures
            r is Ok <==> self.spec_verifies(key@, tag@, bytes@),
            r matches Err(e) ==> e == VerifyError::VerificationFailed,
    {
        match self {
            Verifier::Off => Ok(()),
            Verifier::Blake3 => {
                let mut padded = Id::from_bytes(key);
                let hash = keyed_hash(&padded.0, bytes);
                crate::secret::wipe_key(&mut padded.0);
                if tag.len() != TAG_LEN {
                    return Err(VerifyError::VerificationFailed);
                }
                let given = Id::from_bytes(tag);
                assert(given@ =~= tag@);
                if hash_eq(&hash, &given.0) {
                    Ok(())
                } else {
                    Err(VerifyError::VerificationFailed)
                }
            },
        }
    }

    /// The tag of `bytes` under the verify key of `key`.
    pub fn tag(&self, key: &Key, bytes: &[u8]) -> (r: Result<Vec<u8>, VerifyError>)
        ensures
            r matches Ok(tag) && tag@ == self.spec_tag(key.spec_bytes().spec_verify_key(), bytes@),
    {
        self.tag_bytes(key.bytes().verify_key(), bytes)
    }

    /// Checks `tag` against `bytes` under the verify key of `key`.
    pub fn verify(&self, key: &Key, tag: &[u8], bytes: &[u8]) -> (r: Result<(), VerifyError>)
        ensures
            r is Ok <==> self.spec_verifies(key.spec_bytes().spec_verify_key(), tag@, bytes@),
            r matches Err(e) ==> e == VerifyError::VerificationFailed,
    {
        self.verify_bytes(key.bytes().verify_key(), tag, bytes)
    }

    /// The number under which this algorithm is stored.
    pub open spec fn spec_code(self) -> u64 {
        match self {
            Verifier::Off => 0,
            Verifier::Blake3 => 1,
        }
    }

    /// The algorithm stored under `code`.
    pub open spec fn spec_from_code(code: u64) -> Option<Verifier> {
        if code == 0 {
            Some(Verifier::Off)
        } else if code == 1 {
            Some(Verifier::Blake3)
        } else {
            None
        }
    }

    pub fn code(&self) -> (r: u64)
        ensures
            r == self.spec_code(),
            Verifier::spec_from_code(r) == Some(*self),
    {
        match self {
            Verifier::Off => 0,
            Verifier::Blake3 => 1,
        }
    }

    pub fn from_code(code: u64) -> (r: Option<Verifier>)
        ensures
            r == Verifier::spec_from_code(code),
            r matches Some(v) ==> v.spec_code() == code,
    {
        if code == 0 {
            Some(Verifier::Off)
        } else if code == 1 {
            Some(Verifier::Blake3)
        } else {
            None
        }
    }
}


/// An algorithm that tags bytes under the verify key of a master key, and
/// checks tags.
pub trait Verify {
    fn tag(&self, key: &Key, bytes: &[u8]) -> Result<Vec<u8>, VerifyError>;

    fn verify(&self, key: &Key, tag: &[u8], bytes: &[u8]) -> Result<(), VerifyError>;
}

impl Verify for Verifier {
    fn tag(&self, key: &Key, bytes: &[u8]) -> (r: Result<Vec<u8>, VerifyError>)
        ensures
            r matches Ok(tag) && tag@ == self.spec_tag(key.spec_bytes().spec_verify_key(), bytes@),
    {
        Verifier::tag(self, key, bytes)
    }

    fn verify(&self, key: &Key, tag: &[u8], bytes: &[u8]) -> (r: Result<(), VerifyError>)
        ensures
            r is Ok <==> self.spec_verifies(key.spec_bytes().spec_verify_key(), tag@, bytes@),
            r matches Err(e) ==> e == VerifyError::VerificationFailed,
    {
        Verifier::verify(self, key, tag, bytes)
    }
}

impl crate::process::Instanciate for VerifierParams {
    type Instance = Verifier;

    fn create(&self) -> (r: Verifier)
        ensures
            r == self.spec_create(),
    {
        VerifierParams::create(self)
    }
}


impl VerifyError {
    pub open spec fn spec_message(self) -> Seq<char> {
        "Failed to verify data"@
    }

    /// What went wrong, in words.
    pub fn message(&self) -> (r: &'static str)
        ensures
            r@ == self.spec_message(),
    {
        "Failed to verify data"
    }
}

impl Verifier {
    pub open spec fn spec_name(self) -> Seq<char> {
        match self {
            Verifier::Off => "None"@,
            Verifier::Blake3 => "Blake3"@,
        }
    }

    /// The name of the algorithm.
    pub fn name(&self) -> (r: &'static str)
        ensures
            r@ == self.spec_name(),
    {
        match self {
            Verifier::Off => "None",
            Verifier::Blake3 => "Blake3",
        }
    }
}

} // verus!
