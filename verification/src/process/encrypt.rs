//! Encryption of chunk bytes with a stream cipher and a nonce per object.

use vstd::prelude::*;
use chacha20::cipher::{KeyIvInit, StreamCipher};
use crate::id::{spec_padded, Id};
use crate::obj::key::Key;
use crate::process::compress::copy_bytes;

verus! {

/// Number of bytes in a ChaCha20 nonce.
pub const NONCE_LEN: usize = 12;

/// The most bytes that one ChaCha20 key stream covers: its block counter
/// has 32 bits, and a block has 64 bytes.
pub const CHACHA20_MAX_LEN: u64 = 274_877_906_880;

/// Bytes could not be encrypted.
#[derive(Debug, Clone, Copy, PartialEq, Eq, Hash, Structural)]
pub enum EncryptError {
    /// The bytes are more than one key stream covers.
    TooLong,
}

/// Selects an encryption algorithm.
#[derive(Debug, Clone, Copy, PartialEq, Eq, Hash, Structural)]
pub enum EncryptionParams {
    /// Bytes are stored as they are.
    Off,
    ChaCha20,
}

/// An encryption algorithm with what it needs besides the key. It is stored
/// with the encrypted bytes.
#[derive(Debug, Clone, Copy, PartialEq, Eq, Hash)]
pub enum Encryption {
    /// Bytes are stored as they are.
    Off,
    /// ChaCha20 with the nonce `iv`.
    ChaCha20 { iv: [u8; 12] },
}

/// What an [`Encryption`] holds.
pub enum EncryptionView {
    Off,
    ChaCha20 { iv: Seq<u8> },
}

impl View for Encryption {
    type V = EncryptionView;

    open spec fn view(&self) -> EncryptionView {
        match self {
            Encryption::Off => EncryptionView::Off,
            Encryption::ChaCha20 { iv } => EncryptionView::ChaCha20 { iv: iv@ },
        }
    }
}

/// The first `len` bytes of the ChaCha20 key stream for a 32-byte key and a
/// 12-byte nonce.
pub uninterp spec fn chacha20_keystream(key: Seq<u8>, iv: Seq<u8>, len: nat) -> Seq<u8>;

/// `data` with each byte combined by exclusive or with the byte of `stream`
/// at its place.
pub open spec fn spec_xor(data: Seq<u8>, stream: Seq<u8>) -> Seq<u8> {
    Seq::new(data.len(), |i: int| data[i] ^ stream[i])
}

/// Applies the key stream of `chacha20::ChaCha20` to a copy of `bytes` with
/// `try_apply_keystream`, on a cipher made anew from the key and the nonce.
/// The cipher combines each byte with a byte of its key stream by exclusive
/// or, and refuses input of more than 2^32 - 1 blocks of 64 bytes.
#[verifier::external_body]
fn chacha20_apply(key: &[u8; 32], iv: &[u8; 12], bytes: &[u8]) -> (r: Option<Vec<u8>>)
    ensures
        r is Some <==> bytes@.len() <= CHACHA20_MAX_LEN,
        r matches Some(out) ==> out@ == spec_xor(
            bytes@,
            chacha20_keystream(key@, iv@, bytes@.len()),
        ),
{
    let mut cipher = chacha20::ChaCha20::new(key.into(), iv.into());
    let mut out = bytes.to_vec();
    match cipher.try_apply_keystream(&mut out) {
        Ok(()) => Some(out),
        Err(_) => None,
    }
}

impl EncryptionParams {
    /// The algorithm that these parameters select, with a fresh random nonce
    /// where it takes one.
    pub fn create(&self) -> (r: Encryption)
        ensures
            *self == EncryptionParams::Off <==> r == Encryption::Off,
            exists|iv: [u8; 12]| r == #[trigger] self.spec_with_nonce(iv),
    {
        match self {
            EncryptionParams::Off => {
                proof {
                    let any: [u8; 12] = vstd::pervasive::arbitrary();
                    assert(Encryption::Off == self.spec_with_nonce(any));
                }
                Encryption::Off
            },
            EncryptionParams::ChaCha20 => {
                let r = Encryption::new_chacha20();
                assert(r == self.spec_with_nonce(r->iv));
                r
            },
        }
    }

    /// The algorithm that these parameters select, with the nonce `iv` where
    /// it takes one.
    pub fn with_nonce(&self, iv: [u8; 12]) -> (r: Encryption)
        ensures
            r == self.spec_with_nonce(iv),
    {
        match self {
            EncryptionParams::Off => Encryption::Off,
            EncryptionParams::ChaCha20 => Encryption::ChaCha20 { iv },
        }
    }

    pub open spec fn spec_with_nonce(self, iv: [u8; 12]) -> Encryption {
        match self {
            EncryptionParams::Off => Encryption::Off,
            EncryptionParams::ChaCha20 => Encryption::ChaCha20 { iv },
        }
    }
}

/// Twelve bytes of `bytes` as a nonce.
pub fn nonce_from(bytes: &[u8]) -> (iv: [u8; 12])
    requires
        bytes@.len() == NONCE_LEN,
    ensures
        iv@ == bytes@,
{
    let mut iv: [u8; 12] = [0u8; 12];
    let mut i: usize = 0;
    while i < NONCE_LEN
        invariant
            i <= NONCE_LEN,
            bytes@.len() == NONCE_LEN,
            forall|j: int| 0 <= j < i ==> iv@[j] == bytes@[j],
        decreases NONCE_LEN - i,
    {
        iv[i] = bytes[i];
        i = i + 1;
    }
    assert(iv@ =~= bytes@);
    iv
}

impl Encryption {
    /// ChaCha20 with a fresh random nonce.
    pub fn new_chacha20() -> (r: Self)
        ensures
            r is ChaCha20,
    {
        let random = crate::secret::random_bytes(NONCE_LEN);
        Encryption::ChaCha20 { iv: nonce_from(random.as_slice()) }
    }

    pub open spec fn spec_key_length(self) -> u32 {
        match self {
            Encryption::Off => 16,
            Encryption::ChaCha20 { .. } => 32,
        }
    }

    /// The number of key bytes that the algorithm takes.
    pub fn key_length(&self) -> (r: u32)
        ensures
            r == self.spec_key_length(),
    {
        match self {
            Encryption::Off => 16,
            Encryption::ChaCha20 { .. } => 32,
        }
    }

    /// What encrypting `bytes` under the raw key `key` gives.
    pub open spec fn spec_encrypt_bytes(self, key: Seq<u8>, bytes: Seq<u8>) -> Option<Seq<u8>> {
        self@.spec_encrypt_bytes(key, bytes)
    }

    /// What decrypting `bytes` under the raw key `key` gives.
    pub open spec fn spec_decrypt_bytes(self, key: Seq<u8>, bytes: Seq<u8>) -> Option<Seq<u8>> {
        self@.spec_decrypt_bytes(key, bytes)
    }

    /// The number under which this algorithm is stored.
    pub fn code(&self) -> (r: u64)
        ensures
            r == self@.spec_code(),
    {
        match self {
            Encryption::Off => 0,
            Encryption::ChaCha20 { .. } => 1,
        }
    }

    /// Encrypts `bytes` under the raw key `key`.
    pub fn encrypt_bytes(&self, key: &[u8], bytes: &[u8]) -> (r: Result<Vec<u8>, EncryptError>)
        ensures
            match self.spec_encrypt_bytes(key@, bytes@) {
                Some(out) => r matches Ok(v) && v@ == out,
                None => r == Err::<Vec<u8>, EncryptError>(EncryptError::TooLong),
            },
    {
        match self {
            Encryption::Off => Ok(copy_bytes(bytes)),
            Encryption::ChaCha20 { iv } => {
                let mut padded = Id::from_bytes(key);
                let applied = chacha20_apply(&padded.0, iv, bytes);
                crate::secret::wipe_key(&mut padded.0);
                match applied {
                    Some(out) => Ok(out),
                    None => Err(EncryptError::TooLong),
                }
            },
        }
    }

    /// Decrypts `bytes` under the raw key `key`.
    pub fn decrypt_bytes(&self, key: &[u8], bytes: &[u8]) -> (r: Result<Vec<u8>, EncryptError>)
        ensures
            match self.spec_decrypt_bytes(key@, bytes@) {
                Some(out) => r matches Ok(v) && v@ == out,
                None => r == Err::<Vec<u8>, EncryptError>(EncryptError::TooLong),
            },
    {
        self.encrypt_bytes(key, bytes)
    }

    /// Encrypts `bytes` under the encrypt key of `key`.
    pub fn encrypt(&self, key: &Key, bytes: &[u8]) -> (r: Result<Vec<u8>, EncryptError>)
        ensures
            match self.spec_encrypt_bytes(key.spec_bytes().spec_encrypt_key(), bytes@) {
                Some(out) => r matches Ok(v) && v@ == out,
                None => r == Err::<Vec<u8>, EncryptError>(EncryptError::TooLong),
            },
    {
        self.encrypt_bytes(key.bytes().encrypt_key(), bytes)
    }

    /// Decrypts `bytes` under the encrypt key of `key`.
    pub fn decrypt(&self, key: &Key, bytes: &[u8]) -> (r: Result<Vec<u8>, EncryptError>)
        ensures
            match self.spec_decrypt_bytes(key.spec_bytes().spec_encrypt_key(), bytes@) {
                Some(out) => r matches Ok(v) && v@ == out,
                None => r == Err::<Vec<u8>, EncryptError>(EncryptError::TooLong),
            },
    {
        self.decrypt_bytes(key.bytes().encrypt_key(), bytes)
    }
}

impl EncryptionView {
    /// What encrypting `bytes` under the raw key `key` gives: the bytes
    /// combined with the key stream for the key cut or padded to 32 bytes.
    /// `None` where the bytes are more than one key stream covers.
    pub open spec fn spec_encrypt_bytes(self, key: Seq<u8>, bytes: Seq<u8>) -> Option<Seq<u8>> {
        match self {
            EncryptionView::Off => Some(bytes),
            EncryptionView::ChaCha20 { iv } => if bytes.len() <= CHACHA20_MAX_LEN {
                Some(spec_xor(bytes, chacha20_keystream(spec_padded(key), iv, bytes.len())))
            } else {
                None
            },
        }
    }

    /// What decrypting gives: a stream cipher decrypts as it encrypts.
    pub open spec fn spec_decrypt_bytes(self, key: Seq<u8>, bytes: Seq<u8>) -> Option<Seq<u8>> {
        self.spec_encrypt_bytes(key, bytes)
    }

    /// The number under which the algorithm is stored.
    pub open spec fn spec_code(self) -> u64 {
        match self {
            EncryptionView::Off => 0,
            EncryptionView::ChaCha20 { .. } => 1,
        }
    }
}

/// Decryption undoes encryption: what was encrypted under a key decrypts
/// under the same key to the bytes that went in.
pub proof fn lemma_decrypt_encrypt(e: EncryptionView, key: Seq<u8>, bytes: Seq<u8>)
    requires
        e.spec_encrypt_bytes(key, bytes) is Some,
    ensures
        e.spec_decrypt_bytes(key, e.spec_encrypt_bytes(key, bytes)->0) == Some(bytes),
{
    match e {
        EncryptionView::Off => {},
        EncryptionView::ChaCha20 { iv } => {
            let stream = chacha20_keystream(spec_padded(key), iv, bytes.len());
            let out = spec_xor(bytes, stream);
            assert(out.len() == bytes.len());
            assert forall|i: int| 0 <= i < bytes.len() implies (#[trigger] out[i]) ^ stream[i]
                == bytes[i] by {
                let b: u8 = bytes[i];
                let s: u8 = stream[i];
                assert((b ^ s) ^ s == b) by (bit_vector);
            }
            assert(spec_xor(out, stream) =~= bytes);
        },
    }
}


/// An algorithm that encrypts under the encrypt key of a master key, and
/// undoes it.
pub trait Encrypt {
    fn encrypt(&self, key: &Key, bytes: &[u8]) -> Result<Vec<u8>, EncryptError>;

    fn decrypt(&self, key: &Key, bytes: &[u8]) -> Result<Vec<u8>, EncryptError>;
}

impl Encrypt for Encryption {
    fn encrypt(&self, key: &Key, bytes: &[u8]) -> (r: Result<Vec<u8>, EncryptError>)
        ensures
            match self.spec_encrypt_bytes(key.spec_bytes().spec_encrypt_key(), bytes@) {
                Some(out) => r matches Ok(v) && v@ == out,
                None => r == Err::<Vec<u8>, EncryptError>(EncryptError::TooLong),
            },
    {
        Encryption::encrypt(self, key, bytes)
    }

    fn decrypt(&self, key: &Key, bytes: &[u8]) -> (r: Result<Vec<u8>, EncryptError>)
        ensures
            match self.spec_decrypt_bytes(key.spec_bytes().spec_encrypt_key(), bytes@) {
                Some(out) => r matches Ok(v) && v@ == out,
                None => r == Err::<Vec<u8>, EncryptError>(EncryptError::TooLong),
            },
    {
        Encryption::decrypt(self, key, bytes)
    }
}

impl crate::process::Instanciate for EncryptionParams {
    type Instance = Encryption;

    fn create(&self) -> (r: Encryption)
        ensures
            *self == EncryptionParams::Off <==> r == Encryption::Off,
            exists|iv: [u8; 12]| r == #[trigger] self.spec_with_nonce(iv),
    {
        EncryptionParams::create(self)
    }
}


impl EncryptError {
    pub open spec fn spec_message(self) -> Seq<char> {
        "Encryption(chacha20) cannot take so many bytes"@
    }

    /// What went wrong, in words.
    pub fn message(&self) -> (r: &'static str)
        ensures
            r@ == self.spec_message(),
    {
        "Encryption(chacha20) cannot take so many bytes"
    }
}

impl Encryption {
    pub open spec fn spec_name(self) -> Seq<char> {
        match self {
            Encryption::Off => "None"@,
            Encryption::ChaCha20 { .. } => "ChaCha20"@,
        }
    }

    /// The name of the algorithm.
    pub fn name(&self) -> (r: &'static str)
        ensures
            r@ == self.spec_name(),
    {
        match self {
            Encryption::Off => "None",
            Encryption::ChaCha20 { .. } => "ChaCha20",
        }
    }
}

} // verus!
