//! The master key of a repository, and the form in which it is stored.

use vstd::prelude::*;
use crate::id::{spec_ascii_chars, spec_hex, Id};
use crate::obj::chunk::write_record;
use crate::obj::record::{
    bytes_field, put_time, put_user, read_bytes, read_time, read_u32, read_u64, read_user,
    spec_is_time_fields, spec_is_u32, spec_is_user_fields, spec_time_fields, spec_user_fields,
};
use crate::obj::{ObjectKind, RepoObject};
use crate::os::{Timestamp, User};
use crate::process::compress::copy_bytes;
use crate::process::encrypt::{
    lemma_decrypt_encrypt, nonce_from, EncryptError, Encryption, EncryptionView,
    CHACHA20_MAX_LEN, NONCE_LEN,
};
use crate::process::format::{
    lemma_record_roundtrip, spec_parse_record, spec_record, spec_views, Field, FieldView,
    Formatter,
};

verus! {

/// The key material: four independent keys, one for each use.
#[derive(Debug, PartialEq, Eq)]
pub struct KeyBytes {
    encrypt_key: Vec<u8>,
    verify_key: Vec<u8>,
    identify_key: Vec<u8>,
    chunk_key: Vec<u8>,
}

/// How many of the first `n` positions fall on `lane`, where the positions
/// are dealt out to four lanes in turn.
pub open spec fn spec_lane_len(n: int, lane: int) -> int {
    (n + 3 - lane) / 4
}

/// The bytes of `bytes` at the positions that leave `lane` when divided by
/// four, in order.
pub open spec fn spec_lane(bytes: Seq<u8>, lane: int) -> Seq<u8> {
    Seq::new(spec_lane_len(bytes.len() as int, lane) as nat, |i: int| bytes[4 * i + lane])
}

impl KeyBytes {
    pub closed spec fn spec_encrypt_key(&self) -> Seq<u8> {
        self.encrypt_key@
    }

    pub closed spec fn spec_verify_key(&self) -> Seq<u8> {
        self.verify_key@
    }

    pub closed spec fn spec_identify_key(&self) -> Seq<u8> {
        self.identify_key@
    }

    pub closed spec fn spec_chunk_key(&self) -> Seq<u8> {
        self.chunk_key@
    }

    /// Whether two keys hold the same bytes.
    pub open spec fn spec_same(&self, other: &KeyBytes) -> bool {
        &&& self.spec_encrypt_key() == other.spec_encrypt_key()
        &&& self.spec_verify_key() == other.spec_verify_key()
        &&& self.spec_identify_key() == other.spec_identify_key()
        &&& self.spec_chunk_key() == other.spec_chunk_key()
    }

    /// Deals `bytes` out to the four keys in turn: the first byte to the
    /// encrypt key, the second to the verify key, the third to the identify
    /// key, the fourth to the chunk key, the fifth to the encrypt key again.
    /// Each key must get 16 bytes or more.
    pub fn from_bytes(bytes: &[u8]) -> (r: Self)
        requires
            bytes@.len() / 4 >= 16,
        ensures
            r.spec_encrypt_key() == spec_lane(bytes@, 0),
            r.spec_verify_key() == spec_lane(bytes@, 1),
            r.spec_identify_key() == spec_lane(bytes@, 2),
            r.spec_chunk_key() == spec_lane(bytes@, 3),
            r.spec_encrypt_key().len() >= 16,
            r.spec_verify_key().len() >= 16,
            r.spec_identify_key().len() >= 16,
            r.spec_chunk_key().len() >= 16,
    {
        let mut buf1: Vec<u8> = Vec::new();
        let mut buf2: Vec<u8> = Vec::new();
        let mut buf3: Vec<u8> = Vec::new();
        let mut buf4: Vec<u8> = Vec::new();
        let mut i: usize = 0;
        while i < bytes.len()
            invariant
                i <= bytes@.len(),
                buf1@.len() == spec_lane_len(i as int, 0),
                buf2@.len() == spec_lane_len(i as int, 1),
                buf3@.len() == spec_lane_len(i as int, 2),
                buf4@.len() == spec_lane_len(i as int, 3),
                forall|j: int| 0 <= j < buf1@.len() ==> buf1@[j] == bytes@[4 * j],
                forall|j: int| 0 <= j < buf2@.len() ==> buf2@[j] == bytes@[4 * j + 1],
                forall|j: int| 0 <= j < buf3@.len() ==> buf3@[j] == bytes@[4 * j + 2],
                forall|j: int| 0 <= j < buf4@.len() ==> buf4@[j] == bytes@[4 * j + 3],
            decreases bytes@.len() - i,
        {
            let b: u8 = bytes[i];
            let lane: usize = i % 4;
            if lane == 0 {
                buf1.push(b);
            } else if lane == 1 {
                buf2.push(b);
            } else if lane == 2 {
                buf3.push(b);
            } else {
                buf4.push(b);
            }
            i = i + 1;
        }
        assert(buf1@ =~= spec_lane(bytes@, 0));
        assert(buf2@ =~= spec_lane(bytes@, 1));
        assert(buf3@ =~= spec_lane(bytes@, 2));
        assert(buf4@ =~= spec_lane(bytes@, 3));
        Self { encrypt_key: buf1, verify_key: buf2, identify_key: buf3, chunk_key: buf4 }
    }

    /// Key material made of the four given keys.
    pub fn from_parts(
        encrypt_key: Vec<u8>,
        verify_key: Vec<u8>,
        identify_key: Vec<u8>,
        chunk_key: Vec<u8>,
    ) -> (r: Self)
        ensures
            r.spec_encrypt_key() == encrypt_key@,
            r.spec_verify_key() == verify_key@,
            r.spec_identify_key() == identify_key@,
            r.spec_chunk_key() == chunk_key@,
    {
        Self { encrypt_key, verify_key, identify_key, chunk_key }
    }

    /// Fresh key material: four keys of `len` random bytes each.
    pub fn random(len: usize) -> (r: KeyBytes)
        ensures
            r.spec_encrypt_key().len() == len,
            r.spec_verify_key().len() == len,
            r.spec_identify_key().len() == len,
            r.spec_chunk_key().len() == len,
    {
        let buf1 = crate::secret::random_bytes(len);
        let buf2 = crate::secret::random_bytes(len);
        let buf3 = crate::secret::random_bytes(len);
        let buf4 = crate::secret::random_bytes(len);
        Self { encrypt_key: buf1, verify_key: buf2, identify_key: buf3, chunk_key: buf4 }
    }

    pub fn encrypt_key(&self) -> (r: &[u8])
        ensures
            r@ == self.spec_encrypt_key(),
    {
        self.encrypt_key.as_slice()
    }

    pub fn verify_key(&self) -> (r: &[u8])
        ensures
            r@ == self.spec_verify_key(),
    {
        self.verify_key.as_slice()
    }

    pub fn identify_key(&self) -> (r: &[u8])
        ensures
            r@ == self.spec_identify_key(),
    {
        self.identify_key.as_slice()
    }

    pub fn chunk_key(&self) -> (r: &[u8])
        ensures
            r@ == self.spec_chunk_key(),
    {
        self.chunk_key.as_slice()
    }

    /// A copy of the key material.
    pub fn duplicate(&self) -> (r: Self)
        ensures
            r.spec_same(self),
    {
        Self {
            encrypt_key: copy_bytes(self.encrypt_key.as_slice()),
            verify_key: copy_bytes(self.verify_key.as_slice()),
            identify_key: copy_bytes(self.identify_key.as_slice()),
            chunk_key: copy_bytes(self.chunk_key.as_slice()),
        }
    }

    /// Overwrites the key material with zeros and leaves four empty keys.
    pub fn zeroize(&mut self)
        ensures
            final(self).spec_encrypt_key().len() == 0,
            final(self).spec_verify_key().len() == 0,
            final(self).spec_identify_key().len() == 0,
            final(self).spec_chunk_key().len() == 0,
    {
        crate::secret::wipe(&mut self.encrypt_key);
        crate::secret::wipe(&mut self.verify_key);
        crate::secret::wipe(&mut self.identify_key);
        crate::secret::wipe(&mut self.chunk_key);
    }
}

impl Drop for KeyBytes {
    /// Overwrites the key material with zeros before the memory is given
    /// back.
    fn drop(&mut self)
        opens_invariants none
        no_unwind
    {
        crate::secret::wipe(&mut self.encrypt_key);
        crate::secret::wipe(&mut self.verify_key);
        crate::secret::wipe(&mut self.identify_key);
        crate::secret::wipe(&mut self.chunk_key);
    }
}

/// Who made a key, and when.
#[derive(Debug, Clone, PartialEq, Eq)]
pub struct KeyMeta {
    pub user: User,
    pub created: Timestamp,
}

impl KeyMeta {
    pub fn new(user: User, created: Timestamp) -> (r: Self)
        ensures
            r.user == user,
            r.created == created,
    {
        Self { user, created }
    }
}

/// The master key of a repository. It is made once, when the repository is,
/// and never changes.
#[derive(Debug, PartialEq, Eq)]
pub struct Key {
    meta: KeyMeta,
    bytes: KeyBytes,
}

impl Key {
    pub closed spec fn spec_bytes(&self) -> KeyBytes {
        self.bytes
    }

    pub closed spec fn spec_meta(&self) -> KeyMeta {
        self.meta
    }

    /// A fresh key: 32 random bytes for each of the four uses.
    pub fn random(meta: KeyMeta) -> (r: Self)
        ensures
            r.spec_meta() == meta,
            r.spec_bytes().spec_encrypt_key().len() == 32,
            r.spec_bytes().spec_verify_key().len() == 32,
            r.spec_bytes().spec_identify_key().len() == 32,
            r.spec_bytes().spec_chunk_key().len() == 32,
    {
        Self { meta, bytes: KeyBytes::random(32) }
    }

    /// A key of the given parts.
    pub fn from_parts(meta: KeyMeta, bytes: KeyBytes) -> (r: Self)
        ensures
            r.spec_meta() == meta,
            r.spec_bytes() == bytes,
    {
        Self { meta, bytes }
    }

    pub fn bytes(&self) -> (r: &KeyBytes)
        ensures
            *r == self.spec_bytes(),
    {
        &self.bytes
    }

    pub fn meta(&self) -> (r: &KeyMeta)
        ensures
            *r == self.spec_meta(),
    {
        &self.meta
    }

    /// Overwrites the key material with zeros.
    pub fn zeroize(&mut self)
        ensures
            final(self).spec_meta() == old(self).spec_meta(),
            final(self).spec_bytes().spec_encrypt_key().len() == 0,
            final(self).spec_bytes().spec_verify_key().len() == 0,
            final(self).spec_bytes().spec_identify_key().len() == 0,
            final(self).spec_bytes().spec_chunk_key().len() == 0,
    {
        self.bytes.zeroize();
    }
}


impl Key {
    /// The eleven fields of a key: the user, the time, and the four keys.
    pub closed spec fn spec_key_fields(&self) -> Seq<FieldView> {
        spec_user_fields(self.meta.user) + spec_time_fields(self.meta.created) + seq![
            FieldView::Bytes(self.bytes.encrypt_key@),
            FieldView::Bytes(self.bytes.verify_key@),
            FieldView::Bytes(self.bytes.identify_key@),
            FieldView::Bytes(self.bytes.chunk_key@),
        ]
    }

    /// The four keys stand at the end of the fields of a key.
    proof fn lemma_key_fields(&self)
        ensures
            self.spec_key_fields().len() == 11,
            self.spec_key_fields()[7] == FieldView::Bytes(self.bytes.encrypt_key@),
            self.spec_key_fields()[8] == FieldView::Bytes(self.bytes.verify_key@),
            self.spec_key_fields()[9] == FieldView::Bytes(self.bytes.identify_key@),
            self.spec_key_fields()[10] == FieldView::Bytes(self.bytes.chunk_key@),
    {
        let u = spec_user_fields(self.meta.user);
        let t = spec_time_fields(self.meta.created);
        assert(u.len() == 5);
        assert(t.len() == 2);
        assert((u + t).len() == 7);
    }

    /// Keys with the same fields hold the same key material.
    pub proof fn lemma_same_fields(&self, other: &Key)
        requires
            self.spec_key_fields() == other.spec_key_fields(),
        ensures
            self.spec_bytes().spec_same(&other.spec_bytes()),
    {
        self.lemma_key_fields();
        other.lemma_key_fields();
    }

    /// A copy of the key.
    pub fn duplicate(&self) -> (r: Self)
        ensures
            r.spec_key_fields() == self.spec_key_fields(),
            r.spec_bytes().spec_same(&self.spec_bytes()),
    {
        let fields = self.to_fields();
        proof {
            self.lemma_fields_valid();
        }
        match Key::from_fields(&fields) {
            Some(key) => {
                proof {
                    key.lemma_same_fields(self);
                }
                key
            },
            None => vstd::pervasive::unreached(),
        }
    }

    /// Wraps the key for storage: see [`EncryptedKey::encrypt`].
    pub fn encrypt(&self, opts: EncryptOptions, encryption: Encryption, user_key: &[u8]) -> (r:
        Result<EncryptedKey, KeyError>)
        ensures
            r matches Ok(wrapped) ==> wrapped.spec_opts() == opts && wrapped.spec_encryption()
                == encryption@ && wrapped.spec_unwrap(user_key@) == Ok::<Seq<FieldView>, KeyError>(
                self.spec_key_fields(),
            ),
            exists|salt: Seq<u8>|
                salt.len() == 32 && match #[trigger] spec_wrap(
                    self.spec_key_fields(),
                    opts,
                    encryption@,
                    salt,
                    user_key@,
                ) {
                    Ok(cipher) => r matches Ok(wrapped) && wrapped.spec_encrypted_bytes() == cipher
                        && wrapped.spec_salt() == salt,
                    Err(e) => r == Err::<EncryptedKey, KeyError>(e),
                },
            r == Err::<EncryptedKey, KeyError>(KeyError::Encrypt(EncryptError::TooLong))
                ==> encryption is ChaCha20 && spec_record(self.spec_key_fields()).len()
                > CHACHA20_MAX_LEN,
    {
        EncryptedKey::encrypt(self, opts, encryption, user_key)
    }
}

/// Whether fields are those of a key.
pub open spec fn spec_is_key_fields(fs: Seq<FieldView>) -> bool {
    &&& fs.len() == 11
    &&& spec_is_user_fields(fs, 0)
    &&& spec_is_time_fields(fs, 5)
    &&& fs[7] is Bytes
    &&& fs[8] is Bytes
    &&& fs[9] is Bytes
    &&& fs[10] is Bytes
}

impl RepoObject for Key {
    closed spec fn spec_fields(&self) -> Seq<FieldView> {
        self.spec_key_fields()
    }

    open spec fn spec_is_fields(fs: Seq<FieldView>) -> bool {
        spec_is_key_fields(fs)
    }

    fn kind() -> (r: ObjectKind)
        ensures
            r == ObjectKind::Key,
    {
        ObjectKind::Key
    }

    fn to_fields(&self) -> (fields: Vec<Field>)
        ensures
            spec_views(fields@) == self.spec_key_fields(),
    {
        let mut fields: Vec<Field> = Vec::new();
        assert(spec_views(fields@) =~= Seq::<FieldView>::empty());
        put_user(&mut fields, &self.meta.user);
        put_time(&mut fields, &self.meta.created);
        fields.push(bytes_field(self.bytes.encrypt_key.as_slice()));
        fields.push(bytes_field(self.bytes.verify_key.as_slice()));
        fields.push(bytes_field(self.bytes.identify_key.as_slice()));
        fields.push(bytes_field(self.bytes.chunk_key.as_slice()));
        assert(spec_views(fields@) =~= self.spec_key_fields());
        fields
    }

    fn from_fields(fields: &Vec<Field>) -> (r: Option<Self>)
        ensures
            r matches Some(key) ==> key.spec_key_fields() == spec_views(fields@),
    {
        let ghost fs = spec_views(fields@);
        if fields.len() != 11 {
            return None;
        }
        let user = read_user(fields, 0);
        let created = read_time(fields, 5);
        let encrypt_key = read_bytes(&fields[7]);
        let verify_key = read_bytes(&fields[8]);
        let identify_key = read_bytes(&fields[9]);
        let chunk_key = read_bytes(&fields[10]);
        match (user, created, encrypt_key, verify_key, identify_key, chunk_key) {
            (
                Some(user),
                Some(created),
                Some(encrypt_key),
                Some(verify_key),
                Some(identify_key),
                Some(chunk_key),
            ) => {
                let key = Key {
                    meta: KeyMeta { user, created },
                    bytes: KeyBytes { encrypt_key, verify_key, identify_key, chunk_key },
                };
                proof {
                    let got = key.spec_key_fields();
                    assert(got.len() == 11);
                    assert forall|i: int| 0 <= i < 11 implies got[i] == fs[i] by {
                        if i < 5 {
                            assert(fs.subrange(0, 5)[i] == fs[i]);
                        } else if i < 7 {
                            assert(fs.subrange(5, 7)[i - 5] == fs[i]);
                        }
                    }
                    assert(got =~= fs);
                }
                Some(key)
            },
            _ => None,
        }
    }

    proof fn lemma_fields_valid(&self) {
        let fs = self.spec_key_fields();
        crate::obj::record::lemma_parts_valid(
            self.meta.user,
            self.meta.created,
            crate::obj::lock::LockAccess::Idle,
        );
        let u = spec_user_fields(self.meta.user);
        let t = spec_time_fields(self.meta.created);
        assert(fs.len() == 11);
        assert forall|i: int| 0 <= i < 5 implies fs[i] == u[i] by {}
        assert forall|i: int| 5 <= i < 7 implies fs[i] == t[i - 5] by {}
    }
}

/// The memory cost that a new key is wrapped with, in blocks of 1 KiB.
pub const DEFAULT_M_COST: u32 = 4096;

/// The number of passes that a new key is wrapped with.
pub const DEFAULT_T_COST: u32 = 3;

/// The number of lanes that a new key is wrapped with.
pub const DEFAULT_P_COST: u32 = 1;

/// The costs of deriving the wrapping key from a password with Argon2id.
#[derive(Debug, Clone, Copy, PartialEq, Eq, Structural)]
pub struct EncryptOptions {
    pub mem_cost: u32,
    pub time_cost: u32,
    pub parallel_cost: u32,
}

impl Default for EncryptOptions {
    fn default() -> (r: Self)
        ensures
            r == (EncryptOptions {
                mem_cost: DEFAULT_M_COST,
                time_cost: DEFAULT_T_COST,
                parallel_cost: DEFAULT_P_COST,
            }),
    {
        Self {
            mem_cost: DEFAULT_M_COST,
            time_cost: DEFAULT_T_COST,
            parallel_cost: DEFAULT_P_COST,
        }
    }
}

/// Why a key could not be wrapped or unwrapped.
#[derive(Debug, Clone, Copy, PartialEq, Eq, Hash, Structural)]
pub enum KeyError {
    /// No wrapping key could be derived: Argon2 refuses the costs, the
    /// length or the salt.
    Derive,
    /// The cipher refused the bytes.
    Encrypt(EncryptError),
    /// What the wrapping key unwraps is no key: the password is not the one
    /// that the key was wrapped with.
    PasswordMismatch,
    /// The stored bytes are no key as it is: the key is wrapped.
    Malformed,
}

/// The bytes that Argon2id, version 19, derives from a password: `len`
/// bytes of output for the given costs and the salt given as text; `None`
/// where it reports an error.
pub uninterp spec fn argon2id_derived(
    m_cost: u32,
    t_cost: u32,
    p_cost: u32,
    len: u32,
    salt: Seq<char>,
    password: Seq<u8>,
) -> Option<Seq<u8>>;

/// Derives a key with `argon2::Argon2::hash_password`, the algorithm
/// Argon2id in version 19 with the parameters of `argon2::Params::new`.
/// The result is a function of the arguments; the memory that the costs
/// ask for is allocated on the way.
#[verifier::external_body]
fn argon2id_derive(m: u32, t: u32, p: u32, len: u32, salt: &str, password: &[u8]) -> (r: Option<
    Vec<u8>,
>)
    ensures
        r is Some <==> argon2id_derived(m, t, p, len, salt@, password@) is Some,
        r matches Some(k) ==> argon2id_derived(m, t, p, len, salt@, password@) == Some(k@),
{
    let params = argon2::Params::new(m, t, p, Some(len as usize)).ok()?;
    let algo = argon2::Argon2::new(argon2::Algorithm::Argon2id, argon2::Version::V0x13, params);
    let hash = argon2::PasswordHasher::hash_password(&algo, password, salt).ok()?;
    match hash.hash {
        Some(output) => Some(output.as_bytes().to_vec()),
        None => None,
    }
}

/// A key wrapped for storage: the record of the key, encrypted under a key
/// that is derived from a password.
#[derive(Debug)]
pub struct EncryptedKey {
    encrypted_bytes: Vec<u8>,
    salt: [u8; 32],
    opts: EncryptOptions,
    encryption: Encryption,
}

/// Whether fields are those of a wrapped key.
pub open spec fn spec_is_encrypted_key_fields(fs: Seq<FieldView>) -> bool {
    &&& fs.len() == 7
    &&& fs[0] is Bytes
    &&& fs[1] matches FieldView::Bytes(salt) && salt.len() == 32
    &&& spec_is_u32(fs[2])
    &&& spec_is_u32(fs[3])
    &&& spec_is_u32(fs[4])
    &&& (fs[5] == FieldView::Uint(0) && fs[6] is Null) || (fs[5] == FieldView::Uint(1)
        && fs[6] is Bytes && fs[6]->Bytes_0.len() == NONCE_LEN)
}

impl EncryptedKey {
    pub closed spec fn spec_encrypted_bytes(&self) -> Seq<u8> {
        self.encrypted_bytes@
    }

    pub closed spec fn spec_salt(&self) -> Seq<u8> {
        self.salt@
    }

    pub closed spec fn spec_opts(&self) -> EncryptOptions {
        self.opts
    }

    pub closed spec fn spec_encryption(&self) -> EncryptionView {
        self.encryption@
    }

    /// What unwrapping with `user_key` gives: the fields of the key, or the
    /// error of the first step that fails.
    pub closed spec fn spec_unwrap(&self, user_key: Seq<u8>) -> Result<Seq<FieldView>, KeyError> {
        spec_unwrap_fields(self.spec_encrypted_key_fields(), user_key)
    }

    /// What reading the stored bytes as a key that is not wrapped gives.
    pub closed spec fn spec_unencrypted(&self) -> Result<Seq<FieldView>, KeyError> {
        spec_unencrypted_fields(self.spec_encrypted_key_fields())
    }

    /// Wraps `key` under a key that is derived from `user_key` and a fresh
    /// random salt: the result is that of [`EncryptedKey::encrypt_with`] for
    /// some salt. What comes out, `user_key` unwraps to `key`. The cipher
    /// refuses by the length of the record alone, whatever the salt.
    pub fn encrypt(key: &Key, opts: EncryptOptions, encryption: Encryption, user_key: &[u8]) -> (r:
        Result<Self, KeyError>)
        ensures
            r matches Ok(wrapped) ==> wrapped.spec_opts() == opts && wrapped.spec_encryption()
                == encryption@ && wrapped.spec_unwrap(user_key@) == Ok::<Seq<FieldView>, KeyError>(
                key.spec_key_fields(),
            ),
            exists|salt: Seq<u8>|
                salt.len() == 32 && match #[trigger] spec_wrap(
                    key.spec_key_fields(),
                    opts,
                    encryption@,
                    salt,
                    user_key@,
                ) {
                    Ok(cipher) => r matches Ok(wrapped) && wrapped.spec_encrypted_bytes() == cipher
                        && wrapped.spec_salt() == salt,
                    Err(e) => r == Err::<Self, KeyError>(e),
                },
            r == Err::<Self, KeyError>(KeyError::Encrypt(EncryptError::TooLong)) ==> encryption
                is ChaCha20 && spec_record(key.spec_key_fields()).len() > CHACHA20_MAX_LEN,
    {
        let random = crate::secret::random_bytes(32);
        let salt = Id::from_bytes(random.as_slice());
        Self::encrypt_with(key, opts, encryption, salt.0, user_key)
    }

    /// Wraps `key` under the key that is derived from `user_key` and
    /// `salt`. Fails with `Derive` exactly where no key can be derived, and
    /// with `TooLong` exactly where one can and the cipher refuses the
    /// record of the key. What comes out, `user_key` unwraps to `key`.
    #[verifier::rlimit(50)]
    pub fn encrypt_with(
        key: &Key,
        opts: EncryptOptions,
        encryption: Encryption,
        salt: [u8; 32],
        user_key: &[u8],
    ) -> (r: Result<Self, KeyError>)
        ensures
            match spec_wrap(key.spec_key_fields(), opts, encryption@, salt@, user_key@) {
                Ok(cipher) => r matches Ok(wrapped) && wrapped.spec_encrypted_bytes() == cipher
                    && wrapped.spec_opts() == opts && wrapped.spec_encryption() == encryption@
                    && wrapped.spec_salt() == salt@ && wrapped.spec_unwrap(user_key@) == Ok::<
                    Seq<FieldView>,
                    KeyError,
                >(key.spec_key_fields()),
                Err(e) => r == Err::<Self, KeyError>(e),
            },
    {
        let salt_hex = Id(salt).to_hex_lower();
        let wrap = match argon2id_derive(
            opts.mem_cost,
            opts.time_cost,
            opts.parallel_cost,
            encryption.key_length(),
            salt_hex.as_str(),
            user_key,
        ) {
            Some(wrap) => wrap,
            None => {
                return Err(KeyError::Derive);
            },
        };
        let fields = key.to_fields();
        let plain = write_record(&fields);
        let encrypted_bytes = match encryption.encrypt_bytes(wrap.as_slice(), plain.as_slice()) {
            Ok(bytes) => bytes,
            Err(e) => {
                wipe_two(wrap, plain);
                return Err(KeyError::Encrypt(e));
            },
        };
        proof {
            lemma_decrypt_encrypt(encryption@, wrap@, plain@);
            lemma_record_roundtrip(key.spec_key_fields());
            key.lemma_fields_valid();
        }
        wipe_two(wrap, plain);
        Ok(Self { encrypted_bytes, salt, opts, encryption })
    }

    /// Unwraps the key with `user_key`. Fails with `PasswordMismatch`
    /// exactly where the wrapping key can be derived and applied, and what
    /// it unwraps is no key.
    #[verifier::rlimit(50)]
    pub fn decrypt(&self, user_key: &[u8]) -> (r: Result<Key, KeyError>)
        ensures
            match self.spec_unwrap(user_key@) {
                Ok(fs) => r matches Ok(key) && key.spec_key_fields() == fs,
                Err(e) => r == Err::<Key, KeyError>(e),
            },
    {
        let salt_hex = Id(self.salt).to_hex_lower();
        let wrap = match argon2id_derive(
            self.opts.mem_cost,
            self.opts.time_cost,
            self.opts.parallel_cost,
            self.encryption.key_length(),
            salt_hex.as_str(),
            user_key,
        ) {
            Some(wrap) => wrap,
            None => {
                return Err(KeyError::Derive);
            },
        };
        let plain = match self.encryption.decrypt_bytes(
            wrap.as_slice(),
            self.encrypted_bytes.as_slice(),
        ) {
            Ok(bytes) => bytes,
            Err(e) => {
                wipe_two(wrap, Vec::new());
                return Err(KeyError::Encrypt(e));
            },
        };
        let parsed = Formatter::Cbor.parse(plain.as_slice());
        wipe_two(wrap, plain);
        match parsed {
            Ok(fields) => match Key::from_fields(&fields) {
                Some(key) => Ok(key),
                None => Err(KeyError::PasswordMismatch),
            },
            Err(_) => Err(KeyError::PasswordMismatch),
        }
    }

    /// Reads the stored bytes as a key that is not wrapped: for a
    /// repository that was made without a password and without encryption.
    pub fn try_unencrypted(&self) -> (r: Result<Key, KeyError>)
        ensures
            match self.spec_unencrypted() {
                Ok(fs) => r matches Ok(key) && key.spec_key_fields() == fs,
                Err(e) => r == Err::<Key, KeyError>(e),
            },
    {
        match Formatter::Cbor.parse(self.encrypted_bytes.as_slice()) {
            Ok(fields) => match Key::from_fields(&fields) {
                Some(key) => Ok(key),
                None => Err(KeyError::Malformed),
            },
            Err(_) => Err(KeyError::Malformed),
        }
    }

    /// The costs that the wrapping key is derived with.
    pub fn opts(&self) -> (r: EncryptOptions)
        ensures
            r == self.spec_opts(),
    {
        self.opts
    }

    /// The seven fields of a wrapped key: the wrapped bytes, the salt, the
    /// three costs, and the cipher with its nonce.
    pub closed spec fn spec_encrypted_key_fields(&self) -> Seq<FieldView> {
        seq![
            FieldView::Bytes(self.encrypted_bytes@),
            FieldView::Bytes(self.salt@),
            FieldView::Uint(self.opts.mem_cost as u64),
            FieldView::Uint(self.opts.time_cost as u64),
            FieldView::Uint(self.opts.parallel_cost as u64),
            FieldView::Uint(self.encryption@.spec_code()),
            match self.encryption@ {
                EncryptionView::Off => FieldView::Null,
                EncryptionView::ChaCha20 { iv } => FieldView::Bytes(iv),
            },
        ]
    }

    /// A wrapped key unwraps as its fields say.
    pub proof fn lemma_unwrap_fields(&self)
        ensures
            forall|user_key: Seq<u8>| #[trigger]
                self.spec_unwrap(user_key) == spec_unwrap_fields(self.spec_fields(), user_key),
            self.spec_unencrypted() == spec_unencrypted_fields(self.spec_fields()),
    {
    }
}

/// The cipher that the fields of a wrapped key name.
pub open spec fn spec_fields_encryption(fs: Seq<FieldView>) -> EncryptionView {
    if fs[5] == FieldView::Uint(1) {
        EncryptionView::ChaCha20 { iv: fs[6]->Bytes_0 }
    } else {
        EncryptionView::Off
    }
}

/// What unwrapping the wrapped key of the fields `fs` with `user_key`
/// gives. The wrapping key is derived with the stored costs from the
/// password and the stored salt, written in lowercase hexadecimal; it
/// decrypts the wrapped bytes; what comes out must be the record of a key.
pub open spec fn spec_unwrap_fields(fs: Seq<FieldView>, user_key: Seq<u8>) -> Result<
    Seq<FieldView>,
    KeyError,
> {
    let encryption = spec_fields_encryption(fs);
    match argon2id_derived(
        fs[2]->Uint_0 as u32,
        fs[3]->Uint_0 as u32,
        fs[4]->Uint_0 as u32,
        spec_key_length(encryption),
        spec_ascii_chars(spec_hex(fs[1]->Bytes_0, false)),
        user_key,
    ) {
        None => Err(KeyError::Derive),
        Some(wrap) => match encryption.spec_decrypt_bytes(wrap, fs[0]->Bytes_0) {
            None => Err(KeyError::Encrypt(EncryptError::TooLong)),
            Some(plain) => match spec_parse_record(plain) {
                None => Err(KeyError::PasswordMismatch),
                Some(key) => if spec_is_key_fields(key) {
                    Ok(key)
                } else {
                    Err(KeyError::PasswordMismatch)
                },
            },
        },
    }
}

/// What reading the wrapped bytes of the fields `fs` as a key that is not
/// wrapped gives.
pub open spec fn spec_unencrypted_fields(fs: Seq<FieldView>) -> Result<Seq<FieldView>, KeyError> {
    match spec_parse_record(fs[0]->Bytes_0) {
        None => Err(KeyError::Malformed),
        Some(key) => if spec_is_key_fields(key) {
            Ok(key)
        } else {
            Err(KeyError::Malformed)
        },
    }
}

/// What wrapping the key with the fields `fields` gives: the record of the
/// key, encrypted under the key that is derived with `opts` from the
/// password and the salt, written in lowercase hexadecimal. `Derive` where
/// no key can be derived; `TooLong` where the cipher refuses the record.
pub open spec fn spec_wrap(
    fields: Seq<FieldView>,
    opts: EncryptOptions,
    encryption: EncryptionView,
    salt: Seq<u8>,
    user_key: Seq<u8>,
) -> Result<Seq<u8>, KeyError> {
    match argon2id_derived(
        opts.mem_cost,
        opts.time_cost,
        opts.parallel_cost,
        spec_key_length(encryption),
        spec_ascii_chars(spec_hex(salt, false)),
        user_key,
    ) {
        None => Err(KeyError::Derive),
        Some(wrap) => match encryption.spec_encrypt_bytes(wrap, spec_record(fields)) {
            None => Err(KeyError::Encrypt(EncryptError::TooLong)),
            Some(cipher) => Ok(cipher),
        },
    }
}

/// The number of key bytes that a cipher takes.
pub open spec fn spec_key_length(e: EncryptionView) -> u32 {
    match e {
        EncryptionView::Off => 16,
        EncryptionView::ChaCha20 { .. } => 32,
    }
}

/// Overwrites two buffers that held key material with zeros.
fn wipe_two(a: Vec<u8>, b: Vec<u8>) {
    let mut a = a;
    let mut b = b;
    crate::secret::wipe(&mut a);
    crate::secret::wipe(&mut b);
}

impl RepoObject for EncryptedKey {
    closed spec fn spec_fields(&self) -> Seq<FieldView> {
        self.spec_encrypted_key_fields()
    }

    open spec fn spec_is_fields(fs: Seq<FieldView>) -> bool {
        spec_is_encrypted_key_fields(fs)
    }

    fn kind() -> (r: ObjectKind)
        ensures
            r == ObjectKind::Key,
    {
        ObjectKind::Key
    }

    fn to_fields(&self) -> (fields: Vec<Field>)
        ensures
            spec_views(fields@) == self.spec_encrypted_key_fields(),
    {
        let mut fields: Vec<Field> = Vec::new();
        fields.push(bytes_field(self.encrypted_bytes.as_slice()));
        fields.push(bytes_field(&self.salt));
        fields.push(Field::Uint(self.opts.mem_cost as u64));
        fields.push(Field::Uint(self.opts.time_cost as u64));
        fields.push(Field::Uint(self.opts.parallel_cost as u64));
        fields.push(Field::Uint(self.encryption.code()));
        fields.push(
            match &self.encryption {
                Encryption::Off => Field::Null,
                Encryption::ChaCha20 { iv } => bytes_field(iv),
            },
        );
        assert(spec_views(fields@) =~= self.spec_encrypted_key_fields());
        fields
    }

    fn from_fields(fields: &Vec<Field>) -> (r: Option<Self>)
        ensures
            r matches Some(key) ==> key.spec_encrypted_key_fields() == spec_views(fields@),
    {
        let ghost fs = spec_views(fields@);
        if fields.len() != 7 {
            return None;
        }
        let encrypted_bytes = read_bytes(&fields[0]);
        let salt = read_bytes(&fields[1]);
        let mem_cost = read_u32(&fields[2]);
        let time_cost = read_u32(&fields[3]);
        let parallel_cost = read_u32(&fields[4]);
        let code = read_u64(&fields[5]);
        let iv = crate::obj::record::read_opt_bytes(&fields[6]);
        match (encrypted_bytes, salt, mem_cost, time_cost, parallel_cost, code, iv) {
            (
                Some(encrypted_bytes),
                Some(salt),
                Some(mem_cost),
                Some(time_cost),
                Some(parallel_cost),
                Some(code),
                Some(iv),
            ) => {
                if salt.len() != 32 {
                    return None;
                }
                let encryption = match iv {
                    None => {
                        if code != 0 {
                            return None;
                        }
                        Encryption::Off
                    },
                    Some(iv) => {
                        if code != 1 || iv.len() != NONCE_LEN {
                            return None;
                        }
                        Encryption::ChaCha20 { iv: nonce_from(iv.as_slice()) }
                    },
                };
                let salt = Id::from_bytes(salt.as_slice());
                assert(salt@ =~= fs[1]->Bytes_0);
                let key = EncryptedKey {
                    encrypted_bytes,
                    salt: salt.0,
                    opts: EncryptOptions { mem_cost, time_cost, parallel_cost },
                    encryption,
                };
                assert(key.spec_encrypted_key_fields() =~= fs);
                Some(key)
            },
            _ => None,
        }
    }

    proof fn lemma_fields_valid(&self) {
    }
}

} // verus!
