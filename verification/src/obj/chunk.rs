//! The three records that a chunk passes through on its way into a
//! repository: compressed, then encrypted, then tagged.

use vstd::prelude::*;
use crate::obj::key::Key;
use crate::process::compress::{CompressError, Compression};
use crate::process::encrypt::{nonce_from, EncryptError, Encryption, EncryptionView, NONCE_LEN};
use crate::process::format::{
    spec_encodable, spec_record, spec_views, Field, FieldView, FormatError,
    FormatFailure, Formatter,
};
use crate::process::verify::{Verifier, VerifyError};

verus! {

/// The error of a record whose fields are not the expected ones.
pub fn wrong_shape<T>() -> (r: Result<T, FormatError>)
    ensures
        r == Err::<T, FormatError>(FormatError::Failed(FormatFailure::WrongShape)),
{
    Err(FormatError::Failed(FormatFailure::WrongShape))
}

/// Compressed bytes, and the algorithm that compressed them.
#[derive(Debug)]
pub struct CompressedChunk {
    pub bytes: Vec<u8>,
    pub compression: Compression,
}

/// Encrypted bytes, and the algorithm and nonce that encrypted them.
#[derive(Debug)]
pub struct EncryptedChunk {
    pub bytes: Vec<u8>,
    pub encryption: Encryption,
}

/// Bytes with their tag, and the algorithm that made it.
#[derive(Debug)]
pub struct TaggedChunk {
    pub bytes: Vec<u8>,
    pub tag: Vec<u8>,
    pub verifier: Verifier,
}

/// The fields of a compressed chunk: the bytes, then the algorithm's tag.
pub open spec fn spec_compressed_fields(bytes: Seq<u8>, compression: Compression) -> Seq<
    FieldView,
> {
    seq![FieldView::Bytes(bytes), FieldView::Uint(compression.spec_tag())]
}

/// The compressed chunk that fields stand for.
pub open spec fn spec_compressed_from(fs: Seq<FieldView>) -> Option<(Seq<u8>, Compression)> {
    if fs.len() == 2 {
        match (fs[0], fs[1]) {
            (FieldView::Bytes(bytes), FieldView::Uint(tag)) => match Compression::spec_from_tag(
                tag,
            ) {
                Some(c) => Some((bytes, c)),
                None => None,
            },
            _ => None,
        }
    } else {
        None
    }
}

/// The fields of an encrypted chunk: the bytes, the algorithm's number, and
/// the nonce where the algorithm has one.
pub open spec fn spec_encrypted_fields(bytes: Seq<u8>, encryption: EncryptionView) -> Seq<
    FieldView,
> {
    seq![
        FieldView::Bytes(bytes),
        FieldView::Uint(encryption.spec_code()),
        match encryption {
            EncryptionView::Off => FieldView::Null,
            EncryptionView::ChaCha20 { iv } => FieldView::Bytes(iv),
        },
    ]
}

/// The encrypted chunk that fields stand for.
pub open spec fn spec_encrypted_from(fs: Seq<FieldView>) -> Option<(Seq<u8>, EncryptionView)> {
    if fs.len() == 3 {
        match (fs[0], fs[1], fs[2]) {
            (FieldView::Bytes(bytes), FieldView::Uint(code), FieldView::Null) => if code == 0 {
                Some((bytes, EncryptionView::Off))
            } else {
                None
            },
            (FieldView::Bytes(bytes), FieldView::Uint(code), FieldView::Bytes(iv)) => if code == 1
                && iv.len() == NONCE_LEN {
                Some((bytes, EncryptionView::ChaCha20 { iv }))
            } else {
                None
            },
            _ => None,
        }
    } else {
        None
    }
}

/// The fields of a tagged chunk: the bytes, the tag, the algorithm's number.
pub open spec fn spec_tagged_fields(bytes: Seq<u8>, tag: Seq<u8>, verifier: Verifier) -> Seq<
    FieldView,
> {
    seq![FieldView::Bytes(bytes), FieldView::Bytes(tag), FieldView::Uint(verifier.spec_code())]
}

/// The tagged chunk that fields stand for.
pub open spec fn spec_tagged_from(fs: Seq<FieldView>) -> Option<(Seq<u8>, Seq<u8>, Verifier)> {
    if fs.len() == 3 {
        match (fs[0], fs[1], fs[2]) {
            (
                FieldView::Bytes(bytes),
                FieldView::Bytes(tag),
                FieldView::Uint(code),
            ) => match Verifier::spec_from_code(code) {
                Some(v) => Some((bytes, tag, v)),
                None => None,
            },
            _ => None,
        }
    } else {
        None
    }
}

/// Each of the three records is read back from its fields as it was written.
pub proof fn lemma_chunk_fields_roundtrip(
    bytes: Seq<u8>,
    tag: Seq<u8>,
    compression: Compression,
    encryption: EncryptionView,
    verifier: Verifier,
)
    requires
        encryption matches EncryptionView::ChaCha20 { iv } ==> iv.len() == NONCE_LEN,
    ensures
        spec_compressed_from(spec_compressed_fields(bytes, compression)) == Some(
            (bytes, compression),
        ),
        spec_encrypted_from(spec_encrypted_fields(bytes, encryption)) == Some((bytes, encryption)),
        spec_tagged_from(spec_tagged_fields(bytes, tag, verifier)) == Some((bytes, tag, verifier)),
{
}

/// Takes the last field off `fields`.
pub fn take_last(fields: &mut Vec<Field>) -> (f: Field)
    requires
        old(fields)@.len() > 0,
    ensures
        f == old(fields)@.last(),
        final(fields)@ == old(fields)@.drop_last(),
{
    match fields.pop() {
        Some(f) => f,
        None => vstd::pervasive::unreached(),
    }
}

impl CompressedChunk {
    /// Compresses `bytes` with `compression`: succeeds exactly where the
    /// algorithm has a compressed form for them.
    pub fn compress(compression: Compression, bytes: &[u8]) -> (r: Result<Self, CompressError>)
        ensures
            match compression.spec_compress(bytes@) {
                Some(out) => r matches Ok(chunk) && chunk.compression == compression
                    && chunk.bytes@ == out && compression.spec_decompress(out) == Some(bytes@),
                None => r == Err::<Self, CompressError>(CompressError::Compress),
            },
    {
        match compression.compress(bytes) {
            Ok(compressed) => Ok(Self { bytes: compressed, compression }),
            Err(e) => Err(e),
        }
    }

    /// Gives back the bytes that were compressed.
    pub fn decompress(self) -> (r: Result<Vec<u8>, CompressError>)
        ensures
            match self.compression.spec_decompress(self.bytes@) {
                Some(out) => r matches Ok(v) && v@ == out,
                None => r == Err::<Vec<u8>, CompressError>(CompressError::Decompress),
            },
    {
        self.compression.decompress(self.bytes.as_slice())
    }

    /// The record's fields: the bytes, then the algorithm's tag.
    pub fn into_fields(self) -> (fields: Vec<Field>)
        ensures
            spec_views(fields@) == spec_compressed_fields(self.bytes@, self.compression),
    {
        let mut fields: Vec<Field> = Vec::new();
        let tag = self.compression.tag();
        fields.push(Field::Bytes(self.bytes));
        fields.push(Field::Uint(tag));
        assert(spec_views(fields@) =~= spec_compressed_fields(self.bytes@, self.compression));
        fields
    }

    /// Reads the record from its fields; fails where they are not a byte
    /// string and the tag of an algorithm.
    pub fn from_fields(fields: Vec<Field>) -> (r: Result<Self, FormatError>)
        ensures
            match spec_compressed_from(spec_views(fields@)) {
                Some((bytes, compression)) => r matches Ok(chunk) && chunk.bytes@ == bytes
                    && chunk.compression == compression,
                None => r == Err::<Self, FormatError>(
                    FormatError::Failed(FormatFailure::WrongShape),
                ),
            },
    {
        let ghost views = spec_views(fields@);
        let mut fields = fields;
        if fields.len() != 2 {
            return wrong_shape();
        }
        let second = take_last(&mut fields);
        let first = take_last(&mut fields);
        assert(first@ == views[0] && second@ == views[1]);
        match (first, second) {
            (Field::Bytes(bytes), Field::Uint(tag)) => match Compression::from_tag(tag) {
                Some(compression) => Ok(Self { bytes, compression }),
                None => wrong_shape(),
            },
            _ => wrong_shape(),
        }
    }

    /// Writes the record and encrypts it under the encrypt key of `key`.
    pub fn encrypt(self, key: &Key, encryption: Encryption) -> (r: Result<
        EncryptedChunk,
        EncryptError,
    >)
        ensures
            match encryption.spec_encrypt_bytes(
                key.spec_bytes().spec_encrypt_key(),
                spec_record(spec_compressed_fields(self.bytes@, self.compression)),
            ) {
                Some(out) => r matches Ok(chunk) && chunk.bytes@ == out && chunk.encryption
                    == encryption,
                None => r == Err::<EncryptedChunk, EncryptError>(EncryptError::TooLong),
            },
            spec_encodable(spec_compressed_fields(self.bytes@, self.compression)),
    {
        let fields = self.into_fields();
        let bytes = write_record(&fields);
        EncryptedChunk::encrypt(key, encryption, bytes.as_slice())
    }
}

/// The bytes of the record with the given fields.
pub fn write_record(fields: &Vec<Field>) -> (out: Vec<u8>)
    ensures
        out@ == spec_record(spec_views(fields@)),
        spec_encodable(spec_views(fields@)),
{
    match Formatter::Cbor.format(fields) {
        Ok(out) => out,
        Err(_) => vstd::pervasive::unreached(),
    }
}

impl EncryptedChunk {
    /// Encrypts `bytes` under the encrypt key of `key`.
    pub fn encrypt(key: &Key, encryption: Encryption, bytes: &[u8]) -> (r: Result<
        Self,
        EncryptError,
    >)
        ensures
            match encryption.spec_encrypt_bytes(key.spec_bytes().spec_encrypt_key(), bytes@) {
                Some(out) => r matches Ok(chunk) && chunk.bytes@ == out && chunk.encryption
                    == encryption,
                None => r == Err::<Self, EncryptError>(EncryptError::TooLong),
            },
    {
        match encryption.encrypt(key, bytes) {
            Ok(encrypted) => Ok(Self { bytes: encrypted, encryption }),
            Err(e) => Err(e),
        }
    }

    /// The bytes that were encrypted.
    pub fn decrypt_bytes(&self, key: &Key) -> (r: Result<Vec<u8>, EncryptError>)
        ensures
            match self.encryption.spec_decrypt_bytes(
                key.spec_bytes().spec_encrypt_key(),
                self.bytes@,
            ) {
                Some(out) => r matches Ok(v) && v@ == out,
                None => r == Err::<Vec<u8>, EncryptError>(EncryptError::TooLong),
            },
    {
        self.encryption.decrypt(key, self.bytes.as_slice())
    }

    /// The record's fields: the bytes, the algorithm's number, the nonce.
    pub fn into_fields(self) -> (fields: Vec<Field>)
        ensures
            spec_views(fields@) == spec_encrypted_fields(self.bytes@, self.encryption@),
    {
        let mut fields: Vec<Field> = Vec::new();
        let code = self.encryption.code();
        let nonce = match &self.encryption {
            Encryption::Off => Field::Null,
            Encryption::ChaCha20 { iv } => Field::Bytes(
                crate::process::compress::copy_bytes(iv),
            ),
        };
        fields.push(Field::Bytes(self.bytes));
        fields.push(Field::Uint(code));
        fields.push(nonce);
        assert(spec_views(fields@) =~= spec_encrypted_fields(self.bytes@, self.encryption@));
        fields
    }

    /// Reads the record from its fields.
    pub fn from_fields(fields: Vec<Field>) -> (r: Result<Self, FormatError>)
        ensures
            match spec_encrypted_from(spec_views(fields@)) {
                Some((bytes, encryption)) => r matches Ok(chunk) && chunk.bytes@ == bytes
                    && chunk.encryption@ == encryption,
                None => r == Err::<Self, FormatError>(
                    FormatError::Failed(FormatFailure::WrongShape),
                ),
            },
    {
        let ghost views = spec_views(fields@);
        let mut fields = fields;
        if fields.len() != 3 {
            return wrong_shape();
        }
        let third = take_last(&mut fields);
        let second = take_last(&mut fields);
        let first = take_last(&mut fields);
        assert(first@ == views[0] && second@ == views[1] && third@ == views[2]);
        match (first, second, third) {
            (Field::Bytes(bytes), Field::Uint(code), Field::Null) => {
                if code == 0 {
                    Ok(Self { bytes, encryption: Encryption::Off })
                } else {
                    wrong_shape()
                }
            },
            (Field::Bytes(bytes), Field::Uint(code), Field::Bytes(iv)) => {
                if code == 1 && iv.len() == NONCE_LEN {
                    Ok(Self { bytes, encryption: Encryption::ChaCha20 { iv: nonce_from(iv.as_slice()) } })
                } else {
                    wrong_shape()
                }
            },
            _ => wrong_shape(),
        }
    }

    /// Writes the record and tags it under the verify key of `key`.
    pub fn tag(self, key: &Key, verifier: Verifier) -> (r: Result<TaggedChunk, VerifyError>)
        ensures
            r matches Ok(chunk) && chunk.verifier == verifier && chunk.bytes@ == spec_record(
                spec_encrypted_fields(self.bytes@, self.encryption@),
            ) && chunk.tag@ == verifier.spec_tag(key.spec_bytes().spec_verify_key(), chunk.bytes@),
            spec_encodable(spec_encrypted_fields(self.bytes@, self.encryption@)),
    {
        let fields = self.into_fields();
        let bytes = write_record(&fields);
        TaggedChunk::tag(key, verifier, bytes)
    }
}

impl TaggedChunk {
    /// Tags `bytes` under the verify key of `key`.
    pub fn tag(key: &Key, verifier: Verifier, bytes: Vec<u8>) -> (r: Result<Self, VerifyError>)
        ensures
            r matches Ok(chunk) && chunk.verifier == verifier && chunk.bytes@ == bytes@
                && chunk.tag@ == verifier.spec_tag(key.spec_bytes().spec_verify_key(), bytes@),
    {
        match verifier.tag(key, bytes.as_slice()) {
            Ok(tag) => Ok(Self { bytes, tag, verifier }),
            Err(e) => Err(e),
        }
    }

    /// Checks the tag under the verify key of `key`.
    pub fn verify_tag(&self, key: &Key) -> (r: Result<(), VerifyError>)
        ensures
            r is Ok <==> self.verifier.spec_verifies(
                key.spec_bytes().spec_verify_key(),
                self.tag@,
                self.bytes@,
            ),
            r matches Err(e) ==> e == VerifyError::VerificationFailed,
    {
        self.verifier.verify(key, self.tag.as_slice(), self.bytes.as_slice())
    }

    /// The record's fields: the bytes, the tag, the algorithm's number.
    pub fn into_fields(self) -> (fields: Vec<Field>)
        ensures
            spec_views(fields@) == spec_tagged_fields(self.bytes@, self.tag@, self.verifier),
    {
        let mut fields: Vec<Field> = Vec::new();
        let code = self.verifier.code();
        fields.push(Field::Bytes(self.bytes));
        fields.push(Field::Bytes(self.tag));
        fields.push(Field::Uint(code));
        assert(spec_views(fields@) =~= spec_tagged_fields(self.bytes@, self.tag@, self.verifier));
        fields
    }

    /// Reads the record from its fields.
    pub fn from_fields(fields: Vec<Field>) -> (r: Result<Self, FormatError>)
        ensures
            match spec_tagged_from(spec_views(fields@)) {
                Some((bytes, tag, verifier)) => r matches Ok(chunk) && chunk.bytes@ == bytes
                    && chunk.tag@ == tag && chunk.verifier == verifier,
                None => r == Err::<Self, FormatError>(
                    FormatError::Failed(FormatFailure::WrongShape),
                ),
            },
    {
        let ghost views = spec_views(fields@);
        let mut fields = fields;
        if fields.len() != 3 {
            return wrong_shape();
        }
        let third = take_last(&mut fields);
        let second = take_last(&mut fields);
        let first = take_last(&mut fields);
        assert(first@ == views[0] && second@ == views[1] && third@ == views[2]);
        match (first, second, third) {
            (Field::Bytes(bytes), Field::Bytes(tag), Field::Uint(code)) => match Verifier::from_code(
                code,
            ) {
                Some(verifier) => Ok(Self { bytes, tag, verifier }),
                None => wrong_shape(),
            },
            _ => wrong_shape(),
        }
    }
}

} // verus!
