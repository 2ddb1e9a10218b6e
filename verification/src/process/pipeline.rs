//! The path of a chunk into a repository and back: compress, encrypt, tag,
//! with a record written between the steps; then check the tag, decrypt,
//! decompress.

use vstd::prelude::*;
use vstd::string::StringExecFns;
use crate::obj::chunk::{
    lemma_chunk_fields_roundtrip, spec_compressed_fields, spec_compressed_from,
    spec_encrypted_fields, spec_encrypted_from, spec_tagged_fields, spec_tagged_from,
    write_record, CompressedChunk, EncryptedChunk, TaggedChunk,
};
use crate::obj::key::Key;
use crate::process::compress::{CompressError, Compression};
use crate::process::encrypt::{
    lemma_decrypt_encrypt, EncryptError, Encryption, EncryptionParams, EncryptionView,
    CHACHA20_MAX_LEN, NONCE_LEN,
};
use crate::process::format::{
    lemma_record_roundtrip, spec_encodable, spec_parse_record, spec_record, spec_views, Field,
    FieldView, FormatError, FormatFailure, Formatter,
};
use crate::process::verify::{Verifier, VerifyError};
use crate::process::ProcessOptions;

verus! {

/// The step of the pipeline that failed, and how.
#[derive(Debug, Clone, Copy, PartialEq, Eq, Hash, Structural)]
pub enum PipelineError {
    Compress(CompressError),
    Encrypt(EncryptError),
    Verify(VerifyError),
    Format(FormatError),
}

impl PipelineError {
    /// The message of the error: the step, and what went wrong in it.
    pub open spec fn spec_message(self) -> Seq<char> {
        match self {
            PipelineError::Compress(inner) => "Compress: "@ + inner.spec_message(),
            PipelineError::Encrypt(inner) => "Encrypt: "@ + inner.spec_message(),
            PipelineError::Verify(inner) => "Verify: "@ + inner.spec_message(),
            PipelineError::Format(inner) => "Format: "@ + inner.spec_message(),
        }
    }

    /// The step that failed, and what went wrong in it, in words.
    pub fn message(&self) -> (r: String)
        ensures
            r@ == self.spec_message(),
    {
        match self {
            PipelineError::Compress(inner) => String::from_str("Compress: ").concat(
                inner.message(),
            ),
            PipelineError::Encrypt(inner) => String::from_str("Encrypt: ").concat(inner.message()),
            PipelineError::Verify(inner) => String::from_str("Verify: ").concat(inner.message()),
            PipelineError::Format(inner) => String::from_str("Format: ").concat(inner.message()),
        }
    }
}

/// What the steps after compression make of compressed bytes: the record of
/// the compressed chunk is encrypted, the record of the encrypted chunk is
/// tagged, and the record of the tagged chunk is the result. `None` where
/// the cipher refuses the length.
pub open spec fn spec_seal(
    key: Key,
    data: Seq<u8>,
    compression: Compression,
    encryption: EncryptionView,
    verifier: Verifier,
) -> Option<Seq<u8>> {
    let inner = spec_compressed_fields(data, compression);
    if !spec_encodable(inner) {
        None
    } else {
        match encryption.spec_encrypt_bytes(
            key.spec_bytes().spec_encrypt_key(),
            spec_record(inner),
        ) {
            None => None,
            Some(cipher) => {
                let middle = spec_encrypted_fields(cipher, encryption);
                if !spec_encodable(middle) {
                    None
                } else {
                    let body = spec_record(middle);
                    let tag = verifier.spec_tag(key.spec_bytes().spec_verify_key(), body);
                    let outer = spec_tagged_fields(body, tag, verifier);
                    if !spec_encodable(outer) {
                        None
                    } else {
                        Some(spec_record(outer))
                    }
                }
            },
        }
    }
}

/// The record of the compressed chunk with the compressed bytes `data`:
/// what the forward path hands to the cipher.
pub open spec fn spec_inner_record(data: Seq<u8>, compression: Compression) -> Seq<u8> {
    spec_record(spec_compressed_fields(data, compression))
}

/// Whether the cipher that `encryption` selects takes the record of the
/// compressed chunk with the bytes `data`. That depends on the length of
/// the record alone, not on the key or the nonce.
pub open spec fn spec_fits(
    data: Seq<u8>,
    compression: Compression,
    encryption: EncryptionParams,
) -> bool {
    encryption == EncryptionParams::Off || spec_inner_record(data, compression).len()
        <= CHACHA20_MAX_LEN
}

/// The error with which the forward path with the algorithms of `opts`
/// fails on `bytes`, whatever the key and the nonce; `None` where it
/// succeeds. The compressor reports an error, or a cipher is chosen and the
/// record of the compressed chunk is longer than one key stream covers.
pub open spec fn spec_forward_error(opts: ProcessOptions, bytes: Seq<u8>) -> Option<
    PipelineError,
> {
    match opts.compression.spec_create().spec_compress(bytes) {
        None => Some(PipelineError::Compress(CompressError::Compress)),
        Some(data) => if spec_fits(data, opts.compression.spec_create(), opts.encryption) {
            None
        } else {
            Some(PipelineError::Encrypt(EncryptError::TooLong))
        },
    }
}

/// What the forward path makes of `bytes`; `None` where a step fails.
pub open spec fn spec_forward(
    key: Key,
    bytes: Seq<u8>,
    compression: Compression,
    encryption: EncryptionView,
    verifier: Verifier,
) -> Option<Seq<u8>> {
    match compression.spec_compress(bytes) {
        None => None,
        Some(data) => spec_seal(key, data, compression, encryption, verifier),
    }
}

/// What the backward path makes of stored bytes: the bytes that went in, or
/// the error of the first step that fails.
pub open spec fn spec_backward(key: Key, stored: Seq<u8>) -> Result<Seq<u8>, PipelineError> {
    match spec_open(key, stored) {
        Err(e) => Err(e),
        Ok((data, compression)) => match compression.spec_decompress(data) {
            None => Err(PipelineError::Compress(CompressError::Decompress)),
            Some(out) => Ok(out),
        },
    }
}

/// The steps of the backward path before decompression: read the tagged
/// chunk, check the tag, read the encrypted chunk, decrypt, read the
/// compressed chunk.
pub open spec fn spec_open(key: Key, stored: Seq<u8>) -> Result<
    (Seq<u8>, Compression),
    PipelineError,
> {
    match spec_read(stored) {
        Err(e) => Err(PipelineError::Format(e)),
        Ok(outer) => match spec_tagged_from(outer) {
            None => Err(PipelineError::Format(FormatError::Failed(FormatFailure::WrongShape))),
            Some((body, tag, verifier)) => if !verifier.spec_verifies(
                key.spec_bytes().spec_verify_key(),
                tag,
                body,
            ) {
                Err(PipelineError::Verify(VerifyError::VerificationFailed))
            } else {
                match spec_read(body) {
                    Err(e) => Err(PipelineError::Format(e)),
                    Ok(middle) => match spec_encrypted_from(middle) {
                        None => Err(
                            PipelineError::Format(FormatError::Failed(FormatFailure::WrongShape)),
                        ),
                        Some((cipher, encryption)) => match encryption.spec_decrypt_bytes(
                            key.spec_bytes().spec_encrypt_key(),
                            cipher,
                        ) {
                            None => Err(PipelineError::Encrypt(EncryptError::TooLong)),
                            Some(plain) => match spec_read(plain) {
                                Err(e) => Err(PipelineError::Format(e)),
                                Ok(inner) => match spec_compressed_from(inner) {
                                    None => Err(
                                        PipelineError::Format(
                                            FormatError::Failed(FormatFailure::WrongShape),
                                        ),
                                    ),
                                    Some(chunk) => Ok(chunk),
                                },
                            },
                        },
                    },
                }
            },
        },
    }
}

/// The fields of the record that `bytes` are, or the error of reading them.
pub open spec fn spec_read(bytes: Seq<u8>) -> Result<Seq<FieldView>, FormatError> {
    match spec_parse_record(bytes) {
        Some(fs) => Ok(fs),
        None => Err(FormatError::Failed(FormatFailure::Malformed)),
    }
}

/// The backward path undoes the steps after compression: it finds the
/// compressed bytes and their algorithm again.
#[verifier::rlimit(50)]
pub proof fn lemma_open_seal(
    key: Key,
    data: Seq<u8>,
    compression: Compression,
    encryption: EncryptionView,
    verifier: Verifier,
)
    requires
        encryption matches EncryptionView::ChaCha20 { iv } ==> iv.len() == NONCE_LEN,
        spec_seal(key, data, compression, encryption, verifier) is Some,
    ensures
        spec_open(key, spec_seal(key, data, compression, encryption, verifier)->0) == Ok::<
            (Seq<u8>, Compression),
            PipelineError,
        >((data, compression)),
{
    let ekey = key.spec_bytes().spec_encrypt_key();
    let vkey = key.spec_bytes().spec_verify_key();
    let inner = spec_compressed_fields(data, compression);
    let plain = spec_record(inner);
    let cipher = encryption.spec_encrypt_bytes(ekey, plain)->0;
    let middle = spec_encrypted_fields(cipher, encryption);
    let body = spec_record(middle);
    let tag = verifier.spec_tag(vkey, body);
    let outer = spec_tagged_fields(body, tag, verifier);
    lemma_record_roundtrip(inner);
    lemma_record_roundtrip(middle);
    lemma_record_roundtrip(outer);
    lemma_chunk_fields_roundtrip(data, tag, compression, encryption, verifier);
    lemma_chunk_fields_roundtrip(cipher, tag, compression, encryption, verifier);
    lemma_chunk_fields_roundtrip(body, tag, compression, encryption, verifier);
    lemma_decrypt_encrypt(encryption, ekey, plain);
}

/// The backward path gives back what the forward path was given, for every
/// key and every choice of algorithms.
pub proof fn lemma_backward_forward(
    key: Key,
    bytes: Seq<u8>,
    compression: Compression,
    encryption: EncryptionView,
    verifier: Verifier,
)
    requires
        encryption matches EncryptionView::ChaCha20 { iv } ==> iv.len() == NONCE_LEN,
        spec_forward(key, bytes, compression, encryption, verifier) is Some,
    ensures
        spec_backward(key, spec_forward(key, bytes, compression, encryption, verifier)->0) == Ok::<
            Seq<u8>,
            PipelineError,
        >(bytes),
{
    lemma_open_seal(key, compression.spec_compress(bytes)->0, compression, encryption, verifier);
}

/// What the backward path makes of stored bytes depends on the key only
/// through the key material.
pub proof fn lemma_backward_same_key(a: Key, b: Key, stored: Seq<u8>)
    requires
        a.spec_bytes().spec_same(&b.spec_bytes()),
    ensures
        spec_backward(a, stored) == spec_backward(b, stored),
        spec_open(a, stored) == spec_open(b, stored),
{
}

/// The forward path with the algorithms given: compresses `bytes`, encrypts
/// the record of the result, tags the record of that, and returns the
/// record of the tagged chunk.
///
/// It fails exactly where the compressor reports an error, or the cipher
/// refuses the length of the record of the compressed chunk. What it
/// returns otherwise, the backward path under the same key turns back into
/// `bytes`.
#[verifier::rlimit(50)]
pub fn process_with(
    key: &Key,
    compression: Compression,
    encryption: Encryption,
    verifier: Verifier,
    bytes: &[u8],
) -> (r: Result<Vec<u8>, PipelineError>)
    ensures
        match compression.spec_compress(bytes@) {
            None => r == Err::<Vec<u8>, PipelineError>(
                PipelineError::Compress(CompressError::Compress),
            ),
            Some(data) => match encryption@.spec_encrypt_bytes(
                key.spec_bytes().spec_encrypt_key(),
                spec_inner_record(data, compression),
            ) {
                None => r == Err::<Vec<u8>, PipelineError>(
                    PipelineError::Encrypt(EncryptError::TooLong),
                ),
                Some(_) => r matches Ok(out) && spec_forward(
                    *key,
                    bytes@,
                    compression,
                    encryption@,
                    verifier,
                ) == Some(out@) && spec_backward(*key, out@) == Ok::<Seq<u8>, PipelineError>(
                    bytes@,
                ),
            },
        },
{
    let compressed = match CompressedChunk::compress(compression, bytes) {
        Ok(chunk) => chunk,
        Err(e) => {
            return Err(PipelineError::Compress(e));
        },
    };
    let ghost data = compressed.bytes@;
    let encrypted = match compressed.encrypt(key, encryption) {
        Ok(chunk) => chunk,
        Err(e) => {
            return Err(PipelineError::Encrypt(e));
        },
    };
    let ghost cipher = encrypted.bytes@;
    let tagged = match encrypted.tag(key, verifier) {
        Ok(chunk) => chunk,
        Err(e) => {
            return Err(PipelineError::Verify(e));
        },
    };
    let fields = tagged.into_fields();
    let out = write_record(&fields);
    proof {
        assert(spec_forward(*key, bytes@, compression, encryption@, verifier) == Some(out@));
        lemma_open_seal(*key, data, compression, encryption@, verifier);
    }
    Ok(out)
}

/// The backward path: reads the tagged chunk, checks its tag, reads the
/// encrypted chunk, decrypts it, reads the compressed chunk and decompresses
/// it. The first step that fails decides the error; nothing is returned of
/// a chunk of which a step failed.
#[verifier::rlimit(50)]
pub fn unprocess_bytes(key: &Key, stored: &[u8]) -> (r: Result<Vec<u8>, PipelineError>)
    ensures
        match spec_backward(*key, stored@) {
            Ok(bytes) => r matches Ok(out) && out@ == bytes,
            Err(e) => r == Err::<Vec<u8>, PipelineError>(e),
        },
{
    let outer = match Formatter::Cbor.parse(stored) {
        Ok(fields) => fields,
        Err(e) => {
            return Err(PipelineError::Format(e));
        },
    };
    let tagged = match TaggedChunk::from_fields(outer) {
        Ok(chunk) => chunk,
        Err(e) => {
            return Err(PipelineError::Format(e));
        },
    };
    match tagged.verify_tag(key) {
        Ok(()) => {},
        Err(e) => {
            return Err(PipelineError::Verify(e));
        },
    }
    let middle = match Formatter::Cbor.parse(tagged.bytes.as_slice()) {
        Ok(fields) => fields,
        Err(e) => {
            return Err(PipelineError::Format(e));
        },
    };
    let encrypted = match EncryptedChunk::from_fields(middle) {
        Ok(chunk) => chunk,
        Err(e) => {
            return Err(PipelineError::Format(e));
        },
    };
    let plain = match encrypted.decrypt_bytes(key) {
        Ok(bytes) => bytes,
        Err(e) => {
            return Err(PipelineError::Encrypt(e));
        },
    };
    let inner = match Formatter::Cbor.parse(plain.as_slice()) {
        Ok(fields) => fields,
        Err(e) => {
            return Err(PipelineError::Format(e));
        },
    };
    let compressed = match CompressedChunk::from_fields(inner) {
        Ok(chunk) => chunk,
        Err(e) => {
            return Err(PipelineError::Format(e));
        },
    };
    match compressed.decompress() {
        Ok(bytes) => Ok(bytes),
        Err(e) => Err(PipelineError::Compress(e)),
    }
}

/// The forward path with the algorithms that `opts` select and a fresh
/// nonce. It fails exactly where the compressor reports an error, or a
/// cipher is chosen and the record of the compressed chunk is longer than
/// one key stream covers; the nonce decides neither.
pub fn process(opts: &ProcessOptions, key: &Key, bytes: &[u8]) -> (r: Result<
    Vec<u8>,
    PipelineError,
>)
    ensures
        match spec_forward_error(*opts, bytes@) {
            Some(e) => r == Err::<Vec<u8>, PipelineError>(e),
            None => r matches Ok(out) && spec_backward(*key, out@) == Ok::<Seq<u8>, PipelineError>(
                bytes@,
            ) && exists|iv: [u8; 12]|
                spec_forward(
                    *key,
                    bytes@,
                    opts.compression.spec_create(),
                    (#[trigger] opts.encryption.spec_with_nonce(iv))@,
                    opts.verifier.spec_create(),
                ) == Some(out@),
        },
{
    let encryption = opts.encryption.create();
    process_with(key, opts.compression.create(), encryption, opts.verifier.create(), bytes)
}

/// The backward path, and the fields of the record that comes out of it.
pub fn unprocess(formatter: Formatter, key: &Key, stored: &[u8]) -> (r: Result<
    Vec<Field>,
    PipelineError,
>)
    ensures
        match spec_backward(*key, stored@) {
            Err(e) => r == Err::<Vec<Field>, PipelineError>(e),
            Ok(bytes) => match spec_read(bytes) {
                Err(e) => r == Err::<Vec<Field>, PipelineError>(PipelineError::Format(e)),
                Ok(fs) => r matches Ok(fields) && spec_views(fields@) == fs,
            },
        },
{
    let bytes = match unprocess_bytes(key, stored) {
        Ok(bytes) => bytes,
        Err(e) => {
            return Err(e);
        },
    };
    match formatter.parse(bytes.as_slice()) {
        Ok(fields) => Ok(fields),
        Err(e) => Err(PipelineError::Format(e)),
    }
}

/// A key and the algorithms for the chunks of one repository.
#[derive(Debug)]
pub struct ChunkPipeline {
    pub key: Key,
    pub opts: ProcessOptions,
}

impl ChunkPipeline {
    pub fn new(opts: ProcessOptions, key: Key) -> (r: Self)
        ensures
            r.key == key,
            r.opts == opts,
    {
        Self { key, opts }
    }

    /// The forward path: what comes out, [`ChunkPipeline::process_backward`]
    /// turns back into `bytes`. It fails exactly where [`process`] does.
    pub fn process_forward(&self, bytes: &[u8]) -> (r: Result<Vec<u8>, PipelineError>)
        ensures
            match spec_forward_error(self.opts, bytes@) {
                Some(e) => r == Err::<Vec<u8>, PipelineError>(e),
                None => r matches Ok(out) && spec_backward(self.key, out@) == Ok::<
                    Seq<u8>,
                    PipelineError,
                >(bytes@) && exists|iv: [u8; 12]|
                    spec_forward(
                        self.key,
                        bytes@,
                        self.opts.compression.spec_create(),
                        (#[trigger] self.opts.encryption.spec_with_nonce(iv))@,
                        self.opts.verifier.spec_create(),
                    ) == Some(out@),
            },
    {
        process(&self.opts, &self.key, bytes)
    }

    /// The backward path.
    pub fn process_backward(&self, bytes: &[u8]) -> (r: Result<Vec<u8>, PipelineError>)
        ensures
            match spec_backward(self.key, bytes@) {
                Ok(out) => r matches Ok(v) && v@ == out,
                Err(e) => r == Err::<Vec<u8>, PipelineError>(e),
            },
    {
        unprocess_bytes(&self.key, bytes)
    }
}

} // verus!
