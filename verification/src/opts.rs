//! What a caller chooses: the algorithms of a new repository, the object
//! to look at, the password.

use vstd::prelude::*;
use vstd::string::StringSliceAdditionalSpecFns;
use crate::id::{spec_parse_hex, Id, WIDTH};
use crate::process::chunk::{ChunkerParams, FastCdc};
use crate::process::compress::CompressionParams;
use crate::process::encrypt::EncryptionParams;
use crate::process::identify::IdentifierParams;
use crate::process::verify::VerifierParams;
use crate::process::ProcessOptions;

verus! {

/// The algorithms that belong to the repository as a whole, as far as they
/// have been chosen.
#[derive(Debug, Clone, Copy, PartialEq, Eq)]
pub struct RepoProcessOpts {
    pub chunker: Option<ChunkerParams>,
    pub identifier: Option<IdentifierParams>,
}

/// The algorithms that each chunk goes through, as far as they have been
/// chosen.
#[derive(Debug, Clone, Copy, PartialEq, Eq)]
pub struct ChunkProcessOpts {
    pub compression: Option<CompressionParams>,
    pub encryption: Option<EncryptionParams>,
    pub verifier: Option<VerifierParams>,
}

/// All algorithms, as far as they have been chosen.
#[derive(Debug, Clone, Copy, PartialEq, Eq)]
pub struct ProcessOpts {
    pub repo: RepoProcessOpts,
    pub chunk: ChunkProcessOpts,
}

/// The first of two choices that has been made.
pub open spec fn spec_or<T>(first: Option<T>, second: Option<T>) -> Option<T> {
    if first is Some {
        first
    } else {
        second
    }
}

fn or<T: Copy>(first: Option<T>, second: Option<T>) -> (r: Option<T>)
    ensures
        r == spec_or(first, second),
{
    match first {
        Some(_) => first,
        None => second,
    }
}

impl RepoProcessOpts {
    /// Nothing chosen.
    pub fn empty() -> (r: Self)
        ensures
            r.chunker is None,
            r.identifier is None,
    {
        Self { chunker: None, identifier: None }
    }

    /// The recommended choice: FastCDC with its default sizes, and BLAKE3.
    pub fn recommended() -> (r: Self)
        ensures
            r.chunker == Some(ChunkerParams::FastCdc(FastCdc::spec_default())),
            r.identifier == Some(IdentifierParams::Blake3),
    {
        Self {
            chunker: Some(ChunkerParams::FastCdc(FastCdc::default())),
            identifier: Some(IdentifierParams::Blake3),
        }
    }

    /// Takes from `other` what has not been chosen here.
    pub fn merge(&mut self, other: Self)
        ensures
            final(self).chunker == spec_or(old(self).chunker, other.chunker),
            final(self).identifier == spec_or(old(self).identifier, other.identifier),
    {
        self.chunker = or(self.chunker, other.chunker);
        self.identifier = or(self.identifier, other.identifier);
    }
}

impl ChunkProcessOpts {
    /// Nothing chosen.
    pub fn empty() -> (r: Self)
        ensures
            r.compression is None,
            r.encryption is None,
            r.verifier is None,
    {
        Self { compression: None, encryption: None, verifier: None }
    }

    /// The recommended choice: Brotli, ChaCha20 and BLAKE3.
    pub fn recommended() -> (r: Self)
        ensures
            r.compression == Some(CompressionParams::Brotli),
            r.encryption == Some(EncryptionParams::ChaCha20),
            r.verifier == Some(VerifierParams::Blake3),
    {
        Self {
            compression: Some(CompressionParams::Brotli),
            encryption: Some(EncryptionParams::ChaCha20),
            verifier: Some(VerifierParams::Blake3),
        }
    }

    /// Takes from `other` what has not been chosen here.
    pub fn merge(&mut self, other: Self)
        ensures
            final(self).compression == spec_or(old(self).compression, other.compression),
            final(self).encryption == spec_or(old(self).encryption, other.encryption),
            final(self).verifier == spec_or(old(self).verifier, other.verifier),
    {
        self.compression = or(self.compression, other.compression);
        self.encryption = or(self.encryption, other.encryption);
        self.verifier = or(self.verifier, other.verifier);
    }
}

impl ProcessOpts {
    /// Nothing chosen: no algorithm of either part, and so no whole set of
    /// options.
    pub fn empty() -> (r: Self)
        ensures
            r.repo.chunker is None,
            r.repo.identifier is None,
            r.chunk.compression is None,
            r.chunk.encryption is None,
            r.chunk.verifier is None,
            r.spec_options() is None,
    {
        Self { repo: RepoProcessOpts::empty(), chunk: ChunkProcessOpts::empty() }
    }

    /// The recommended choice of every algorithm.
    pub fn recommended() -> (r: Self)
        ensures
            r.spec_options() == Some(
                ProcessOptions {
                    chunker: ChunkerParams::FastCdc(FastCdc::spec_default()),
                    identifier: IdentifierParams::Blake3,
                    compression: CompressionParams::Brotli,
                    encryption: EncryptionParams::ChaCha20,
                    verifier: VerifierParams::Blake3,
                },
            ),
    {
        Self { repo: RepoProcessOpts::recommended(), chunk: ChunkProcessOpts::recommended() }
    }

    /// Takes from `other` what has not been chosen here.
    pub fn merge(&mut self, other: Self)
        ensures
            final(self).repo.chunker == spec_or(old(self).repo.chunker, other.repo.chunker),
            final(self).repo.identifier == spec_or(
                old(self).repo.identifier,
                other.repo.identifier,
            ),
            final(self).chunk.compression == spec_or(
                old(self).chunk.compression,
                other.chunk.compression,
            ),
            final(self).chunk.encryption == spec_or(
                old(self).chunk.encryption,
                other.chunk.encryption,
            ),
            final(self).chunk.verifier == spec_or(old(self).chunk.verifier, other.chunk.verifier),
            other.spec_options() is Some ==> final(self).spec_options() is Some,
    {
        self.repo.merge(other.repo);
        self.chunk.merge(other.chunk);
    }

    /// The algorithms of a repository, where every one has been chosen.
    pub open spec fn spec_options(&self) -> Option<ProcessOptions> {
        if self.repo.chunker is Some && self.repo.identifier is Some && self.chunk.compression
            is Some && self.chunk.encryption is Some && self.chunk.verifier is Some {
            Some(
                ProcessOptions {
                    chunker: self.repo.chunker->0,
                    identifier: self.repo.identifier->0,
                    compression: self.chunk.compression->0,
                    encryption: self.chunk.encryption->0,
                    verifier: self.chunk.verifier->0,
                },
            )
        } else {
            None
        }
    }

    /// The algorithms of a repository; `None` where one has not been
    /// chosen.
    pub fn options(&self) -> (r: Option<ProcessOptions>)
        ensures
            r == self.spec_options(),
    {
        match (
            self.repo.chunker,
            self.repo.identifier,
            self.chunk.compression,
            self.chunk.encryption,
            self.chunk.verifier,
        ) {
            (
                Some(chunker),
                Some(identifier),
                Some(compression),
                Some(encryption),
                Some(verifier),
            ) => Some(ProcessOptions { chunker, identifier, compression, encryption, verifier }),
            _ => None,
        }
    }
}

/// The identifier of an object as the caller gives it: whole, or its
/// beginning.
#[derive(Debug, Clone, PartialEq, Eq)]
pub struct IdOpt {
    pub id: String,
}

/// The key to look at, where the caller names one.
#[derive(Debug, Clone, PartialEq, Eq)]
pub struct KeyOpts {
    pub id: Option<String>,
}

impl KeyOpts {
    /// The identifier that was given, if one was.
    pub fn into_id(self) -> (r: Option<IdOpt>)
        ensures
            match self.id {
                Some(id) => r matches Some(opt) && opt.id == id,
                None => r is None,
            },
    {
        match self.id {
            Some(id) => Some(IdOpt { id }),
            None => None,
        }
    }
}

impl IdOpt {
    /// Whether the text has the length of a whole identifier: 64 bytes.
    pub open spec fn spec_is_full(&self) -> bool {
        vstd::utf8::encode_utf8(self.id@).len() == 2 * WIDTH
    }

    /// Whether the text has the length of a whole identifier.
    pub fn is_full(&self) -> (r: bool)
        ensures
            r == (vstd::utf8::encode_utf8(self.id@).len() == 2 * WIDTH),
    {
        self.id.as_str().as_bytes().len() == 2 * WIDTH
    }

    /// The identifier, where the text is a whole one.
    pub fn to_id(&self) -> (r: Option<Id>)
        ensures
            match spec_parse_hex(vstd::utf8::encode_utf8(self.id@)) {
                Some(bytes) => r matches Some(id) && id@ == bytes,
                None => r is None,
            },
    {
        if self.is_full() {
            match Id::parse_hex(self.id.as_str()) {
                Ok(id) => Some(id),
                Err(_) => None,
            }
        } else {
            None
        }
    }

    /// The text.
    pub fn as_str(&self) -> (r: &str)
        ensures
            r@ == self.id@,
    {
        self.id.as_str()
    }
}

/// A password. It is kept apart from other text so that it is not printed
/// or logged by accident, and can be wiped when it is no longer needed.
pub struct Password(Vec<u8>);

impl Drop for Password {
    /// Overwrites the password with zeros before the memory is given back.
    fn drop(&mut self)
        opens_invariants none
        no_unwind
    {
        crate::secret::wipe(&mut self.0);
    }
}

impl Password {
    /// The bytes of the password.
    pub closed spec fn view(&self) -> Seq<u8> {
        self.0@
    }

    /// The password that the text is.
    pub fn from_str(s: &str) -> (r: Self)
        ensures
            r@ == s.spec_bytes(),
    {
        Password(crate::process::compress::copy_bytes(s.as_bytes()))
    }

    /// The bytes of the password.
    pub fn as_bytes(&self) -> (r: &[u8])
        ensures
            r@ == self@,
    {
        self.0.as_slice()
    }

    /// Overwrites the password with zeros and leaves it empty.
    pub fn wipe(&mut self)
        ensures
            final(self)@.len() == 0,
    {
        crate::secret::wipe(&mut self.0);
    }
}

} // verus!
