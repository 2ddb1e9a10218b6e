//! The processing steps that turn source bytes into stored objects, and back.

use vstd::prelude::*;

pub mod tree;
pub mod chunk;
pub mod compress;
pub mod encrypt;
pub mod format;
pub mod identify;
pub mod pipeline;
pub mod verify;

verus! {

/// Parameters that select an algorithm: from them the algorithm is made,
/// with what it needs besides them.
pub trait Instanciate: Copy {
    type Instance;

    fn create(&self) -> Self::Instance;
}

/// The algorithms of a repository. They are chosen when the repository is
/// made and stay as they are: other algorithms would give other chunks and
/// other identifiers for the same data.
#[derive(Debug, Clone, Copy, PartialEq, Eq, Structural)]
pub struct ProcessOptions {
    pub chunker: chunk::ChunkerParams,
    pub identifier: identify::IdentifierParams,
    pub compression: compress::CompressionParams,
    pub encryption: encrypt::EncryptionParams,
    pub verifier: verify::VerifierParams,
}

} // verus!
