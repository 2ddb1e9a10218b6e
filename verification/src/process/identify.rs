//! Content addresses: the identifier of an object is a keyed hash of its
//! bytes.

use vstd::prelude::*;
use crate::id::{spec_padded, Id};
use crate::obj::key::Key;
use crate::process::verify::{blake3_keyed_hash, keyed_hash};

verus! {

/// Selects an identifier algorithm.
#[derive(Debug, Clone, Copy, PartialEq, Eq, Hash, Structural)]
pub enum IdentifierParams {
    Blake3,
}

/// An identifier algorithm.
#[derive(Debug, Clone, Copy, PartialEq, Eq, Hash, Structural)]
pub enum Identifier {
    Blake3,
}

impl IdentifierParams {
    /// The algorithm that these parameters select.
    pub fn create(&self) -> (r: Identifier)
        ensures
            r == Identifier::Blake3,
    {
        Identifier::Blake3
    }
}

impl Identifier {
    /// The identifier of `bytes` under `key`: the BLAKE3 keyed hash of the
    /// bytes under the key cut or padded to 32 bytes.
    pub open spec fn spec_identify(self, key: Seq<u8>, bytes: Seq<u8>) -> Seq<u8> {
        blake3_keyed_hash(spec_padded(key), bytes)
    }

    /// The identifier of `bytes` under the raw key `key`. Equal keys and
    /// equal bytes give equal identifiers.
    pub fn identify_bytes(&self, key: &[u8], bytes: &[u8]) -> (id: Id)
        ensures
            id@ == self.spec_identify(key@, bytes@),
    {
        let mut padded = Id::from_bytes(key);
        let hash = keyed_hash(&padded.0, bytes);
        crate::secret::wipe_key(&mut padded.0);
        Id(hash)
    }

    /// The identifier of `bytes` under the identify key of `key`.
    pub fn identify(&self, key: &Key, bytes: &[u8]) -> (id: Id)
        ensures
            id@ == self.spec_identify(key.spec_bytes().spec_identify_key(), bytes@),
    {
        self.identify_bytes(key.bytes().identify_key(), bytes)
    }
}


/// An algorithm that gives bytes their identifier under the identify key of
/// a master key.
pub trait Identify {
    fn identify(&self, key: &Key, data: &[u8]) -> Id;
}

impl Identify for Identifier {
    fn identify(&self, key: &Key, data: &[u8]) -> (id: Id)
        ensures
            id@ == self.spec_identify(key.spec_bytes().spec_identify_key(), data@),
    {
        Identifier::identify(self, key, data)
    }
}

impl crate::process::Instanciate for IdentifierParams {
    type Instance = Identifier;

    fn create(&self) -> (r: Identifier)
        ensures
            r == Identifier::Blake3,
    {
        IdentifierParams::create(self)
    }
}


impl Identifier {
    /// The name of the algorithm.
    pub fn name(&self) -> (r: &'static str)
        ensures
            r@ == "Blake3"@,
    {
        "Blake3"
    }
}

} // verus!
