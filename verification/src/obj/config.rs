//! The configuration of a repository: there is one, stored under the
//! identifier of all zeros.

use vstd::prelude::*;
use crate::id::{Id, WIDTH};
use crate::obj::record::{bytes_field, read_bytes, read_u32, read_u64, spec_is_u32};
use crate::obj::{ObjectKind, RepoObject};
use crate::process::chunk::{ChunkerParams, FastCdc};
use crate::process::compress::CompressionParams;
use crate::process::encrypt::EncryptionParams;
use crate::process::format::{spec_views, Field, FieldView};
use crate::process::identify::IdentifierParams;
use crate::process::verify::VerifierParams;
use crate::process::ProcessOptions;

verus! {

/// The version of the layout that this library writes.
pub const VERSION: u32 = 1;

/// The configuration of a repository.
#[derive(Debug, Clone, Copy, PartialEq, Eq)]
pub struct Config {
    pub version: u32,
    /// What tells this repository from every other.
    pub id: Id,
    /// The algorithms of the repository. They never change.
    pub process: ProcessOptions,
}

pub open spec fn spec_compression_tag(p: CompressionParams) -> u64 {
    match p {
        CompressionParams::Off => 0,
        CompressionParams::Brotli => 1,
    }
}

pub open spec fn spec_encryption_tag(p: EncryptionParams) -> u64 {
    match p {
        EncryptionParams::Off => 0,
        EncryptionParams::ChaCha20 => 1,
    }
}

pub open spec fn spec_verifier_tag(p: VerifierParams) -> u64 {
    match p {
        VerifierParams::Off => 0,
        VerifierParams::Blake3 => 1,
    }
}

/// The ten fields of a configuration: the version, the identifier, the
/// chunker with its three sizes, and the four other algorithms.
pub open spec fn spec_config_fields(c: Config) -> Seq<FieldView> {
    let cdc = c.process.chunker->0;
    seq![
        FieldView::Uint(c.version as u64),
        FieldView::Bytes(c.id@),
        FieldView::Uint(0),
        FieldView::Uint(cdc.min_size as u64),
        FieldView::Uint(cdc.avg_size as u64),
        FieldView::Uint(cdc.max_size as u64),
        FieldView::Uint(0),
        FieldView::Uint(spec_compression_tag(c.process.compression)),
        FieldView::Uint(spec_encryption_tag(c.process.encryption)),
        FieldView::Uint(spec_verifier_tag(c.process.verifier)),
    ]
}

pub open spec fn spec_is_tag(f: FieldView, max: u64) -> bool {
    f matches FieldView::Uint(n) && n <= max
}

/// Whether fields are those of a configuration.
pub open spec fn spec_is_config_fields(fs: Seq<FieldView>) -> bool {
    &&& fs.len() == 10
    &&& spec_is_u32(fs[0])
    &&& fs[1] matches FieldView::Bytes(b) && b.len() == WIDTH
    &&& spec_is_tag(fs[2], 0)
    &&& spec_is_u32(fs[3])
    &&& spec_is_u32(fs[4])
    &&& spec_is_u32(fs[5])
    &&& spec_is_tag(fs[6], 0)
    &&& spec_is_tag(fs[7], 1)
    &&& spec_is_tag(fs[8], 1)
    &&& spec_is_tag(fs[9], 1)
}

fn tag_field(tag: u64) -> (f: Field)
    ensures
        f@ == FieldView::Uint(tag),
{
    Field::Uint(tag)
}

/// Reads a number that is `max` at most.
fn read_tag(f: &Field, max: u64) -> (r: Option<u64>)
    ensures
        r is Some <==> spec_is_tag(f@, max),
        r matches Some(n) ==> f@ == FieldView::Uint(n) && n <= max,
{
    match read_u64(f) {
        Some(n) => if n <= max {
            Some(n)
        } else {
            None
        },
        None => None,
    }
}

impl Config {
    /// A configuration of the given parts.
    pub fn new(version: u32, id: Id, process: ProcessOptions) -> (r: Self)
        ensures
            r.version == version,
            r.id == id,
            r.process == process,
    {
        Self { version, id, process }
    }

    /// A configuration for a new repository: the version that this library
    /// writes, and a random identifier.
    pub fn fresh(process: ProcessOptions) -> (r: Self)
        ensures
            r.version == VERSION,
            r.process == process,
    {
        Self { version: VERSION, id: Id::random(), process }
    }
}

impl RepoObject for Config {
    open spec fn spec_fields(&self) -> Seq<FieldView> {
        spec_config_fields(*self)
    }

    open spec fn spec_is_fields(fs: Seq<FieldView>) -> bool {
        spec_is_config_fields(fs)
    }

    fn kind() -> (r: ObjectKind)
        ensures
            r == ObjectKind::Config,
    {
        ObjectKind::Config
    }

    fn to_fields(&self) -> (fields: Vec<Field>) {
        let cdc = match self.process.chunker {
            ChunkerParams::FastCdc(cdc) => cdc,
        };
        let mut fields: Vec<Field> = Vec::new();
        fields.push(Field::Uint(self.version as u64));
        fields.push(bytes_field(self.id.as_bytes()));
        fields.push(tag_field(0));
        fields.push(Field::Uint(cdc.min_size as u64));
        fields.push(Field::Uint(cdc.avg_size as u64));
        fields.push(Field::Uint(cdc.max_size as u64));
        fields.push(tag_field(0));
        fields.push(
            tag_field(
                match self.process.compression {
                    CompressionParams::Off => 0,
                    CompressionParams::Brotli => 1,
                },
            ),
        );
        fields.push(
            tag_field(
                match self.process.encryption {
                    EncryptionParams::Off => 0,
                    EncryptionParams::ChaCha20 => 1,
                },
            ),
        );
        fields.push(
            tag_field(
                match self.process.verifier {
                    VerifierParams::Off => 0,
                    VerifierParams::Blake3 => 1,
                },
            ),
        );
        assert(spec_views(fields@) =~= spec_config_fields(*self));
        fields
    }

    fn from_fields(fields: &Vec<Field>) -> (r: Option<Self>) {
        let ghost fs = spec_views(fields@);
        if fields.len() != 10 {
            return None;
        }
        let version = read_u32(&fields[0]);
        let id = read_bytes(&fields[1]);
        let chunker = read_tag(&fields[2], 0);
        let min_size = read_u32(&fields[3]);
        let avg_size = read_u32(&fields[4]);
        let max_size = read_u32(&fields[5]);
        let identifier = read_tag(&fields[6], 0);
        let compression = read_tag(&fields[7], 1);
        let encryption = read_tag(&fields[8], 1);
        let verifier = read_tag(&fields[9], 1);
        match (
            version,
            id,
            chunker,
            min_size,
            avg_size,
            max_size,
            identifier,
            compression,
            encryption,
            verifier,
        ) {
            (
                Some(version),
                Some(id),
                Some(_),
                Some(min_size),
                Some(avg_size),
                Some(max_size),
                Some(_),
                Some(compression),
                Some(encryption),
                Some(verifier),
            ) => {
                if id.len() != WIDTH {
                    return None;
                }
                let id = Id::from_bytes(id.as_slice());
                assert(id@ =~= fs[1]->Bytes_0);
                let process = ProcessOptions {
                    chunker: ChunkerParams::FastCdc(FastCdc { min_size, avg_size, max_size }),
                    identifier: IdentifierParams::Blake3,
                    compression: if compression == 0 {
                        CompressionParams::Off
                    } else {
                        CompressionParams::Brotli
                    },
                    encryption: if encryption == 0 {
                        EncryptionParams::Off
                    } else {
                        EncryptionParams::ChaCha20
                    },
                    verifier: if verifier == 0 {
                        VerifierParams::Off
                    } else {
                        VerifierParams::Blake3
                    },
                };
                let config = Config { version, id, process };
                assert(spec_config_fields(config) =~= fs);
                Some(config)
            },
            _ => None,
        }
    }

    proof fn lemma_fields_valid(&self) {
    }
}

} // verus!
