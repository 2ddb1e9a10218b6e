//! The objects that a repository stores.

use vstd::prelude::*;
use crate::process::format::{spec_views, Field, FieldView};

pub mod blob;
pub mod chunk;
pub mod config;
pub mod index;
pub mod key;
pub mod lock;
pub mod pack;
pub mod record;
pub mod snapshot;
pub mod tree;

verus! {

/// The kinds of object a repository stores, one storage area each.
#[derive(Debug, Clone, Copy, PartialEq, Eq, Hash, Structural)]
pub enum ObjectKind {
    Config,
    Index,
    Key,
    Snapshot,
    Pack,
    Lock,
}

impl ObjectKind {
    /// The name of the storage area: a file for the configuration, a
    /// directory for each other kind.
    pub open spec fn spec_name(self) -> Seq<char> {
        match self {
            ObjectKind::Config => "config"@,
            ObjectKind::Index => "indices"@,
            ObjectKind::Key => "keys"@,
            ObjectKind::Snapshot => "snapshots"@,
            ObjectKind::Pack => "packs"@,
            ObjectKind::Lock => "locks"@,
        }
    }

    /// Objects that do not change once written, and may be cached locally.
    pub open spec fn spec_is_cacheable(self) -> bool {
        self == ObjectKind::Snapshot || self == ObjectKind::Index
    }

    /// The kinds that live in a directory of their own: all but the
    /// configuration.
    pub open spec fn spec_is_directory(self) -> bool {
        self != ObjectKind::Config
    }

    /// The name of the storage area.
    pub fn name(&self) -> (r: &'static str)
        ensures
            r@ == self.spec_name(),
    {
        match self {
            ObjectKind::Config => "config",
            ObjectKind::Index => "indices",
            ObjectKind::Key => "keys",
            ObjectKind::Snapshot => "snapshots",
            ObjectKind::Pack => "packs",
            ObjectKind::Lock => "locks",
        }
    }

    /// Whether objects of this kind may be cached locally.
    pub fn is_cacheable(&self) -> (r: bool)
        ensures
            r == self.spec_is_cacheable(),
    {
        match self {
            ObjectKind::Config | ObjectKind::Key | ObjectKind::Pack | ObjectKind::Lock => false,
            ObjectKind::Snapshot | ObjectKind::Index => true,
        }
    }
}

/// The kinds that live in a directory of their own, in the order in which a
/// repository creates them.
pub fn directory_objects() -> (r: Vec<ObjectKind>)
    ensures
        r@ == seq![
            ObjectKind::Index,
            ObjectKind::Key,
            ObjectKind::Snapshot,
            ObjectKind::Pack,
            ObjectKind::Lock,
        ],
{
    let mut kinds: Vec<ObjectKind> = Vec::new();
    kinds.push(ObjectKind::Index);
    kinds.push(ObjectKind::Key);
    kinds.push(ObjectKind::Snapshot);
    kinds.push(ObjectKind::Pack);
    kinds.push(ObjectKind::Lock);
    assert(kinds@ =~= seq![
        ObjectKind::Index,
        ObjectKind::Key,
        ObjectKind::Snapshot,
        ObjectKind::Pack,
        ObjectKind::Lock,
    ]);
    kinds
}

/// A record that a repository stores as an object of a kind of its own.
pub trait RepoObject: Sized {
    /// The fields that the record is written as.
    spec fn spec_fields(&self) -> Seq<FieldView>;

    /// Whether fields are those of a record of this type.
    spec fn spec_is_fields(fs: Seq<FieldView>) -> bool;

    /// The kind under which records of this type are stored.
    fn kind() -> ObjectKind;

    /// The fields of the record.
    fn to_fields(&self) -> (fields: Vec<Field>)
        ensures
            spec_views(fields@) == self.spec_fields(),
    ;

    /// The record that the fields stand for; `None` where they are not the
    /// fields of a record of this type.
    fn from_fields(fields: &Vec<Field>) -> (r: Option<Self>)
        ensures
            r is Some <==> Self::spec_is_fields(spec_views(fields@)),
            r matches Some(record) ==> record.spec_fields() == spec_views(fields@),
    ;

    /// What is written of a record is read as a record.
    proof fn lemma_fields_valid(&self)
        ensures
            Self::spec_is_fields(self.spec_fields()),
    ;
}

/// What a backend knows of a stored object besides its bytes.
#[derive(Debug, Clone, Copy, PartialEq, Eq)]
pub struct ObjectMetadata {
    pub accessed: Option<crate::os::Timestamp>,
    pub created: Option<crate::os::Timestamp>,
    pub modified: Option<crate::os::Timestamp>,
    pub len: u64,
}

} // verus!
