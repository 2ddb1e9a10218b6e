//! Snapshots: the record of one backup.

use vstd::prelude::*;
use crate::id::Id;
use crate::os::{Timestamp, User};

verus! {

/// What the user attaches to a snapshot: values by name.
#[derive(Debug, Clone, PartialEq, Eq)]
pub struct UserData(pub Vec<(String, String)>);

/// One backup: the tree that was taken, and when, by whom and from where.
/// A snapshot never changes once it is written.
#[derive(Debug, Clone, PartialEq, Eq)]
pub struct Snapshot {
    pub time: Timestamp,
    pub parent: Option<Id>,
    pub tree: Id,
    pub user: User,
    /// The path that was taken, as raw bytes.
    pub root: Vec<u8>,
    pub tags: Vec<String>,
    pub user_data: UserData,
    pub name: Option<String>,
    pub description: Option<String>,
    pub id: Id,
}

impl UserData {
    /// No values.
    pub fn new() -> (r: Self)
        ensures
            r.0@.len() == 0,
    {
        UserData(Vec::new())
    }

    /// The number of values.
    pub fn len(&self) -> (r: usize)
        ensures
            r == self.0@.len(),
    {
        self.0.len()
    }
}


impl Snapshot {
    /// A snapshot of the tree `tree`, taken at `time` by `user` from
    /// `root`, with nothing else said of it.
    pub fn new(time: Timestamp, tree: Id, user: User, root: Vec<u8>) -> (r: Self)
        ensures
            r.time == time,
            r.tree == tree,
            r.user == user,
            r.root == root,
            r.parent is None,
            r.tags@.len() == 0,
            r.user_data.0@.len() == 0,
            r.name is None,
            r.description is None,
            r.id@ == Id::spec_zero()@,
    {
        Snapshot {
            time,
            parent: None,
            tree,
            user,
            root,
            tags: Vec::new(),
            user_data: UserData::new(),
            name: None,
            description: None,
            id: Id::zero(),
        }
    }
}

} // verus!
