//! A content-addressed, deduplicating, encrypted backup repository: the
//! object pipeline and the repository coordination layer.
//!
//! Data is cut into chunks where its content says so ([`process::chunk`]).
//! Each chunk is compressed, encrypted and tagged on its way into the
//! repository, and checked, decrypted and decompressed on its way out
//! ([`process::pipeline`]). Objects are stored under the keyed hash of
//! their content ([`process::identify`]) in a backend that keeps bytes by
//! kind and identifier ([`backend`]). The master key of a repository is
//! stored wrapped under a key derived from a password ([`obj::key`]). A
//! repository is opened, decrypted and locked, in that order, and a lock is
//! granted only where the locks of other sessions admit it ([`repo`]). The
//! entries of a source are gathered into a tree, whatever the order in
//! which they arrive ([`process::tree`]).
//!
//! What the library computes is stated in contracts and proved. What it
//! takes from other crates (BLAKE3, ChaCha20, Brotli, Argon2, random
//! bytes, the wiping of memory) stands behind a small function each, whose
//! contract is believed; each says so in its documentation.

pub mod backend;
pub mod id;
pub mod obj;
pub mod opts;
pub mod os;
pub mod path;
pub mod process;
pub mod repo;
pub mod secret;
pub mod source;
