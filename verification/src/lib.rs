//! Content-addressable shared storage.
//!
//! A storage root holds data blobs, each named by the SHA-256 digest of its
//! bytes, its length and whether it is executable, together with named
//! indices: directory trees whose leaves are blob identifiers. This crate
//! holds the rules of such a storage as verified code: how a blob is named
//! and where it lies, how a directory tree is walked and grown and what
//! document describes it, how claims on a resource budget are admitted, and
//! how an import reacts to each event of its producer. Reading, writing and
//! scheduling are left to the caller.

mod error;
pub use error::Error;

mod traits;
pub use traits::{ResourceAllocation, ResourceClaimResult, ResourceProvider};

pub mod entry;
pub mod import;
pub mod storage;
pub mod util;
