//! Finding files with identical content that do not yet share storage.
//!
//! The crate holds the decisions of a duplicate finder for copy-on-write
//! filesystems, stage by stage:
//!
//! - [`source`] takes discovered entries, filters them by size and hands
//!   a file to hashing only once a second file of its size has shown up
//!   ([`options`], [`dispatch`]);
//! - [`digest`] computes the content digest of a file, chunk by chunk;
//! - [`buckets`] groups hashed files by size and digest;
//! - [`verify`] walks through a bucket and decides, from what the caller
//!   finds out about content ([`content`]) and extents ([`extents`]),
//!   which pairs are reported ([`paths`]) and what is counted
//!   ([`progress`]);
//! - [`rerun`] states what a second run over the same files reports.
//!
//! Reading directories and files is left to the caller, who hands in
//! plain values and acts on what comes back.

pub mod buckets;
pub mod candidate;
pub mod content;
pub mod digest;
pub mod dispatch;
pub mod extents;
pub mod options;
pub mod paths;
pub mod progress;
pub mod rerun;
pub mod source;
pub mod verify;
