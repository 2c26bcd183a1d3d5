//! The options of a run and the filter that they put on discovered files.

use vstd::prelude::*;
use crate::candidate::{CandidateModel, FileCandidate};
use crate::progress::ProgressCounters;

verus! {

/// Command line arguments.
#[derive(Debug, PartialEq, Eq)]
pub struct CommandLineOpts {
    /// Input directory tree; if not set, NUL terminated paths are taken
    /// from the standard input.
    pub dir: Option<Vec<u8>>,
    /// Minimum file size in bytes to consider.
    pub min_size: Option<u64>,
}

/// What [`CommandLineOpts`] stand for in contracts.
pub struct OptsModel {
    pub dir: Option<Seq<u8>>,
    pub min_size: Option<u64>,
}

impl View for CommandLineOpts {
    type V = OptsModel;

    open spec fn view(&self) -> OptsModel {
        OptsModel {
            dir: match self.dir {
                Some(dir) => Some(dir@),
                None => None,
            },
            min_size: self.min_size,
        }
    }
}

/// Whether a file of `size` bytes is worth looking at: it is not empty
/// and not smaller than the minimum, where one is set.
pub open spec fn qualifies(min_size: Option<u64>, size: u64) -> bool {
    size != 0 && match min_size {
        Some(least) => size >= least,
        None => true,
    }
}

impl CommandLineOpts {
    /// Whether a file of `size` bytes passes the size filter. Empty files
    /// never pass. With a minimum size, smaller files do not pass and a
    /// file of exactly that size does, unless it is empty.
    pub fn accepts_size(&self, size: u64) -> (accepted: bool)
        ensures
            accepted == qualifies(self.min_size, size),
            size == 0 ==> !accepted,
            forall|least: u64| self.min_size == Some(least) && size < least ==> !accepted,
            forall|least: u64| self.min_size == Some(least) && size == least && size != 0 ==> accepted,
    {
        if size == 0 {
            return false;
        }
        match self.min_size {
            Some(least) => size >= least,
            None => true,
        }
    }

    /// Decides on one discovered entry. A regular file that passes the
    /// size filter becomes a candidate and is counted as seen; anything
    /// else is skipped and leaves the counters alone.
    pub fn consider(
        &self,
        path: Vec<u8>,
        regular_file: bool,
        size: u64,
        progress: &mut ProgressCounters,
    ) -> (candidate: Option<FileCandidate>)
        ensures
            candidate is Some == (regular_file && qualifies(self.min_size, size)),
            match candidate {
                Some(file) => {
                    &&& file@ == (CandidateModel { path: path@, size })
                    &&& *final(progress) == (ProgressCounters {
                        file_count: crate::progress::incremented(old(progress).file_count),
                        ..*old(progress)
                    })
                },
                None => *final(progress) == *old(progress),
            },
    {
        if !regular_file || !self.accepts_size(size) {
            return None;
        }
        progress.file_seen();
        Some(FileCandidate { path, size })
    }
}

} // verus!
