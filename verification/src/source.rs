//! The source of candidates: where discovered entries come in and the
//! files to hash come out.
//!
//! Nothing is handed to hashing before the input is known to lie on the
//! filesystem that the run is meant for.

use vstd::prelude::*;
use crate::candidate::{candidate_models, CandidateModel, FileCandidate};
use crate::dispatch::{dispatch_step, DispatchFilter, DispatchModel};
use crate::options::{qualifies, CommandLineOpts, OptsModel};
use crate::progress::{incremented, ProgressCounters};

verus! {

/// Why the source takes no entries.
#[derive(Clone, Copy, Debug, PartialEq, Eq, Structural)]
pub enum SourceError {
    /// The input does not lie on the required filesystem.
    WrongFilesystem,
    /// The filesystem of the input has not been looked at yet.
    FilesystemUnchecked,
}

/// What a [`PathSource`] stands for in contracts.
pub struct SourceModel {
    /// The options of the run.
    pub opts: OptsModel,
    /// Whether the input was found to lie on the required filesystem.
    pub cleared: bool,
    /// The state of every file size.
    pub table: Map<u64, DispatchModel>,
}

/// The producing stage of a run: the size filter, the check of the
/// filesystem and the dispatch table.
pub struct PathSource {
    opts: CommandLineOpts,
    cleared: bool,
    filter: DispatchFilter,
}

impl View for PathSource {
    type V = SourceModel;

    closed spec fn view(&self) -> SourceModel {
        SourceModel { opts: self.opts@, cleared: self.cleared, table: self.filter@ }
    }
}

impl PathSource {
    /// A source that has seen nothing and has not been cleared.
    pub fn new(opts: CommandLineOpts) -> (source: PathSource)
        ensures
            source@ == (SourceModel { opts: opts@, cleared: false, table: Map::empty() }),
    {
        PathSource { opts, cleared: false, filter: DispatchFilter::new() }
    }

    /// The options that the source was made with.
    pub fn options(&self) -> (opts: &CommandLineOpts)
        ensures
            opts@ == self@.opts,
    {
        &self.opts
    }

    /// Whether the filesystem of the input is still to be looked at: that
    /// of the root directory, or of the first listed file.
    pub fn needs_check(&self) -> (needed: bool)
        ensures
            needed == !self@.cleared,
    {
        !self.cleared
    }

    /// Takes the finding on the filesystem of the input. An input on the
    /// required filesystem clears the source for good; any other is an
    /// error and leaves the source as it was.
    pub fn check_filesystem(&mut self, on_required_filesystem: bool) -> (checked: Result<
        (),
        SourceError,
    >)
        ensures
            checked == if on_required_filesystem {
                Ok::<(), SourceError>(())
            } else {
                Err::<(), SourceError>(SourceError::WrongFilesystem)
            },
            final(self)@ == (SourceModel {
                cleared: old(self)@.cleared || on_required_filesystem,
                ..old(self)@
            }),
    {
        if on_required_filesystem {
            self.cleared = true;
            Ok(())
        } else {
            Err(SourceError::WrongFilesystem)
        }
    }

    /// Takes one discovered entry and returns the files to hash now. A
    /// source that is not cleared takes nothing. A cleared source skips
    /// what is no regular file, empty, or smaller than the minimum size;
    /// any other file is counted as seen and offered to the dispatch
    /// table.
    pub fn discover(
        &mut self,
        path: Vec<u8>,
        regular_file: bool,
        size: u64,
        progress: &mut ProgressCounters,
    ) -> (forwarded: Result<Vec<FileCandidate>, SourceError>)
        ensures
            final(self)@.opts == old(self)@.opts,
            final(self)@.cleared == old(self)@.cleared,
            !old(self)@.cleared ==> {
                &&& forwarded == Err::<Vec<FileCandidate>, SourceError>(
                    SourceError::FilesystemUnchecked,
                )
                &&& final(self)@ == old(self)@
                &&& *final(progress) == *old(progress)
            },
            old(self)@.cleared && !(regular_file && qualifies(old(self)@.opts.min_size, size)) ==> {
                &&& forwarded is Ok
                &&& forwarded->Ok_0@.len() == 0
                &&& final(self)@ == old(self)@
                &&& *final(progress) == *old(progress)
            },
            old(self)@.cleared && regular_file && qualifies(old(self)@.opts.min_size, size) ==> {
                &&& forwarded is Ok
                &&& candidate_models(forwarded->Ok_0@) == dispatch_step(
                    old(self)@.table,
                    CandidateModel { path: path@, size },
                ).1
                &&& final(self)@.table == dispatch_step(
                    old(self)@.table,
                    CandidateModel { path: path@, size },
                ).0
                &&& *final(progress) == (ProgressCounters {
                    file_count: incremented(old(progress).file_count),
                    ..*old(progress)
                })
            },
    {
        if !self.cleared {
            return Err(SourceError::FilesystemUnchecked);
        }
        match self.opts.consider(path, regular_file, size, progress) {
            Some(candidate) => Ok(self.filter.offer(candidate)),
            None => Ok(Vec::new()),
        }
    }
}

} // verus!
