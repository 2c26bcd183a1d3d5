//! The records that travel through the pipeline.

use vstd::prelude::*;

verus! {

/// A discovered file that is worth looking at: where it is and how large.
#[derive(Debug, PartialEq, Eq)]
pub struct FileCandidate {
    /// Absolute path, as the bytes the operating system knows it by.
    pub path: Vec<u8>,
    /// Size in bytes.
    pub size: u64,
}

/// What a [`FileCandidate`] stands for in contracts.
pub struct CandidateModel {
    pub path: Seq<u8>,
    pub size: u64,
}

impl View for FileCandidate {
    type V = CandidateModel;

    open spec fn view(&self) -> CandidateModel {
        CandidateModel { path: self.path@, size: self.size }
    }
}

/// A file whose content has been digested.
#[derive(Debug, PartialEq, Eq)]
pub struct HashedFile {
    /// Absolute path, as the bytes the operating system knows it by.
    pub path: Vec<u8>,
    /// Size in bytes.
    pub size: u64,
    /// 64-bit digest of the whole content.
    pub digest: u64,
}

/// What a [`HashedFile`] stands for in contracts.
pub struct HashedModel {
    pub path: Seq<u8>,
    pub size: u64,
    pub digest: u64,
}

impl View for HashedFile {
    type V = HashedModel;

    open spec fn view(&self) -> HashedModel {
        HashedModel { path: self.path@, size: self.size, digest: self.digest }
    }
}

impl HashedModel {
    /// The key under which the file is grouped.
    pub open spec fn key(self) -> (u64, u64) {
        (self.size, self.digest)
    }
}

/// The models of a sequence of candidates, position by position.
pub open spec fn candidate_models(files: Seq<FileCandidate>) -> Seq<CandidateModel> {
    files.map_values(|c: FileCandidate| c@)
}

/// The models of a sequence of hashed files, position by position.
pub open spec fn hashed_models(files: Seq<HashedFile>) -> Seq<HashedModel> {
    files.map_values(|h: HashedFile| h@)
}

impl FileCandidate {
    /// Attaches a digest to the candidate.
    pub fn with_digest(self, digest: u64) -> (hashed: HashedFile)
        ensures
            hashed@ == (HashedModel { path: self@.path, size: self@.size, digest }),
    {
        HashedFile { path: self.path, size: self.size, digest }
    }
}

} // verus!
