//! Verification of a bucket before anything is reported.
//!
//! The first member of a bucket is its anchor. Every other member is
//! examined against the anchor, first for equal content, then, if the
//! content is equal, for equal extents. The examinations themselves read
//! files and are done by the caller; this module decides what to examine
//! next and what follows from each answer.

use vstd::prelude::*;
use crate::buckets::{
    aggregate, arrived_in_order, filed_at, lemma_bucket_members_arrived, members_at, Bucket,
};
use crate::candidate::HashedModel;
use crate::extents::Extent;
use crate::paths::{append_terminated, encoded_pair, path_models};
use crate::progress::{incremented, ProgressCounters};

verus! {

/// What is to be examined of a pair of files.
#[derive(Clone, Copy, Debug, PartialEq, Eq, Structural)]
pub enum Probe {
    /// Whether the two files have the same content, byte for byte.
    Content,
    /// Whether the two files have the same extents.
    Extents,
}

/// What the examination of a pair has shown.
#[derive(Clone, Copy, Debug, PartialEq, Eq, Structural)]
pub enum Verdict {
    /// Equal size and digest, different content.
    Collision,
    /// Equal content that already shares its storage.
    AlreadyMerged,
    /// Equal content on separate storage: a candidate for merging.
    Duplicate,
}

/// What a [`BucketCheck`] stands for in contracts.
pub struct CheckModel {
    /// The members of the bucket; the first one is the anchor.
    pub paths: Seq<Seq<u8>>,
    /// Index of the member under examination.
    pub member: nat,
    /// What is asked of that member next.
    pub probe: Probe,
}

impl CheckModel {
    /// The check of a bucket before any answer.
    pub open spec fn start(paths: Seq<Seq<u8>>) -> CheckModel {
        CheckModel { paths, member: 1, probe: Probe::Content }
    }

    /// Whether an answer is awaited.
    pub open spec fn pending(self) -> bool {
        1 <= self.member < self.paths.len()
    }

    pub open spec fn anchor(self) -> Seq<u8> {
        self.paths[0]
    }

    /// The member under examination.
    pub open spec fn other(self) -> Seq<u8> {
        self.paths[self.member as int]
    }

    /// The verdict that the answer `same` settles, if it settles one.
    pub open spec fn settled(self, same: bool) -> Option<Verdict> {
        if !self.pending() {
            None
        } else {
            match self.probe {
                Probe::Content => if same {
                    None
                } else {
                    Some(Verdict::Collision)
                },
                Probe::Extents => if same {
                    Some(Verdict::AlreadyMerged)
                } else {
                    Some(Verdict::Duplicate)
                },
            }
        }
    }

    /// The check after the answer `same`.
    pub open spec fn answered(self, same: bool) -> CheckModel {
        if !self.pending() {
            self
        } else if self.settled(same) is Some {
            CheckModel { paths: self.paths, member: self.member + 1, probe: Probe::Content }
        } else {
            CheckModel { paths: self.paths, member: self.member, probe: Probe::Extents }
        }
    }
}

/// The counters after a verdict, or after none.
pub open spec fn counted(counters: ProgressCounters, verdict: Option<Verdict>) -> ProgressCounters {
    match verdict {
        None => counters,
        Some(Verdict::Collision) => ProgressCounters {
            hash_collision_count: incremented(counters.hash_collision_count),
            ..counters
        },
        Some(Verdict::AlreadyMerged) => ProgressCounters {
            reflinked_count: incremented(counters.reflinked_count),
            ..counters
        },
        Some(Verdict::Duplicate) => ProgressCounters {
            duplicate_candidate_count: incremented(counters.duplicate_candidate_count),
            ..counters
        },
    }
}

/// The bytes that a verdict adds to the output. A duplicate adds the
/// pair, anything else adds nothing.
pub open spec fn emitted(verdict: Option<Verdict>, anchor: Seq<u8>, other: Seq<u8>) -> Seq<u8> {
    if verdict == Some(Verdict::Duplicate) {
        encoded_pair(anchor, other)
    } else {
        Seq::empty()
    }
}

/// The examination of one bucket, member by member.
pub struct BucketCheck {
    paths: Vec<Vec<u8>>,
    member: usize,
    probe: Probe,
}

impl View for BucketCheck {
    type V = CheckModel;

    closed spec fn view(&self) -> CheckModel {
        CheckModel { paths: path_models(self.paths@), member: self.member as nat, probe: self.probe }
    }
}

impl BucketCheck {
    /// Begins the examination of `bucket`: its second member is to be
    /// compared with the anchor for content.
    pub fn new(bucket: Bucket) -> (check: BucketCheck)
        ensures
            check@ == CheckModel::start(bucket@.paths),
    {
        BucketCheck { paths: bucket.paths, member: 1, probe: Probe::Content }
    }

    /// What the caller is to find out next: the probe, the anchor and the
    /// member to hold against it. `None` when the bucket is done.
    pub fn query(&self) -> (pending: Option<(Probe, &Vec<u8>, &Vec<u8>)>)
        ensures
            pending is Some == self@.pending(),
            match pending {
                Some((probe, anchor, other)) => {
                    &&& probe == self@.probe
                    &&& anchor@ == self@.anchor()
                    &&& other@ == self@.other()
                },
                None => true,
            },
    {
        if 1 <= self.member && self.member < self.paths.len() {
            Some((self.probe, &self.paths[0], &self.paths[self.member]))
        } else {
            None
        }
    }

    /// Takes the answer to the pending probe: whether the two files are
    /// the same in that respect. Different content settles a collision.
    /// Equal content asks for the extents next; equal extents settle that
    /// the pair is merged already, different ones that it is a duplicate.
    /// A settled verdict is counted, a duplicate is written to `output`,
    /// and the examination moves on to the next member. When nothing is
    /// pending, nothing changes.
    pub fn answer(
        &mut self,
        same: bool,
        progress: &mut ProgressCounters,
        output: &mut Vec<u8>,
    ) -> (verdict: Option<Verdict>)
        ensures
            verdict == old(self)@.settled(same),
            final(self)@ == old(self)@.answered(same),
            *final(progress) == counted(*old(progress), verdict),
            final(output)@ == old(output)@ + emitted(
                verdict,
                old(self)@.anchor(),
                old(self)@.other(),
            ),
    {
        if !(1 <= self.member && self.member < self.paths.len()) {
            assert(output@ =~= old(output)@ + Seq::<u8>::empty());
            return None;
        }
        let verdict = match self.probe {
            Probe::Content => if same {
                None
            } else {
                Some(Verdict::Collision)
            },
            Probe::Extents => if same {
                Some(Verdict::AlreadyMerged)
            } else {
                Some(Verdict::Duplicate)
            },
        };
        match verdict {
            None => {
                self.probe = Probe::Extents;
                assert(output@ =~= old(output)@ + Seq::<u8>::empty());
            },
            Some(Verdict::Collision) => {
                progress.collision_found();
                assert(output@ =~= old(output)@ + Seq::<u8>::empty());
            },
            Some(Verdict::AlreadyMerged) => {
                progress.reflinked_found();
                assert(output@ =~= old(output)@ + Seq::<u8>::empty());
            },
            Some(Verdict::Duplicate) => {
                progress.duplicate_found();
                append_terminated(output, self.paths[0].as_slice());
                append_terminated(output, self.paths[self.member].as_slice());
                assert(output@ =~= old(output)@ + encoded_pair(
                    old(self)@.anchor(),
                    old(self)@.other(),
                ));
            },
        }
        if verdict.is_some() {
            self.member = self.member + 1;
            self.probe = Probe::Content;
        }
        verdict
    }
}

/// What is true of the files on storage, as far as verification asks: the
/// content and the extents behind every path.
pub struct Storage {
    pub content: Map<Seq<u8>, Seq<u8>>,
    pub extents: Map<Seq<u8>, Seq<Extent>>,
}

impl Storage {
    /// The true answer to the probe that `check` awaits.
    pub open spec fn truth(self, check: CheckModel) -> bool {
        match check.probe {
            Probe::Content => self.content[check.anchor()] == self.content[check.other()],
            Probe::Extents => self.extents[check.anchor()] == self.extents[check.other()],
        }
    }

    /// The verdict that two files deserve.
    pub open spec fn verdict(self, anchor: Seq<u8>, other: Seq<u8>) -> Verdict {
        if self.content[anchor] != self.content[other] {
            Verdict::Collision
        } else if self.extents[anchor] == self.extents[other] {
            Verdict::AlreadyMerged
        } else {
            Verdict::Duplicate
        }
    }
}

/// The verdicts that are settled, in order, when every probe from `check`
/// on is answered with the truth until nothing is pending.
pub open spec fn drive(check: CheckModel, storage: Storage) -> Seq<Verdict>
    decreases
            check.paths.len() - check.member,
            (if check.probe is Content {
                1nat
            } else {
                0nat
            }),
{
    if !check.pending() {
        Seq::empty()
    } else {
        let same = storage.truth(check);
        let rest = drive(check.answered(same), storage);
        match check.settled(same) {
            Some(verdict) => seq![verdict] + rest,
            None => rest,
        }
    }
}

proof fn lemma_drive_from(paths: Seq<Seq<u8>>, member: nat, storage: Storage)
    requires
        1 <= member,
    ensures
        drive(CheckModel { paths, member, probe: Probe::Content }, storage).len() == if member
            < paths.len() {
            paths.len() - member
        } else {
            0
        },
        forall|j: int|
            member <= j < paths.len() ==> #[trigger] drive(
                CheckModel { paths, member, probe: Probe::Content },
                storage,
            )[j - member] == storage.verdict(paths[0], paths[j]),
    decreases paths.len() - member,
{
    reveal_with_fuel(drive, 3);
    if member < paths.len() {
        lemma_drive_from(paths, member + 1, storage);
        let here = CheckModel { paths, member, probe: Probe::Content };
        let next = CheckModel { paths, member: member + 1, probe: Probe::Content };
        let rest = drive(next, storage);
        assert(drive(here, storage) =~= seq![storage.verdict(paths[0], paths[member as int])]
            + rest);
        assert forall|j: int| member <= j < paths.len() implies #[trigger] drive(here, storage)[j
            - member] == storage.verdict(paths[0], paths[j]) by {
            if j > member {
                assert(drive(here, storage)[j - member] == rest[j - (member + 1)]);
            }
        }
    }
}

/// A truthful examination of a bucket settles one verdict for every
/// member behind the anchor, in order, and each is the verdict that the
/// anchor and that member deserve.
pub proof fn lemma_drive_judges_every_member(paths: Seq<Seq<u8>>, storage: Storage)
    ensures
        drive(CheckModel::start(paths), storage).len() == if paths.len() == 0 {
            0
        } else {
            paths.len() - 1
        },
        forall|j: int|
            1 <= j < paths.len() ==> #[trigger] drive(CheckModel::start(paths), storage)[j - 1]
                == storage.verdict(paths[0], paths[j]),
{
    lemma_drive_from(paths, 1, storage);
}

/// A bucket with a single member, or with none, awaits no answer, settles
/// nothing and contributes nothing to the output.
pub proof fn lemma_lone_member_reports_nothing(paths: Seq<Seq<u8>>, storage: Storage, same: bool)
    requires
        paths.len() <= 1,
    ensures
        !CheckModel::start(paths).pending(),
        CheckModel::start(paths).settled(same) is None,
        emitted(
            CheckModel::start(paths).settled(same),
            CheckModel::start(paths).anchor(),
            CheckModel::start(paths).other(),
        ) == Seq::<u8>::empty(),
        drive(CheckModel::start(paths), storage) == Seq::<Verdict>::empty(),
{
}

/// Every pair that a truthful run reports is genuine. If the examination
/// of a bucket settles that its member `j` is a duplicate of the anchor,
/// then the two paths were filed by two arrivals of one size and one
/// digest, the two files have the same content, and their extents differ.
pub proof fn lemma_reported_pairs_are_genuine(
    arrivals: Seq<HashedModel>,
    storage: Storage,
    key: (u64, u64),
    j: int,
)
    requires
        1 <= j < members_at(aggregate(arrivals), key).len(),
        drive(CheckModel::start(members_at(aggregate(arrivals), key)), storage)[j - 1]
            == Verdict::Duplicate,
    ensures
        exists|a: int, b: int|
            a < b && #[trigger] filed_at(
                arrivals,
                a,
                key,
                members_at(aggregate(arrivals), key)[0],
            ) && #[trigger] filed_at(arrivals, b, key, members_at(aggregate(arrivals), key)[j])
                && arrivals[a].size == arrivals[b].size && arrivals[a].digest
                == arrivals[b].digest,
        storage.content[members_at(aggregate(arrivals), key)[0]]
            == storage.content[members_at(aggregate(arrivals), key)[j]],
        storage.extents[members_at(aggregate(arrivals), key)[0]]
            != storage.extents[members_at(aggregate(arrivals), key)[j]],
{
    let paths = members_at(aggregate(arrivals), key);
    lemma_drive_judges_every_member(paths, storage);
    lemma_bucket_members_arrived(arrivals, key);
    assert(arrived_in_order(arrivals, key, paths[0], paths[j]));
    let (a, b) = choose|a: int, b: int|
        a < b && #[trigger] filed_at(arrivals, a, key, paths[0]) && #[trigger] filed_at(
            arrivals,
            b,
            key,
            paths[j],
        );
    assert(arrivals[a].key() == arrivals[b].key());
}

} // verus!
