//! Deferred dispatch: a file is handed to hashing only once a second file
//! of the same size has been seen.
//!
//! A file whose size is unique among all that were offered can have no
//! duplicate, so it is never hashed.

use std::collections::HashMap;
use vstd::prelude::*;
use crate::candidate::{candidate_models, CandidateModel, FileCandidate};

verus! {

broadcast use vstd::std_specs::hash::group_hash_axioms;

/// What is known about one file size.
#[derive(Debug, PartialEq, Eq)]
pub enum DispatchState {
    /// No file of this size has been offered.
    Unseen,
    /// Exactly one file of this size has been offered; it is held back.
    PendingFirst(FileCandidate),
    /// Two or more files of this size have been offered and forwarded.
    Dispatched,
}

/// What a [`DispatchState`] stands for in contracts.
pub enum DispatchModel {
    Unseen,
    PendingFirst(CandidateModel),
    Dispatched,
}

impl View for DispatchState {
    type V = DispatchModel;

    open spec fn view(&self) -> DispatchModel {
        match self {
            DispatchState::Unseen => DispatchModel::Unseen,
            DispatchState::PendingFirst(c) => DispatchModel::PendingFirst(c@),
            DispatchState::Dispatched => DispatchModel::Dispatched,
        }
    }
}

/// The state of `size` in a table; a size without an entry is unseen.
pub open spec fn state_at(table: Map<u64, DispatchModel>, size: u64) -> DispatchModel {
    if table.contains_key(size) {
        table[size]
    } else {
        DispatchModel::Unseen
    }
}

/// One transition of the filter: the table after `candidate` was offered,
/// and the files forwarded to hashing on that account, in order.
pub open spec fn dispatch_step(table: Map<u64, DispatchModel>, candidate: CandidateModel) -> (
    Map<u64, DispatchModel>,
    Seq<CandidateModel>,
) {
    match state_at(table, candidate.size) {
        DispatchModel::Unseen => (
            table.insert(candidate.size, DispatchModel::PendingFirst(candidate)),
            Seq::empty(),
        ),
        DispatchModel::PendingFirst(previous) => (
            table.insert(candidate.size, DispatchModel::Dispatched),
            seq![previous, candidate],
        ),
        DispatchModel::Dispatched => (
            table.insert(candidate.size, DispatchModel::Dispatched),
            seq![candidate],
        ),
    }
}

/// The filter after a whole sequence of candidates was offered to an empty
/// one: the final table, and everything forwarded, in order.
pub open spec fn dispatch_run(candidates: Seq<CandidateModel>) -> (
    Map<u64, DispatchModel>,
    Seq<CandidateModel>,
)
    decreases candidates.len(),
{
    if candidates.len() == 0 {
        (Map::empty(), Seq::empty())
    } else {
        let before = dispatch_run(candidates.drop_last());
        let step = dispatch_step(before.0, candidates.last());
        (step.0, before.1 + step.1)
    }
}

/// How many of `candidates` have the size `size`.
pub open spec fn size_count(candidates: Seq<CandidateModel>, size: u64) -> nat
    decreases candidates.len(),
{
    if candidates.len() == 0 {
        0
    } else {
        size_count(candidates.drop_last(), size) + if candidates.last().size == size {
            1nat
        } else {
            0nat
        }
    }
}

/// How often `file` occurs in `candidates`.
pub open spec fn occurrences(candidates: Seq<CandidateModel>, file: CandidateModel) -> nat
    decreases candidates.len(),
{
    if candidates.len() == 0 {
        0
    } else {
        occurrences(candidates.drop_last(), file) + if candidates.last() == file {
            1nat
        } else {
            0nat
        }
    }
}

/// The size-keyed table of the dispatch filter.
pub struct DispatchFilter {
    table: HashMap<u64, DispatchState>,
}

impl View for DispatchFilter {
    type V = Map<u64, DispatchModel>;

    closed spec fn view(&self) -> Map<u64, DispatchModel> {
        self.table@.map_values(|s: DispatchState| s@)
    }
}

impl DispatchFilter {
    /// A filter that has seen no file.
    pub fn new() -> (filter: DispatchFilter)
        ensures
            filter@ == Map::<u64, DispatchModel>::empty(),
    {
        let filter = DispatchFilter { table: HashMap::new() };
        assert(filter@ =~= Map::<u64, DispatchModel>::empty());
        filter
    }

    /// Offers one candidate and returns the files to hash now: none for
    /// the first file of its size, that first file and this one for the
    /// second, this one alone from the third on.
    pub fn offer(&mut self, candidate: FileCandidate) -> (forwarded: Vec<FileCandidate>)
        ensures
            final(self)@ == dispatch_step(old(self)@, candidate@).0,
            candidate_models(forwarded@) == dispatch_step(old(self)@, candidate@).1,
    {
        let size = candidate.size;
        let ghost model = candidate@;
        let ghost before = self.table@;
        let prior = self.table.remove(&size);
        let forwarded = match prior {
            Some(DispatchState::PendingFirst(previous)) => {
                self.table.insert(size, DispatchState::Dispatched);
                vec![previous, candidate]
            },
            Some(DispatchState::Dispatched) => {
                self.table.insert(size, DispatchState::Dispatched);
                vec![candidate]
            },
            _ => {
                self.table.insert(size, DispatchState::PendingFirst(candidate));
                Vec::new()
            },
        };
        proof {
            let step = dispatch_step(before.map_values(|s: DispatchState| s@), model);
            assert(self@ =~= step.0);
            assert(candidate_models(forwarded@) =~= step.1);
        }
        forwarded
    }
}

/// Offers every candidate in turn to a fresh filter and returns all that
/// it forwards, in order.
pub fn dispatch_all(candidates: Vec<FileCandidate>) -> (forwarded: Vec<FileCandidate>)
    ensures
        candidate_models(forwarded@) == dispatch_run(candidate_models(candidates@)).1,
{
    let mut filter = DispatchFilter::new();
    let mut forwarded: Vec<FileCandidate> = Vec::new();
    let ghost all = candidate_models(candidates@);
    for candidate in it: candidates
        invariant
            all == candidate_models(candidates@),
            filter@ == dispatch_run(all.take(it.index() as int)).0,
            candidate_models(forwarded@) == dispatch_run(all.take(it.index() as int)).1,
    {
        let ghost done = all.take(it.index() as int);
        let ghost next = all.take(it.index() + 1);
        assert(next.drop_last() =~= done);
        assert(next.last() == candidate@);
        let ghost earlier = forwarded@;
        let mut more = filter.offer(candidate);
        forwarded.append(&mut more);
        assert(candidate_models(forwarded@) =~= candidate_models(earlier) + dispatch_step(
            dispatch_run(done).0,
            next.last(),
        ).1);
    }
    assert(all.take(candidates@.len() as int) =~= all);
    forwarded
}

/// Whether `file` shares its size with another of `candidates`.
pub open spec fn has_size_peer(candidates: Seq<CandidateModel>, file: CandidateModel) -> bool {
    size_count(candidates, file.size) >= 2
}

/// The candidates that share their size with another one, in the order in
/// which they were offered.
pub open spec fn hashable(candidates: Seq<CandidateModel>) -> Seq<CandidateModel> {
    candidates.filter(|c: CandidateModel| has_size_peer(candidates, c))
}

/// The state that a table must hold for `size` after `candidates` were
/// offered.
spec fn table_agrees(
    candidates: Seq<CandidateModel>,
    table: Map<u64, DispatchModel>,
    size: u64,
) -> bool {
    match state_at(table, size) {
        DispatchModel::Unseen => size_count(candidates, size) == 0,
        DispatchModel::PendingFirst(held) => {
            &&& size_count(candidates, size) == 1
            &&& held.size == size
            &&& forall|x: CandidateModel|
                x.size == size ==> #[trigger] candidates.to_multiset().count(x) == if x == held {
                    1nat
                } else {
                    0nat
                }
        },
        DispatchModel::Dispatched => size_count(candidates, size) >= 2,
    }
}

spec fn run_invariant(candidates: Seq<CandidateModel>) -> bool {
    let run = dispatch_run(candidates);
    &&& forall|size: u64| #[trigger] table_agrees(candidates, run.0, size)
    &&& forall|file: CandidateModel| #[trigger]
        run.1.to_multiset().count(file) == if has_size_peer(candidates, file) {
            candidates.to_multiset().count(file)
        } else {
            0nat
        }
}

proof fn lemma_count_within_size(candidates: Seq<CandidateModel>, file: CandidateModel)
    ensures
        candidates.to_multiset().count(file) <= size_count(candidates, file.size),
    decreases candidates.len(),
{
    broadcast use {
        vstd::seq_lib::to_multiset_build,
        vstd::seq_lib::to_multiset_contains,
        vstd::multiset::group_multiset_axioms,
    };

    if candidates.len() > 0 {
        let earlier = candidates.drop_last();
        assert(candidates =~= earlier.push(candidates.last()));
        lemma_count_within_size(earlier, file);
    }
}

proof fn lemma_short_counts(first: CandidateModel, second: CandidateModel, file: CandidateModel)
    ensures
        Seq::<CandidateModel>::empty().to_multiset().count(file) == 0,
        seq![second].to_multiset().count(file) == if file == second {
            1nat
        } else {
            0nat
        },
        seq![first, second].to_multiset().count(file) == (if file == first {
            1nat
        } else {
            0nat
        }) + (if file == second {
            1nat
        } else {
            0nat
        }),
{
    broadcast use {
        vstd::seq_lib::to_multiset_build,
        vstd::seq_lib::to_multiset_contains,
        vstd::multiset::group_multiset_axioms,
    };

    let none = Seq::<CandidateModel>::empty();
    assert(seq![second] =~= none.push(second));
    assert(seq![first, second] =~= none.push(first).push(second));
}

proof fn lemma_run_invariant(candidates: Seq<CandidateModel>)
    ensures
        run_invariant(candidates),
    decreases candidates.len(),
{
    broadcast use {
        vstd::seq_lib::to_multiset_build,
        vstd::seq_lib::to_multiset_contains,
        vstd::seq_lib::lemma_multiset_commutative,
        vstd::multiset::group_multiset_axioms,
    };

    let run = dispatch_run(candidates);
    if candidates.len() == 0 {
        assert forall|size: u64| #[trigger] table_agrees(candidates, run.0, size) by {}
    } else {
        let earlier = candidates.drop_last();
        let last = candidates.last();
        lemma_run_invariant(earlier);
        assert(candidates =~= earlier.push(last));
        let before = dispatch_run(earlier);
        let step = dispatch_step(before.0, last);
        assert(table_agrees(earlier, before.0, last.size));
        assert forall|size: u64| #[trigger] table_agrees(candidates, run.0, size) by {
            assert(table_agrees(earlier, before.0, size));
            if size == last.size {
                if state_at(before.0, size) is Unseen {
                    assert forall|x: CandidateModel| x.size == size implies #[trigger]
                        candidates.to_multiset().count(x) == if x == last {
                            1nat
                        } else {
                            0nat
                        } by {
                        lemma_count_within_size(earlier, x);
                    }
                }
            }
        }
        assert forall|file: CandidateModel| #[trigger]
            run.1.to_multiset().count(file) == if has_size_peer(candidates, file) {
                candidates.to_multiset().count(file)
            } else {
                0nat
            } by {
            assert(table_agrees(earlier, before.0, file.size));
            match state_at(before.0, last.size) {
                DispatchModel::PendingFirst(held) => lemma_short_counts(held, last, file),
                _ => lemma_short_counts(last, last, file),
            }
            lemma_count_within_size(earlier, file);
        }
    }
}

proof fn lemma_filter_count(
    files: Seq<CandidateModel>,
    keep: spec_fn(CandidateModel) -> bool,
    file: CandidateModel,
)
    ensures
        files.filter(keep).to_multiset().count(file) == if keep(file) {
            files.to_multiset().count(file)
        } else {
            0nat
        },
    decreases files.len(),
{
    broadcast use {
        vstd::seq_lib::to_multiset_build,
        vstd::seq_lib::to_multiset_contains,
        vstd::multiset::group_multiset_axioms,
    };

    reveal(Seq::filter);
    if files.len() > 0 {
        let earlier = files.drop_last();
        assert(files =~= earlier.push(files.last()));
        lemma_filter_count(earlier, keep, file);
    }
}

/// Only files with a size peer are hashed, and all of them are: whatever
/// the order in which candidates are offered, the files forwarded are, up
/// to order, exactly the candidates whose size occurs at least twice. A
/// size that occurs once leaves its file pending in the table.
pub proof fn lemma_hashes_exactly_size_peers(candidates: Seq<CandidateModel>)
    ensures
        forall|i: int|
            0 <= i < dispatch_run(candidates).1.len() ==> has_size_peer(
                candidates,
                #[trigger] dispatch_run(candidates).1[i],
            ),
        dispatch_run(candidates).1.to_multiset() == hashable(candidates).to_multiset(),
        dispatch_run(candidates).1.len() == hashable(candidates).len(),
        dispatch_run(candidates).1.len() <= candidates.len(),
        forall|size: u64|
            (#[trigger] state_at(dispatch_run(candidates).0, size) is Unseen) == (size_count(
                candidates,
                size,
            ) == 0),
        forall|size: u64|
            (#[trigger] state_at(dispatch_run(candidates).0, size) is PendingFirst) == (
            size_count(candidates, size) == 1),
        forall|size: u64|
            (#[trigger] state_at(dispatch_run(candidates).0, size) is Dispatched) == (size_count(
                candidates,
                size,
            ) >= 2),
{
    broadcast use {
        vstd::seq_lib::to_multiset_contains,
        vstd::seq_lib::to_multiset_len,
        vstd::multiset::group_multiset_axioms,
    };

    let run = dispatch_run(candidates);
    let keep = |c: CandidateModel| has_size_peer(candidates, c);
    lemma_run_invariant(candidates);
    assert forall|file: CandidateModel|
        run.1.to_multiset().count(file) == #[trigger] hashable(candidates).to_multiset().count(
            file,
        ) by {
        lemma_filter_count(candidates, keep, file);
    }
    assert(run.1.to_multiset() =~= hashable(candidates).to_multiset());
    vstd::seq_lib::to_multiset_len(run.1);
    vstd::seq_lib::to_multiset_len(hashable(candidates));
    assert(hashable(candidates).len() <= candidates.len()) by {
        broadcast use vstd::seq_lib::group_filter_ensures;

    }
    assert forall|i: int| 0 <= i < run.1.len() implies has_size_peer(
        candidates,
        #[trigger] run.1[i],
    ) by {
        assert(run.1.contains(run.1[i]));
        assert(run.1.to_multiset().count(run.1[i]) > 0);
    }
    assert forall|size: u64|
        (#[trigger] state_at(run.0, size) is Unseen) == (size_count(candidates, size) == 0) by {
        assert(table_agrees(candidates, run.0, size));
    }
    assert forall|size: u64|
        (#[trigger] state_at(run.0, size) is PendingFirst) == (size_count(candidates, size)
            == 1) by {
        assert(table_agrees(candidates, run.0, size));
    }
    assert forall|size: u64|
        (#[trigger] state_at(run.0, size) is Dispatched) == (size_count(candidates, size)
            >= 2) by {
        assert(table_agrees(candidates, run.0, size));
    }
}

} // verus!
