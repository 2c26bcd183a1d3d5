//! What a second run over an unchanged tree reports.
//!
//! The digest of a file is a function of its content alone, so a second
//! run hashes the same files to the same digests. The hashed files may
//! arrive in another order, though, and the first arrival of a bucket is
//! its anchor. A bucket of two reports the same pair whichever member is
//! the anchor. A larger bucket reports each member against its anchor, so
//! the pairs stay the same as long as the anchor does.

use vstd::prelude::*;
use crate::buckets::{aggregate, bucket_insert, keep_shared, members_at};
use crate::candidate::HashedModel;
use crate::verify::{drive, lemma_drive_judges_every_member, CheckModel, Storage, Verdict};

verus! {

/// Whether a truthful run over `buckets` reports `first` and `second`, in
/// this order: `first` is the anchor of a bucket, `second` is one of its
/// other members, and the examination finds them duplicates.
pub open spec fn reports(
    buckets: Map<(u64, u64), Seq<Seq<u8>>>,
    storage: Storage,
    first: Seq<u8>,
    second: Seq<u8>,
) -> bool {
    exists|key: (u64, u64), j: int| #[trigger]
        reports_member(buckets, storage, key, j, first, second)
}

/// Whether a truthful run over `buckets` reports member `j` of the bucket
/// at `key`, and the pair reported is `first` and `second`.
pub open spec fn reports_member(
    buckets: Map<(u64, u64), Seq<Seq<u8>>>,
    storage: Storage,
    key: (u64, u64),
    j: int,
    first: Seq<u8>,
    second: Seq<u8>,
) -> bool {
    &&& buckets.contains_key(key)
    &&& 1 <= j < buckets[key].len()
    &&& buckets[key][0] == first
    &&& buckets[key][j] == second
    &&& drive(CheckModel::start(buckets[key]), storage)[j - 1] == Verdict::Duplicate
}

/// Whether a truthful run over `buckets` reports the two files as a pair,
/// in one order or the other.
pub open spec fn reports_pair(
    buckets: Map<(u64, u64), Seq<Seq<u8>>>,
    storage: Storage,
    one: Seq<u8>,
    other: Seq<u8>,
) -> bool {
    reports(buckets, storage, one, other) || reports(buckets, storage, other, one)
}

/// Whether every bucket of three or more members has the same anchor
/// after both runs.
pub open spec fn anchors_kept(first_run: Seq<HashedModel>, second_run: Seq<HashedModel>) -> bool {
    forall|key: (u64, u64)|
        (#[trigger] members_at(aggregate(first_run), key)).len() >= 3 ==> members_at(
            aggregate(first_run),
            key,
        )[0] == members_at(aggregate(second_run), key)[0]
}

/// A path stands in a bucket as often as the file with that path and the
/// bucket's size and digest has arrived.
proof fn lemma_members_counted(arrivals: Seq<HashedModel>, key: (u64, u64), path: Seq<u8>)
    ensures
        members_at(aggregate(arrivals), key).to_multiset().count(path)
            == arrivals.to_multiset().count(HashedModel { path, size: key.0, digest: key.1 }),
    decreases arrivals.len(),
{
    broadcast use {
        vstd::seq_lib::to_multiset_build,
        vstd::seq_lib::to_multiset_contains,
        vstd::multiset::group_multiset_axioms,
    };

    if arrivals.len() > 0 {
        let earlier = arrivals.drop_last();
        let last = arrivals.last();
        assert(arrivals =~= earlier.push(last));
        lemma_members_counted(earlier, key, path);
        assert(aggregate(arrivals) == bucket_insert(aggregate(earlier), last));
    }
}

/// The members of a bucket do not depend on the order of arrival: two
/// runs that hashed the same files to the same digests fill every bucket
/// with the same members, up to order.
pub proof fn lemma_rerun_keeps_members(
    first_run: Seq<HashedModel>,
    second_run: Seq<HashedModel>,
    key: (u64, u64),
)
    requires
        first_run.to_multiset() == second_run.to_multiset(),
    ensures
        members_at(aggregate(first_run), key).to_multiset() == members_at(
            aggregate(second_run),
            key,
        ).to_multiset(),
        members_at(aggregate(first_run), key).len() == members_at(aggregate(second_run), key).len(),
{
    let one = members_at(aggregate(first_run), key);
    let two = members_at(aggregate(second_run), key);
    assert forall|path: Seq<u8>| one.to_multiset().count(path) == two.to_multiset().count(
        path,
    ) by {
        lemma_members_counted(first_run, key, path);
        lemma_members_counted(second_run, key, path);
    }
    assert(one.to_multiset() =~= two.to_multiset());
    vstd::seq_lib::to_multiset_len(one);
    vstd::seq_lib::to_multiset_len(two);
}

/// A pair that the first run reports is reported by the second, in the
/// same order or the other.
proof fn lemma_report_survives(
    first_run: Seq<HashedModel>,
    second_run: Seq<HashedModel>,
    storage: Storage,
    first: Seq<u8>,
    second: Seq<u8>,
)
    requires
        first_run.to_multiset() == second_run.to_multiset(),
        anchors_kept(first_run, second_run),
        reports(keep_shared(aggregate(first_run)), storage, first, second),
    ensures
        reports_pair(keep_shared(aggregate(second_run)), storage, first, second),
{
    broadcast use {
        vstd::seq_lib::to_multiset_build,
        vstd::seq_lib::to_multiset_contains,
        vstd::seq_lib::to_multiset_remove,
        vstd::multiset::group_multiset_axioms,
    };

    let shared_one = keep_shared(aggregate(first_run));
    let shared_two = keep_shared(aggregate(second_run));
    let (key, j) = choose|key: (u64, u64), j: int| #[trigger]
        reports_member(shared_one, storage, key, j, first, second);
    let one = members_at(aggregate(first_run), key);
    let two = members_at(aggregate(second_run), key);
    assert(shared_one[key] == one);
    lemma_rerun_keeps_members(first_run, second_run, key);
    assert(shared_two.contains_key(key) && shared_two[key] == two);
    lemma_drive_judges_every_member(one, storage);
    lemma_drive_judges_every_member(two, storage);
    assert(storage.verdict(first, second) == Verdict::Duplicate);
    assert(storage.verdict(second, first) == Verdict::Duplicate);
    if two[0] == first {
        // The other members are the same, up to order.
        assert(one.remove(0).to_multiset() =~= two.remove(0).to_multiset());
        assert(one.remove(0)[j - 1] == second);
        assert(one.remove(0).contains(second));
        assert(one.remove(0).to_multiset().count(second) > 0);
        assert(two.remove(0).to_multiset().count(second) > 0);
        assert(two.remove(0).contains(second));
        let k = choose|k: int| 0 <= k < two.remove(0).len() && two.remove(0)[k] == second;
        assert(two[k + 1] == second);
        assert(reports_member(shared_two, storage, key, k + 1, first, second));
    } else {
        // A bucket of two with its members swapped.
        assert(one.len() == 2);
        assert(one =~= Seq::<Seq<u8>>::empty().push(first).push(second));
        assert(two =~= Seq::<Seq<u8>>::empty().push(two[0]).push(two[1]));
        assert(two[0] == second && two[1] == first) by {
            assert(one.to_multiset().count(two[0]) > 0);
            assert(two.to_multiset().count(first) > 0);
        }
        assert(reports_member(shared_two, storage, key, 1, second, first));
    }
}

/// A second run reports the same pairs. If two runs hashed the same
/// files to the same digests, in whatever order the results arrived, and
/// every bucket of three or more members has the same anchor in both,
/// then two files are reported as a pair by one run exactly if they are
/// by the other.
pub proof fn lemma_rerun_reports_same_pairs(
    first_run: Seq<HashedModel>,
    second_run: Seq<HashedModel>,
    storage: Storage,
)
    requires
        first_run.to_multiset() == second_run.to_multiset(),
        anchors_kept(first_run, second_run),
    ensures
        forall|one: Seq<u8>, other: Seq<u8>|
            reports_pair(keep_shared(aggregate(first_run)), storage, one, other) == reports_pair(
                keep_shared(aggregate(second_run)),
                storage,
                one,
                other,
            ),
{
    assert(anchors_kept(second_run, first_run)) by {
        assert forall|key: (u64, u64)|
            (#[trigger] members_at(aggregate(second_run), key)).len() >= 3 implies members_at(
                aggregate(second_run),
                key,
            )[0] == members_at(aggregate(first_run), key)[0] by {
            lemma_rerun_keeps_members(first_run, second_run, key);
            assert(members_at(aggregate(first_run), key).len() >= 3);
        }
    }
    assert forall|one: Seq<u8>, other: Seq<u8>|
        reports_pair(keep_shared(aggregate(first_run)), storage, one, other) == reports_pair(
            keep_shared(aggregate(second_run)),
            storage,
            one,
            other,
        ) by {
        let shared_one = keep_shared(aggregate(first_run));
        let shared_two = keep_shared(aggregate(second_run));
        if reports(shared_one, storage, one, other) {
            lemma_report_survives(first_run, second_run, storage, one, other);
        }
        if reports(shared_one, storage, other, one) {
            lemma_report_survives(first_run, second_run, storage, other, one);
        }
        if reports(shared_two, storage, one, other) {
            lemma_report_survives(second_run, first_run, storage, one, other);
        }
        if reports(shared_two, storage, other, one) {
            lemma_report_survives(second_run, first_run, storage, other, one);
        }
    }
}

} // verus!
