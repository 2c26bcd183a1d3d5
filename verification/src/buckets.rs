//! Grouping hashed files by size and digest.
//!
//! Files arrive in no particular order. Each joins the bucket of its
//! `(size, digest)` key, behind those that arrived before it. A bucket
//! with a single member says nothing about duplicates and is dropped
//! before verification.

use multimap::MultiMap;
use vstd::prelude::*;
use crate::candidate::{hashed_models, HashedFile, HashedModel};
use crate::paths::path_models;

verus! {

/// `multimap::MultiMap`, a hash map from keys to vectors of values.
/// Nothing inside a value is visible to the verifier.
#[verifier::external_type_specification]
#[verifier::external_body]
#[verifier::reject_recursive_types(K)]
#[verifier::reject_recursive_types(V)]
#[verifier::reject_recursive_types(S)]
pub struct ExMultiMap<K, V, S>(MultiMap<K, V, S>);

/// What a multimap from `(size, digest)` to paths holds: for every key
/// that is present, its values in insertion order.
pub uninterp spec fn multimap_buckets(map: MultiMap<(u64, u64), Vec<u8>>) -> Map<
    (u64, u64),
    Seq<Seq<u8>>,
>;

/// The members filed under `key`; none if the key is absent.
pub open spec fn members_at(buckets: Map<(u64, u64), Seq<Seq<u8>>>, key: (u64, u64)) -> Seq<
    Seq<u8>,
> {
    if buckets.contains_key(key) {
        buckets[key]
    } else {
        Seq::empty()
    }
}

/// The buckets after `file` has joined the one of its key.
pub open spec fn bucket_insert(buckets: Map<(u64, u64), Seq<Seq<u8>>>, file: HashedModel) -> Map<
    (u64, u64),
    Seq<Seq<u8>>,
> {
    buckets.insert(file.key(), members_at(buckets, file.key()).push(file.path))
}

/// The buckets that hold at least two members.
pub open spec fn keep_shared(buckets: Map<(u64, u64), Seq<Seq<u8>>>) -> Map<
    (u64, u64),
    Seq<Seq<u8>>,
> {
    Map::new(
        |key: (u64, u64)| buckets.contains_key(key) && buckets[key].len() > 1,
        |key: (u64, u64)| buckets[key],
    )
}

/// The buckets that result from filing `arrivals` one after the other.
pub open spec fn aggregate(arrivals: Seq<HashedModel>) -> Map<(u64, u64), Seq<Seq<u8>>>
    decreases arrivals.len(),
{
    if arrivals.len() == 0 {
        Map::empty()
    } else {
        bucket_insert(aggregate(arrivals.drop_last()), arrivals.last())
    }
}

/// The files that share one size and one digest, in order of arrival.
#[derive(Debug, PartialEq, Eq)]
pub struct Bucket {
    /// Size in bytes of every member.
    pub size: u64,
    /// Digest of every member.
    pub digest: u64,
    /// Paths of the members; the first one is the anchor.
    pub paths: Vec<Vec<u8>>,
}

/// What a [`Bucket`] stands for in contracts.
pub struct BucketModel {
    pub size: u64,
    pub digest: u64,
    pub paths: Seq<Seq<u8>>,
}

impl View for Bucket {
    type V = BucketModel;

    open spec fn view(&self) -> BucketModel {
        BucketModel { size: self.size, digest: self.digest, paths: path_models(self.paths@) }
    }
}

impl BucketModel {
    /// The key that the members share.
    pub open spec fn key(self) -> (u64, u64) {
        (self.size, self.digest)
    }
}

/// The models of a sequence of buckets, position by position.
pub open spec fn bucket_models(listed: Seq<Bucket>) -> Seq<BucketModel> {
    listed.map_values(|b: Bucket| b@)
}

/// Whether `listed` shows every bucket of `buckets` once, with its
/// members in their order, and nothing else. The order of the list itself
/// is left open.
pub open spec fn lists_buckets(
    listed: Seq<BucketModel>,
    buckets: Map<(u64, u64), Seq<Seq<u8>>>,
) -> bool {
    &&& forall|i: int|
        0 <= i < listed.len() ==> buckets.contains_key(#[trigger] listed[i].key())
            && listed[i].paths == buckets[listed[i].key()]
    &&& forall|i: int, j: int|
        0 <= i < j < listed.len() ==> #[trigger] listed[i].key() != #[trigger] listed[j].key()
    &&& forall|key: (u64, u64)|
        buckets.contains_key(key) ==> exists|i: int|
            0 <= i < listed.len() && #[trigger] listed[i].key() == key
}

/// `MultiMap::new`: the new multimap holds no key.
#[verifier::external_body]
fn multimap_new() -> (fresh: MultiMap<(u64, u64), Vec<u8>>)
    ensures
        multimap_buckets(fresh).is_empty(),
{
    MultiMap::new()
}

/// `MultiMap::insert`: the value is pushed behind the values that the key
/// has; a key that was absent gets a vector of this one value. Other keys
/// are left alone.
#[verifier::external_body]
fn multimap_insert(files: &mut MultiMap<(u64, u64), Vec<u8>>, key: (u64, u64), path: Vec<u8>)
    ensures
        multimap_buckets(*final(files)) == multimap_buckets(*old(files)).insert(
            key,
            members_at(multimap_buckets(*old(files)), key).push(path@),
        ),
{
    files.insert(key, path)
}

/// `MultiMap::keys`: every key that is present, once, in an order that
/// the hash map chooses.
#[verifier::external_body]
fn multimap_keys(files: &MultiMap<(u64, u64), Vec<u8>>) -> (keys: Vec<(u64, u64)>)
    ensures
        keys@.no_duplicates(),
        forall|key: (u64, u64)| keys@.contains(key) == multimap_buckets(*files).contains_key(key),
{
    files.keys().copied().collect()
}

/// `MultiMap::is_vec`: whether the key is present with more than one
/// value.
#[verifier::external_body]
fn multimap_is_vec(files: &MultiMap<(u64, u64), Vec<u8>>, key: &(u64, u64)) -> (multi: bool)
    ensures
        multi == (multimap_buckets(*files).contains_key(*key) && multimap_buckets(*files)[*key].len()
            > 1),
{
    files.is_vec(key)
}

/// `MultiMap::remove`: the key leaves the map with all its values, which
/// are returned; `None` if the key was absent. Other keys are left alone.
#[verifier::external_body]
fn multimap_remove(files: &mut MultiMap<(u64, u64), Vec<u8>>, key: &(u64, u64)) -> (removed: Option<
    Vec<Vec<u8>>,
>)
    ensures
        multimap_buckets(*final(files)) == multimap_buckets(*old(files)).remove(*key),
        match removed {
            Some(paths) => multimap_buckets(*old(files)).contains_key(*key) && path_models(paths@)
                == multimap_buckets(*old(files))[*key],
            None => !multimap_buckets(*old(files)).contains_key(*key),
        },
{
    files.remove(key)
}

/// `MultiMap::iter_all_mut`: visits every key once with its vector of
/// values, in an order that the hash map chooses. Each visit is copied
/// into a [`Bucket`]; the map is left as it was.
#[verifier::external_body]
fn multimap_iter_all(files: &mut MultiMap<(u64, u64), Vec<u8>>) -> (listed: Vec<Bucket>)
    ensures
        multimap_buckets(*final(files)) == multimap_buckets(*old(files)),
        lists_buckets(bucket_models(listed@), multimap_buckets(*old(files))),
{
    files.iter_all_mut().map(
        |(key, paths)| Bucket { size: key.0, digest: key.1, paths: paths.clone() },
    ).collect()
}

/// The map that collects hashed files into buckets.
pub struct BucketMap {
    files: MultiMap<(u64, u64), Vec<u8>>,
}

impl View for BucketMap {
    type V = Map<(u64, u64), Seq<Seq<u8>>>;

    closed spec fn view(&self) -> Map<(u64, u64), Seq<Seq<u8>>> {
        multimap_buckets(self.files)
    }
}

impl BucketMap {
    /// A map without buckets.
    pub fn new() -> (map: BucketMap)
        ensures
            map@ == Map::<(u64, u64), Seq<Seq<u8>>>::empty(),
    {
        let map = BucketMap { files: multimap_new() };
        assert(map@ =~= Map::<(u64, u64), Seq<Seq<u8>>>::empty());
        map
    }

    /// Files `file` under its size and digest, behind the members that
    /// the bucket has.
    pub fn insert(&mut self, file: HashedFile)
        ensures
            final(self)@ == bucket_insert(old(self)@, file@),
    {
        multimap_insert(&mut self.files, (file.size, file.digest), file.path);
    }

    /// Drops every bucket that has fewer than two members.
    pub fn discard_unique(&mut self)
        ensures
            final(self)@ == keep_shared(old(self)@),
    {
        let ghost before = self@;
        let keys = multimap_keys(&self.files);
        let mut i: usize = 0;
        while i < keys.len()
            invariant
                i <= keys.len(),
                keys@.no_duplicates(),
                forall|key: (u64, u64)| keys@.contains(key) == before.contains_key(key),
                self@ == Map::new(
                    |key: (u64, u64)|
                        before.contains_key(key) && (before[key].len() > 1 || !keys@.take(
                            i as int,
                        ).contains(key)),
                    |key: (u64, u64)| before[key],
                ),
            decreases keys.len() - i,
        {
            let key = keys[i];
            assert(keys@.contains(key));
            assert(!keys@.take(i as int).contains(key));
            if !multimap_is_vec(&self.files, &key) {
                multimap_remove(&mut self.files, &key);
            }
            assert(keys@.take(i + 1) =~= keys@.take(i as int).push(key));
            assert forall|other: (u64, u64)|
                keys@.take(i + 1).contains(other) == (other == key || keys@.take(
                    i as int,
                ).contains(other)) by {
                vstd::seq_lib::lemma_seq_contains_after_push(keys@.take(i as int), key, other);
            }
            assert(self@ =~= Map::new(
                |key: (u64, u64)|
                    before.contains_key(key) && (before[key].len() > 1 || !keys@.take(
                        i + 1,
                    ).contains(key)),
                |key: (u64, u64)| before[key],
            ));
            i += 1;
        }
        assert(keys@.take(keys@.len() as int) =~= keys@);
        assert(self@ =~= keep_shared(before));
    }

    /// Lists the buckets, each once, in no particular order.
    pub fn buckets(&mut self) -> (listed: Vec<Bucket>)
        ensures
            final(self)@ == old(self)@,
            lists_buckets(bucket_models(listed@), old(self)@),
    {
        multimap_iter_all(&mut self.files)
    }
}

/// Groups `files` by size and digest and lists the buckets that hold at
/// least two members, in no particular order.
pub fn collect_buckets(files: Vec<HashedFile>) -> (listed: Vec<Bucket>)
    ensures
        lists_buckets(bucket_models(listed@), keep_shared(aggregate(hashed_models(files@)))),
{
    let mut map = BucketMap::new();
    let ghost all = hashed_models(files@);
    for file in it: files
        invariant
            all == hashed_models(files@),
            map@ == aggregate(all.take(it.index() as int)),
    {
        assert(all.take(it.index() + 1).drop_last() =~= all.take(it.index() as int));
        assert(all.take(it.index() + 1).last() == file@);
        map.insert(file);
    }
    assert(all.take(files@.len() as int) =~= all);
    map.discard_unique();
    map.buckets()
}

/// Whether the arrival at `index` was filed under `key` with `path`.
pub open spec fn filed_at(
    arrivals: Seq<HashedModel>,
    index: int,
    key: (u64, u64),
    path: Seq<u8>,
) -> bool {
    0 <= index < arrivals.len() && arrivals[index].key() == key && arrivals[index].path == path
}

/// Whether some arrival was filed under `key` with `path`.
pub open spec fn arrived(arrivals: Seq<HashedModel>, key: (u64, u64), path: Seq<u8>) -> bool {
    exists|a: int| filed_at(arrivals, a, key, path)
}

/// Whether two arrivals, one after the other, were filed under `key`,
/// the earlier one with `first` and the later one with `second`.
pub open spec fn arrived_in_order(
    arrivals: Seq<HashedModel>,
    key: (u64, u64),
    first: Seq<u8>,
    second: Seq<u8>,
) -> bool {
    exists|a: int, b: int|
        a < b && #[trigger] filed_at(arrivals, a, key, first) && #[trigger] filed_at(
            arrivals,
            b,
            key,
            second,
        )
}

/// Every member of a bucket is an arrival of the bucket's size and
/// digest, and members stand in the order of their arrival.
pub proof fn lemma_bucket_members_arrived(arrivals: Seq<HashedModel>, key: (u64, u64))
    ensures
        forall|i: int|
            0 <= i < members_at(aggregate(arrivals), key).len() ==> arrived(
                arrivals,
                key,
                #[trigger] members_at(aggregate(arrivals), key)[i],
            ),
        forall|i: int, j: int|
            0 <= i < j < members_at(aggregate(arrivals), key).len() ==> arrived_in_order(
                arrivals,
                key,
                #[trigger] members_at(aggregate(arrivals), key)[i],
                #[trigger] members_at(aggregate(arrivals), key)[j],
            ),
    decreases arrivals.len(),
{
    let paths = members_at(aggregate(arrivals), key);
    if arrivals.len() > 0 {
        let earlier = arrivals.drop_last();
        let last = arrivals.last();
        let before = members_at(aggregate(earlier), key);
        lemma_bucket_members_arrived(earlier, key);
        assert(aggregate(arrivals) == bucket_insert(aggregate(earlier), last));
        assert forall|i: int| 0 <= i < paths.len() implies arrived(
            arrivals,
            key,
            #[trigger] paths[i],
        ) by {
            if i < before.len() {
                assert(arrived(earlier, key, before[i]));
                let a = choose|a: int| filed_at(earlier, a, key, before[i]);
                assert(filed_at(arrivals, a, key, paths[i]));
            } else {
                assert(filed_at(arrivals, arrivals.len() - 1, key, paths[i]));
            }
        }
        assert forall|i: int, j: int| 0 <= i < j < paths.len() implies arrived_in_order(
            arrivals,
            key,
            #[trigger] paths[i],
            #[trigger] paths[j],
        ) by {
            if j < before.len() {
                assert(arrived_in_order(earlier, key, before[i], before[j]));
                let (a, b) = choose|a: int, b: int|
                    a < b && #[trigger] filed_at(earlier, a, key, before[i]) && #[trigger] filed_at(
                        earlier,
                        b,
                        key,
                        before[j],
                    );
                assert(filed_at(arrivals, a, key, paths[i]));
                assert(filed_at(arrivals, b, key, paths[j]));
            } else {
                assert(arrived(earlier, key, before[i]));
                let a = choose|a: int| filed_at(earlier, a, key, before[i]);
                assert(filed_at(arrivals, a, key, paths[i]));
                assert(filed_at(arrivals, arrivals.len() - 1, key, paths[j]));
            }
        }
    }
}

} // verus!
