use dupe_finder::buckets::{collect_buckets, Bucket};
use dupe_finder::candidate::{FileCandidate, HashedFile};
use dupe_finder::content::same_content;
use dupe_finder::digest::{compute_xxh, ContentHasher};
use dupe_finder::extents::{same_extents, Extent};
use dupe_finder::options::CommandLineOpts;
use dupe_finder::paths::decode_paths;
use dupe_finder::progress::ProgressCounters;
use dupe_finder::source::PathSource;
use dupe_finder::verify::{BucketCheck, Probe, Verdict};

/// A file as the tests keep it: path, content, extents.
struct Stored {
    path: Vec<u8>,
    content: Vec<u8>,
    extents: Vec<Extent>,
}

fn stored(path: &str, content: &[u8], physical: u64) -> Stored {
    Stored {
        path: path.as_bytes().to_vec(),
        content: content.to_vec(),
        extents: vec![Extent { physical, length: 4096 }],
    }
}

fn find<'a>(tree: &'a [Stored], path: &[u8]) -> &'a Stored {
    for file in tree {
        if file.path == path {
            return file;
        }
    }
    panic!("no such file in the tree");
}

/// Examines every bucket against the tree and returns the verdicts.
fn examine(
    tree: &[Stored],
    listed: Vec<Bucket>,
    progress: &mut ProgressCounters,
    output: &mut Vec<u8>,
) -> Vec<Verdict> {
    let mut verdicts = Vec::new();
    for bucket in listed {
        let mut check = BucketCheck::new(bucket);
        loop {
            let same = match check.query() {
                None => break,
                Some((Probe::Content, anchor, other)) => {
                    same_content(&find(tree, anchor).content, &find(tree, other).content)
                        == Ok(true)
                }
                Some((Probe::Extents, anchor, other)) => {
                    same_extents(&find(tree, anchor).extents, &find(tree, other).extents)
                }
            };
            if let Some(verdict) = check.answer(same, progress, output) {
                verdicts.push(verdict);
            }
        }
    }
    verdicts
}

/// Runs everything over the files named by `paths`, in that order.
fn run(tree: &[Stored], paths: &[Vec<u8>], opts: CommandLineOpts) -> (Vec<u8>, ProgressCounters) {
    let mut progress = ProgressCounters::new();
    let mut source = PathSource::new(opts);
    assert_eq!(source.check_filesystem(true), Ok(()));
    let mut hasher = ContentHasher::new();
    let mut arrivals: Vec<HashedFile> = Vec::new();
    for path in paths {
        let size = find(tree, path).content.len() as u64;
        let forwarded = source.discover(path.clone(), true, size, &mut progress);
        for candidate in forwarded.expect("the source is cleared") {
            let digest = compute_xxh(&mut hasher, &find(tree, &candidate.path).content);
            progress.hash_computed();
            arrivals.push(candidate.with_digest(digest));
        }
    }
    let mut output = Vec::new();
    examine(tree, collect_buckets(arrivals), &mut progress, &mut output);
    (output, progress)
}

fn all_paths(tree: &[Stored]) -> Vec<Vec<u8>> {
    tree.iter().map(|f| f.path.clone()).collect()
}

fn no_minimum() -> CommandLineOpts {
    CommandLineOpts { dir: Some(b"/t".to_vec()), min_size: None }
}

#[test]
fn scenario_identical_files_on_separate_storage() {
    let tree = vec![stored("/t/a", b"same bytes", 4096), stored("/t/b", b"same bytes", 8192)];
    let (output, progress) = run(&tree, &all_paths(&tree), no_minimum());
    assert_eq!(output, b"/t/a\0/t/b\0".to_vec());
    assert_eq!(
        progress,
        ProgressCounters {
            file_count: 2,
            hash_count: 2,
            hash_collision_count: 0,
            reflinked_count: 0,
            duplicate_candidate_count: 1,
        }
    );
}

#[test]
fn scenario_identical_files_that_share_storage() {
    let tree = vec![stored("/t/a", b"same bytes", 4096), stored("/t/b", b"same bytes", 4096)];
    let (output, progress) = run(&tree, &all_paths(&tree), no_minimum());
    assert_eq!(output, Vec::<u8>::new());
    assert_eq!(progress.reflinked_count, 1);
    assert_eq!(progress.duplicate_candidate_count, 0);
    assert_eq!(progress.hash_collision_count, 0);
}

#[test]
fn scenario_equal_digest_and_different_content() {
    let tree = vec![stored("/t/a", b"content one", 4096), stored("/t/b", b"content two", 8192)];
    let arrivals = vec![
        HashedFile { path: b"/t/a".to_vec(), size: 11, digest: 0x1234 },
        HashedFile { path: b"/t/b".to_vec(), size: 11, digest: 0x1234 },
    ];
    let mut progress = ProgressCounters::new();
    let mut output = Vec::new();
    let verdicts = examine(&tree, collect_buckets(arrivals), &mut progress, &mut output);
    assert_eq!(verdicts, vec![Verdict::Collision]);
    assert_eq!(output, Vec::<u8>::new());
    assert_eq!(progress.hash_collision_count, 1);
    assert_eq!(progress.reflinked_count, 0);
    assert_eq!(progress.duplicate_candidate_count, 0);
}

#[test]
fn scenario_three_identical_files_give_two_pairs() {
    let tree = vec![
        stored("/t/a", b"same bytes", 4096),
        stored("/t/b", b"same bytes", 8192),
        stored("/t/c", b"same bytes", 12288),
    ];
    let (output, progress) = run(&tree, &all_paths(&tree), no_minimum());
    assert_eq!(output, b"/t/a\0/t/b\0/t/a\0/t/c\0".to_vec());
    assert_eq!(progress.duplicate_candidate_count, 2);
    assert_eq!(progress.hash_count, 3);
}

#[test]
fn scenario_a_list_of_paths_gives_the_same_result() {
    let tree = vec![stored("/t/a", b"same bytes", 4096), stored("/t/b", b"same bytes", 8192)];
    let from_tree = run(&tree, &all_paths(&tree), no_minimum());
    let listed = decode_paths(b"/t/a\0/t/b\0");
    let from_list = run(&tree, &listed, CommandLineOpts { dir: None, min_size: None });
    assert_eq!(from_list, from_tree);
    assert_eq!(from_list.0, b"/t/a\0/t/b\0".to_vec());
    assert_eq!(from_list.1.duplicate_candidate_count, 1);
}

#[test]
fn a_file_of_unique_size_is_neither_hashed_nor_reported() {
    let tree = vec![
        stored("/t/a", b"same bytes", 4096),
        stored("/t/odd", b"another length", 16384),
        stored("/t/b", b"same bytes", 8192),
    ];
    let (output, progress) = run(&tree, &all_paths(&tree), no_minimum());
    assert_eq!(output, b"/t/a\0/t/b\0".to_vec());
    assert_eq!(progress.file_count, 3);
    assert_eq!(progress.hash_count, 2);
}

#[test]
fn same_size_and_different_digest_reports_nothing() {
    let tree = vec![stored("/t/a", b"same bytes", 4096), stored("/t/b", b"some bytes", 8192)];
    let (output, progress) = run(&tree, &all_paths(&tree), no_minimum());
    assert_eq!(output, Vec::<u8>::new());
    assert_eq!(
        progress,
        ProgressCounters {
            file_count: 2,
            hash_count: 2,
            hash_collision_count: 0,
            reflinked_count: 0,
            duplicate_candidate_count: 0,
        }
    );
}

#[test]
fn empty_and_small_files_are_left_out() {
    let tree = vec![
        stored("/t/e1", b"", 0),
        stored("/t/e2", b"", 0),
        stored("/t/s1", b"tiny", 4096),
        stored("/t/s2", b"tiny", 8192),
        stored("/t/l1", b"long enough", 12288),
        stored("/t/l2", b"long enough", 16384),
    ];
    let opts = CommandLineOpts { dir: Some(b"/t".to_vec()), min_size: Some(11) };
    let (output, progress) = run(&tree, &all_paths(&tree), opts);
    assert_eq!(output, b"/t/l1\0/t/l2\0".to_vec());
    assert_eq!(progress.file_count, 2);
    assert_eq!(progress.hash_count, 2);
    let (output, progress) = run(&tree, &all_paths(&tree), no_minimum());
    assert_eq!(progress.file_count, 4);
    assert_eq!(progress.duplicate_candidate_count, 2);
    assert_eq!(output.len(), b"/t/s1\0/t/s2\0/t/l1\0/t/l2\0".len());
}

#[test]
fn a_bucket_of_one_awaits_nothing() {
    let bucket = Bucket { size: 3, digest: 9, paths: vec![b"/t/a".to_vec()] };
    let mut check = BucketCheck::new(bucket);
    assert_eq!(check.query(), None);
    let mut progress = ProgressCounters::new();
    let mut output = Vec::new();
    assert_eq!(check.answer(true, &mut progress, &mut output), None);
    assert_eq!(check.answer(false, &mut progress, &mut output), None);
    assert_eq!(progress, ProgressCounters::new());
    assert_eq!(output, Vec::<u8>::new());
    let mut empty = BucketCheck::new(Bucket { size: 3, digest: 9, paths: vec![] });
    assert_eq!(empty.query(), None);
    assert_eq!(empty.answer(false, &mut progress, &mut output), None);
    assert_eq!(output, Vec::<u8>::new());
}

#[test]
fn the_extents_are_asked_only_after_equal_content() {
    let a = b"/t/a".to_vec();
    let b = b"/t/b".to_vec();
    let c = b"/t/c".to_vec();
    let bucket = Bucket { size: 3, digest: 9, paths: vec![a.clone(), b.clone(), c.clone()] };
    let mut check = BucketCheck::new(bucket);
    let mut progress = ProgressCounters::new();
    let mut output = b"before\0".to_vec();
    assert_eq!(check.query(), Some((Probe::Content, &a, &b)));
    assert_eq!(check.answer(false, &mut progress, &mut output), Some(Verdict::Collision));
    assert_eq!(check.query(), Some((Probe::Content, &a, &c)));
    assert_eq!(check.answer(true, &mut progress, &mut output), None);
    assert_eq!(check.query(), Some((Probe::Extents, &a, &c)));
    assert_eq!(check.answer(false, &mut progress, &mut output), Some(Verdict::Duplicate));
    assert_eq!(check.query(), None);
    assert_eq!(output, b"before\0/t/a\0/t/c\0".to_vec());
    assert_eq!(progress.hash_collision_count, 1);
    assert_eq!(progress.duplicate_candidate_count, 1);
    assert_eq!(progress.reflinked_count, 0);
}

#[test]
fn members_are_held_against_the_anchor_only() {
    // The second and third member are equal to each other and differ
    // from the anchor: nothing is reported.
    let tree = vec![
        stored("/t/a", b"anchor-", 4096),
        stored("/t/b", b"others!", 8192),
        stored("/t/c", b"others!", 12288),
    ];
    let arrivals = vec![
        HashedFile { path: b"/t/a".to_vec(), size: 7, digest: 5 },
        HashedFile { path: b"/t/b".to_vec(), size: 7, digest: 5 },
        HashedFile { path: b"/t/c".to_vec(), size: 7, digest: 5 },
    ];
    let mut progress = ProgressCounters::new();
    let mut output = Vec::new();
    let verdicts = examine(&tree, collect_buckets(arrivals), &mut progress, &mut output);
    assert_eq!(verdicts, vec![Verdict::Collision, Verdict::Collision]);
    assert_eq!(output, Vec::<u8>::new());
    assert_eq!(progress.hash_collision_count, 2);
}

#[test]
fn a_second_run_reports_the_same_pairs() {
    let tree = vec![
        stored("/t/a", b"same bytes", 4096),
        stored("/t/x", b"other bytes!", 20480),
        stored("/t/b", b"same bytes", 8192),
        stored("/t/y", b"other bytes!", 24576),
    ];
    let first = run(&tree, &all_paths(&tree), no_minimum());
    let second = run(&tree, &all_paths(&tree), no_minimum());
    let mut pairs_one = decode_paths(&first.0);
    let mut pairs_two = decode_paths(&second.0);
    pairs_one.sort();
    pairs_two.sort();
    assert_eq!(pairs_one, pairs_two);
    assert_eq!(first.1, second.1);
    assert_eq!(first.1.duplicate_candidate_count, 2);
}

#[test]
fn a_candidate_is_made_of_plain_values() {
    let candidate = FileCandidate { path: b"/t/a".to_vec(), size: 3 };
    assert_eq!(candidate.path, b"/t/a".to_vec());
    assert_eq!(candidate.size, 3);
}
