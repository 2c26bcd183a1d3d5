use dupe_finder::candidate::FileCandidate;
use dupe_finder::extents::{same_extents, Extent};
use dupe_finder::options::CommandLineOpts;
use dupe_finder::progress::ProgressCounters;

fn extent(physical: u64, length: u64) -> Extent {
    Extent { physical, length }
}

#[test]
fn equal_layouts_are_the_same() {
    let a = vec![extent(4096, 8192), extent(65536, 4096)];
    let b = vec![extent(4096, 8192), extent(65536, 4096)];
    assert!(same_extents(&a, &b));
}

#[test]
fn layouts_of_different_length_differ() {
    let a = vec![extent(4096, 8192)];
    let b = vec![extent(4096, 8192), extent(65536, 4096)];
    assert!(!same_extents(&a, &b));
    assert!(!same_extents(&b, &a));
}

#[test]
fn a_different_physical_offset_differs() {
    let a = vec![extent(4096, 8192), extent(65536, 4096)];
    let b = vec![extent(4096, 8192), extent(69632, 4096)];
    assert!(!same_extents(&a, &b));
}

#[test]
fn a_different_extent_length_differs() {
    let a = vec![extent(4096, 8192)];
    let b = vec![extent(4096, 4096)];
    assert!(!same_extents(&a, &b));
}

#[test]
fn two_empty_layouts_are_the_same() {
    let none: Vec<Extent> = Vec::new();
    assert!(same_extents(&none, &none));
}

#[test]
fn empty_files_never_pass() {
    let any = CommandLineOpts { dir: None, min_size: None };
    let least_zero = CommandLineOpts { dir: Some(b"/data".to_vec()), min_size: Some(0) };
    let least_ten = CommandLineOpts { dir: None, min_size: Some(10) };
    assert!(!any.accepts_size(0));
    assert!(!least_zero.accepts_size(0));
    assert!(!least_ten.accepts_size(0));
}

#[test]
fn the_minimum_size_is_inclusive() {
    let opts = CommandLineOpts { dir: None, min_size: Some(100) };
    assert!(!opts.accepts_size(1));
    assert!(!opts.accepts_size(99));
    assert!(opts.accepts_size(100));
    assert!(opts.accepts_size(101));
    assert!(opts.accepts_size(u64::MAX));
}

#[test]
fn without_a_minimum_every_nonempty_file_passes() {
    let opts = CommandLineOpts { dir: None, min_size: None };
    assert!(opts.accepts_size(1));
    assert!(opts.accepts_size(u64::MAX));
}

#[test]
fn an_accepted_file_becomes_a_candidate_and_is_counted() {
    let opts = CommandLineOpts { dir: None, min_size: Some(5) };
    let mut progress = ProgressCounters::new();
    let candidate = opts.consider(b"/data/a".to_vec(), true, 5, &mut progress);
    assert_eq!(candidate, Some(FileCandidate { path: b"/data/a".to_vec(), size: 5 }));
    assert_eq!(progress.file_count, 1);
    assert_eq!(progress.hash_count, 0);
}

#[test]
fn skipped_entries_are_not_counted() {
    let opts = CommandLineOpts { dir: None, min_size: Some(5) };
    let mut progress = ProgressCounters::new();
    assert_eq!(opts.consider(b"/data/dir".to_vec(), false, 4096, &mut progress), None);
    assert_eq!(opts.consider(b"/data/empty".to_vec(), true, 0, &mut progress), None);
    assert_eq!(opts.consider(b"/data/small".to_vec(), true, 4, &mut progress), None);
    assert_eq!(progress, ProgressCounters::new());
}
