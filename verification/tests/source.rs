use dupe_finder::candidate::FileCandidate;
use dupe_finder::options::CommandLineOpts;
use dupe_finder::progress::ProgressCounters;
use dupe_finder::source::{PathSource, SourceError};

fn file(path: &str, size: u64) -> FileCandidate {
    FileCandidate { path: path.as_bytes().to_vec(), size }
}

fn source(min_size: Option<u64>) -> PathSource {
    PathSource::new(CommandLineOpts { dir: None, min_size })
}

#[test]
fn a_new_source_awaits_the_check_of_the_filesystem() {
    let fresh = source(None);
    assert!(fresh.needs_check());
}

#[test]
fn a_source_keeps_its_options() {
    let opts = CommandLineOpts { dir: Some(b"/data".to_vec()), min_size: Some(4) };
    let mut kept = PathSource::new(opts);
    assert_eq!(
        kept.options(),
        &CommandLineOpts { dir: Some(b"/data".to_vec()), min_size: Some(4) }
    );
    assert_eq!(kept.check_filesystem(true), Ok(()));
    let mut progress = ProgressCounters::new();
    assert_eq!(kept.discover(b"/data/a".to_vec(), true, 4, &mut progress), Ok(vec![]));
    assert_eq!(
        kept.options(),
        &CommandLineOpts { dir: Some(b"/data".to_vec()), min_size: Some(4) }
    );
}

#[test]
fn nothing_is_taken_before_the_filesystem_is_checked() {
    let mut unchecked = source(None);
    let mut progress = ProgressCounters::new();
    assert_eq!(
        unchecked.discover(b"/t/a".to_vec(), true, 10, &mut progress),
        Err(SourceError::FilesystemUnchecked)
    );
    assert_eq!(
        unchecked.discover(b"/t/b".to_vec(), true, 10, &mut progress),
        Err(SourceError::FilesystemUnchecked)
    );
    assert_eq!(progress, ProgressCounters::new());
    // What was refused has left no trace in the table.
    assert_eq!(unchecked.check_filesystem(true), Ok(()));
    assert_eq!(unchecked.discover(b"/t/c".to_vec(), true, 10, &mut progress), Ok(vec![]));
}

#[test]
fn the_wrong_filesystem_is_an_error() {
    let mut wrong = source(None);
    assert_eq!(wrong.check_filesystem(false), Err(SourceError::WrongFilesystem));
    assert!(wrong.needs_check());
    let mut progress = ProgressCounters::new();
    assert_eq!(
        wrong.discover(b"/t/a".to_vec(), true, 10, &mut progress),
        Err(SourceError::FilesystemUnchecked)
    );
}

#[test]
fn a_cleared_source_stays_cleared() {
    let mut cleared = source(None);
    assert_eq!(cleared.check_filesystem(true), Ok(()));
    assert!(!cleared.needs_check());
    assert_eq!(cleared.check_filesystem(false), Err(SourceError::WrongFilesystem));
    assert!(!cleared.needs_check());
}

#[test]
fn a_cleared_source_filters_and_dispatches() {
    let mut cleared = source(Some(10));
    assert_eq!(cleared.check_filesystem(true), Ok(()));
    let mut progress = ProgressCounters::new();
    assert_eq!(cleared.discover(b"/t/dir".to_vec(), false, 10, &mut progress), Ok(vec![]));
    assert_eq!(cleared.discover(b"/t/empty".to_vec(), true, 0, &mut progress), Ok(vec![]));
    assert_eq!(cleared.discover(b"/t/small".to_vec(), true, 9, &mut progress), Ok(vec![]));
    assert_eq!(progress.file_count, 0);
    assert_eq!(cleared.discover(b"/t/a".to_vec(), true, 10, &mut progress), Ok(vec![]));
    assert_eq!(progress.file_count, 1);
    assert_eq!(
        cleared.discover(b"/t/b".to_vec(), true, 10, &mut progress),
        Ok(vec![file("/t/a", 10), file("/t/b", 10)])
    );
    assert_eq!(
        cleared.discover(b"/t/c".to_vec(), true, 10, &mut progress),
        Ok(vec![file("/t/c", 10)])
    );
    assert_eq!(progress.file_count, 3);
    assert_eq!(progress.hash_count, 0);
}

#[test]
fn a_skipped_file_does_not_count_as_the_first_of_its_size() {
    let mut cleared = source(None);
    assert_eq!(cleared.check_filesystem(true), Ok(()));
    let mut progress = ProgressCounters::new();
    assert_eq!(cleared.discover(b"/t/dir".to_vec(), false, 10, &mut progress), Ok(vec![]));
    assert_eq!(cleared.discover(b"/t/a".to_vec(), true, 10, &mut progress), Ok(vec![]));
    assert_eq!(
        cleared.discover(b"/t/b".to_vec(), true, 10, &mut progress),
        Ok(vec![file("/t/a", 10), file("/t/b", 10)])
    );
}
