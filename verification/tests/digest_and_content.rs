use dupe_finder::content::{
    content_step, same_content, second_read, ContentError, ContentStep, SecondRead,
};
use dupe_finder::digest::{compute_xxh, worker_count, ContentHasher, READ_BUFFER_SIZE};
use xxhash_rust::xxh3::xxh3_64;

fn pattern(len: usize) -> Vec<u8> {
    let mut bytes = Vec::with_capacity(len);
    let mut i: usize = 0;
    while i < len {
        bytes.push((i % 251) as u8);
        i += 1;
    }
    bytes
}

#[test]
fn the_read_buffer_holds_256_kib() {
    assert_eq!(READ_BUFFER_SIZE, 262144);
}

#[test]
fn the_digest_of_nothing_is_the_known_value() {
    let mut hasher = ContentHasher::new();
    assert_eq!(compute_xxh(&mut hasher, b""), 0x2D06800538D394C2);
}

#[test]
fn the_digest_is_that_of_the_whole_content() {
    let mut hasher = ContentHasher::new();
    let small = b"hello world".to_vec();
    assert_eq!(compute_xxh(&mut hasher, &small), xxh3_64(&small));
    let large = pattern(3 * READ_BUFFER_SIZE + 17);
    assert_eq!(compute_xxh(&mut hasher, &large), xxh3_64(&large));
    let exact = pattern(2 * READ_BUFFER_SIZE);
    assert_eq!(compute_xxh(&mut hasher, &exact), xxh3_64(&exact));
}

#[test]
fn a_used_hasher_starts_afresh() {
    let mut hasher = ContentHasher::new();
    assert_eq!(hasher.hash_chunk(b"left over from another file"), None);
    assert_eq!(compute_xxh(&mut hasher, b"abc"), xxh3_64(b"abc"));
}

#[test]
fn different_content_gets_a_different_digest() {
    let mut hasher = ContentHasher::new();
    let one = compute_xxh(&mut hasher, b"abc");
    let two = compute_xxh(&mut hasher, b"abd");
    assert_ne!(one, two);
}

#[test]
fn chunks_give_the_digest_of_their_concatenation() {
    let mut hasher = ContentHasher::new();
    assert_eq!(hasher.hash_chunk(b"hello "), None);
    assert_eq!(hasher.hash_chunk(b"wor"), None);
    assert_eq!(hasher.hash_chunk(b"ld"), None);
    assert_eq!(hasher.hash_chunk(b""), Some(xxh3_64(b"hello world")));
    // The end of the file leaves the hasher as it was.
    assert_eq!(hasher.hash_chunk(b""), Some(xxh3_64(b"hello world")));
}

#[test]
fn a_reset_forgets_what_was_taken_in() {
    let mut hasher = ContentHasher::new();
    assert_eq!(hasher.hash_chunk(b"first file"), None);
    hasher.reset();
    assert_eq!(hasher.hash_chunk(b"second"), None);
    assert_eq!(hasher.hash_chunk(b""), Some(xxh3_64(b"second")));
}

#[test]
fn one_worker_fewer_than_threads_and_at_least_one() {
    assert_eq!(worker_count(0), 1);
    assert_eq!(worker_count(1), 1);
    assert_eq!(worker_count(2), 1);
    assert_eq!(worker_count(3), 2);
    assert_eq!(worker_count(16), 15);
    assert_eq!(worker_count(usize::MAX), usize::MAX - 1);
}

#[test]
fn a_chunk_is_judged_against_its_counterpart() {
    assert_eq!(content_step(b"", b""), ContentStep::Same);
    assert_eq!(content_step(b"", b"more"), ContentStep::Different);
    assert_eq!(content_step(b"abc", b"abc"), ContentStep::Continue);
    assert_eq!(content_step(b"abc", b"abd"), ContentStep::Different);
    assert_eq!(content_step(b"abc", b"ab"), ContentStep::Different);
}

#[test]
fn equal_files_have_the_same_content() {
    assert_eq!(same_content(b"", b""), Ok(true));
    assert_eq!(same_content(b"abc", b"abc"), Ok(true));
    let large = pattern(2 * READ_BUFFER_SIZE + 5);
    assert_eq!(same_content(&large, &large.clone()), Ok(true));
}

#[test]
fn a_single_different_byte_is_found() {
    assert_eq!(same_content(b"abc", b"abd"), Ok(false));
    let large = pattern(2 * READ_BUFFER_SIZE + 5);
    let mut first_byte = large.clone();
    first_byte[0] ^= 1;
    assert_eq!(same_content(&large, &first_byte), Ok(false));
    let mut last_byte = large.clone();
    let end = last_byte.len() - 1;
    last_byte[end] ^= 1;
    assert_eq!(same_content(&large, &last_byte), Ok(false));
    let mut at_boundary = large.clone();
    at_boundary[READ_BUFFER_SIZE] ^= 1;
    assert_eq!(same_content(&large, &at_boundary), Ok(false));
}

#[test]
fn a_second_file_that_ends_early_fails_the_comparison() {
    assert_eq!(same_content(b"abc", b"ab"), Err(ContentError::UnexpectedEnd));
    assert_eq!(same_content(b"abc", b""), Err(ContentError::UnexpectedEnd));
    // The difference is in the first byte, but the chunk that holds it
    // cannot be read in full from the second file.
    assert_eq!(same_content(b"abc", b"xb"), Err(ContentError::UnexpectedEnd));
}

#[test]
fn a_difference_in_a_chunk_that_was_read_in_full_is_reported() {
    let first = pattern(READ_BUFFER_SIZE + 10);
    let mut second = pattern(READ_BUFFER_SIZE + 3);
    second[5] ^= 1;
    assert_eq!(same_content(&first, &second), Ok(false));
    let short = pattern(READ_BUFFER_SIZE + 3);
    assert_eq!(same_content(&first, &short), Err(ContentError::UnexpectedEnd));
}

#[test]
fn a_longer_second_file_that_starts_alike_differs() {
    assert_eq!(same_content(b"abc", b"abcd"), Ok(false));
    assert_eq!(same_content(b"", b"abcd"), Ok(false));
    assert_eq!(same_content(&[0x61, 0x62], &[0x61, 0x62, 0x63]), Ok(false));
    let first = pattern(2 * READ_BUFFER_SIZE);
    let mut grown = first.clone();
    grown.push(7);
    assert_eq!(same_content(&first, &grown), Ok(false));
    let mut grown_a_lot = first.clone();
    grown_a_lot.extend_from_slice(&pattern(READ_BUFFER_SIZE + 1));
    assert_eq!(same_content(&first, &grown_a_lot), Ok(false));
}

#[test]
fn the_second_file_is_read_in_step_with_the_first() {
    assert_eq!(second_read(1), SecondRead::Exactly(1));
    assert_eq!(second_read(READ_BUFFER_SIZE), SecondRead::Exactly(READ_BUFFER_SIZE));
    assert_eq!(second_read(0), SecondRead::Remainder);
}
