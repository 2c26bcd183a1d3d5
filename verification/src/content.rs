//! Byte-for-byte comparison of two files, in lock step, chunk by chunk.
//!
//! Equal digests do not prove equal content. Before a pair is reported,
//! the two files are read side by side and compared.

use vstd::prelude::*;
use vstd::slice::slice_subrange;
use crate::digest::READ_BUFFER_SIZE;

verus! {

/// What one pair of chunks says about the two files.
#[derive(Clone, Copy, Debug, PartialEq, Eq, Structural)]
pub enum ContentStep {
    /// The chunks are equal and the first file has more to read.
    Continue,
    /// The first file has ended: no difference was found.
    Same,
    /// The chunks differ.
    Different,
}

/// The second file ended before the first.
#[derive(Clone, Copy, Debug, PartialEq, Eq, Structural)]
pub enum ContentError {
    UnexpectedEnd,
}

/// How the bytes of the second file are to be read that go with a chunk
/// of the first.
#[derive(Clone, Copy, Debug, PartialEq, Eq, Structural)]
pub enum SecondRead {
    /// Exactly this many bytes; a second file that ends before is an
    /// error.
    Exactly(usize),
    /// Whatever one more read returns: the first file has ended, and
    /// anything that is left of the second makes the files differ.
    Remainder,
}

/// The verdict on a chunk of the first file and the bytes read for it
/// from the second file. At the end of the first file the second must
/// have ended too.
pub open spec fn content_step_of(chunk: Seq<u8>, other: Seq<u8>) -> ContentStep {
    if chunk.len() == 0 {
        if other.len() == 0 {
            ContentStep::Same
        } else {
            ContentStep::Different
        }
    } else if chunk == other {
        ContentStep::Continue
    } else {
        ContentStep::Different
    }
}

/// Number of leading positions at which `first` and `second` hold the
/// same byte.
pub open spec fn common_prefix_len(first: Seq<u8>, second: Seq<u8>) -> nat
    decreases first.len(),
{
    if first.len() == 0 || second.len() == 0 || first[0] != second[0] {
        0
    } else {
        1 + common_prefix_len(first.drop_first(), second.drop_first())
    }
}

/// Where the chunk of the first file that holds position `index` ends,
/// for a first file of `len` bytes.
pub open spec fn chunk_end(index: int, len: int) -> int {
    let full = (index / (READ_BUFFER_SIZE as int) + 1) * (READ_BUFFER_SIZE as int);
    if full < len {
        full
    } else {
        len
    }
}

/// The outcome of comparing `first` with `second` chunk by chunk. Where
/// `second` starts with all of `first`, the files are the same if
/// `second` ends there too, and differ if it goes on. Otherwise the
/// chunk with the first disagreement decides: if `second` ends before
/// that chunk does, the comparison fails; if not, the files differ.
pub open spec fn same_content_of(first: Seq<u8>, second: Seq<u8>) -> Result<bool, ContentError> {
    let agree = common_prefix_len(first, second);
    if agree == first.len() {
        Ok(second.len() == first.len())
    } else if second.len() < chunk_end(agree as int, first.len() as int) {
        Err(ContentError::UnexpectedEnd)
    } else {
        Ok(false)
    }
}

/// The common prefix is as long as it can be: within both strings, equal
/// at every position, and stopped by an end or by a difference.
pub proof fn lemma_common_prefix_len(first: Seq<u8>, second: Seq<u8>)
    ensures
        common_prefix_len(first, second) <= first.len(),
        common_prefix_len(first, second) <= second.len(),
        forall|i: int| 0 <= i < common_prefix_len(first, second) ==> first[i] == second[i],
        common_prefix_len(first, second) == first.len() || common_prefix_len(first, second)
            == second.len() || first[common_prefix_len(first, second) as int]
            != second[common_prefix_len(first, second) as int],
    decreases first.len(),
{
    if first.len() == 0 || second.len() == 0 || first[0] != second[0] {
    } else {
        let shorter = first.drop_first();
        let other = second.drop_first();
        lemma_common_prefix_len(shorter, other);
        let agree = common_prefix_len(shorter, other);
        assert forall|i: int| 0 <= i < agree + 1 implies first[i] == second[i] by {
            if i > 0 {
                assert(shorter[i - 1] == other[i - 1]);
            }
        }
        if agree < shorter.len() && agree < other.len() {
            assert(shorter[agree as int] == first[agree as int + 1]);
            assert(other[agree as int] == second[agree as int + 1]);
        }
    }
}

/// The comparison finds two files the same exactly if they are equal,
/// byte for byte and in length.
pub proof fn lemma_same_content_is_equality(first: Seq<u8>, second: Seq<u8>)
    ensures
        (same_content_of(first, second) == Ok::<bool, ContentError>(true)) <==> first == second,
        first.len() == second.len() ==> same_content_of(first, second) == Ok::<bool, ContentError>(
            first == second,
        ),
{
    lemma_common_prefix_len(first, second);
    if common_prefix_len(first, second) == first.len() && second.len() == first.len() {
        assert(first =~= second);
    }
}

/// Whether two byte strings are equal.
fn same_bytes(first: &[u8], second: &[u8]) -> (same: bool)
    ensures
        same == (first@ == second@),
{
    if first.len() != second.len() {
        return false;
    }
    let mut i: usize = 0;
    while i < first.len()
        invariant
            i <= first.len(),
            first.len() == second.len(),
            forall|j: int| 0 <= j < i ==> first@[j] == second@[j],
        decreases first.len() - i,
    {
        if first[i] != second[i] {
            return false;
        }
        i += 1;
    }
    assert(first@ =~= second@);
    true
}

/// Says how to read from the second file for a chunk of `chunk_len`
/// bytes that was read from the first: as many bytes, in full; or, at the
/// end of the first file, whatever one more read returns.
pub fn second_read(chunk_len: usize) -> (read: SecondRead)
    ensures
        read == if chunk_len == 0 {
            SecondRead::Remainder
        } else {
            SecondRead::Exactly(chunk_len)
        },
{
    if chunk_len == 0 {
        SecondRead::Remainder
    } else {
        SecondRead::Exactly(chunk_len)
    }
}

/// Judges one chunk read from the first file against the bytes read for
/// it from the second, as [`second_read`] asked for them.
pub fn content_step(chunk: &[u8], other: &[u8]) -> (step: ContentStep)
    ensures
        step == content_step_of(chunk@, other@),
{
    if chunk.len() == 0 {
        if other.len() == 0 {
            ContentStep::Same
        } else {
            ContentStep::Different
        }
    } else if same_bytes(chunk, other) {
        ContentStep::Continue
    } else {
        ContentStep::Different
    }
}

/// Tests whether two files have the same content, byte for byte,
/// comparing chunks of [`READ_BUFFER_SIZE`] bytes in lock step. The
/// comparison fails where the second file ends before a chunk of the
/// first could be matched in full.
pub fn same_content(first: &[u8], second: &[u8]) -> (same: Result<bool, ContentError>)
    ensures
        same == same_content_of(first@, second@),
        (same == Ok::<bool, ContentError>(true)) <==> (first@ == second@),
        first@.len() == second@.len() ==> same == Ok::<bool, ContentError>(first@ == second@),
{
    proof {
        lemma_common_prefix_len(first@, second@);
    }
    let mut offset: usize = 0;
    loop
        invariant
            offset <= first.len(),
            offset <= second.len(),
            offset % READ_BUFFER_SIZE == 0 || offset == first.len(),
            forall|i: int| 0 <= i < offset ==> first@[i] == second@[i],
            common_prefix_len(first@, second@) <= first@.len(),
            common_prefix_len(first@, second@) <= second@.len(),
            forall|i: int|
                0 <= i < common_prefix_len(first@, second@) ==> first@[i] == second@[i],
            common_prefix_len(first@, second@) == first@.len() || common_prefix_len(
                first@,
                second@,
            ) == second@.len() || first@[common_prefix_len(first@, second@) as int]
                != second@[common_prefix_len(first@, second@) as int],
        decreases first.len() - offset,
    {
        let rest: usize = first.len() - offset;
        let count: usize = if rest < READ_BUFFER_SIZE {
            rest
        } else {
            READ_BUFFER_SIZE
        };
        let chunk = slice_subrange(first, offset, offset + count);
        let other = match second_read(count) {
            SecondRead::Exactly(wanted) => {
                if second.len() - offset < wanted {
                    return Err(ContentError::UnexpectedEnd);
                }
                slice_subrange(second, offset, offset + wanted)
            },
            SecondRead::Remainder => {
                let left: usize = second.len() - offset;
                let more: usize = if left < READ_BUFFER_SIZE {
                    left
                } else {
                    READ_BUFFER_SIZE
                };
                slice_subrange(second, offset, offset + more)
            },
        };
        let end: usize = offset + count;
        match content_step(chunk, other) {
            ContentStep::Same => {
                assert(first@ =~= second@);
                return Ok(true);
            },
            ContentStep::Different => {
                if count > 0 {
                    assert(exists|i: int| offset <= i < end && first@[i] != second@[i]) by {
                        if forall|i: int| offset <= i < end ==> first@[i] == second@[i] {
                            assert(chunk@ =~= other@);
                        }
                    }
                }
                return Ok(false);
            },
            ContentStep::Continue => {
                assert forall|i: int| 0 <= i < end implies first@[i] == second@[i] by {
                    if i >= offset {
                        assert(chunk@[i - offset] == other@[i - offset]);
                    }
                }
                offset = end;
            },
        }
    }
}

} // verus!
