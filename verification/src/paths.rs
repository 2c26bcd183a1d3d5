//! Paths on the wire: the NUL-terminated list that is read, and the
//! NUL-terminated pairs that are written.

use vstd::prelude::*;

verus! {

/// The byte strings of a sequence of paths, position by position.
pub open spec fn path_models(paths: Seq<Vec<u8>>) -> Seq<Seq<u8>> {
    paths.map_values(|p: Vec<u8>| p@)
}

/// The records of `input` that a NUL byte has closed, without that byte,
/// and the bytes behind the last NUL.
pub open spec fn scan_records(input: Seq<u8>) -> (Seq<Seq<u8>>, Seq<u8>)
    decreases input.len(),
{
    if input.len() == 0 {
        (Seq::empty(), Seq::empty())
    } else {
        let (closed, open) = scan_records(input.drop_last());
        if input.last() == 0 {
            (closed.push(open), Seq::empty())
        } else {
            (closed, open.push(input.last()))
        }
    }
}

/// The paths that a list holds. Every path ends at a NUL byte, which is
/// no part of it. Bytes behind the last NUL are a final path that lacks
/// its terminator.
pub open spec fn decoded_paths(input: Seq<u8>) -> Seq<Seq<u8>> {
    let (closed, open) = scan_records(input);
    if open.len() == 0 {
        closed
    } else {
        closed.push(open)
    }
}

/// A record without its terminator: without its last byte, where that is
/// a NUL byte.
pub open spec fn stripped(record: Seq<u8>) -> Seq<u8> {
    if record.len() > 0 && record.last() == 0 {
        record.drop_last()
    } else {
        record
    }
}

/// One reported pair on the wire: each path followed by a NUL byte.
pub open spec fn encoded_pair(first: Seq<u8>, second: Seq<u8>) -> Seq<u8> {
    first.push(0u8) + second.push(0u8)
}

/// Removes the terminator of a record as it was read up to and including
/// the next NUL byte. A record that ends without a NUL byte, as the last
/// one of a list may, is left as it is.
pub fn strip_terminator(record: &mut Vec<u8>)
    ensures
        final(record)@ == stripped(old(record)@),
{
    let len = record.len();
    if len > 0 && record[len - 1] == 0 {
        record.pop();
    }
}

/// Decodes a list of NUL-terminated paths.
pub fn decode_paths(input: &[u8]) -> (paths: Vec<Vec<u8>>)
    ensures
        path_models(paths@) == decoded_paths(input@),
{
    let mut paths: Vec<Vec<u8>> = Vec::new();
    let mut open: Vec<u8> = Vec::new();
    let mut i: usize = 0;
    while i < input.len()
        invariant
            i <= input.len(),
            path_models(paths@) == scan_records(input@.take(i as int)).0,
            open@ == scan_records(input@.take(i as int)).1,
        decreases input.len() - i,
    {
        assert(input@.take(i + 1).drop_last() =~= input@.take(i as int));
        let byte = input[i];
        if byte == 0 {
            let ghost before = paths@;
            paths.push(open);
            assert(path_models(paths@) =~= path_models(before).push(open@));
            open = Vec::new();
        } else {
            open.push(byte);
        }
        i += 1;
    }
    assert(input@.take(input@.len() as int) =~= input@);
    if open.len() > 0 {
        let ghost before = paths@;
        paths.push(open);
        assert(path_models(paths@) =~= path_models(before).push(open@));
    }
    paths
}

/// Encodes one reported pair: `first`, a NUL byte, `second`, a NUL byte.
pub fn encode_pair(first: &[u8], second: &[u8]) -> (record: Vec<u8>)
    ensures
        record@ == encoded_pair(first@, second@),
{
    let mut record: Vec<u8> = Vec::new();
    append_terminated(&mut record, first);
    append_terminated(&mut record, second);
    assert(record@ =~= encoded_pair(first@, second@));
    record
}

/// Appends `path` and a NUL byte to `out`.
pub fn append_terminated(out: &mut Vec<u8>, path: &[u8])
    ensures
        final(out)@ == old(out)@ + path@.push(0u8),
{
    let mut i: usize = 0;
    while i < path.len()
        invariant
            i <= path.len(),
            out@ == old(out)@ + path@.take(i as int),
        decreases path.len() - i,
    {
        out.push(path[i]);
        assert(path@.take(i + 1) =~= path@.take(i as int).push(path@[i as int]));
        i += 1;
    }
    assert(path@.take(path@.len() as int) =~= path@);
    out.push(0u8);
}

/// Whether a path holds no NUL byte.
pub open spec fn nul_free(path: Seq<u8>) -> bool {
    forall|i: int| 0 <= i < path.len() ==> path[i] != 0
}

proof fn lemma_scan_open_bytes(stream: Seq<u8>, path: Seq<u8>)
    requires
        nul_free(path),
    ensures
        scan_records(stream + path) == (scan_records(stream).0, scan_records(stream).1 + path),
    decreases path.len(),
{
    if path.len() == 0 {
        assert(stream + path =~= stream);
        assert(scan_records(stream).1 + path =~= scan_records(stream).1);
    } else {
        let shorter = path.drop_last();
        lemma_scan_open_bytes(stream, shorter);
        assert((stream + path).drop_last() =~= stream + shorter);
        assert((stream + path).last() == path.last());
        assert((scan_records(stream).1 + shorter).push(path.last()) =~= scan_records(stream).1
            + path);
    }
}

proof fn lemma_scan_closed_record(stream: Seq<u8>, path: Seq<u8>)
    requires
        nul_free(path),
    ensures
        scan_records(stream + path.push(0u8)) == (
            scan_records(stream).0.push(scan_records(stream).1 + path),
            Seq::<u8>::empty(),
        ),
{
    lemma_scan_open_bytes(stream, path);
    assert((stream + path.push(0u8)).drop_last() =~= stream + path);
}

/// What is written can be read back. A list in which every path has its
/// terminator, followed by a reported pair, holds the paths of the list
/// and then the two paths of the pair, as long as neither of the two
/// holds a NUL byte.
pub proof fn lemma_pairs_read_back(stream: Seq<u8>, first: Seq<u8>, second: Seq<u8>)
    requires
        scan_records(stream).1.len() == 0,
        nul_free(first),
        nul_free(second),
    ensures
        decoded_paths(stream + encoded_pair(first, second)) == decoded_paths(stream).push(
            first,
        ).push(second),
        scan_records(stream + encoded_pair(first, second)).1.len() == 0,
{
    let middle = stream + first.push(0u8);
    lemma_scan_closed_record(stream, first);
    lemma_scan_closed_record(middle, second);
    assert(stream + encoded_pair(first, second) =~= middle + second.push(0u8));
    assert(scan_records(stream).1 + first =~= first);
    assert(Seq::<u8>::empty() + second =~= second);
}

} // verus!
