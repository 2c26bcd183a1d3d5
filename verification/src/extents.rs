//! Physical layout of a file, as far as it decides whether two files
//! already share storage.

use vstd::prelude::*;

verus! {

/// A contiguous run of physical storage that backs part of a file.
#[derive(Clone, Copy, Debug, PartialEq, Eq, Structural)]
pub struct Extent {
    /// Physical offset of the run on the device, in bytes.
    pub physical: u64,
    /// Length of the run, in bytes.
    pub length: u64,
}

/// Whether two files of identical content occupy the same storage: both
/// layouts have the same number of extents and agree, position by
/// position, in physical offset and length.
pub fn same_extents(first: &[Extent], second: &[Extent]) -> (same: bool)
    ensures
        same == (first@ == second@),
{
    if first.len() != second.len() {
        return false;
    }
    let mut i: usize = 0;
    while i < first.len()
        invariant
            i <= first.len(),
            first.len() == second.len(),
            forall|j: int| 0 <= j < i ==> first@[j] == second@[j],
        decreases first.len() - i,
    {
        if first[i].physical != second[i].physical || first[i].length != second[i].length {
            return false;
        }
        i += 1;
    }
    assert(first@ =~= second@);
    true
}

} // verus!
