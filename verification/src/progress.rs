//! Counters that tell how far a run has come, and the line that shows
//! them.

use vstd::prelude::*;
use vstd::string::StringExecFns;

verus! {

/// Processing progress counters. A counter that is at its maximum starts
/// again at zero.
#[derive(Clone, Copy, Debug, PartialEq, Eq, Structural)]
pub struct ProgressCounters {
    /// Number of files that were targeted for analysis.
    pub file_count: usize,
    /// Number of files that were hashed.
    pub hash_count: usize,
    /// Number of hash collisions.
    pub hash_collision_count: usize,
    /// Number of identical files that already share their storage.
    pub reflinked_count: usize,
    /// Number of duplicate files, candidates for merging.
    pub duplicate_candidate_count: usize,
}

/// The value of a counter after it was incremented.
pub open spec fn incremented(count: usize) -> usize {
    if count == usize::MAX {
        0
    } else {
        (count + 1) as usize
    }
}

/// The character of a decimal digit.
pub open spec fn digit_char(digit: nat) -> char {
    if digit == 0 {
        '0'
    } else if digit == 1 {
        '1'
    } else if digit == 2 {
        '2'
    } else if digit == 3 {
        '3'
    } else if digit == 4 {
        '4'
    } else if digit == 5 {
        '5'
    } else if digit == 6 {
        '6'
    } else if digit == 7 {
        '7'
    } else if digit == 8 {
        '8'
    } else {
        '9'
    }
}

/// The decimal numeral of `value`, without leading zeros.
pub open spec fn decimal(value: nat) -> Seq<char>
    decreases value,
{
    if value < 10 {
        seq![digit_char(value)]
    } else {
        decimal(value / 10).push(digit_char(value % 10))
    }
}

/// The status line for the given counters.
pub open spec fn status_line_of(counters: ProgressCounters) -> Seq<char> {
    decimal(counters.file_count as nat) + " files, "@ + decimal(counters.hash_count as nat)
        + " hashes, "@ + decimal(counters.hash_collision_count as nat) + " hash collisions, "@
        + decimal(counters.reflinked_count as nat) + " already reflinked, "@ + decimal(
        counters.duplicate_candidate_count as nat,
    ) + " duplicates"@
}

/// `String::push` appends one character to the end of the string.
pub assume_specification[ String::push ](line: &mut String, ch: char)
    ensures
        final(line)@ == old(line)@.push(ch),
;

fn digit(value: usize) -> (ch: char)
    requires
        value < 10,
    ensures
        ch == digit_char(value as nat),
{
    if value == 0 {
        '0'
    } else if value == 1 {
        '1'
    } else if value == 2 {
        '2'
    } else if value == 3 {
        '3'
    } else if value == 4 {
        '4'
    } else if value == 5 {
        '5'
    } else if value == 6 {
        '6'
    } else if value == 7 {
        '7'
    } else if value == 8 {
        '8'
    } else {
        '9'
    }
}

/// Appends the decimal numeral of `value` to `line`.
fn push_decimal(line: &mut String, value: usize)
    ensures
        final(line)@ == old(line)@ + decimal(value as nat),
{
    let mut digits: Vec<char> = Vec::new();
    let mut rest: usize = value;
    while rest >= 10
        invariant
            decimal(value as nat) == decimal(rest as nat) + digits@.reverse(),
        decreases rest,
    {
        let ghost before = digits@;
        digits.push(digit(rest % 10));
        assert(decimal(rest as nat) == decimal((rest / 10) as nat).push(
            digit_char((rest % 10) as nat),
        ));
        assert(digits@.reverse() =~= seq![digit_char((rest % 10) as nat)] + before.reverse());
        assert(decimal(rest as nat) + before.reverse() =~= decimal((rest / 10) as nat)
            + digits@.reverse());
        rest = rest / 10;
    }
    let ghost before = digits@;
    digits.push(digit(rest));
    assert(digits@.reverse() =~= decimal(rest as nat) + before.reverse());
    let mut i: usize = digits.len();
    while i > 0
        invariant
            i <= digits.len(),
            line@ == old(line)@ + digits@.reverse().take(digits.len() - i),
        decreases i,
    {
        i -= 1;
        line.push(digits[i]);
        assert(digits@.reverse().take(digits.len() - i) =~= digits@.reverse().take(
            digits.len() - i - 1,
        ).push(digits@[i as int]));
    }
    assert(digits@.reverse().take(digits.len() as int) =~= digits@.reverse());
}

impl ProgressCounters {
    /// Counters that all stand at zero.
    pub fn new() -> (counters: ProgressCounters)
        ensures
            counters == (ProgressCounters {
                file_count: 0,
                hash_count: 0,
                hash_collision_count: 0,
                reflinked_count: 0,
                duplicate_candidate_count: 0,
            }),
    {
        ProgressCounters {
            file_count: 0,
            hash_count: 0,
            hash_collision_count: 0,
            reflinked_count: 0,
            duplicate_candidate_count: 0,
        }
    }

    /// Counts one more file that was targeted for analysis.
    pub fn file_seen(&mut self)
        ensures
            *final(self) == (ProgressCounters {
                file_count: incremented(old(self).file_count),
                ..*old(self)
            }),
    {
        self.file_count = self.file_count.wrapping_add(1);
    }

    /// Counts one more digest that was computed.
    pub fn hash_computed(&mut self)
        ensures
            *final(self) == (ProgressCounters {
                hash_count: incremented(old(self).hash_count),
                ..*old(self)
            }),
    {
        self.hash_count = self.hash_count.wrapping_add(1);
    }

    /// Counts one more pair with equal digests and different content.
    pub fn collision_found(&mut self)
        ensures
            *final(self) == (ProgressCounters {
                hash_collision_count: incremented(old(self).hash_collision_count),
                ..*old(self)
            }),
    {
        self.hash_collision_count = self.hash_collision_count.wrapping_add(1);
    }

    /// Counts one more pair of identical files that share their storage.
    pub fn reflinked_found(&mut self)
        ensures
            *final(self) == (ProgressCounters {
                reflinked_count: incremented(old(self).reflinked_count),
                ..*old(self)
            }),
    {
        self.reflinked_count = self.reflinked_count.wrapping_add(1);
    }

    /// Counts one more pair of duplicates.
    pub fn duplicate_found(&mut self)
        ensures
            *final(self) == (ProgressCounters {
                duplicate_candidate_count: incremented(old(self).duplicate_candidate_count),
                ..*old(self)
            }),
    {
        self.duplicate_candidate_count = self.duplicate_candidate_count.wrapping_add(1);
    }

    /// The counters as one line of text, such as
    /// `3 files, 2 hashes, 0 hash collisions, 0 already reflinked, 1 duplicates`.
    pub fn status_line(&self) -> (line: String)
        ensures
            line@ == status_line_of(*self),
    {
        let mut line = String::new();
        push_decimal(&mut line, self.file_count);
        line.append(" files, ");
        push_decimal(&mut line, self.hash_count);
        line.append(" hashes, ");
        push_decimal(&mut line, self.hash_collision_count);
        line.append(" hash collisions, ");
        push_decimal(&mut line, self.reflinked_count);
        line.append(" already reflinked, ");
        push_decimal(&mut line, self.duplicate_candidate_count);
        line.append(" duplicates");
        assert(line@ =~= status_line_of(*self));
        line
    }
}

} // verus!
