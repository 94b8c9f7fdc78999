//! The mode filter: which line codes a local rider wants to see.
//!
//! Suburban rail, underground and tram lines are kept. Regional and
//! long-distance trains, the ring line in both directions, and buses (line
//! codes made of numerals alone) are not.

use crate::text::{chars_of, has_prefix, is_numeric_char, same_text, starts_with};
use vstd::prelude::*;

verus! {

/// Whether `line` begins with one of the prefixes of regional and
/// long-distance rail: `RE`, `RB`, `IC`, `EC`, `EN`, `FEX`, `ICE`.
pub open spec fn is_long_distance(line: Seq<char>) -> bool {
    ||| has_prefix(line, seq!['R', 'E'])
    ||| has_prefix(line, seq!['R', 'B'])
    ||| has_prefix(line, seq!['I', 'C'])
    ||| has_prefix(line, seq!['E', 'C'])
    ||| has_prefix(line, seq!['E', 'N'])
    ||| has_prefix(line, seq!['F', 'E', 'X'])
    ||| has_prefix(line, seq!['I', 'C', 'E'])
}

/// Whether `line` is one of the two codes of the ring line, `S41` (clockwise)
/// and `S42` (anticlockwise).
pub open spec fn is_ring_line(line: Seq<char>) -> bool {
    line == seq!['S', '4', '1'] || line == seq!['S', '4', '2']
}

/// Whether every character of `line` is numeric. The empty code counts.
pub open spec fn is_all_numeric(line: Seq<char>) -> bool {
    forall|i: int| 0 <= i < line.len() ==> is_numeric_char(#[trigger] line[i])
}

/// Whether every character of `line` is one of the digits `0` to `9`.
pub open spec fn is_all_digits(line: Seq<char>) -> bool {
    forall|i: int| 0 <= i < line.len() ==> '0' <= #[trigger] line[i] <= '9'
}

/// Whether the mode filter drops `line`.
pub open spec fn is_excluded(line: Seq<char>) -> bool {
    is_long_distance(line) || is_ring_line(line) || is_all_numeric(line)
}

/// A line code written in the digits `0` to `9` alone, such as `347`, is
/// made of numerals, and the mode filter drops it.
pub proof fn lemma_digits_are_dropped(line: Seq<char>)
    requires
        is_all_digits(line),
    ensures
        is_all_numeric(line),
        is_excluded(line),
{
}

/// Whether `line` begins with a prefix of regional or long-distance rail.
pub fn is_long_distance_line(line: &str) -> (b: bool)
    ensures
        b == is_long_distance(line@),
{
    let v = chars_of(line);
    let re = vec!['R', 'E'];
    let rb = vec!['R', 'B'];
    let ic = vec!['I', 'C'];
    let ec = vec!['E', 'C'];
    let en = vec!['E', 'N'];
    let fex = vec!['F', 'E', 'X'];
    let ice = vec!['I', 'C', 'E'];
    proof {
        assert(re@ =~= seq!['R', 'E']);
        assert(rb@ =~= seq!['R', 'B']);
        assert(ic@ =~= seq!['I', 'C']);
        assert(ec@ =~= seq!['E', 'C']);
        assert(en@ =~= seq!['E', 'N']);
        assert(fex@ =~= seq!['F', 'E', 'X']);
        assert(ice@ =~= seq!['I', 'C', 'E']);
    }
    starts_with(&v, &re) || starts_with(&v, &rb) || starts_with(&v, &ic) || starts_with(&v, &ec)
        || starts_with(&v, &en) || starts_with(&v, &fex) || starts_with(&v, &ice)
}

/// Whether `line` is a code of the ring line.
pub fn is_ring_line_code(line: &str) -> (b: bool)
    ensures
        b == is_ring_line(line@),
{
    let v = chars_of(line);
    let clockwise = vec!['S', '4', '1'];
    let anticlockwise = vec!['S', '4', '2'];
    proof {
        assert(clockwise@ =~= seq!['S', '4', '1']);
        assert(anticlockwise@ =~= seq!['S', '4', '2']);
    }
    same_text(&v, &clockwise) || same_text(&v, &anticlockwise)
}

/// Whether `line` is made of numerals alone, as bus lines are.
pub fn is_bus_line(line: &str) -> (b: bool)
    ensures
        b == is_all_numeric(line@),
{
    let v = chars_of(line);
    let mut i: usize = 0;
    while i < v.len()
        invariant
            i <= v.len(),
            v@ == line@,
            forall|j: int| 0 <= j < i ==> is_numeric_char(#[trigger] v@[j]),
        decreases v.len() - i,
    {
        if !v[i].is_numeric() {
            return false;
        }
        i = i + 1;
    }
    true
}

/// Whether the mode filter drops `line`.
pub fn is_excluded_line(line: &str) -> (b: bool)
    ensures
        b == is_excluded(line@),
{
    is_long_distance_line(line) || is_ring_line_code(line) || is_bus_line(line)
}

} // verus!
