//! Clean-up of the provider's destination texts.
//!
//! A destination such as `"S Spandau Bhf (Berlin)"` carries a mode marker in
//! front and noise behind. The marker is dropped, then the text is read from
//! left to right and cut in front of its first noise: `" (Berlin)"`,
//! `" Bhf"`, or a ring glyph together with the space before it, if there is
//! one.

use crate::text::{chars_of, has_prefix, has_suffix, matches_at, occurs_at, string_of};
use vstd::prelude::*;

verus! {

/// The noise suffix `" (Berlin)"`.
pub open spec fn berlin_suffix() -> Seq<char> {
    seq![' ', '(', 'B', 'e', 'r', 'l', 'i', 'n', ')']
}

/// The noise suffix `" Bhf"`.
pub open spec fn station_suffix() -> Seq<char> {
    seq![' ', 'B', 'h', 'f']
}

/// The noise suffix of the ring line running anticlockwise: a space and the
/// glyph U+27F2.
pub open spec fn ring_anticlockwise_suffix() -> Seq<char> {
    seq![' ', '\u{27F2}']
}

/// The noise suffix of the ring line running clockwise: a space and the glyph
/// U+27F3.
pub open spec fn ring_clockwise_suffix() -> Seq<char> {
    seq![' ', '\u{27F3}']
}

/// Whether `c` is one of the two glyphs that give the direction of the ring
/// line, U+27F2 and U+27F3.
pub open spec fn is_ring_glyph(c: char) -> bool {
    c == '\u{27F2}' || c == '\u{27F3}'
}

/// Whether `s` begins with a mode marker: `S` or `U` followed by a space.
pub open spec fn has_marker(s: Seq<char>) -> bool {
    s.len() >= 2 && (s[0] == 'S' || s[0] == 'U') && s[1] == ' '
}

/// `s` without its leading mode marker, where it has one. An `S` or `U` that
/// no space follows belongs to the name and stays.
pub open spec fn without_marker(s: Seq<char>) -> Seq<char> {
    if has_marker(s) {
        s.skip(2)
    } else {
        s
    }
}

/// The length of the noise that `s` ends with, if it ends with noise. A ring
/// glyph is noise by itself; the space in front of it, where there is one,
/// goes with it.
pub open spec fn noise_len(s: Seq<char>) -> Option<nat> {
    if has_suffix(s, berlin_suffix()) {
        Some(9nat)
    } else if has_suffix(s, station_suffix()) {
        Some(4nat)
    } else if has_suffix(s, ring_anticlockwise_suffix()) || has_suffix(
        s,
        ring_clockwise_suffix(),
    ) {
        Some(2nat)
    } else if s.len() > 0 && is_ring_glyph(s.last()) {
        Some(1nat)
    } else {
        None
    }
}

/// Whether `s` ends with noise: with `" (Berlin)"`, with `" Bhf"`, or with
/// a ring glyph.
pub open spec fn ends_with_noise(s: Seq<char>) -> bool {
    noise_len(s) is Some
}

/// Whether noise begins in `s` at index `i`: `" (Berlin)"`, `" Bhf"`, a ring
/// glyph, or a space that a ring glyph follows.
pub open spec fn noise_begins_at(s: Seq<char>, i: int) -> bool {
    ||| occurs_at(s, berlin_suffix(), i)
    ||| occurs_at(s, station_suffix(), i)
    ||| occurs_at(s, ring_anticlockwise_suffix(), i)
    ||| occurs_at(s, ring_clockwise_suffix(), i)
    ||| (0 <= i < s.len() && is_ring_glyph(s[i]))
}

/// Whether `s` is free of noise: none begins anywhere in it.
pub open spec fn is_clean(s: Seq<char>) -> bool {
    forall|i: int| !noise_begins_at(s, i)
}

/// The least index from `from` on at which noise begins in `s`; the length
/// of `s` where none begins there.
pub open spec fn first_noise_from(s: Seq<char>, from: nat) -> nat
    decreases s.len() - from,
{
    if from >= s.len() {
        s.len()
    } else if noise_begins_at(s, from as int) {
        from
    } else {
        first_noise_from(s, from + 1)
    }
}

/// The index at which the first noise of `s` begins; the length of `s`
/// where it holds none.
pub open spec fn first_noise(s: Seq<char>) -> nat {
    first_noise_from(s, 0)
}

/// `s` cut where its first noise begins; the whole of `s` where it holds
/// none.
pub open spec fn without_noise(s: Seq<char>) -> Seq<char> {
    s.take(first_noise(s) as int)
}

/// What reading `s` from left to right comes to, once its first `n`
/// characters are read and no shorter prefix ended with noise: the prefix of
/// `n` characters is tested, then the next, to the end of `s`. The first
/// prefix that ends with noise is returned without that noise; a text
/// without such a prefix is returned whole. This is [`without_noise`] (see
/// [`lemma_scan_cuts_at_first_noise`]).
pub open spec fn scan_from(s: Seq<char>, n: nat) -> Seq<char>
    decreases s.len() - n,
{
    if n > s.len() {
        s
    } else {
        match noise_len(s.take(n as int)) {
            Some(k) => s.take(n - k),
            None => if n == s.len() {
                s
            } else {
                scan_from(s, n + 1)
            },
        }
    }
}

/// The cleaned destination: marker dropped, then cut at the first noise.
pub open spec fn cleaned(s: Seq<char>) -> Seq<char> {
    without_noise(without_marker(s))
}

/// A scan returns a prefix of the text.
proof fn lemma_scan_is_prefix(s: Seq<char>, n: nat)
    requires
        n <= s.len(),
    ensures
        scan_from(s, n).len() <= s.len(),
        scan_from(s, n) == s.take(scan_from(s, n).len() as int),
    decreases s.len() - n,
{
    match noise_len(s.take(n as int)) {
        Some(k) => {},
        None => {
            if n == s.len() {
                assert(s =~= s.take(s.len() as int));
            } else {
                lemma_scan_is_prefix(s, n + 1);
            }
        },
    }
}

/// A text that ends with noise holds that noise where the suffix begins:
/// a space, or a ring glyph that no space precedes.
proof fn lemma_noise_begins(s: Seq<char>, n: nat, k: nat)
    requires
        n <= s.len(),
        noise_len(s.take(n as int)) == Some(k),
    ensures
        1 <= k <= n,
        noise_begins_at(s, n - k),
        s[n - k] == ' ' || (is_ring_glyph(s[n - k]) && (n - k == 0 || s[n - k - 1] != ' ')),
{
    let t = s.take(n as int);
    if has_suffix(t, berlin_suffix()) {
        assert(t.skip(n - 9) =~= s.subrange(n - 9, n as int));
        assert(t.skip(n - 9)[0] == ' ');
    } else if has_suffix(t, station_suffix()) {
        assert(t.skip(n - 4) =~= s.subrange(n - 4, n as int));
        assert(t.skip(n - 4)[0] == ' ');
    } else if has_suffix(t, ring_anticlockwise_suffix()) || has_suffix(
        t,
        ring_clockwise_suffix(),
    ) {
        assert(t.skip(n - 2) =~= s.subrange(n - 2, n as int));
        assert(t.skip(n - 2)[0] == ' ');
    } else {
        assert(t.last() == s[n - 1]);
        if n >= 2 && s[n - 2] == ' ' {
            assert(t.skip(n - 2) =~= seq![' ', s[n - 1]]);
        }
    }
}

/// Where noise begins at index `i`, a prefix that reaches beyond `i` ends
/// with noise of at least that length, and between `i` and the end of that
/// prefix stands no space, and no ring glyph but one that follows a space
/// at `i`.
proof fn lemma_noise_ends(s: Seq<char>, i: int) -> (e: int)
    requires
        noise_begins_at(s, i),
    ensures
        i < e <= s.len(),
        noise_len(s.take(e)) matches Some(k) && k >= e - i,
        forall|j: int| i < j < e ==> s[j] != ' ',
        forall|j: int| i < j < e && is_ring_glyph(s[j]) ==> j == i + 1 && s[i] == ' ',
{
    if occurs_at(s, berlin_suffix(), i) {
        let e = i + 9;
        assert(s.take(e).skip(e - 9) =~= s.subrange(i, e));
        assert forall|j: int| i < j < e implies s[j] != ' ' && !is_ring_glyph(s[j]) by {
            assert(s[j] == s.subrange(i, e)[j - i]);
        }
        e
    } else if occurs_at(s, station_suffix(), i) {
        let e = i + 4;
        assert(s.take(e).skip(e - 4) =~= s.subrange(i, e));
        assert(s.take(e).last() == s.subrange(i, e)[3]);
        assert forall|j: int| i < j < e implies s[j] != ' ' && !is_ring_glyph(s[j]) by {
            assert(s[j] == s.subrange(i, e)[j - i]);
        }
        e
    } else if occurs_at(s, ring_anticlockwise_suffix(), i) || occurs_at(
        s,
        ring_clockwise_suffix(),
        i,
    ) {
        let e = i + 2;
        assert(s.take(e).skip(e - 2) =~= s.subrange(i, e));
        assert(s.take(e).last() == s.subrange(i, e)[1]);
        assert(s[i] == s.subrange(i, e)[0]);
        assert(s[i + 1] == s.subrange(i, e)[1]);
        e
    } else {
        let e = i + 1;
        assert(s.take(e).last() == s[i]);
        e
    }
}

/// The first prefix of `s`, from `n` characters on, that ends with noise:
/// its length and the length of that noise; `None` where no such prefix
/// ends with noise. The scan cuts the text in front of that noise.
proof fn lemma_first_match(s: Seq<char>, n: nat) -> (found: Option<(nat, nat)>)
    requires
        n <= s.len(),
    ensures
        match found {
            Some((end, k)) => {
                &&& n <= end <= s.len()
                &&& noise_len(s.take(end as int)) == Some(k)
                &&& scan_from(s, n) == s.take(end - k)
                &&& forall|m: int| n <= m < end ==> !ends_with_noise(#[trigger] s.take(m))
            },
            None => {
                &&& scan_from(s, n) == s
                &&& forall|m: int| n <= m <= s.len() ==> !ends_with_noise(#[trigger] s.take(m))
            },
        },
    decreases s.len() - n,
{
    match noise_len(s.take(n as int)) {
        Some(k) => Some((n, k)),
        None => {
            if n < s.len() {
                lemma_first_match(s, n + 1)
            } else {
                None
            }
        },
    }
}

/// Reading from left to right cuts the text at the least index at which
/// noise begins, and leaves it whole where none begins.
proof fn lemma_scan_cut(s: Seq<char>)
    ensures
        scan_from(s, 0) == s.take(scan_from(s, 0).len() as int),
        scan_from(s, 0).len() <= s.len(),
        scan_from(s, 0).len() < s.len() ==> noise_begins_at(s, scan_from(s, 0).len() as int),
        forall|i: int| 0 <= i < scan_from(s, 0).len() ==> !noise_begins_at(s, i),
{
    let cut = scan_from(s, 0).len() as int;
    lemma_scan_is_prefix(s, 0);
    let found = lemma_first_match(s, 0);
    match found {
        Some((end, k)) => {
            lemma_noise_begins(s, end, k);
            assert(cut == end - k);
            assert forall|i: int| 0 <= i < cut implies !noise_begins_at(s, i) by {
                if noise_begins_at(s, i) {
                    let e = lemma_noise_ends(s, i);
                    if e < end {
                        assert(!ends_with_noise(s.take(e)));
                    } else if e > end {
                        assert(s[cut] != ' ');
                        assert(is_ring_glyph(s[cut]) ==> cut == i + 1 && s[i] == ' ');
                    }
                }
            }
        },
        None => {
            assert forall|i: int| 0 <= i < cut implies !noise_begins_at(s, i) by {
                if noise_begins_at(s, i) {
                    let e = lemma_noise_ends(s, i);
                    assert(!ends_with_noise(s.take(e)));
                }
            }
        },
    }
}

/// From `from` on, noise begins at `first_noise_from` and nowhere before.
proof fn lemma_first_noise_from(s: Seq<char>, from: nat)
    requires
        from <= s.len(),
    ensures
        from <= first_noise_from(s, from) <= s.len(),
        first_noise_from(s, from) < s.len() ==> noise_begins_at(
            s,
            first_noise_from(s, from) as int,
        ),
        forall|i: int| from <= i < first_noise_from(s, from) ==> !noise_begins_at(s, i),
    decreases s.len() - from,
{
    if from < s.len() && !noise_begins_at(s, from as int) {
        lemma_first_noise_from(s, from + 1);
    }
}

/// The text is cut at the least index at which noise begins, and is whole
/// where none begins.
pub proof fn lemma_cut_at_first_noise(s: Seq<char>)
    ensures
        without_noise(s).len() == first_noise(s) <= s.len(),
        first_noise(s) < s.len() ==> noise_begins_at(s, first_noise(s) as int),
        forall|i: int| 0 <= i < first_noise(s) ==> !noise_begins_at(s, i),
        is_clean(s) ==> without_noise(s) == s,
        has_prefix(s, without_noise(s)),
{
    lemma_first_noise_from(s, 0);
    if is_clean(s) {
        assert(s.take(s.len() as int) =~= s);
    }
    assert(s.take(first_noise(s) as int).take(first_noise(s) as int) =~= s.take(
        first_noise(s) as int,
    ));
}

/// Reading the text from left to right, and stopping at the first prefix
/// that ends with noise, cuts it where its first noise begins. Of noise
/// that ends at the same character the longer counts: the space before a
/// ring glyph goes with the glyph.
pub proof fn lemma_scan_cuts_at_first_noise(s: Seq<char>)
    ensures
        scan_from(s, 0) == without_noise(s),
{
    lemma_scan_cut(s);
    lemma_first_noise_from(s, 0);
}

/// No noise is left anywhere in a text that is cut at its first noise.
pub proof fn lemma_without_noise_is_clean(s: Seq<char>)
    ensures
        is_clean(without_noise(s)),
{
    let r = without_noise(s);
    lemma_cut_at_first_noise(s);
    assert forall|i: int| !noise_begins_at(r, i) by {
        if noise_begins_at(r, i) {
            assert(0 <= i < r.len());
            if occurs_at(r, berlin_suffix(), i) {
                assert(r.subrange(i, i + 9) =~= s.subrange(i, i + 9));
            } else if occurs_at(r, station_suffix(), i) {
                assert(r.subrange(i, i + 4) =~= s.subrange(i, i + 4));
            } else if occurs_at(r, ring_anticlockwise_suffix(), i) || occurs_at(
                r,
                ring_clockwise_suffix(),
                i,
            ) {
                assert(r.subrange(i, i + 2) =~= s.subrange(i, i + 2));
            } else {
                assert(r[i] == s[i]);
            }
            assert(noise_begins_at(s, i));
        }
    }
}

/// A text that is free of noise ends with none: not with `" (Berlin)"`, not
/// with `" Bhf"`, and not with a ring glyph.
pub proof fn lemma_clean_ends_with_no_noise(s: Seq<char>)
    requires
        is_clean(s),
    ensures
        !ends_with_noise(s),
        !has_suffix(s, berlin_suffix()),
        !has_suffix(s, station_suffix()),
        s.len() > 0 ==> !is_ring_glyph(s.last()),
{
    if ends_with_noise(s) {
        assert(s.take(s.len() as int) =~= s);
        lemma_noise_begins(s, s.len(), noise_len(s)->0);
    }
}

/// No cleaned destination holds noise anywhere, and none ends with
/// `" (Berlin)"`, with `" Bhf"` or with a ring glyph.
pub proof fn lemma_cleaned_is_clean(s: Seq<char>)
    ensures
        is_clean(cleaned(s)),
        !ends_with_noise(cleaned(s)),
        !has_suffix(cleaned(s), berlin_suffix()),
        !has_suffix(cleaned(s), station_suffix()),
        cleaned(s).len() > 0 ==> !is_ring_glyph(cleaned(s).last()),
{
    lemma_without_noise_is_clean(without_marker(s));
    lemma_clean_ends_with_no_noise(cleaned(s));
}

/// A mode marker in front of the text is dropped: the cleaned destination
/// is made of what follows the marker.
pub proof fn lemma_marker_is_dropped(s: Seq<char>)
    requires
        has_marker(s),
    ensures
        cleaned(s) == without_noise(s.skip(2)),
        has_prefix(s.skip(2), cleaned(s)),
{
    lemma_cut_at_first_noise(s.skip(2));
}

/// A marker is dropped once. Where what follows it begins with a marker of
/// its own, that one stays, unless noise begins right behind its letter
/// (see [`lemma_second_marker_stays`]). For every other text the cleaned
/// destination begins with no marker.
pub proof fn lemma_cleaned_has_no_marker(s: Seq<char>)
    requires
        has_marker(s) && has_marker(s.skip(2)) ==> noise_begins_at(s.skip(2), 1),
    ensures
        !has_marker(cleaned(s)),
{
    let rest = without_marker(s);
    lemma_cut_at_first_noise(rest);
}

/// The counterpart: a second marker that no noise follows right behind its
/// letter stays in front of the cleaned destination.
pub proof fn lemma_second_marker_stays(s: Seq<char>)
    requires
        has_marker(s),
        has_marker(s.skip(2)),
        !noise_begins_at(s.skip(2), 1),
    ensures
        has_marker(cleaned(s)),
{
    let rest = s.skip(2);
    lemma_cut_at_first_noise(rest);
    let cut = cleaned(s).len() as int;
    if cut < rest.len() {
        assert(noise_begins_at(rest, cut));
        if cut == 0 {
            if occurs_at(rest, berlin_suffix(), 0) {
                assert(rest.subrange(0, 9)[0] == rest[0]);
            } else if occurs_at(rest, station_suffix(), 0) {
                assert(rest.subrange(0, 4)[0] == rest[0]);
            } else if occurs_at(rest, ring_anticlockwise_suffix(), 0) || occurs_at(
                rest,
                ring_clockwise_suffix(),
                0,
            ) {
                assert(rest.subrange(0, 2)[0] == rest[0]);
            }
        }
    }
}

/// The characters of the noise suffixes that are longer than one glyph.
struct NoisePatterns {
    berlin: Vec<char>,
    station: Vec<char>,
    anticlockwise: Vec<char>,
    clockwise: Vec<char>,
}

impl NoisePatterns {
    spec fn wf(&self) -> bool {
        &&& self.berlin@ == berlin_suffix()
        &&& self.station@ == station_suffix()
        &&& self.anticlockwise@ == ring_anticlockwise_suffix()
        &&& self.clockwise@ == ring_clockwise_suffix()
    }

    fn new() -> (p: NoisePatterns)
        ensures
            p.wf(),
    {
        let berlin = vec![' ', '(', 'B', 'e', 'r', 'l', 'i', 'n', ')'];
        let station = vec![' ', 'B', 'h', 'f'];
        let anticlockwise = vec![' ', '\u{27F2}'];
        let clockwise = vec![' ', '\u{27F3}'];
        assert(berlin@ =~= berlin_suffix());
        assert(station@ =~= station_suffix());
        assert(anticlockwise@ =~= ring_anticlockwise_suffix());
        assert(clockwise@ =~= ring_clockwise_suffix());
        NoisePatterns { berlin, station, anticlockwise, clockwise }
    }
}

/// Whether the pattern `p` ends at index `end` of `v`, counted from `start`:
/// that is, whether `v[start..end]` ends with `p`.
fn ends_at(v: &Vec<char>, start: usize, end: usize, p: &Vec<char>) -> (b: bool)
    requires
        start <= end <= v.len(),
    ensures
        b == has_suffix(v@.subrange(start as int, end as int), p@),
{
    if p.len() > end - start {
        return false;
    }
    let b = matches_at(v, p, end - p.len());
    proof {
        let window = v@.subrange(start as int, end as int);
        assert(window.skip(window.len() - p.len()) =~= v@.subrange(end - p.len(), end as int));
    }
    b
}

/// The length of the noise that `v[start..end]` ends with.
fn noise_at(v: &Vec<char>, start: usize, end: usize, patterns: &NoisePatterns) -> (k: Option<
    usize,
>)
    requires
        start <= end <= v.len(),
        patterns.wf(),
    ensures
        match k {
            Some(k) => noise_len(v@.subrange(start as int, end as int)) == Some(k as nat) && k
                <= end - start,
            None => noise_len(v@.subrange(start as int, end as int)) is None,
        },
{
    if ends_at(v, start, end, &patterns.berlin) {
        Some(9)
    } else if ends_at(v, start, end, &patterns.station) {
        Some(4)
    } else if ends_at(v, start, end, &patterns.anticlockwise) || ends_at(
        v,
        start,
        end,
        &patterns.clockwise,
    ) {
        Some(2)
    } else if end > start && (v[end - 1] == '\u{27F2}' || v[end - 1] == '\u{27F3}') {
        Some(1)
    } else {
        None
    }
}

/// Where the text proper begins in `v`: behind the mode marker, if there is
/// one.
fn marker_end(v: &Vec<char>) -> (start: usize)
    ensures
        start <= v.len(),
        v@.skip(start as int) == without_marker(v@),
{
    if v.len() >= 2 && (v[0] == 'S' || v[0] == 'U') && v[1] == ' ' {
        2
    } else {
        assert(v@.skip(0) =~= v@);
        0
    }
}

/// Where the text `v[start..]` is cut: in front of its first noise suffix,
/// or at its end.
fn noise_start(v: &Vec<char>, start: usize) -> (cut: usize)
    requires
        start <= v.len(),
    ensures
        start <= cut <= v.len(),
        v@.subrange(start as int, cut as int) == without_noise(v@.skip(start as int)),
{
    let patterns = NoisePatterns::new();
    let ghost s = v@.skip(start as int);
    let mut end: usize = start;
    loop
        invariant
            start <= end <= v.len(),
            patterns.wf(),
            s == v@.skip(start as int),
            scan_from(s, 0) == scan_from(s, (end - start) as nat),
        decreases v.len() - end,
    {
        proof {
            assert(s.take(end - start) =~= v@.subrange(start as int, end as int));
        }
        match noise_at(v, start, end, &patterns) {
            Some(k) => {
                proof {
                    assert(s.take(end - start - k) =~= v@.subrange(start as int, end - k));
                    lemma_scan_cuts_at_first_noise(s);
                }
                return end - k;
            },
            None => {
                if end == v.len() {
                    proof {
                        assert(s =~= v@.subrange(start as int, end as int));
                        lemma_scan_cuts_at_first_noise(s);
                    }
                    return end;
                }
                end = end + 1;
            },
        }
    }
}

/// Drops a leading `"S "` or `"U "`.
pub fn strip_marker(dest: &str) -> (r: String)
    ensures
        r@ == without_marker(dest@),
{
    let v = chars_of(dest);
    let start = marker_end(&v);
    let r = string_of(&v, start, v.len());
    proof {
        assert(v@.subrange(start as int, v.len() as int) =~= v@.skip(start as int));
    }
    r
}

/// Cuts the text where the first of `" (Berlin)"`, `" Bhf"` or a ring glyph
/// begins; a space in front of the glyph goes with it.
pub fn strip_noise(dest: &str) -> (r: String)
    ensures
        r@ == without_noise(dest@),
{
    let v = chars_of(dest);
    let cut = noise_start(&v, 0);
    proof {
        assert(v@.skip(0) =~= v@);
    }
    string_of(&v, 0, cut)
}

/// The destination as it is shown: without its mode marker and cut at its
/// first noise. Only one noise rule applies to a text.
pub fn clean_destination(dest: &str) -> (r: String)
    ensures
        r@ == cleaned(dest@),
{
    let v = chars_of(dest);
    let start = marker_end(&v);
    let cut = noise_start(&v, start);
    string_of(&v, start, cut)
}

} // verus!
