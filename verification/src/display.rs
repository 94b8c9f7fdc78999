//! Text layout for the matrix display: word-wrap, and where each line of a
//! departure goes on the panel.
//!
//! Widths are measured as `str::len` measures them, in UTF-8 bytes; a word
//! that is too wide is cut after `max_width` characters.

use crate::departure::{Departure, DepartureView};
use crate::text::{
    byte_len, byte_len_of, chars_of, decimal, is_whitespace_char, lemma_byte_len_ascii,
    lemma_byte_len_bounds, push_decimal, string_of, take_chars,
};
use vstd::prelude::*;
use vstd::string::*;
use vstd::utf8::is_ascii_chars;

verus! {

/// The size of the panel and how it is wired.
#[derive(Debug, Clone, PartialEq)]
pub struct DisplayConfig {
    /// Matrix width in pixels.
    pub width: u32,
    /// Matrix height in pixels.
    pub height: u32,
    /// The hardware mapping, such as `"regular"` or `"adafruit-hat"`; handed
    /// on to the driver as it is.
    pub hardware_mapping: String,
}

impl Default for DisplayConfig {
    /// A panel of 64 by 32 pixels with the regular mapping.
    fn default() -> (config: DisplayConfig)
        ensures
            config.width == 64,
            config.height == 32,
            config.hardware_mapping@ == "regular"@,
    {
        DisplayConfig { width: 64, height: 32, hardware_mapping: "regular".to_owned() }
    }
}

/// The number of characters before the first whitespace of `s`.
pub open spec fn word_len(s: Seq<char>) -> nat
    decreases s.len(),
{
    if s.len() == 0 || is_whitespace_char(s[0]) {
        0
    } else {
        1 + word_len(s.drop_first())
    }
}

/// A word is no longer than the text it begins.
pub proof fn lemma_word_len_bound(s: Seq<char>)
    ensures
        word_len(s) <= s.len(),
    decreases s.len(),
{
    if s.len() > 0 && !is_whitespace_char(s[0]) {
        lemma_word_len_bound(s.drop_first());
    }
}

/// The words of `s`: its maximal runs of characters that are not
/// whitespace, from left to right.
pub open spec fn words(s: Seq<char>) -> Seq<Seq<char>>
    decreases s.len(),
{
    if s.len() == 0 {
        Seq::empty()
    } else if is_whitespace_char(s[0]) {
        words(s.drop_first())
    } else {
        proof {
            lemma_word_len_bound(s);
        }
        seq![s.take(word_len(s) as int)] + words(s.skip(word_len(s) as int))
    }
}

/// The width of the line `current` once `word` is added to it.
pub open spec fn joined_len(current: Seq<char>, word: Seq<char>) -> nat {
    if current.len() == 0 {
        byte_len(word)
    } else {
        byte_len(current) + 1 + byte_len(word)
    }
}

/// The line `current` with `word` added: behind a space, unless the line
/// was empty.
pub open spec fn joined(current: Seq<char>, word: Seq<char>) -> Seq<char> {
    if current.len() == 0 {
        word
    } else {
        current + seq![' '] + word
    }
}

/// The line that `word` opens: the word, cut after `max_width` characters
/// where it is wider than `max_width`.
pub open spec fn opening(word: Seq<char>, max_width: nat) -> Seq<char> {
    if byte_len(word) > max_width {
        word.take(if max_width <= word.len() { max_width as int } else { word.len() as int })
    } else {
        word
    }
}

/// `lines` with the line `current` closed, where it holds anything and
/// fewer than `max_lines` lines are closed yet.
pub open spec fn closed(lines: Seq<Seq<char>>, current: Seq<char>, max_lines: nat) -> Seq<
    Seq<char>,
> {
    if current.len() > 0 && lines.len() < max_lines {
        lines.push(current)
    } else {
        lines
    }
}

/// The lines that greedy wrapping fills, given the `words` still to place,
/// the `lines` already closed and the line `current` being filled.
///
/// A word goes on the current line if the line stays within `max_width`.
/// Otherwise the current line is closed and, unless `max_lines` lines are
/// closed by then, the word opens the next one. What is left of the current
/// line after the last word is closed if there is room for it.
pub open spec fn placed(
    words: Seq<Seq<char>>,
    lines: Seq<Seq<char>>,
    current: Seq<char>,
    max_width: nat,
    max_lines: nat,
) -> Seq<Seq<char>>
    decreases words.len(),
{
    if words.len() == 0 {
        closed(lines, current, max_lines)
    } else if joined_len(current, words[0]) <= max_width {
        placed(words.drop_first(), lines, joined(current, words[0]), max_width, max_lines)
    } else if closed(lines, current, max_lines).len() >= max_lines {
        closed(lines, current, max_lines)
    } else {
        placed(
            words.drop_first(),
            closed(lines, current, max_lines),
            opening(words[0], max_width),
            max_width,
            max_lines,
        )
    }
}

/// The first `max_lines` of `lines`, followed by as many empty lines as it
/// takes to make `max_lines`.
pub open spec fn padded(lines: Seq<Seq<char>>, max_lines: nat) -> Seq<Seq<char>> {
    Seq::new(
        max_lines,
        |i: int|
            if i < lines.len() {
                lines[i]
            } else {
                Seq::empty()
            },
    )
}

/// `text` wrapped greedily into exactly `max_lines` lines of at most
/// `max_width`; words that find no room are left out.
pub open spec fn wrapped(text: Seq<char>, max_width: nat, max_lines: nat) -> Seq<Seq<char>> {
    padded(placed(words(text), Seq::empty(), Seq::empty(), max_width, max_lines), max_lines)
}

/// A run of `n` characters without whitespace that ends the text, or that
/// whitespace follows, is the first word.
proof fn lemma_word_len_is(s: Seq<char>, n: nat)
    requires
        n <= s.len(),
        forall|k: int| 0 <= k < n ==> !is_whitespace_char(#[trigger] s[k]),
        n == s.len() || is_whitespace_char(s[n as int]),
    ensures
        word_len(s) == n,
    decreases n,
{
    if n > 0 {
        let rest = s.drop_first();
        assert forall|k: int| 0 <= k < n - 1 implies !is_whitespace_char(#[trigger] rest[k]) by {
            assert(rest[k] == s[k + 1]);
        }
        lemma_word_len_is(rest, (n - 1) as nat);
    }
}

/// The words of `text`, split at whitespace.
pub fn split_words(text: &str) -> (out: Vec<String>)
    ensures
        out.deep_view() == words(text@),
{
    let v = chars_of(text);
    let mut out: Vec<String> = Vec::new();
    let mut i: usize = 0;
    proof {
        assert(v@.skip(0) =~= v@);
        assert(out.deep_view() =~= Seq::<Seq<char>>::empty());
    }
    while i < v.len()
        invariant
            i <= v.len(),
            v@ == text@,
            words(text@) == out.deep_view() + words(v@.skip(i as int)),
        decreases v.len() - i,
    {
        let ghost rest = v@.skip(i as int);
        let ghost done = out.deep_view();
        if v[i].is_whitespace() {
            proof {
                assert(rest.drop_first() =~= v@.skip(i + 1));
            }
            i = i + 1;
        } else {
            let start = i;
            let mut end: usize = i + 1;
            while end < v.len() && !v[end].is_whitespace()
                invariant
                    start < end <= v.len(),
                    forall|k: int| start <= k < end ==> !is_whitespace_char(#[trigger] v@[k]),
                decreases v.len() - end,
            {
                end = end + 1;
            }
            let word = string_of(&v, start, end);
            proof {
                assert forall|k: int| 0 <= k < end - start implies !is_whitespace_char(
                    #[trigger] rest[k],
                ) by {
                    assert(rest[k] == v@[start + k]);
                }
                lemma_word_len_is(rest, (end - start) as nat);
                assert(rest.take(end - start) =~= v@.subrange(start as int, end as int));
                assert(rest.skip(end - start) =~= v@.skip(end as int));
            }
            out.push(word);
            proof {
                assert(out.deep_view() =~= done.push(word@));
                assert(done.push(word@) + words(v@.skip(end as int)) =~= done + (seq![word@]
                    + words(v@.skip(end as int))));
            }
            i = end;
        }
    }
    proof {
        assert(v@.skip(v.len() as int) =~= Seq::<char>::empty());
        assert(out.deep_view() + Seq::<Seq<char>>::empty() =~= out.deep_view());
    }
    out
}

/// Whether `word` still goes on the line `current` within `max_width`.
fn fits(current: &String, word: &String, max_width: usize) -> (b: bool)
    ensures
        b == (joined_len(current@, word@) <= max_width),
{
    let width = byte_len_of(word.as_str());
    proof {
        lemma_byte_len_bounds(current@);
    }
    if current.as_str().is_empty() {
        width <= max_width
    } else {
        let used = byte_len_of(current.as_str());
        used < max_width && width <= max_width - used - 1
    }
}

/// Wraps `text` greedily at whitespace into exactly `max_lines` lines.
///
/// A word is added to the current line while the line stays within
/// `max_width`. A word wider than `max_width` is cut after `max_width`
/// characters and stands on a line of its own. Once `max_lines` lines are
/// full, the words that remain are left out; lines that are not needed are
/// empty.
pub fn smart_wrap(text: &str, max_width: usize, max_lines: usize) -> (lines: Vec<String>)
    ensures
        lines.deep_view() == wrapped(text@, max_width as nat, max_lines as nat),
        lines.len() == max_lines,
        forall|k: int| 0 <= k < lines.len() ==> (#[trigger] lines.deep_view()[k]).len() <= max_width,
{
    let all = split_words(text);
    let mut lines: Vec<String> = Vec::new();
    let mut current = String::new();
    let mut i: usize = 0;
    let ghost goal = placed(
        all.deep_view(),
        Seq::empty(),
        Seq::empty(),
        max_width as nat,
        max_lines as nat,
    );
    proof {
        assert(all.deep_view().skip(0) =~= all.deep_view());
        assert(lines.deep_view() =~= Seq::<Seq<char>>::empty());
    }
    while i < all.len()
        invariant_except_break
            goal == placed(
                all.deep_view().skip(i as int),
                lines.deep_view(),
                current@,
                max_width as nat,
                max_lines as nat,
            ),
        invariant
            i <= all.len(),
            lines.len() <= max_lines,
        ensures
            goal == closed(lines.deep_view(), current@, max_lines as nat),
            lines.len() <= max_lines,
        decreases all.len() - i,
    {
        let ghost rest = all.deep_view().skip(i as int);
        let ghost line = current@;
        let ghost above = lines.deep_view();
        proof {
            assert(rest[0] == all[i as int]@);
            assert(rest.drop_first() =~= all.deep_view().skip(i + 1));
        }
        if fits(&current, &all[i], max_width) {
            if !current.as_str().is_empty() {
                current.push(' ');
            }
            current.append(all[i].as_str());
            proof {
                assert(current@ =~= joined(line, rest[0]));
            }
            i = i + 1;
        } else {
            if !current.as_str().is_empty() && lines.len() < max_lines {
                lines.push(current);
                current = String::new();
                proof {
                    assert(lines.deep_view() =~= above.push(line));
                }
            }
            if lines.len() >= max_lines {
                break;
            }
            current = if byte_len_of(all[i].as_str()) > max_width {
                take_chars(all[i].as_str(), max_width)
            } else {
                all[i].clone()
            };
            i = i + 1;
        }
    }
    let ghost filled = lines.deep_view();
    if !current.as_str().is_empty() && lines.len() < max_lines {
        lines.push(current);
        proof {
            assert(lines.deep_view() =~= filled.push(current@));
        }
    }
    while lines.len() < max_lines
        invariant
            lines.len() <= max_lines,
            goal.len() <= lines.len(),
            forall|k: int| 0 <= k < goal.len() ==> lines.deep_view()[k] == goal[k],
            forall|k: int| goal.len() <= k < lines.len() ==> lines.deep_view()[k].len() == 0,
        decreases max_lines - lines.len(),
    {
        let ghost above = lines.deep_view();
        lines.push(String::new());
        proof {
            assert(lines.deep_view() =~= above.push(Seq::<char>::empty()));
        }
    }
    proof {
        assert forall|k: int| 0 <= k < max_lines implies lines.deep_view()[k] == padded(
            goal,
            max_lines as nat,
        )[k] by {
            if k >= goal.len() {
                assert(lines.deep_view()[k] =~= Seq::<char>::empty());
            }
        }
        assert(lines.deep_view() =~= padded(goal, max_lines as nat));
        lemma_wrapped_shape(text@, max_width as nat, max_lines as nat);
    }
    lines
}

/// Every line that wrapping fills has at most `max_width` characters, given
/// that the lines closed so far and the line being filled have.
pub proof fn lemma_placed_widths(
    words: Seq<Seq<char>>,
    lines: Seq<Seq<char>>,
    current: Seq<char>,
    max_width: nat,
    max_lines: nat,
)
    requires
        forall|k: int| 0 <= k < lines.len() ==> (#[trigger] lines[k]).len() <= max_width,
        current.len() <= max_width,
        lines.len() <= max_lines,
    ensures
        placed(words, lines, current, max_width, max_lines).len() <= max_lines,
        forall|k: int|
            0 <= k < placed(words, lines, current, max_width, max_lines).len() ==> (#[trigger] placed(
                words,
                lines,
                current,
                max_width,
                max_lines,
            )[k]).len() <= max_width,
    decreases words.len(),
{
    if words.len() > 0 {
        let word = words[0];
        if joined_len(current, word) <= max_width {
            lemma_byte_len_bounds(current);
            lemma_byte_len_bounds(word);
            lemma_placed_widths(
                words.drop_first(),
                lines,
                joined(current, word),
                max_width,
                max_lines,
            );
        } else if closed(lines, current, max_lines).len() < max_lines {
            lemma_byte_len_bounds(word);
            lemma_placed_widths(
                words.drop_first(),
                closed(lines, current, max_lines),
                opening(word, max_width),
                max_width,
                max_lines,
            );
        }
    }
}

/// Wrapping yields exactly `max_lines` lines, none of them with more than
/// `max_width` characters.
pub proof fn lemma_wrapped_shape(text: Seq<char>, max_width: nat, max_lines: nat)
    ensures
        wrapped(text, max_width, max_lines).len() == max_lines,
        forall|k: int|
            0 <= k < max_lines ==> (#[trigger] wrapped(text, max_width, max_lines)[k]).len()
                <= max_width,
{
    lemma_placed_widths(words(text), Seq::empty(), Seq::empty(), max_width, max_lines);
}

/// Whether `word` holds a character, and no whitespace.
pub open spec fn is_solid(word: Seq<char>) -> bool {
    word.len() > 0 && forall|j: int| 0 <= j < word.len() ==> !is_whitespace_char(#[trigger] word[j])
}

/// Whether every whitespace of `line` is a single space between two
/// characters that are none: the line neither begins nor ends with
/// whitespace, and holds no two in a row.
pub open spec fn is_tidy(line: Seq<char>) -> bool {
    forall|j: int|
        0 <= j < line.len() && is_whitespace_char(#[trigger] line[j]) ==> {
            &&& line[j] == ' '
            &&& 0 < j < line.len() - 1
            &&& !is_whitespace_char(line[j - 1])
            &&& !is_whitespace_char(line[j + 1])
        }
}

/// Whether `line` neither begins nor ends with a space, and holds no two
/// spaces in a row.
pub open spec fn has_single_spaces(line: Seq<char>) -> bool {
    &&& line.len() > 0 ==> line[0] != ' ' && line.last() != ' '
    &&& forall|j: int| 0 <= j < line.len() - 1 ==> !(#[trigger] line[j] == ' ' && line[j + 1] == ' ')
}

/// A tidy line has single spaces.
pub proof fn lemma_tidy_has_single_spaces(line: Seq<char>)
    requires
        is_tidy(line),
    ensures
        has_single_spaces(line),
{
    assert(is_whitespace_char(' '));
}

/// A text that begins with a character other than whitespace begins with
/// a word of that kind.
proof fn lemma_first_word_is_solid(s: Seq<char>)
    requires
        s.len() > 0,
        !is_whitespace_char(s[0]),
    ensures
        1 <= word_len(s) <= s.len(),
        is_solid(s.take(word_len(s) as int)),
    decreases s.len(),
{
    let rest = s.drop_first();
    let word = s.take(word_len(s) as int);
    if rest.len() > 0 && !is_whitespace_char(rest[0]) {
        lemma_first_word_is_solid(rest);
        assert forall|j: int| 0 <= j < word.len() implies !is_whitespace_char(
            #[trigger] word[j],
        ) by {
            if j > 0 {
                assert(word[j] == rest.take(word_len(rest) as int)[j - 1]);
            }
        }
    } else {
        assert(word_len(rest) == 0);
        assert(word =~= seq![s[0]]);
    }
}

/// Every word holds a character, and none of them whitespace.
pub proof fn lemma_words_are_solid(s: Seq<char>, k: int)
    requires
        0 <= k < words(s).len(),
    ensures
        is_solid(words(s)[k]),
    decreases s.len(),
{
    if s.len() > 0 {
        if is_whitespace_char(s[0]) {
            lemma_words_are_solid(s.drop_first(), k);
        } else {
            lemma_first_word_is_solid(s);
            if k > 0 {
                lemma_words_are_solid(s.skip(word_len(s) as int), k - 1);
            }
        }
    }
}

/// Wrapping words fills lines that hold a character each and are tidy.
pub proof fn lemma_placed_tidy(
    words: Seq<Seq<char>>,
    lines: Seq<Seq<char>>,
    current: Seq<char>,
    max_width: nat,
    max_lines: nat,
)
    requires
        forall|k: int| 0 <= k < words.len() ==> is_solid(#[trigger] words[k]),
        forall|k: int|
            0 <= k < lines.len() ==> (#[trigger] lines[k]).len() > 0 && is_tidy(lines[k]),
        is_tidy(current),
    ensures
        forall|k: int|
            0 <= k < placed(words, lines, current, max_width, max_lines).len() ==> (#[trigger] placed(
                words,
                lines,
                current,
                max_width,
                max_lines,
            )[k]).len() > 0 && is_tidy(placed(words, lines, current, max_width, max_lines)[k]),
    decreases words.len(),
{
    let filled = placed(words, lines, current, max_width, max_lines);
    let shut = closed(lines, current, max_lines);
    assert forall|k: int| 0 <= k < shut.len() implies (#[trigger] shut[k]).len() > 0 && is_tidy(
        shut[k],
    ) by {
        if k < lines.len() {
            assert(shut[k] == lines[k]);
        }
    }
    if words.len() > 0 {
        let word = words[0];
        let rest = words.drop_first();
        assert(is_solid(word));
        assert forall|k: int| 0 <= k < rest.len() implies is_solid(#[trigger] rest[k]) by {
            assert(rest[k] == words[k + 1]);
        }
        if joined_len(current, word) <= max_width {
            let line = joined(current, word);
            assert(is_tidy(line)) by {
                if current.len() > 0 {
                    let n = current.len() as int;
                    assert(!is_whitespace_char(current[n - 1]));
                    assert forall|j: int|
                        0 <= j < line.len() && is_whitespace_char(#[trigger] line[j]) implies {
                        &&& line[j] == ' '
                        &&& 0 < j < line.len() - 1
                        &&& !is_whitespace_char(line[j - 1])
                        &&& !is_whitespace_char(line[j + 1])
                    } by {
                        if j < n {
                            assert(line[j] == current[j]);
                            assert(line[j - 1] == current[j - 1]);
                            assert(line[j + 1] == current[j + 1]);
                        } else if j == n {
                            assert(line[j - 1] == current[n - 1]);
                            assert(line[j + 1] == word[0]);
                        } else {
                            assert(line[j] == word[j - n - 1]);
                        }
                    }
                }
            }
            lemma_placed_tidy(rest, lines, line, max_width, max_lines);
            assert(filled == placed(rest, lines, line, max_width, max_lines));
        } else if shut.len() < max_lines {
            let line = opening(word, max_width);
            assert(is_tidy(line)) by {
                assert forall|j: int| 0 <= j < line.len() implies !is_whitespace_char(
                    #[trigger] line[j],
                ) by {
                    assert(line[j] == word[j]);
                }
            }
            lemma_placed_tidy(rest, shut, line, max_width, max_lines);
            assert(filled == placed(rest, shut, line, max_width, max_lines));
        } else {
            assert(filled == shut);
        }
    } else {
        assert(filled == shut);
    }
    assert forall|k: int| 0 <= k < filled.len() implies (#[trigger] filled[k]).len() > 0
        && is_tidy(filled[k]) by {}
}

/// Of the lines that wrapping yields, the empty ones come last, and every
/// line is tidy: it neither begins nor ends with a space, and holds no two
/// spaces in a row.
pub proof fn lemma_wrapped_tidy(text: Seq<char>, max_width: nat, max_lines: nat)
    ensures
        forall|k: int, m: int|
            0 <= k <= m < max_lines && (#[trigger] wrapped(text, max_width, max_lines)[k]).len()
                == 0 ==> (#[trigger] wrapped(text, max_width, max_lines)[m]).len() == 0,
        forall|k: int|
            0 <= k < max_lines ==> is_tidy(#[trigger] wrapped(text, max_width, max_lines)[k]),
        forall|k: int|
            0 <= k < max_lines ==> has_single_spaces(
                #[trigger] wrapped(text, max_width, max_lines)[k],
            ),
{
    let all = words(text);
    assert forall|k: int| 0 <= k < all.len() implies is_solid(#[trigger] all[k]) by {
        lemma_words_are_solid(text, k);
    }
    lemma_placed_tidy(all, Seq::empty(), Seq::empty(), max_width, max_lines);
    let lines = wrapped(text, max_width, max_lines);
    assert forall|k: int| 0 <= k < max_lines implies is_tidy(#[trigger] lines[k])
        && has_single_spaces(lines[k]) by {
        lemma_tidy_has_single_spaces(lines[k]);
    }
}

/// The words of an ASCII text are ASCII.
pub proof fn lemma_words_of_ascii(s: Seq<char>, k: int)
    requires
        is_ascii_chars(s),
        0 <= k < words(s).len(),
    ensures
        is_ascii_chars(words(s)[k]),
    decreases s.len(),
{
    if s.len() > 0 {
        if is_whitespace_char(s[0]) {
            lemma_words_of_ascii(s.drop_first(), k);
        } else {
            lemma_word_len_bound(s);
            if k > 0 {
                lemma_words_of_ascii(s.skip(word_len(s) as int), k - 1);
            }
        }
    }
}

/// Wrapping ASCII words fills ASCII lines.
pub proof fn lemma_placed_ascii(
    words: Seq<Seq<char>>,
    lines: Seq<Seq<char>>,
    current: Seq<char>,
    max_width: nat,
    max_lines: nat,
)
    requires
        forall|k: int| 0 <= k < words.len() ==> is_ascii_chars(#[trigger] words[k]),
        forall|k: int| 0 <= k < lines.len() ==> is_ascii_chars(#[trigger] lines[k]),
        is_ascii_chars(current),
    ensures
        forall|k: int|
            0 <= k < placed(words, lines, current, max_width, max_lines).len() ==> is_ascii_chars(
                #[trigger] placed(words, lines, current, max_width, max_lines)[k],
            ),
    decreases words.len(),
{
    let filled = placed(words, lines, current, max_width, max_lines);
    let shut = closed(lines, current, max_lines);
    assert forall|k: int| 0 <= k < shut.len() implies is_ascii_chars(#[trigger] shut[k]) by {
        if k < lines.len() {
            assert(shut[k] == lines[k]);
        }
    }
    if words.len() > 0 {
        let word = words[0];
        let rest = words.drop_first();
        assert(is_ascii_chars(word));
        assert forall|k: int| 0 <= k < rest.len() implies is_ascii_chars(#[trigger] rest[k]) by {
            assert(rest[k] == words[k + 1]);
        }
        if joined_len(current, word) <= max_width {
            assert(is_ascii_chars(joined(current, word)));
            lemma_placed_ascii(rest, lines, joined(current, word), max_width, max_lines);
            assert(filled == placed(rest, lines, joined(current, word), max_width, max_lines));
        } else if shut.len() < max_lines {
            assert(is_ascii_chars(opening(word, max_width)));
            lemma_placed_ascii(rest, shut, opening(word, max_width), max_width, max_lines);
            assert(filled == placed(rest, shut, opening(word, max_width), max_width, max_lines));
        } else {
            assert(filled == shut);
        }
    } else {
        assert(filled == shut);
    }
    assert forall|k: int| 0 <= k < filled.len() implies is_ascii_chars(#[trigger] filled[k]) by {}
}

/// An ASCII text is wrapped into ASCII lines of at most `max_width` bytes.
pub proof fn lemma_wrapped_ascii(text: Seq<char>, max_width: nat, max_lines: nat)
    requires
        is_ascii_chars(text),
    ensures
        forall|k: int|
            0 <= k < max_lines ==> is_ascii_chars(
                #[trigger] wrapped(text, max_width, max_lines)[k],
            ) && byte_len(wrapped(text, max_width, max_lines)[k]) <= max_width,
{
    let all = words(text);
    assert forall|k: int| 0 <= k < all.len() implies is_ascii_chars(#[trigger] all[k]) by {
        lemma_words_of_ascii(text, k);
    }
    lemma_placed_ascii(all, Seq::empty(), Seq::empty(), max_width, max_lines);
    lemma_wrapped_shape(text, max_width, max_lines);
    assert forall|k: int| 0 <= k < max_lines implies is_ascii_chars(
        #[trigger] wrapped(text, max_width, max_lines)[k],
    ) && byte_len(wrapped(text, max_width, max_lines)[k]) <= max_width by {
        lemma_byte_len_ascii(wrapped(text, max_width, max_lines)[k]);
    }
}

/// The column at which every line of text begins.
pub const TEXT_X: i32 = 2;

/// The baseline of the first row of text.
pub const START_Y: i32 = 5;

/// The distance from one row of text to the next.
pub const LINE_HEIGHT: i32 = 9;

/// The most that fits on one row, in bytes of text.
pub const MAX_WIDTH: usize = 16;

/// The rows that line and destination may take.
pub const HEADING_ROWS: usize = 2;

/// A line of text and the point of the panel at which it begins.
#[derive(Debug, Clone, PartialEq)]
pub struct PlacedText {
    pub text: String,
    pub x: i32,
    pub y: i32,
}

/// What a [`PlacedText`] holds, with its text as a character sequence.
pub struct PlacedTextView {
    pub text: Seq<char>,
    pub x: i32,
    pub y: i32,
}

impl View for PlacedText {
    type V = PlacedTextView;

    open spec fn view(&self) -> PlacedTextView {
        PlacedTextView { text: self.text@, x: self.x, y: self.y }
    }
}

impl DeepView for PlacedText {
    type V = PlacedTextView;

    open spec fn deep_view(&self) -> PlacedTextView {
        self@
    }
}

/// The text that is wrapped over the heading rows: line and destination.
pub open spec fn heading(d: DepartureView) -> Seq<char> {
    d.line + seq![' '] + d.destination
}

/// The text of the time row, such as `"5 min"`.
pub open spec fn time_text(minutes: u32) -> Seq<char> {
    decimal(minutes as nat) + seq![' ', 'm', 'i', 'n']
}

/// The baseline of the given row of text.
pub open spec fn row_y(row: int) -> int {
    START_Y + row * LINE_HEIGHT
}

/// The first `n` of `lines` at their rows, without the empty ones.
pub open spec fn shown(lines: Seq<Seq<char>>, n: nat) -> Seq<PlacedTextView>
    decreases n,
{
    if n == 0 {
        Seq::empty()
    } else if lines[n - 1].len() > 0 {
        shown(lines, (n - 1) as nat).push(
            PlacedTextView { text: lines[n - 1], x: TEXT_X, y: row_y(n - 1) as i32 },
        )
    } else {
        shown(lines, (n - 1) as nat)
    }
}

/// The row of the last of the first `n` lines that is not empty; row 0 where
/// all of them are empty.
pub open spec fn last_shown(lines: Seq<Seq<char>>, n: nat) -> nat
    decreases n,
{
    if n == 0 {
        0
    } else if lines[n - 1].len() > 0 {
        (n - 1) as nat
    } else {
        last_shown(lines, (n - 1) as nat)
    }
}

/// What the panel shows for a departure: line and destination wrapped over
/// the heading rows, and the minutes on the row below the last of them.
pub open spec fn layout(d: DepartureView) -> Seq<PlacedTextView> {
    let lines = wrapped(heading(d), MAX_WIDTH as nat, HEADING_ROWS as nat);
    shown(lines, HEADING_ROWS as nat).push(
        PlacedTextView {
            text: time_text(d.minutes),
            x: TEXT_X,
            y: row_y(last_shown(lines, HEADING_ROWS as nat) as int + 1) as i32,
        },
    )
}

/// The lines of text to draw for `departure`, each with the point at which
/// it begins.
pub fn layout_departure(departure: &Departure) -> (texts: Vec<PlacedText>)
    ensures
        texts.deep_view() == layout(departure@),
{
    let mut full_text = departure.line.clone();
    full_text.push(' ');
    full_text.append(departure.destination.as_str());
    let lines = smart_wrap(full_text.as_str(), MAX_WIDTH, HEADING_ROWS);
    let ghost wrapped_lines = lines.deep_view();
    let mut texts: Vec<PlacedText> = Vec::new();
    let mut last_row: i32 = 0;
    let mut row: usize = 0;
    proof {
        assert(texts.deep_view() =~= Seq::<PlacedTextView>::empty());
    }
    while row < lines.len()
        invariant
            row <= lines.len() == HEADING_ROWS,
            wrapped_lines == lines.deep_view(),
            texts.deep_view() == shown(wrapped_lines, row as nat),
            last_row == last_shown(wrapped_lines, row as nat),
            0 <= last_row <= row,
        decreases lines.len() - row,
    {
        let ghost above = texts.deep_view();
        if !lines[row].as_str().is_empty() {
            let y: i32 = START_Y + (row as i32) * LINE_HEIGHT;
            texts.push(PlacedText { text: lines[row].clone(), x: TEXT_X, y });
            last_row = row as i32;
            proof {
                assert(wrapped_lines[row as int] == lines[row as int]@);
                assert(texts.deep_view() =~= above.push(
                    PlacedTextView { text: lines[row as int]@, x: TEXT_X, y },
                ));
            }
        } else {
            proof {
                assert(wrapped_lines[row as int] == lines[row as int]@);
            }
        }
        row = row + 1;
    }
    let mut time = String::new();
    push_decimal(&mut time, departure.minutes);
    time.push(' ');
    time.push('m');
    time.push('i');
    time.push('n');
    let y: i32 = START_Y + (last_row + 1) * LINE_HEIGHT;
    let ghost above = texts.deep_view();
    texts.push(PlacedText { text: time, x: TEXT_X, y });
    proof {
        assert(time@ =~= time_text(departure.minutes));
        assert(full_text@ =~= heading(departure@));
        assert(texts.deep_view() =~= above.push(PlacedTextView { text: time@, x: TEXT_X, y }));
    }
    texts
}

} // verus!
