//! A departure as it is shown, and its one-line text form.
//!
//! Whether a text fits is decided as `str::len` measures it, in UTF-8
//! bytes; where it does not fit, it is cut after whole characters.

use crate::text::{
    byte_len, byte_len_of, decimal, has_prefix, has_suffix, lemma_byte_len_ascii,
    lemma_byte_len_bounds, push_decimal, take_chars,
};
use vstd::prelude::*;
use vstd::string::*;
use vstd::utf8::is_ascii_chars;

verus! {

/// One upcoming departure: the line, where it goes, and the whole minutes
/// until it leaves.
#[derive(Debug, Clone, PartialEq)]
pub struct Departure {
    pub line: String,
    pub destination: String,
    pub minutes: u32,
}

/// What a [`Departure`] holds, with its texts as character sequences.
pub struct DepartureView {
    pub line: Seq<char>,
    pub destination: Seq<char>,
    pub minutes: u32,
}

impl View for Departure {
    type V = DepartureView;

    open spec fn view(&self) -> DepartureView {
        DepartureView { line: self.line@, destination: self.destination@, minutes: self.minutes }
    }
}

impl DeepView for Departure {
    type V = DepartureView;

    open spec fn deep_view(&self) -> DepartureView {
        self@
    }
}

/// The text that follows the destination: a space, the minutes in decimal,
/// and `" min"`.
pub open spec fn minutes_text(minutes: u32) -> Seq<char> {
    seq![' '] + decimal(minutes as nat) + seq![' ', 'm', 'i', 'n']
}

/// The text that precedes the destination: the line and a space.
pub open spec fn line_text(line: Seq<char>) -> Seq<char> {
    line + seq![' ']
}

impl DepartureView {
    /// The full one-line form, `"{line} {destination} {minutes} min"`.
    pub open spec fn formatted(self) -> Seq<char> {
        line_text(self.line) + self.destination + minutes_text(self.minutes)
    }

    /// The bytes taken by everything but the destination.
    pub open spec fn overhead(self) -> nat {
        byte_len(line_text(self.line)) + byte_len(minutes_text(self.minutes))
    }

    /// The one-line form cut down to `max_chars`.
    ///
    /// A text that fits in `max_chars` bytes is kept whole. Where the line
    /// and the minutes alone fill `max_chars` bytes, the full text is cut after
    /// `max_chars` characters. Otherwise only the destination is shortened, to
    /// `max_chars - overhead` characters.
    pub open spec fn truncated(self, max_chars: nat) -> Seq<char> {
        let full = self.formatted();
        if byte_len(full) <= max_chars {
            full
        } else if self.overhead() >= max_chars {
            full.take(shorter(max_chars, full.len()))
        } else {
            line_text(self.line) + self.destination.take(
                shorter((max_chars - self.overhead()) as nat, self.destination.len()),
            ) + minutes_text(self.minutes)
        }
    }
}

/// The smaller of a wanted length and the length at hand.
pub open spec fn shorter(wanted: nat, at_hand: nat) -> int {
    if wanted <= at_hand {
        wanted as int
    } else {
        at_hand as int
    }
}

/// The cut text has at most `max_chars` characters.
pub proof fn lemma_truncated_len(d: DepartureView, max_chars: nat)
    ensures
        d.truncated(max_chars).len() <= max_chars,
{
    lemma_byte_len_bounds(d.formatted());
    lemma_byte_len_bounds(line_text(d.line));
    lemma_byte_len_bounds(minutes_text(d.minutes));
}

/// Where the text fits, or the line and the minutes leave room for any of
/// the destination, the line stands whole in front of the cut text and the
/// minutes stand whole behind it: only the destination is shortened.
pub proof fn lemma_truncated_keeps_line_and_minutes(d: DepartureView, max_chars: nat)
    requires
        byte_len(d.formatted()) <= max_chars || d.overhead() < max_chars,
    ensures
        has_prefix(d.truncated(max_chars), line_text(d.line)),
        has_suffix(d.truncated(max_chars), minutes_text(d.minutes)),
        exists|n: int|
            0 <= n <= d.destination.len() && d.truncated(max_chars) == line_text(d.line)
                + #[trigger] d.destination.take(n) + minutes_text(d.minutes),
{
    let cut = d.truncated(max_chars);
    let front = line_text(d.line);
    let back = minutes_text(d.minutes);
    let n = if byte_len(d.formatted()) <= max_chars {
        d.destination.len() as int
    } else {
        shorter((max_chars - d.overhead()) as nat, d.destination.len())
    };
    assert(d.destination.take(d.destination.len() as int) =~= d.destination);
    assert(cut == front + d.destination.take(n) + back);
    assert(cut.take(front.len() as int) =~= front);
    assert(cut.skip(cut.len() - back.len()) =~= back);
}

/// The digits of a number are ASCII.
pub proof fn lemma_decimal_is_ascii(n: nat)
    ensures
        is_ascii_chars(decimal(n)),
    decreases n,
{
    if n >= 10 {
        lemma_decimal_is_ascii(n / 10);
    }
}

/// Where line and destination are ASCII, the cut text has at most
/// `max_chars` bytes.
pub proof fn lemma_truncated_ascii_fits(d: DepartureView, max_chars: nat)
    requires
        is_ascii_chars(d.line),
        is_ascii_chars(d.destination),
    ensures
        is_ascii_chars(d.truncated(max_chars)),
        byte_len(d.truncated(max_chars)) <= max_chars,
{
    lemma_decimal_is_ascii(d.minutes as nat);
    let front = line_text(d.line);
    let back = minutes_text(d.minutes);
    let full = d.formatted();
    assert(is_ascii_chars(front));
    assert(is_ascii_chars(back));
    assert(is_ascii_chars(full));
    lemma_byte_len_ascii(front);
    lemma_byte_len_ascii(back);
    lemma_byte_len_ascii(full);
    let cut = d.truncated(max_chars);
    assert(is_ascii_chars(cut));
    lemma_byte_len_ascii(cut);
}

impl Departure {
    /// A departure of `line` towards `destination` in `minutes` minutes.
    pub fn new(line: &str, destination: &str, minutes: u32) -> (d: Departure)
        ensures
            d@ == (DepartureView { line: line@, destination: destination@, minutes }),
    {
        Departure { line: line.to_owned(), destination: destination.to_owned(), minutes }
    }

    /// The line followed by a space.
    fn line_prefix(&self) -> (s: String)
        ensures
            s@ == line_text(self.line@),
    {
        let mut s = self.line.clone();
        s.push(' ');
        s
    }

    /// A space, the minutes and `" min"`.
    fn minutes_suffix(&self) -> (s: String)
        ensures
            s@ == minutes_text(self.minutes),
    {
        let mut s = String::new();
        s.push(' ');
        push_decimal(&mut s, self.minutes);
        s.push(' ');
        s.push('m');
        s.push('i');
        s.push('n');
        assert(s@ =~= minutes_text(self.minutes));
        s
    }

    /// The one-line form, such as `"S3 Erkner 2 min"`.
    pub fn format(&self) -> (s: String)
        ensures
            s@ == self@.formatted(),
    {
        let mut s = self.line_prefix();
        s.append(self.destination.as_str());
        s.append(self.minutes_suffix().as_str());
        s
    }

    /// The one-line form cut down to `max_chars`; the line and the minutes
    /// are kept whole wherever they leave room for any destination text.
    pub fn format_truncated(&self, max_chars: usize) -> (s: String)
        ensures
            s@ == self@.truncated(max_chars as nat),
            s@.len() <= max_chars,
    {
        proof {
            lemma_truncated_len(self@, max_chars as nat);
        }
        let formatted = self.format();
        if byte_len_of(formatted.as_str()) <= max_chars {
            return formatted;
        }
        let min_text = self.minutes_suffix();
        let line_text = self.line_prefix();
        let room: usize = match byte_len_of(line_text.as_str()).checked_add(
            byte_len_of(min_text.as_str()),
        ) {
            Some(overhead) => if overhead >= max_chars {
                0
            } else {
                max_chars - overhead
            },
            None => 0,
        };
        if room == 0 {
            return take_chars(formatted.as_str(), max_chars);
        }
        let mut s = line_text;
        s.append(take_chars(self.destination.as_str(), room).as_str());
        s.append(min_text.as_str());
        s
    }
}

/// Three sample departures, for a display without a provider.
pub fn get_mock_departures() -> (v: Vec<Departure>)
    ensures
        v.len() == 3,
        v[0]@ == (DepartureView { line: "U3"@, destination: "Krumme Lanke"@, minutes: 5 }),
        v[1]@ == (DepartureView { line: "S7"@, destination: "Potsdam Hbf"@, minutes: 8 }),
        v[2]@ == (DepartureView { line: "S5"@, destination: "Strausberg Nord"@, minutes: 2 }),
{
    let mut v: Vec<Departure> = Vec::new();
    v.push(Departure::new("U3", "Krumme Lanke", 5));
    v.push(Departure::new("S7", "Potsdam Hbf", 8));
    v.push(Departure::new("S5", "Strausberg Nord", 2));
    v
}

} // verus!
