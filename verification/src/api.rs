//! The normalization pipeline: from the provider's raw entries to the ranked
//! list of departures that a rider at the home station wants to see.
//!
//! An entry is dropped where it lacks its direction or its time, where it
//! heads for the home station itself, where its line is not local transport,
//! where its time cannot be read, or where it leaves outside the window of
//! 1 to `horizon` minutes from now. What is left is cleaned, and ranked by
//! minutes.

use crate::departure::{Departure, DepartureView};
use crate::destination::{clean_destination, cleaned, is_clean, lemma_cleaned_is_clean};
use crate::lines::{
    is_all_numeric, is_excluded, is_excluded_line, is_long_distance, is_ring_line,
};
use crate::ranking::{
    is_ranking_of, lemma_ranking_within, sort_by_minutes, views,
};
use crate::text::{chars_of, contains, contains_text, decimal, push_decimal, same_text};
use crate::timestamp::{in_window, minutes_between, rfc3339_instant, timestamp_of, Timestamp};
use vstd::prelude::*;
use vstd::string::*;

verus! {

/// One candidate departure as the provider delivers it. The direction and
/// the time may be missing.
#[derive(Debug, Clone, PartialEq)]
pub struct RawEntry {
    /// The line, such as `"S3"` or `"M10"`.
    pub line_code: String,
    /// Where the vehicle is heading, in the provider's words.
    pub direction: Option<String>,
    /// When it leaves, in RFC 3339 with an offset.
    pub when: Option<String>,
    /// The delay in seconds; kept, and read by nothing yet.
    pub delay: Option<i32>,
}

/// What a [`RawEntry`] holds, with its texts as character sequences.
pub struct RawEntryView {
    pub line_code: Seq<char>,
    pub direction: Option<Seq<char>>,
    pub when: Option<Seq<char>>,
    pub delay: Option<i32>,
}

/// The characters of a text that may be missing.
pub open spec fn text_view(text: Option<String>) -> Option<Seq<char>> {
    match text {
        Some(s) => Some(s@),
        None => None,
    }
}

impl View for RawEntry {
    type V = RawEntryView;

    open spec fn view(&self) -> RawEntryView {
        RawEntryView {
            line_code: self.line_code@,
            direction: text_view(self.direction),
            when: text_view(self.when),
            delay: self.delay,
        }
    }
}

impl DeepView for RawEntry {
    type V = RawEntryView;

    open spec fn deep_view(&self) -> RawEntryView {
        self@
    }
}

/// What a departure that may be missing holds.
pub open spec fn departure_view(d: Option<Departure>) -> Option<DepartureView> {
    match d {
        Some(d) => Some(d@),
        None => None,
    }
}

/// Whether a vehicle of `line_code` heading for `direction` is of interest
/// at the home station: it does not head for the home station, and its line
/// passes the mode filter.
pub open spec fn is_wanted(line_code: Seq<char>, direction: Seq<char>, home: Seq<char>) -> bool {
    !contains_text(direction, home) && !is_excluded(line_code)
}

/// The departure shown for a wanted vehicle that leaves at `when`: none
/// outside the window, else the line, the cleaned direction and the whole
/// minutes from `now`.
pub open spec fn departure_at(
    line_code: Seq<char>,
    direction: Seq<char>,
    when: Timestamp,
    horizon: u32,
    now: Timestamp,
) -> Option<DepartureView> {
    if in_window(minutes_between(now, when), horizon) {
        Some(
            DepartureView {
                line: line_code,
                destination: cleaned(direction),
                minutes: minutes_between(now, when) as u32,
            },
        )
    } else {
        None
    }
}

/// The departure that the pipeline makes of one raw entry, if any.
pub open spec fn departure_of(
    entry: RawEntryView,
    home: Seq<char>,
    horizon: u32,
    now: Timestamp,
) -> Option<DepartureView> {
    match (entry.direction, entry.when) {
        (Some(direction), Some(when)) => {
            if is_wanted(entry.line_code, direction, home) {
                match timestamp_of(rfc3339_instant(when)) {
                    Some(t) => departure_at(entry.line_code, direction, t, horizon, now),
                    None => None,
                }
            } else {
                None
            }
        },
        _ => None,
    }
}

/// The departures that the pipeline makes of the raw entries, in the
/// provider's order.
pub open spec fn candidates(
    entries: Seq<RawEntryView>,
    home: Seq<char>,
    horizon: u32,
    now: Timestamp,
) -> Seq<DepartureView>
    decreases entries.len(),
{
    if entries.len() == 0 {
        Seq::empty()
    } else {
        let before = candidates(entries.drop_last(), home, horizon, now);
        match departure_of(entries.last(), home, horizon, now) {
            Some(d) => before.push(d),
            None => before,
        }
    }
}

/// Whether a vehicle of `line_code` heading for `direction` is of interest
/// at the station named by `home`.
pub fn wanted(line_code: &str, direction: &str, home: &str) -> (b: bool)
    ensures
        b == is_wanted(line_code@, direction@, home@),
{
    if contains(&chars_of(direction), &chars_of(home)) {
        return false;
    }
    !is_excluded_line(line_code)
}

/// The departure shown for a wanted vehicle that leaves at `when`, seen from
/// `now`: none outside the window of 1 to `horizon` minutes.
pub fn project(line_code: &str, direction: &str, when: &Timestamp, horizon: u32, now: &Timestamp)
    -> (d: Option<Departure>)
    ensures
        departure_view(d) == departure_at(line_code@, direction@, *when, horizon, *now),
{
    match now.minutes_in_window(when, horizon) {
        Some(minutes) => Some(
            Departure {
                line: line_code.to_owned(),
                destination: clean_destination(direction),
                minutes,
            },
        ),
        None => None,
    }
}

/// The departure that the pipeline makes of one raw entry, if any.
pub fn normalize_entry(entry: &RawEntry, home: &str, horizon: u32, now: &Timestamp) -> (d: Option<
    Departure,
>)
    ensures
        departure_view(d) == departure_of(entry@, home@, horizon, *now),
{
    let direction = match &entry.direction {
        Some(direction) => direction,
        None => {
            return None;
        },
    };
    let when = match &entry.when {
        Some(when) => when,
        None => {
            return None;
        },
    };
    if !wanted(entry.line_code.as_str(), direction.as_str(), home) {
        return None;
    }
    match Timestamp::parse(when.as_str()) {
        Some(t) => project(entry.line_code.as_str(), direction.as_str(), &t, horizon, now),
        None => None,
    }
}

/// Whether `d` is fit to be shown with the given horizon: it leaves within
/// the window, and its destination is free of noise.
pub open spec fn is_presentable(d: DepartureView, horizon: u32) -> bool {
    in_window(d.minutes as int, horizon) && is_clean(d.destination)
}

/// Every candidate leaves in 1 to `horizon` minutes, for a destination
/// that is free of noise.
pub proof fn lemma_candidates_presentable(
    entries: Seq<RawEntryView>,
    home: Seq<char>,
    horizon: u32,
    now: Timestamp,
    i: int,
)
    requires
        0 <= i < candidates(entries, home, horizon, now).len(),
    ensures
        is_presentable(candidates(entries, home, horizon, now)[i], horizon),
    decreases entries.len(),
{
    if entries.len() > 0 {
        let before = candidates(entries.drop_last(), home, horizon, now);
        if i < before.len() {
            lemma_candidates_presentable(entries.drop_last(), home, horizon, now, i);
        } else {
            let entry = entries.last();
            lemma_cleaned_is_clean(entry.direction->0);
        }
    }
}

/// An entry without its direction or its time yields no departure.
pub proof fn lemma_incomplete_entry_dropped(
    entry: RawEntryView,
    home: Seq<char>,
    horizon: u32,
    now: Timestamp,
)
    requires
        entry.direction is None || entry.when is None,
    ensures
        departure_of(entry, home, horizon, now) is None,
{
}

/// An entry whose line code is made of numerals alone yields no departure,
/// whatever its time.
pub proof fn lemma_numeric_line_dropped(
    entry: RawEntryView,
    home: Seq<char>,
    horizon: u32,
    now: Timestamp,
)
    requires
        is_all_numeric(entry.line_code),
    ensures
        departure_of(entry, home, horizon, now) is None,
{
}

/// An entry of regional or long-distance rail, or of the ring line in
/// either direction, yields no departure.
pub proof fn lemma_distant_line_dropped(
    entry: RawEntryView,
    home: Seq<char>,
    horizon: u32,
    now: Timestamp,
)
    requires
        is_long_distance(entry.line_code) || is_ring_line(entry.line_code),
    ensures
        departure_of(entry, home, horizon, now) is None,
{
}

/// An entry that heads for the home station yields no departure.
pub proof fn lemma_homebound_entry_dropped(
    entry: RawEntryView,
    home: Seq<char>,
    horizon: u32,
    now: Timestamp,
)
    requires
        entry.direction matches Some(direction) && contains_text(direction, home),
    ensures
        departure_of(entry, home, horizon, now) is None,
{
}

/// The candidates of a list are those of its front followed by those of
/// its back.
pub proof fn lemma_candidates_concat(
    front: Seq<RawEntryView>,
    back: Seq<RawEntryView>,
    home: Seq<char>,
    horizon: u32,
    now: Timestamp,
)
    ensures
        candidates(front + back, home, horizon, now) == candidates(front, home, horizon, now)
            + candidates(back, home, horizon, now),
    decreases back.len(),
{
    if back.len() == 0 {
        assert(front + back =~= front);
        assert(candidates(front, home, horizon, now) + candidates(back, home, horizon, now)
            =~= candidates(front, home, horizon, now));
    } else {
        assert((front + back).drop_last() =~= front + back.drop_last());
        assert((front + back).last() == back.last());
        lemma_candidates_concat(front, back.drop_last(), home, horizon, now);
        assert(candidates(front + back, home, horizon, now) =~= candidates(
            front,
            home,
            horizon,
            now,
        ) + candidates(back, home, horizon, now));
    }
}

/// An entry that yields no departure leaves no trace: the candidates are
/// those of the list without it.
pub proof fn lemma_dropped_entry_leaves_no_trace(
    entries: Seq<RawEntryView>,
    i: int,
    home: Seq<char>,
    horizon: u32,
    now: Timestamp,
)
    requires
        0 <= i < entries.len(),
        departure_of(entries[i], home, horizon, now) is None,
    ensures
        candidates(entries, home, horizon, now) == candidates(
            entries.remove(i),
            home,
            horizon,
            now,
        ),
{
    let front = entries.take(i);
    let one = seq![entries[i]];
    let back = entries.skip(i + 1);
    assert(entries =~= front + one + back);
    assert(entries.remove(i) =~= front + back);
    lemma_candidates_concat(front + one, back, home, horizon, now);
    lemma_candidates_concat(front, one, home, horizon, now);
    lemma_candidates_concat(front, back, home, horizon, now);
    assert(one.drop_last() =~= Seq::<RawEntryView>::empty());
    assert(candidates(one.drop_last(), home, horizon, now) =~= Seq::<DepartureView>::empty());
    assert(candidates(one, home, horizon, now) =~= Seq::<DepartureView>::empty());
    assert(candidates(front, home, horizon, now) + candidates(one, home, horizon, now)
        =~= candidates(front, home, horizon, now));
}

/// The ranked departures for the raw entries: what is left of them once the
/// unusable, the irrelevant and those outside the window are dropped,
/// soonest first, entries of the same minute in the provider's order.
pub fn normalize(entries: &Vec<RawEntry>, home: &str, horizon: u32, now: &Timestamp) -> (ranked:
    Vec<Departure>)
    ensures
        is_ranking_of(
            ranked.deep_view(),
            candidates(entries.deep_view(), home@, horizon, *now),
        ),
        ranked.len() == candidates(entries.deep_view(), home@, horizon, *now).len(),
        forall|i: int|
            0 <= i < ranked.len() ==> is_presentable(#[trigger] ranked.deep_view()[i], horizon),
{
    let ghost raw = entries.deep_view();
    let mut kept: Vec<Departure> = Vec::new();
    let mut i: usize = 0;
    while i < entries.len()
        invariant
            i <= entries.len(),
            raw == entries.deep_view(),
            views(kept@) == candidates(raw.take(i as int), home@, horizon, *now),
        decreases entries.len() - i,
    {
        proof {
            assert(raw.take(i + 1).drop_last() =~= raw.take(i as int));
            assert(raw.take(i + 1).last() == entries[i as int]@);
        }
        let ghost before = views(kept@);
        match normalize_entry(&entries[i], home, horizon, now) {
            Some(d) => {
                kept.push(d);
                proof {
                    assert(views(kept@) =~= before.push(d@));
                }
            },
            None => {},
        }
        i = i + 1;
    }
    proof {
        assert(raw.take(entries.len() as int) =~= raw);
        assert(kept.deep_view() =~= views(kept@));
    }
    let ghost listed = kept.deep_view();
    sort_by_minutes(&mut kept);
    proof {
        assert forall|i: int| 0 <= i < kept.len() implies is_presentable(
            #[trigger] kept.deep_view()[i],
            horizon,
        ) by {
            lemma_ranking_within(kept.deep_view(), listed, i);
            let j = choose|j: int| 0 <= j < listed.len() && listed[j] == kept.deep_view()[i];
            lemma_candidates_presentable(raw, home@, horizon, *now, j);
        }
    }
    kept
}

/// Why a fetch of departures failed.
#[derive(Debug, Clone, PartialEq)]
pub enum FetchError {
    /// The stop is not the one that this display serves.
    UnsupportedStop(String),
    /// The request failed: no connection, a status other than success, or a
    /// timeout.
    Http(String),
    /// The response could not be read to its end.
    HttpRead(String),
    /// The response is not the JSON document that was expected.
    Json(String),
}

impl FetchError {
    /// The error in words: what failed, and the detail.
    pub open spec fn message_text(self) -> Seq<char> {
        match self {
            FetchError::UnsupportedStop(stop) => "Unsupported stop_id: "@ + stop@,
            FetchError::Http(detail) => "HTTP error: "@ + detail@,
            FetchError::HttpRead(detail) => "HTTP read error: "@ + detail@,
            FetchError::Json(detail) => "JSON parse error: "@ + detail@,
        }
    }

    /// The error in words.
    pub fn message(&self) -> (text: String)
        ensures
            text@ == self.message_text(),
    {
        match self {
            FetchError::UnsupportedStop(stop) => "Unsupported stop_id: ".to_owned().concat(
                stop.as_str(),
            ),
            FetchError::Http(detail) => "HTTP error: ".to_owned().concat(detail.as_str()),
            FetchError::HttpRead(detail) => "HTTP read error: ".to_owned().concat(detail.as_str()),
            FetchError::Json(detail) => "JSON parse error: ".to_owned().concat(detail.as_str()),
        }
    }
}

/// The identifier of the stop that this display serves.
pub open spec fn supported_stop() -> Seq<char> {
    "900120003"@
}

/// The address that lists the departures of stop `stop_id` within the next
/// `horizon` minutes.
pub open spec fn url_text(stop_id: Seq<char>, horizon: u32) -> Seq<char> {
    "https://v6.vbb.transport.rest/stops/"@ + stop_id + "/departures?duration="@ + decimal(
        horizon as nat,
    )
}

/// The address to ask for the departures of `stop_id` within the next
/// `horizon` minutes. Only the stop that this display serves has one.
pub fn departures_url(stop_id: &str, horizon: u32) -> (url: Result<String, FetchError>)
    ensures
        match url {
            Ok(url) => stop_id@ == supported_stop() && url@ == url_text(stop_id@, horizon),
            Err(e) => stop_id@ != supported_stop() && (e matches FetchError::UnsupportedStop(stop)
                && stop@ == stop_id@),
        },
{
    if !same_text(&chars_of(stop_id), &chars_of("900120003")) {
        return Err(FetchError::UnsupportedStop(stop_id.to_owned()));
    }
    let mut url = "https://v6.vbb.transport.rest/stops/".to_owned();
    url.append(stop_id);
    url.append("/departures?duration=");
    push_decimal(&mut url, horizon);
    Ok(url)
}

} // verus!
