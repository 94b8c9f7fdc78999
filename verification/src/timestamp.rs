//! Instants, and the whole minutes from one to another.

use vstd::prelude::*;

verus! {

/// An instant: whole seconds since 1970-01-01T00:00:00Z, and the nanoseconds
/// that have passed since that second began.
///
/// A leap second, written with second 60, is held as second 59 with a
/// billion nanoseconds or more. In the arithmetic below it counts as the
/// second that follows.
#[derive(Debug, Clone, Copy, PartialEq, Eq)]
pub struct Timestamp {
    pub secs: i64,
    pub nanos: u32,
}

/// Nanoseconds in a minute.
pub open spec fn nanos_per_minute() -> int {
    60_000_000_000
}

impl Timestamp {
    /// The instant in nanoseconds since the epoch.
    pub open spec fn nanos_since_epoch(self) -> int {
        self.secs * 1_000_000_000 + self.nanos
    }
}

/// The whole minutes from `now` until `when`, rounded down: 59.9 seconds
/// ahead is 0 minutes, half a second ago is -1.
pub open spec fn minutes_between(now: Timestamp, when: Timestamp) -> int {
    (when.nanos_since_epoch() - now.nanos_since_epoch()) / nanos_per_minute()
}

/// Whether a departure in `minutes` minutes is shown with the given horizon:
/// it lies in the future, and no further than the horizon.
pub open spec fn in_window(minutes: int, horizon: u32) -> bool {
    1 <= minutes <= horizon
}

/// The instant that an RFC 3339 text denotes, as `chrono` reads it: the
/// seconds since the epoch and the nanoseconds of the second; `None` where
/// `chrono` rejects the text.
pub uninterp spec fn rfc3339_instant(text: Seq<char>) -> Option<(i64, u32)>;

/// Trusted: calls `chrono::DateTime::parse_from_rfc3339` and reads the result
/// with `DateTime::timestamp` and `DateTime::timestamp_subsec_nanos`. The
/// outcome depends on the text alone and is named [`rfc3339_instant`];
/// nothing else is claimed of it.
#[verifier::external_body]
fn parse_rfc3339(text: &str) -> (r: Option<(i64, u32)>)
    ensures
        r == rfc3339_instant(text@),
{
    match chrono::DateTime::parse_from_rfc3339(text) {
        Ok(t) => Some((t.timestamp(), t.timestamp_subsec_nanos())),
        Err(_) => None,
    }
}

/// What [`Timestamp::parse`] returns for a text with the given reading.
pub open spec fn timestamp_of(reading: Option<(i64, u32)>) -> Option<Timestamp> {
    match reading {
        Some((secs, nanos)) => Some(Timestamp { secs, nanos }),
        None => None,
    }
}

impl Timestamp {
    /// The instant that an RFC 3339 text denotes, such as
    /// `"2024-05-01T12:30:00+02:00"`; `None` for a text that `chrono` does not
    /// accept as one.
    pub fn parse(text: &str) -> (t: Option<Timestamp>)
        ensures
            t == timestamp_of(rfc3339_instant(text@)),
    {
        match parse_rfc3339(text) {
            Some((secs, nanos)) => Some(Timestamp { secs, nanos }),
            None => None,
        }
    }

    /// The whole minutes from `self` until `when`, rounded down.
    pub fn minutes_until(&self, when: &Timestamp) -> (m: i64)
        ensures
            m == minutes_between(*self, *when),
    {
        let per_minute: i128 = 60_000_000_000;
        let secs: i128 = when.secs as i128 - self.secs as i128;
        let diff: i128 = secs * 1_000_000_000 + (when.nanos as i128 - self.nanos as i128);
        if diff >= 0 {
            let q: i128 = diff / per_minute;
            assert(q <= 0x7fff_ffff_ffff_ffff) by (nonlinear_arith)
                requires
                    q == diff / 60_000_000_000,
                    0 <= diff <= 0x1_0000_0000_0000_0000 * 1_000_000_000 + 0x1_0000_0000,
            ;
            q as i64
        } else {
            let back: i128 = -diff;
            let q: i128 = (back + per_minute - 1) / per_minute;
            assert(q <= 0x7fff_ffff_ffff_ffff && -q == diff / 60_000_000_000) by (nonlinear_arith)
                requires
                    q == (back + 60_000_000_000 - 1) / 60_000_000_000,
                    back == -diff,
                    0 < back <= 0x1_0000_0000_0000_0000 * 1_000_000_000 + 0x1_0000_0000,
            ;
            (-q) as i64
        }
    }

    /// The minutes to show for a departure at `when`, seen from `self`:
    /// the whole minutes until then where they lie between 1 and `horizon`,
    /// and `None` for a departure that is past, due within the minute, or
    /// beyond the horizon.
    pub fn minutes_in_window(&self, when: &Timestamp, horizon: u32) -> (m: Option<u32>)
        ensures
            match m {
                Some(m) => m == minutes_between(*self, *when) && in_window(m as int, horizon),
                None => !in_window(minutes_between(*self, *when), horizon),
            },
    {
        let minutes = self.minutes_until(when);
        if minutes >= 1 && minutes <= horizon as i64 {
            Some(minutes as u32)
        } else {
            None
        }
    }
}

} // verus!
