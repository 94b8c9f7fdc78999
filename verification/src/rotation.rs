//! The rotation scheduler: which departure is on the panel, and when the
//! list is refreshed, rotated and drawn.
//!
//! Two timers run over one state. The refresh timer replaces the list with
//! what the provider returned; the rotate timer moves on to the next
//! departure. Either sets `needs_render`, which the render transition
//! clears. The index is kept across a refresh and is read modulo the length
//! of the list, so a list that has become shorter is never read out of
//! bounds.
//!
//! Instants are readings of one monotonic clock, in milliseconds.

use crate::api::{candidates, normalize, FetchError, RawEntry, RawEntryView};
use crate::config::Config;
use crate::departure::{Departure, DepartureView};
use crate::ranking::is_ranking_of;
use crate::timestamp::Timestamp;
use vstd::prelude::*;

verus! {

/// What the scheduler owns.
#[derive(Debug, Clone, PartialEq)]
pub struct RotationState {
    /// The departures in rotation: the soonest few of the last successful
    /// refresh.
    pub departures: Vec<Departure>,
    /// The place in the rotation; read modulo the length of `departures`.
    pub current_index: usize,
    /// When the provider was last asked.
    pub last_fetch: u64,
    /// When the rotation last moved on.
    pub last_rotate: u64,
    /// Whether the panel is out of date.
    pub needs_render: bool,
}

/// Whether a timer that last fired at `since` is due at `now`, given its
/// period. A clock reading before `since` makes no timer due.
pub open spec fn is_due(now: u64, since: u64, period: u64) -> bool {
    now - since >= period
}

/// The first `top_k` of `fetched`, or all of them where there are fewer.
pub open spec fn top(fetched: Seq<Departure>, top_k: usize) -> Seq<Departure> {
    if top_k <= fetched.len() {
        fetched.take(top_k as int)
    } else {
        fetched
    }
}

/// `shown` is made of the first `top_k` of the ranking of `listed`, or of
/// all of it where the ranking is shorter.
pub open spec fn is_top_of_ranking(
    shown: Seq<DepartureView>,
    listed: Seq<DepartureView>,
    top_k: usize,
) -> bool {
    exists|ranked: Seq<DepartureView>| #[trigger]
        is_ranking_of(ranked, listed) && ranked.len() == listed.len() && shown == ranked.take(
            if top_k <= ranked.len() {
                top_k as int
            } else {
                ranked.len() as int
            },
        )
}

/// The departures that the pipeline makes of what the provider returned,
/// under the given settings and seen at the given time.
pub open spec fn fetched_candidates(
    entries: Seq<RawEntryView>,
    config: Config,
    seen_at: Timestamp,
) -> Seq<DepartureView> {
    candidates(entries, config.home_station@, config.horizon_minutes, seen_at)
}

impl RotationState {
    /// Whether the rotate transition fires at `now`: its period has passed
    /// and there is more than one departure to rotate through.
    pub open spec fn rotates_at(self, now: u64, period: u64) -> bool {
        is_due(now, self.last_rotate, period) && self.departures.len() > 1
    }

    /// Whether the render transition fires: the panel is out of date and
    /// there is a departure to show.
    pub open spec fn renders(self) -> bool {
        self.needs_render && self.departures.len() > 0
    }

    /// The index of the departure on the panel; meaningful for a list that
    /// is not empty.
    pub open spec fn shown_index(self) -> int {
        self.current_index as int % self.departures.len() as int
    }

    /// The place in the rotation that follows the present one: one further,
    /// and from the end of the list back to its start.
    pub open spec fn next_index(self) -> int {
        (self.current_index + 1) % (self.departures.len() as int)
    }

    /// The state at start-up, at clock reading `now`: nothing to show yet,
    /// and the panel to be drawn as soon as there is.
    pub fn new(now: u64) -> (state: RotationState)
        ensures
            state.departures@.len() == 0,
            state.current_index == 0,
            state.last_fetch == now,
            state.last_rotate == now,
            state.needs_render,
    {
        RotationState {
            departures: Vec::new(),
            current_index: 0,
            last_fetch: now,
            last_rotate: now,
            needs_render: true,
        }
    }

    /// Whether the provider is to be asked again at `now`.
    pub fn refresh_due(&self, now: u64, period: u64) -> (due: bool)
        ensures
            due == is_due(now, self.last_fetch, period),
    {
        now >= self.last_fetch && now - self.last_fetch >= period
    }

    /// Takes over the result of a successful refresh: the first `top_k` of
    /// `fetched` replace the list, and the panel is to be drawn anew. The
    /// place in the rotation stays as it is.
    pub fn refresh_succeeded(&mut self, fetched: Vec<Departure>, top_k: usize, now: u64)
        ensures
            final(self).departures@ == top(fetched@, top_k),
            final(self).current_index == old(self).current_index,
            final(self).last_fetch == now,
            final(self).last_rotate == old(self).last_rotate,
            final(self).needs_render,
    {
        let mut fetched = fetched;
        proof {
            assert(fetched@.subrange(0, top_k as int) =~= fetched@.take(top_k as int));
        }
        fetched.truncate(top_k);
        self.departures = fetched;
        self.needs_render = true;
        self.last_fetch = now;
    }

    /// Records a refresh that failed: the time of the attempt, and nothing
    /// else. The stale list stays on the panel.
    pub fn refresh_failed(&mut self, now: u64)
        ensures
            final(self).departures == old(self).departures,
            final(self).current_index == old(self).current_index,
            final(self).last_fetch == now,
            final(self).last_rotate == old(self).last_rotate,
            final(self).needs_render == old(self).needs_render,
    {
        self.last_fetch = now;
    }

    /// The refresh transition, given what the provider call came to:
    /// on success the entries go through the pipeline and the soonest
    /// `top_k` replace the list; on failure the list stays. `seen_at` is the
    /// time of day at which the answer came, `now` the reading of the
    /// scheduler's clock.
    pub fn refresh(
        &mut self,
        fetched: Result<Vec<RawEntry>, FetchError>,
        config: &Config,
        seen_at: &Timestamp,
        now: u64,
    )
        ensures
            final(self).current_index == old(self).current_index,
            final(self).last_fetch == now,
            final(self).last_rotate == old(self).last_rotate,
            match fetched {
                Ok(entries) => is_top_of_ranking(
                    final(self).departures.deep_view(),
                    fetched_candidates(entries.deep_view(), *config, *seen_at),
                    config.top_k,
                ) && final(self).needs_render,
                Err(_) => final(self).departures == old(self).departures
                    && final(self).needs_render == old(self).needs_render,
            },
    {
        match fetched {
            Ok(entries) => {
                let ranked = normalize(
                    &entries,
                    config.home_station.as_str(),
                    config.horizon_minutes,
                    seen_at,
                );
                let ghost all = ranked.deep_view();
                let ghost all_exec = ranked@;
                self.refresh_succeeded(ranked, config.top_k, now);
                proof {
                    let n = if config.top_k <= all.len() {
                        config.top_k as int
                    } else {
                        all.len() as int
                    };
                    assert(all_exec.take(all_exec.len() as int) =~= all_exec);
                    assert(self.departures.deep_view() =~= all.take(n));
                    assert(is_ranking_of(
                        all,
                        fetched_candidates(entries.deep_view(), *config, *seen_at),
                    ));
                }
            },
            Err(_) => self.refresh_failed(now),
        }
    }

    /// Moves on to the next departure, and from the last to the first.
    pub fn next_departure(&mut self)
        requires
            old(self).departures.len() > 0,
        ensures
            final(self).current_index == old(self).next_index(),
            final(self).departures == old(self).departures,
            final(self).last_fetch == old(self).last_fetch,
            final(self).last_rotate == old(self).last_rotate,
            final(self).needs_render == old(self).needs_render,
    {
        let total = self.departures.len();
        let here = self.current_index % total;
        proof {
            let i = self.current_index as int;
            let n = total as int;
            let r = here as int;
            assert((i + 1) % n == (r + 1) % n) by (nonlinear_arith)
                requires
                    n > 0,
                    i >= 0,
                    r == i % n,
            ;
            assert(r + 1 == n ==> (r + 1) % n == 0) by (nonlinear_arith)
                requires
                    n > 0,
            ;
            assert(r + 1 < n ==> (r + 1) % n == r + 1) by (nonlinear_arith)
                requires
                    n > 0,
                    r >= 0,
            ;
        }
        self.current_index = if here + 1 == total {
            0
        } else {
            here + 1
        };
    }

    /// The place in the rotation, as it is kept: not reduced modulo the
    /// length of the list.
    pub fn current_index(&self) -> (index: usize)
        ensures
            index == self.current_index,
    {
        self.current_index
    }

    /// The rotate transition: where it fires at `now`, the rotation moves on
    /// and the panel is to be drawn anew. Returns whether it fired.
    pub fn rotate(&mut self, now: u64, period: u64) -> (fired: bool)
        ensures
            fired == old(self).rotates_at(now, period),
            final(self).departures == old(self).departures,
            final(self).last_fetch == old(self).last_fetch,
            fired ==> final(self).current_index == old(self).next_index(),
            fired ==> final(self).last_rotate == now,
            fired ==> final(self).needs_render,
            !fired ==> *final(self) == *old(self),
    {
        let due = now >= self.last_rotate && now - self.last_rotate >= period;
        if due && self.departures.len() > 1 {
            self.next_departure();
            self.needs_render = true;
            self.last_rotate = now;
            true
        } else {
            false
        }
    }

    /// The index of the departure on the panel: the place in the rotation
    /// modulo the length of the list; `None` for an empty list.
    pub fn effective_index(&self) -> (index: Option<usize>)
        ensures
            match index {
                Some(i) => self.departures.len() > 0 && i == self.shown_index() && i
                    < self.departures.len(),
                None => self.departures.len() == 0,
            },
    {
        if self.departures.len() == 0 {
            None
        } else {
            Some(self.current_index % self.departures.len())
        }
    }

    /// The render transition: where the panel is out of date and there is a
    /// departure to show, returns the index of that departure and marks the
    /// panel as drawn. Otherwise returns `None` and changes nothing.
    pub fn render(&mut self) -> (index: Option<usize>)
        ensures
            index is Some == old(self).renders(),
            final(self).departures == old(self).departures,
            final(self).current_index == old(self).current_index,
            final(self).last_fetch == old(self).last_fetch,
            final(self).last_rotate == old(self).last_rotate,
            match index {
                Some(i) => i == old(self).shown_index() && i < old(self).departures.len()
                    && !final(self).needs_render,
                None => final(self).needs_render == old(self).needs_render,
            },
    {
        if !self.needs_render {
            return None;
        }
        let index = self.effective_index();
        if index.is_some() {
            self.needs_render = false;
        }
        index
    }
}

/// Whatever the place in the rotation, and however the list has changed
/// since it was set, the departure on the panel is one of the list.
pub proof fn lemma_shown_index_in_bounds(state: RotationState)
    requires
        state.departures.len() > 0,
    ensures
        0 <= state.shown_index() < state.departures.len(),
{
}

/// The time of day of a clock reading in seconds since the epoch: hours,
/// minutes and seconds, in UTC.
pub fn format_time(now: u64) -> (time: (u64, u64, u64))
    ensures
        time.0 == (now % 86400) / 3600,
        time.1 == (now % 3600) / 60,
        time.2 == now % 60,
        time.0 < 24 && time.1 < 60 && time.2 < 60,
{
    let h = (now % 86400) / 3600;
    let m = (now % 3600) / 60;
    let s = now % 60;
    (h, m, s)
}

} // verus!
