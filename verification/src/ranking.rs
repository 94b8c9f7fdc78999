//! Ranking of departures: soonest first, and among departures of the same
//! minute the one that the provider listed first.

use crate::departure::{Departure, DepartureView};
use vstd::prelude::*;

verus! {

/// The departures of `s` by what they hold.
pub open spec fn views(s: Seq<Departure>) -> Seq<DepartureView> {
    Seq::new(s.len(), |i: int| s[i]@)
}

/// The minutes never go down along `s`.
pub open spec fn is_sorted(s: Seq<DepartureView>) -> bool {
    forall|i: int, j: int| 0 <= i <= j < s.len() ==> s[i].minutes <= s[j].minutes
}

/// The departures of `s` that leave in exactly `minutes` minutes, in the
/// order in which they stand in `s`.
pub open spec fn with_minutes(s: Seq<DepartureView>, minutes: u32) -> Seq<DepartureView>
    decreases s.len(),
{
    if s.len() == 0 {
        Seq::empty()
    } else if s.last().minutes == minutes {
        with_minutes(s.drop_last(), minutes).push(s.last())
    } else {
        with_minutes(s.drop_last(), minutes)
    }
}

/// `ranked` is `listed` in ascending order of minutes, with the departures of
/// each minute in the order in which they were listed. There is exactly one
/// such sequence for a given list (see [`lemma_ranking_unique`]).
pub open spec fn is_ranking_of(ranked: Seq<DepartureView>, listed: Seq<DepartureView>) -> bool {
    &&& is_sorted(ranked)
    &&& forall|minutes: u32| #[trigger]
        with_minutes(ranked, minutes) == with_minutes(listed, minutes)
}

/// Selecting by minutes goes through concatenation.
pub proof fn lemma_with_minutes_concat(a: Seq<DepartureView>, b: Seq<DepartureView>, minutes: u32)
    ensures
        with_minutes(a + b, minutes) == with_minutes(a, minutes) + with_minutes(b, minutes),
    decreases b.len(),
{
    if b.len() == 0 {
        assert(a + b =~= a);
        assert(with_minutes(a, minutes) + with_minutes(b, minutes) =~= with_minutes(a, minutes));
    } else {
        assert((a + b).drop_last() =~= a + b.drop_last());
        assert((a + b).last() == b.last());
        lemma_with_minutes_concat(a, b.drop_last(), minutes);
        if b.last().minutes == minutes {
            assert(with_minutes(a + b, minutes) =~= with_minutes(a, minutes) + with_minutes(
                b,
                minutes,
            ));
        }
    }
}

/// Where no departure of `s` leaves in `minutes` minutes, none is selected.
pub proof fn lemma_with_minutes_absent(s: Seq<DepartureView>, minutes: u32)
    requires
        forall|i: int| 0 <= i < s.len() ==> s[i].minutes != minutes,
    ensures
        with_minutes(s, minutes) == Seq::<DepartureView>::empty(),
    decreases s.len(),
{
    if s.len() > 0 {
        lemma_with_minutes_absent(s.drop_last(), minutes);
    }
}

/// Where a departure of `minutes` minutes is selected from `s`, `s` holds one.
pub proof fn lemma_with_minutes_present(s: Seq<DepartureView>, minutes: u32)
    requires
        with_minutes(s, minutes).len() > 0,
    ensures
        exists|i: int| 0 <= i < s.len() && #[trigger] s[i].minutes == minutes,
{
    if forall|i: int| 0 <= i < s.len() ==> #[trigger] s[i].minutes != minutes {
        lemma_with_minutes_absent(s, minutes);
    }
}

/// Two sorted sequences with the same departures for every minute, in the
/// same order, are the same sequence.
pub proof fn lemma_sorted_selection_unique(a: Seq<DepartureView>, b: Seq<DepartureView>)
    requires
        is_sorted(a),
        is_sorted(b),
        forall|minutes: u32| #[trigger] with_minutes(a, minutes) == with_minutes(b, minutes),
    ensures
        a == b,
    decreases a.len(),
{
    if a.len() == 0 {
        if b.len() > 0 {
            assert(with_minutes(b, b.last().minutes).len() > 0);
            assert(with_minutes(a, b.last().minutes).len() == 0);
        }
        assert(a =~= b);
    } else {
        let k = a.last().minutes;
        assert(with_minutes(a, k).len() > 0);
        assert(with_minutes(b, k) == with_minutes(a, k));
        lemma_with_minutes_present(b, k);
        let kb = b.last().minutes;
        assert(with_minutes(b, kb).len() > 0);
        assert(with_minutes(a, kb) == with_minutes(b, kb));
        lemma_with_minutes_present(a, kb);
        assert(k == kb);
        let a0 = a.drop_last();
        let b0 = b.drop_last();
        assert(with_minutes(a0, k) =~= with_minutes(a, k).drop_last());
        assert(with_minutes(b0, k) =~= with_minutes(b, k).drop_last());
        assert(a.last() == with_minutes(a, k).last());
        assert(b.last() == with_minutes(b, k).last());
        assert forall|minutes: u32| #[trigger]
            with_minutes(a0, minutes) == with_minutes(b0, minutes) by {
            if minutes != k {
                assert(with_minutes(a, minutes) == with_minutes(b, minutes));
            }
        }
        lemma_sorted_selection_unique(a0, b0);
        assert(a =~= a0.push(a.last()));
        assert(b =~= b0.push(b.last()));
    }
}

/// A list has one ranking: soonest first, the departures of a minute in
/// the order in which they were listed.
pub proof fn lemma_ranking_unique(
    first: Seq<DepartureView>,
    second: Seq<DepartureView>,
    listed: Seq<DepartureView>,
)
    requires
        is_ranking_of(first, listed),
        is_ranking_of(second, listed),
    ensures
        first == second,
{
    assert forall|minutes: u32| #[trigger]
        with_minutes(first, minutes) == with_minutes(second, minutes) by {
        assert(with_minutes(first, minutes) == with_minutes(listed, minutes));
        assert(with_minutes(second, minutes) == with_minutes(listed, minutes));
    }
    lemma_sorted_selection_unique(first, second);
}

/// A departure of `s` is among those selected for its minute.
pub proof fn lemma_with_minutes_selects(s: Seq<DepartureView>, i: int)
    requires
        0 <= i < s.len(),
    ensures
        with_minutes(s, s[i].minutes).contains(s[i]),
    decreases s.len(),
{
    let selected = with_minutes(s, s[i].minutes);
    if i == s.len() - 1 {
        assert(selected.last() == s[i]);
    } else {
        lemma_with_minutes_selects(s.drop_last(), i);
        let before = with_minutes(s.drop_last(), s[i].minutes);
        let at = choose|at: int| 0 <= at < before.len() && before[at] == s[i];
        assert(selected[at] == s[i]);
    }
}

/// What is selected from `s` stands in `s`.
pub proof fn lemma_with_minutes_within(s: Seq<DepartureView>, minutes: u32, d: DepartureView)
    requires
        with_minutes(s, minutes).contains(d),
    ensures
        s.contains(d),
    decreases s.len(),
{
    if s.len() > 0 {
        let before = with_minutes(s.drop_last(), minutes);
        if before.contains(d) {
            lemma_with_minutes_within(s.drop_last(), minutes, d);
            let at = choose|at: int| 0 <= at < s.drop_last().len() && s.drop_last()[at] == d;
            assert(s[at] == d);
        } else {
            let at = choose|at: int|
                0 <= at < with_minutes(s, minutes).len() && with_minutes(s, minutes)[at] == d;
            assert(s.last() == d);
        }
    }
}

/// A ranking holds nothing but what was listed.
pub proof fn lemma_ranking_within(
    ranked: Seq<DepartureView>,
    listed: Seq<DepartureView>,
    i: int,
)
    requires
        is_ranking_of(ranked, listed),
        0 <= i < ranked.len(),
    ensures
        listed.contains(ranked[i]),
{
    lemma_with_minutes_selects(ranked, i);
    assert(with_minutes(ranked, ranked[i].minutes) == with_minutes(listed, ranked[i].minutes));
    lemma_with_minutes_within(listed, ranked[i].minutes, ranked[i]);
}

/// A ranking holds all that was listed.
pub proof fn lemma_ranking_covers(
    ranked: Seq<DepartureView>,
    listed: Seq<DepartureView>,
    i: int,
)
    requires
        is_ranking_of(ranked, listed),
        0 <= i < listed.len(),
    ensures
        ranked.contains(listed[i]),
{
    lemma_with_minutes_selects(listed, i);
    assert(with_minutes(ranked, listed[i].minutes) == with_minutes(listed, listed[i].minutes));
    lemma_with_minutes_within(ranked, listed[i].minutes, listed[i]);
}

/// Where `d` is put into a sorted `s` in front of the first departure that
/// does not leave sooner, the result is sorted, `d` leads the departures of
/// its minute, and those of every other minute are as before.
proof fn lemma_insert_keeps_ranking(s: Seq<DepartureView>, pos: int, d: DepartureView)
    requires
        is_sorted(s),
        0 <= pos <= s.len(),
        forall|j: int| 0 <= j < pos ==> s[j].minutes < d.minutes,
        pos < s.len() ==> d.minutes <= s[pos].minutes,
    ensures
        is_sorted(s.insert(pos, d)),
        forall|minutes: u32| #[trigger]
            with_minutes(s.insert(pos, d), minutes) == with_minutes(seq![d] + s, minutes),
{
    let t = s.insert(pos, d);
    assert forall|i: int, j: int| 0 <= i <= j < t.len() implies t[i].minutes <= t[j].minutes by {
        if i < pos && j > pos {
            assert(s[i].minutes <= s[j - 1].minutes);
        } else if i == pos && j > pos {
            assert(s[pos].minutes <= s[j - 1].minutes);
        } else if i > pos {
            assert(s[i - 1].minutes <= s[j - 1].minutes);
        }
    }
    assert forall|minutes: u32| #[trigger]
        with_minutes(t, minutes) == with_minutes(seq![d] + s, minutes) by {
        let front = s.take(pos);
        let back = s.skip(pos);
        assert(t =~= front + seq![d] + back);
        assert(s =~= front + back);
        lemma_with_minutes_concat(front + seq![d], back, minutes);
        lemma_with_minutes_concat(front, seq![d], minutes);
        lemma_with_minutes_concat(front, back, minutes);
        lemma_with_minutes_concat(seq![d], s, minutes);
        lemma_with_minutes_concat(seq![d], front, minutes);
        if d.minutes == minutes {
            lemma_with_minutes_absent(front, minutes);
            assert(with_minutes(front, minutes) + with_minutes(seq![d], minutes) =~= with_minutes(
                seq![d],
                minutes,
            ) + with_minutes(front, minutes));
        } else {
            lemma_with_minutes_absent(seq![d], minutes);
            assert(with_minutes(front, minutes) + with_minutes(seq![d], minutes) =~= with_minutes(
                seq![d],
                minutes,
            ) + with_minutes(front, minutes));
        }
    }
}

/// Where the first departure that does not leave before `minutes` stands in
/// the sorted `out`.
fn insertion_point(out: &Vec<Departure>, minutes: u32) -> (pos: usize)
    requires
        is_sorted(views(out@)),
    ensures
        pos <= out.len(),
        forall|j: int| 0 <= j < pos ==> views(out@)[j].minutes < minutes,
        pos < out.len() ==> minutes <= views(out@)[pos as int].minutes,
{
    let mut pos: usize = 0;
    while pos < out.len() && out[pos].minutes < minutes
        invariant
            pos <= out.len(),
            forall|j: int| 0 <= j < pos ==> views(out@)[j].minutes < minutes,
        decreases out.len() - pos,
    {
        pos = pos + 1;
    }
    pos
}

/// Sorts the departures by their minutes, soonest first. The sort is stable:
/// departures of the same minute keep their order.
pub fn sort_by_minutes(v: &mut Vec<Departure>)
    ensures
        is_ranking_of(final(v).deep_view(), old(v).deep_view()),
        final(v).len() == old(v).len(),
{
    let ghost listed = views(v@);
    let mut out: Vec<Departure> = Vec::new();
    proof {
        assert(v.deep_view() =~= listed);
        assert(listed.skip(listed.len() as int) =~= Seq::<DepartureView>::empty());
        assert(views(out@) =~= Seq::<DepartureView>::empty());
    }
    while v.len() > 0
        invariant
            v.len() <= listed.len(),
            views(v@) == listed.take(v.len() as int),
            out.len() + v.len() == listed.len(),
            is_ranking_of(views(out@), listed.skip(v.len() as int)),
        decreases v.len(),
    {
        let ghost before = views(out@);
        let ghost n = v.len() as int;
        let ghost rest = listed.skip(n);
        let d = v.pop().unwrap();
        let pos = insertion_point(&out, d.minutes);
        out.insert(pos, d);
        proof {
            assert(d@ == listed.take(n)[n - 1]);
            assert(views(v@) =~= listed.take(n - 1));
            assert(views(out@) =~= before.insert(pos as int, d@));
            assert(listed.skip(n - 1) =~= seq![d@] + rest);
            lemma_insert_keeps_ranking(before, pos as int, d@);
            assert forall|minutes: u32| #[trigger]
                with_minutes(views(out@), minutes) == with_minutes(
                    listed.skip(n - 1),
                    minutes,
                ) by {
                lemma_with_minutes_concat(seq![d@], before, minutes);
                lemma_with_minutes_concat(seq![d@], rest, minutes);
                assert(with_minutes(before, minutes) == with_minutes(rest, minutes));
            }
        }
    }
    proof {
        assert(listed.skip(0) =~= listed);
        assert(out.deep_view() =~= views(out@));
    }
    *v = out;
}

} // verus!
