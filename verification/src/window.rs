//! The window of time that the feed shows, and the order of what it shows.

use crate::date::{split_days, EPOCH_DAY_NUMBER, SECONDS_PER_DAY};
use crate::event::{in_order, EventDate, Occurrence, OccurrenceView, Stamp};
use vstd::prelude::*;

verus! {

/// The days that the feed looks ahead.
pub const WINDOW_DAYS: i64 = 365;

/// The day number of the UTC day that an instant falls on.
pub open spec fn day_of_instant(instant: int) -> int {
    instant / (SECONDS_PER_DAY as int) + EPOCH_DAY_NUMBER
}

/// The timestamp lies strictly before the instant `bound`. A date is held, by
/// its day number and without a shift for any zone, against the UTC day that
/// the bound falls on.
pub open spec fn is_before(stamp: Stamp, bound: int) -> bool {
    match stamp {
        Stamp::Instant(instant) => instant < bound,
        Stamp::Date(date) => date.day_number() < day_of_instant(bound),
    }
}

/// The timestamp lies strictly after the instant `bound`.
pub open spec fn is_after(stamp: Stamp, bound: int) -> bool {
    match stamp {
        Stamp::Instant(instant) => instant > bound,
        Stamp::Date(date) => date.day_number() > day_of_instant(bound),
    }
}

/// The horizon of the window that opens at `now`: `WINDOW_DAYS` days later.
pub open spec fn horizon(now: int) -> int {
    now + WINDOW_DAYS * SECONDS_PER_DAY
}

/// An end that is not before `now` and is before the horizon.
pub open spec fn ends_in_window(end: Stamp, now: int) -> bool {
    !is_before(end, now) && is_before(end, horizon(now))
}

/// The occurrence has an end, and it lies in the window.
pub open spec fn in_window(occurrence: OccurrenceView, now: int) -> bool {
    occurrence.end is Some && ends_in_window(occurrence.end->0, now)
}

/// The occurrences that lie in the window, in their order.
pub open spec fn windowed(occurrences: Seq<OccurrenceView>, now: int) -> Seq<OccurrenceView>
    decreases occurrences.len(),
{
    if occurrences.len() == 0 {
        Seq::empty()
    } else if in_window(occurrences.last(), now) {
        windowed(occurrences.drop_last(), now).push(occurrences.last())
    } else {
        windowed(occurrences.drop_last(), now)
    }
}

/// Whether an occurrence lies in the window that opens at `now`.
pub fn is_in_window(occurrence: &Occurrence, now: i64) -> (inside: bool)
    ensures
        inside == in_window(occurrence@, now as int),
{
    match occurrence.end {
        None => false,
        Some(EventDate::DateTimeUtc(instant)) => {
            let horizon: i128 = now as i128 + (WINDOW_DAYS * SECONDS_PER_DAY) as i128;
            now <= instant && (instant as i128) < horizon
        },
        Some(EventDate::Date(date)) => {
            let today: i64 = split_days(now).0 + EPOCH_DAY_NUMBER as i64;
            let day: i64 = date.day_number() as i64;
            today <= day && day < today + WINDOW_DAYS
        },
    }
}

/// Keeps the occurrences that lie in the window that opens at `now`.
pub fn filter_window(occurrences: &Vec<Occurrence>, now: i64) -> (kept: Vec<Occurrence>)
    ensures
        kept.deep_view() == windowed(occurrences.deep_view(), now as int),
{
    let mut kept: Vec<Occurrence> = Vec::new();
    let mut i: usize = 0;
    while i < occurrences.len()
        invariant
            i <= occurrences.len(),
            kept.deep_view() == windowed(occurrences.deep_view().take(i as int), now as int),
        decreases occurrences.len() - i,
    {
        let ghost before = kept.deep_view();
        proof {
            let all = occurrences.deep_view();
            assert(all.take(i + 1).drop_last() == all.take(i as int));
            assert(all.take(i + 1).last() == occurrences[i as int]@);
        }
        if is_in_window(&occurrences[i], now) {
            kept.push(occurrences[i].duplicate());
            assert(kept.deep_view() == before.push(occurrences[i as int]@));
        }
        i += 1;
    }
    proof {
        assert(occurrences.deep_view().take(i as int) == occurrences.deep_view());
    }
    kept
}

/// The instant by which an occurrence is ordered: that of its end.
pub open spec fn end_key(occurrence: OccurrenceView) -> Option<int> {
    match occurrence.end {
        Some(end) => Some(end.sort_key()),
        None => None,
    }
}

/// The order of the keys: no key comes first, then the instants as they rise.
pub open spec fn key_le(a: Option<int>, b: Option<int>) -> bool {
    a is None || (b is Some && a->0 <= b->0)
}

/// `sorted` with `occurrence` put behind every member that does not end later
/// than it.
pub open spec fn inserted(sorted: Seq<OccurrenceView>, occurrence: OccurrenceView) -> Seq<
    OccurrenceView,
>
    decreases sorted.len(),
{
    if sorted.len() == 0 {
        seq![occurrence]
    } else if key_le(end_key(sorted.last()), end_key(occurrence)) {
        sorted.push(occurrence)
    } else {
        inserted(sorted.drop_last(), occurrence).push(sorted.last())
    }
}

/// The occurrences in the order of their ends, those that end together in the
/// order that they came in.
pub open spec fn sorted_by_end(occurrences: Seq<OccurrenceView>) -> Seq<OccurrenceView>
    decreases occurrences.len(),
{
    if occurrences.len() == 0 {
        Seq::empty()
    } else {
        inserted(sorted_by_end(occurrences.drop_last()), occurrences.last())
    }
}

/// No member ends before one that stands ahead of it.
pub open spec fn is_sorted(occurrences: Seq<OccurrenceView>) -> bool {
    forall|i: int, j: int|
        0 <= i < j < occurrences.len() ==> key_le(
            end_key(#[trigger] occurrences[i]),
            end_key(#[trigger] occurrences[j]),
        )
}

/// The members that are ordered by `key`, in their order.
pub open spec fn with_key(occurrences: Seq<OccurrenceView>, key: Option<int>) -> Seq<
    OccurrenceView,
>
    decreases occurrences.len(),
{
    if occurrences.len() == 0 {
        Seq::empty()
    } else if end_key(occurrences.last()) == key {
        with_key(occurrences.drop_last(), key).push(occurrences.last())
    } else {
        with_key(occurrences.drop_last(), key)
    }
}

/// The instant by which an occurrence is ordered.
pub fn end_key_of(occurrence: &Occurrence) -> (key: Option<i64>)
    ensures
        key is Some <==> end_key(occurrence@) is Some,
        key is Some ==> key->0 == end_key(occurrence@)->0,
{
    match occurrence.end {
        None => None,
        Some(EventDate::DateTimeUtc(instant)) => Some(instant),
        Some(EventDate::Date(date)) => {
            let day: i64 = date.day_number() as i64;
            Some((day - EPOCH_DAY_NUMBER as i64) * SECONDS_PER_DAY)
        },
    }
}

fn ends_no_later(a: Option<i64>, b: Option<i64>) -> (result: bool)
    ensures
        result == match (a, b) {
            (None, _) => true,
            (Some(_), None) => false,
            (Some(first), Some(second)) => first <= second,
        },
{
    match (a, b) {
        (None, _) => true,
        (Some(_), None) => false,
        (Some(first), Some(second)) => first <= second,
    }
}

proof fn lemma_inserted_at(sorted: Seq<OccurrenceView>, occurrence: OccurrenceView, at: int)
    requires
        0 <= at <= sorted.len(),
        forall|j: int| at <= j < sorted.len() ==> !key_le(end_key(sorted[j]), end_key(occurrence)),
        at > 0 ==> key_le(end_key(sorted[at - 1]), end_key(occurrence)),
    ensures
        inserted(sorted, occurrence) == sorted.insert(at, occurrence),
    decreases sorted.len(),
{
    if sorted.len() == 0 {
        assert(seq![occurrence] =~= sorted.insert(at, occurrence));
    } else if at == sorted.len() {
        assert(sorted.push(occurrence) =~= sorted.insert(at, occurrence));
    } else {
        lemma_inserted_at(sorted.drop_last(), occurrence, at);
        assert(sorted.drop_last().insert(at, occurrence).push(sorted.last()) =~= sorted.insert(
            at,
            occurrence,
        ));
    }
}

/// Orders the occurrences by their ends. Those that end together keep the
/// order that they came in; one without an end comes before all that have one.
pub fn sort_by_end(occurrences: &Vec<Occurrence>) -> (sorted: Vec<Occurrence>)
    ensures
        sorted.deep_view() == sorted_by_end(occurrences.deep_view()),
        sorted.len() == occurrences.len(),
        is_sorted(sorted.deep_view()),
        forall|key: Option<int>| #[trigger]
            with_key(sorted.deep_view(), key) == with_key(occurrences.deep_view(), key),
{
    let mut sorted: Vec<Occurrence> = Vec::new();
    let mut i: usize = 0;
    while i < occurrences.len()
        invariant
            i <= occurrences.len(),
            sorted.len() == i,
            sorted.deep_view() == sorted_by_end(occurrences.deep_view().take(i as int)),
        decreases occurrences.len() - i,
    {
        let next = occurrences[i].duplicate();
        let key = end_key_of(&next);
        let ghost before = sorted.deep_view();
        let mut at: usize = sorted.len();
        while at > 0 && !ends_no_later(end_key_of(&sorted[at - 1]), key)
            invariant
                at <= sorted.len(),
                before == sorted.deep_view(),
                key is Some <==> end_key(next@) is Some,
                key is Some ==> key->0 == end_key(next@)->0,
                forall|j: int|
                    at <= j < sorted.len() ==> !key_le(
                        end_key(#[trigger] before[j]),
                        end_key(next@),
                    ),
            decreases at,
        {
            at -= 1;
        }
        sorted.insert(at, next);
        proof {
            let all = occurrences.deep_view();
            assert(all.take(i + 1).drop_last() == all.take(i as int));
            assert(all.take(i + 1).last() == next@);
            lemma_inserted_at(before, next@, at as int);
            assert(sorted.deep_view() == before.insert(at as int, next@));
        }
        i += 1;
    }
    proof {
        assert(occurrences.deep_view().take(i as int) == occurrences.deep_view());
        law_sort_orders_by_end(occurrences.deep_view());
        assert forall|key: Option<int>| #[trigger]
            with_key(sorted.deep_view(), key) == with_key(occurrences.deep_view(), key) by {
            law_sort_is_stable(occurrences.deep_view(), key);
        }
    }
    sorted
}

proof fn lemma_inserted_len(sorted: Seq<OccurrenceView>, occurrence: OccurrenceView)
    ensures
        inserted(sorted, occurrence).len() == sorted.len() + 1,
    decreases sorted.len(),
{
    if sorted.len() > 0 && !key_le(end_key(sorted.last()), end_key(occurrence)) {
        lemma_inserted_len(sorted.drop_last(), occurrence);
    }
}

proof fn lemma_inserted_members(
    sorted: Seq<OccurrenceView>,
    occurrence: OccurrenceView,
    i: int,
)
    requires
        0 <= i < inserted(sorted, occurrence).len(),
    ensures
        inserted(sorted, occurrence)[i] == occurrence || sorted.contains(
            inserted(sorted, occurrence)[i],
        ),
    decreases sorted.len(),
{
    lemma_inserted_len(sorted, occurrence);
    if sorted.len() == 0 {
    } else if key_le(end_key(sorted.last()), end_key(occurrence)) {
        if i < sorted.len() {
            assert(sorted[i] == inserted(sorted, occurrence)[i]);
        }
    } else {
        lemma_inserted_len(sorted.drop_last(), occurrence);
        if i < sorted.len() {
            lemma_inserted_members(sorted.drop_last(), occurrence, i);
            let member = inserted(sorted.drop_last(), occurrence)[i];
            if member != occurrence {
                let at = choose|at: int|
                    0 <= at < sorted.drop_last().len() && sorted.drop_last()[at] == member;
                assert(sorted[at] == member);
            }
        } else {
            assert(sorted[sorted.len() - 1] == sorted.last());
        }
    }
}

proof fn lemma_inserted_is_sorted(sorted: Seq<OccurrenceView>, occurrence: OccurrenceView)
    requires
        is_sorted(sorted),
    ensures
        is_sorted(inserted(sorted, occurrence)),
    decreases sorted.len(),
{
    let result = inserted(sorted, occurrence);
    lemma_inserted_len(sorted, occurrence);
    if sorted.len() == 0 {
    } else if key_le(end_key(sorted.last()), end_key(occurrence)) {
        assert forall|i: int, j: int| 0 <= i < j < result.len() implies key_le(
            end_key(#[trigger] result[i]),
            end_key(#[trigger] result[j]),
        ) by {
            if j == sorted.len() {
                if i < sorted.len() - 1 {
                    assert(key_le(end_key(sorted[i]), end_key(sorted[sorted.len() - 1])));
                }
            } else {
                assert(key_le(end_key(sorted[i]), end_key(sorted[j])));
            }
        }
    } else {
        let front = sorted.drop_last();
        assert(is_sorted(front)) by {
            assert forall|i: int, j: int| 0 <= i < j < front.len() implies key_le(
                end_key(#[trigger] front[i]),
                end_key(#[trigger] front[j]),
            ) by {
                assert(key_le(end_key(sorted[i]), end_key(sorted[j])));
            }
        }
        lemma_inserted_is_sorted(front, occurrence);
        lemma_inserted_len(front, occurrence);
        let inner = inserted(front, occurrence);
        assert forall|i: int, j: int| 0 <= i < j < result.len() implies key_le(
            end_key(#[trigger] result[i]),
            end_key(#[trigger] result[j]),
        ) by {
            if j < inner.len() {
                assert(key_le(end_key(inner[i]), end_key(inner[j])));
            } else {
                lemma_inserted_members(front, occurrence, i);
                if inner[i] != occurrence {
                    let at = choose|at: int| 0 <= at < front.len() && front[at] == inner[i];
                    assert(key_le(end_key(sorted[at]), end_key(sorted[sorted.len() - 1])));
                }
            }
        }
    }
}

/// What `sorted_by_end` gives is in the order of the ends.
pub proof fn law_sort_orders_by_end(occurrences: Seq<OccurrenceView>)
    ensures
        is_sorted(sorted_by_end(occurrences)),
        sorted_by_end(occurrences).len() == occurrences.len(),
    decreases occurrences.len(),
{
    if occurrences.len() > 0 {
        law_sort_orders_by_end(occurrences.drop_last());
        lemma_inserted_is_sorted(sorted_by_end(occurrences.drop_last()), occurrences.last());
        lemma_inserted_len(sorted_by_end(occurrences.drop_last()), occurrences.last());
    }
}

proof fn lemma_inserted_with_key(
    sorted: Seq<OccurrenceView>,
    occurrence: OccurrenceView,
    key: Option<int>,
)
    ensures
        with_key(inserted(sorted, occurrence), key) == if end_key(occurrence) == key {
            with_key(sorted, key).push(occurrence)
        } else {
            with_key(sorted, key)
        },
    decreases sorted.len(),
{
    let result = inserted(sorted, occurrence);
    if sorted.len() == 0 {
        assert(result.drop_last() =~= sorted);
    } else if key_le(end_key(sorted.last()), end_key(occurrence)) {
        assert(result.drop_last() =~= sorted);
    } else {
        lemma_inserted_with_key(sorted.drop_last(), occurrence, key);
        assert(result.drop_last() =~= inserted(sorted.drop_last(), occurrence));
    }
}

/// What `sorted_by_end` gives holds the members that share a key in the order
/// that they came in.
pub proof fn law_sort_is_stable(occurrences: Seq<OccurrenceView>, key: Option<int>)
    ensures
        with_key(sorted_by_end(occurrences), key) == with_key(occurrences, key),
    decreases occurrences.len(),
{
    if occurrences.len() > 0 {
        law_sort_is_stable(occurrences.drop_last(), key);
        lemma_inserted_with_key(sorted_by_end(occurrences.drop_last()), occurrences.last(), key);
    }
}

/// Each member of what `sorted_by_end` gives is one of those that came in.
pub proof fn law_sort_keeps_members(occurrences: Seq<OccurrenceView>, i: int)
    requires
        0 <= i < sorted_by_end(occurrences).len(),
    ensures
        occurrences.contains(sorted_by_end(occurrences)[i]),
    decreases occurrences.len(),
{
    let front = sorted_by_end(occurrences.drop_last());
    lemma_inserted_members(front, occurrences.last(), i);
    let member = sorted_by_end(occurrences)[i];
    if member == occurrences.last() {
        assert(occurrences[occurrences.len() - 1] == member);
    } else {
        let at = choose|at: int| 0 <= at < front.len() && front[at] == member;
        law_sort_keeps_members(occurrences.drop_last(), at);
        let from = choose|from: int|
            0 <= from < occurrences.drop_last().len() && occurrences.drop_last()[from] == member;
        assert(occurrences[from] == member);
    }
}

/// The window keeps an occurrence that ends at `now` itself and leaves out one
/// that ends at the horizon; it leaves out what ends before `now`, and what
/// starts after the horizon and does not end before it starts.
pub proof fn law_window_bounds(occurrence: OccurrenceView, now: int)
    ensures
        occurrence.end == Some(Stamp::Instant(now)) ==> in_window(occurrence, now),
        occurrence.end == Some(Stamp::Instant(horizon(now))) ==> !in_window(occurrence, now),
        occurrence.end is Some && is_before(occurrence.end->0, now) ==> !in_window(occurrence, now),
        occurrence.start is Some && occurrence.end is Some && in_order(
            occurrence.start->0,
            occurrence.end->0,
        ) && is_after(occurrence.start->0, horizon(now)) ==> !in_window(occurrence, now),
{
}

/// Each occurrence that the window keeps lies in the window, and is one of
/// those that came in.
pub proof fn law_windowed_members(occurrences: Seq<OccurrenceView>, now: int, i: int)
    requires
        0 <= i < windowed(occurrences, now).len(),
    ensures
        in_window(windowed(occurrences, now)[i], now),
        occurrences.contains(windowed(occurrences, now)[i]),
    decreases occurrences.len(),
{
    let before = windowed(occurrences.drop_last(), now);
    if i < before.len() {
        law_windowed_members(occurrences.drop_last(), now, i);
        let at = choose|at: int|
            0 <= at < occurrences.drop_last().len() && occurrences.drop_last()[at] == before[i];
        assert(occurrences[at] == before[i]);
    } else {
        assert(occurrences[occurrences.len() - 1] == occurrences.last());
    }
}

} // verus!
