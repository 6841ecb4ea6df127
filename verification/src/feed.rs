//! The feed: from the components of a calendar to the records that are shown.

use crate::event::{
    in_order, CalendarComponent, CalendarComponentView, Occurrence, OccurrenceView, OutputEvent,
    OutputEventView,
};
use crate::format::{format_event, is_clock_offset, rendered};
use crate::location::{load_spaces, usable_entries, SpaceEntry, SpaceEntryView, SpaceRecord};
use crate::recurrence::{expand, expanded, OccurrenceStart};
use crate::types::{Error, ErrorView};
use crate::window::{
    filter_window, horizon, in_window, is_after, is_before, is_sorted, law_windowed_members,
    law_sort_orders_by_end, law_sort_is_stable, law_sort_keeps_members,
    sort_by_end, sorted_by_end, windowed, with_key,
};
use vstd::prelude::*;
use vstd::string::*;

verus! {

/// What the caller is told where the calendar could not be had.
pub const CALENDAR_FAILURE: &'static str = "The remote calendar could not be processed.";

/// How many records are shown where the caller names no number.
pub const DEFAULT_AMOUNT: usize = 10;

/// The seconds that a clock runs ahead of UTC at the start and at the end of
/// an occurrence.
pub struct ClockOffsets {
    pub start: int,
    pub end: int,
}

/// The occurrences of the events among the components, in the order of the
/// components, where `outcomes` holds for each component what its ruleset came
/// to.
pub open spec fn occurrences_of(
    components: Seq<CalendarComponentView>,
    outcomes: Seq<Option<Seq<OccurrenceStart>>>,
) -> Seq<OccurrenceView>
    decreases components.len(),
{
    if components.len() == 0 {
        Seq::empty()
    } else {
        let before = occurrences_of(components.drop_last(), outcomes.drop_last());
        match components.last() {
            CalendarComponentView::Event(event) => before + expanded(event, outcomes.last()),
            CalendarComponentView::Other => before,
        }
    }
}

/// The occurrences that are shown at `now`: those in the window, in the order
/// of their ends.
pub open spec fn selected(occurrences: Seq<OccurrenceView>, now: int) -> Seq<OccurrenceView> {
    sorted_by_end(windowed(occurrences, now))
}

/// The records of the occurrences that have one, in their order, where
/// `offsets` holds for each occurrence how the clock stood.
pub open spec fn rendered_all(
    occurrences: Seq<OccurrenceView>,
    spaces: Seq<SpaceEntryView>,
    offsets: Seq<ClockOffsets>,
) -> Seq<OutputEventView>
    decreases occurrences.len(),
{
    if occurrences.len() == 0 {
        Seq::empty()
    } else {
        let before = rendered_all(occurrences.drop_last(), spaces, offsets.drop_last());
        match rendered(occurrences.last(), spaces, offsets.last().start, offsets.last().end) {
            Some(event) => before.push(event),
            None => before,
        }
    }
}

/// Each member is a pair of offsets that a clock can have.
pub open spec fn are_clock_offsets(offsets: Seq<ClockOffsets>) -> bool {
    forall|i: int|
        0 <= i < offsets.len() ==> is_clock_offset((#[trigger] offsets[i]).start)
            && is_clock_offset(offsets[i].end)
}

/// `events` is the feed of the components at `now`: for some outcome of each
/// event's ruleset, and some stand of the clock at each occurrence shown, it
/// holds the records of the occurrences selected.
pub open spec fn is_feed(
    components: Seq<CalendarComponentView>,
    spaces: Seq<SpaceEntryView>,
    now: int,
    events: Seq<OutputEventView>,
) -> bool {
    exists|outcomes: Seq<Option<Seq<OccurrenceStart>>>, offsets: Seq<ClockOffsets>|
        {
            &&& outcomes.len() == components.len()
            &&& offsets.len() == selected(occurrences_of(components, outcomes), now).len()
            &&& are_clock_offsets(offsets)
            &&& events == #[trigger] rendered_all(
                selected(occurrences_of(components, outcomes), now),
                spaces,
                offsets,
            )
        }
}

/// Expands the events among the components into their occurrences.
pub fn expand_all(components: &Vec<CalendarComponent>) -> (occurrences: Vec<Occurrence>)
    ensures
        exists|outcomes: Seq<Option<Seq<OccurrenceStart>>>|
            {
                &&& outcomes.len() == components.len()
                &&& occurrences.deep_view() == #[trigger] occurrences_of(
                    components.deep_view(),
                    outcomes,
                )
            },
{
    let mut occurrences: Vec<Occurrence> = Vec::new();
    let ghost mut outcomes: Seq<Option<Seq<OccurrenceStart>>> = Seq::empty();
    let mut i: usize = 0;
    while i < components.len()
        invariant
            i <= components.len(),
            outcomes.len() == i,
            occurrences.deep_view() == occurrences_of(
                components.deep_view().take(i as int),
                outcomes,
            ),
        decreases components.len() - i,
    {
        let ghost before = occurrences.deep_view();
        let ghost mut outcome: Option<Seq<OccurrenceStart>> = None;
        match &components[i] {
            CalendarComponent::Event(event) => {
                let mut more = expand(event);
                proof {
                    outcome = choose|outcome: Option<Seq<OccurrenceStart>>|
                        more.deep_view() == expanded(event@, outcome);
                }
                let ghost added = more.deep_view();
                occurrences.append(&mut more);
                assert(occurrences.deep_view() == before + added);
            },
            CalendarComponent::Other => {},
        }
        proof {
            let all = components.deep_view();
            assert(all.take(i + 1).drop_last() == all.take(i as int));
            assert(all.take(i + 1).last() == components[i as int]@);
            assert(outcomes.push(outcome).drop_last() == outcomes);
            outcomes = outcomes.push(outcome);
        }
        i += 1;
    }
    proof {
        assert(components.deep_view().take(i as int) == components.deep_view());
    }
    occurrences
}

/// Makes the records of the occurrences that have one, their instants on the
/// clock of this machine.
pub fn render_all(occurrences: &Vec<Occurrence>, spaces: &Vec<SpaceEntry>) -> (events: Vec<
    OutputEvent,
>)
    ensures
        exists|offsets: Seq<ClockOffsets>|
            {
                &&& offsets.len() == occurrences.len()
                &&& are_clock_offsets(offsets)
                &&& events.deep_view() == #[trigger] rendered_all(
                    occurrences.deep_view(),
                    spaces.deep_view(),
                    offsets,
                )
            },
        events.len() <= occurrences.len(),
{
    let mut events: Vec<OutputEvent> = Vec::new();
    let ghost mut offsets: Seq<ClockOffsets> = Seq::empty();
    let mut i: usize = 0;
    while i < occurrences.len()
        invariant
            i <= occurrences.len(),
            offsets.len() == i,
            events.len() <= i,
            are_clock_offsets(offsets),
            events.deep_view() == rendered_all(
                occurrences.deep_view().take(i as int),
                spaces.deep_view(),
                offsets,
            ),
        decreases occurrences.len() - i,
    {
        let ghost before = events.deep_view();
        let next = format_event(&occurrences[i], spaces);
        proof {
            let (start, end) = choose|start: int, end: int|
                is_clock_offset(start) && is_clock_offset(end) && next.deep_view() == rendered(
                    occurrences[i as int]@,
                    spaces.deep_view(),
                    start,
                    end,
                );
            let stand = ClockOffsets { start, end };
            let all = occurrences.deep_view();
            assert(all.take(i + 1).drop_last() == all.take(i as int));
            assert(all.take(i + 1).last() == occurrences[i as int]@);
            assert(offsets.push(stand).drop_last() == offsets);
            assert(offsets.push(stand).last() == stand);
            assert(are_clock_offsets(offsets.push(stand))) by {
                assert forall|j: int| 0 <= j < offsets.push(stand).len() implies is_clock_offset(
                    (#[trigger] offsets.push(stand)[j]).start,
                ) && is_clock_offset(offsets.push(stand)[j].end) by {
                    if j < offsets.len() {
                        assert(offsets.push(stand)[j] == offsets[j]);
                    }
                }
            }
            offsets = offsets.push(stand);
        }
        match next {
            Some(event) => {
                events.push(event);
                assert(events.deep_view() == before.push(event@));
            },
            None => {},
        }
        i += 1;
    }
    proof {
        assert(occurrences.deep_view().take(i as int) == occurrences.deep_view());
    }
    events
}

/// The feed of the components at `now`: their events expanded, the
/// occurrences outside the window left out, the others ordered by their ends
/// and each made into a record.
pub fn upcoming_events(
    components: &Vec<CalendarComponent>,
    spaces: &Vec<SpaceEntry>,
    now: i64,
) -> (events: Vec<OutputEvent>)
    ensures
        is_feed(components.deep_view(), spaces.deep_view(), now as int, events.deep_view()),
{
    let occurrences = expand_all(components);
    let kept = filter_window(&occurrences, now);
    let sorted = sort_by_end(&kept);
    let events = render_all(&sorted, spaces);
    proof {
        let outcomes = choose|outcomes: Seq<Option<Seq<OccurrenceStart>>>|
            outcomes.len() == components.len() && occurrences.deep_view() == occurrences_of(
                components.deep_view(),
                outcomes,
            );
        let offsets = choose|offsets: Seq<ClockOffsets>|
            {
                &&& offsets.len() == sorted.len()
                &&& are_clock_offsets(offsets)
                &&& events.deep_view() == rendered_all(
                    sorted.deep_view(),
                    spaces.deep_view(),
                    offsets,
                )
            };
        let shown = selected(occurrences_of(components.deep_view(), outcomes), now as int);
        assert(sorted.deep_view() == shown);
        assert(events.deep_view() == rendered_all(shown, spaces.deep_view(), offsets));
    }
    events
}

/// The registry that is used: what `usable_entries` keeps of the records, and
/// nothing where the records could not be had.
pub open spec fn registry_of(registry: Option<Vec<SpaceRecord>>) -> Seq<SpaceEntryView> {
    match registry {
        Some(records) => usable_entries(records.deep_view()),
        None => Seq::empty(),
    }
}

/// Makes the feed of what was fetched. A calendar that could not be had ends
/// it with an error that holds the reason as its details; a registry that
/// could not be had counts as an empty one.
pub fn events(
    calendar: Result<Vec<CalendarComponent>, String>,
    registry: Option<Vec<SpaceRecord>>,
    now: i64,
) -> (result: Result<Vec<OutputEvent>, Error>)
    ensures
        match calendar {
            Ok(components) => result is Ok && is_feed(
                components.deep_view(),
                registry_of(registry),
                now as int,
                result->Ok_0.deep_view(),
            ),
            Err(reason) => result is Err && result->Err_0@ == (ErrorView {
                message: CALENDAR_FAILURE@,
                details: Some(reason@),
            }),
        },
{
    let components = match calendar {
        Ok(components) => components,
        Err(reason) => {
            return Err(
                Error { message: String::from_str(CALENDAR_FAILURE), details: Some(reason) },
            );
        },
    };
    let spaces = match &registry {
        Some(records) => load_spaces(records),
        None => Vec::new(),
    };
    assert(spaces.deep_view() == registry_of(registry));
    Ok(upcoming_events(&components, &spaces, now))
}

/// The occurrences that are shown stand in the order of their ends, and those
/// that end together stand in the order that they came in.
pub proof fn law_selected_is_ordered(occurrences: Seq<OccurrenceView>, now: int, key: Option<int>)
    ensures
        is_sorted(selected(occurrences, now)),
        with_key(selected(occurrences, now), key) == with_key(windowed(occurrences, now), key),
{
    law_sort_orders_by_end(windowed(occurrences, now));
    law_sort_is_stable(windowed(occurrences, now), key);
}

/// Each occurrence that is shown is one of those that came in, and lies in the
/// window: it does not end before `now`, and it ends before the horizon.
pub proof fn law_selected_in_window(occurrences: Seq<OccurrenceView>, now: int, i: int)
    requires
        0 <= i < selected(occurrences, now).len(),
    ensures
        occurrences.contains(selected(occurrences, now)[i]),
        in_window(selected(occurrences, now)[i], now),
{
    let kept = windowed(occurrences, now);
    let member = selected(occurrences, now)[i];
    law_sort_keeps_members(kept, i);
    let at = choose|at: int| 0 <= at < kept.len() && kept[at] == member;
    law_windowed_members(occurrences, now, at);
}

/// An occurrence that lies in the window and has a record is upcoming: it does
/// not end before `now`, it ends before the horizon, and it does not start
/// after the horizon. So no record is made of what ended before `now`, nor of
/// what starts after the horizon.
pub proof fn law_shown_is_upcoming(
    occurrence: OccurrenceView,
    spaces: Seq<SpaceEntryView>,
    now: int,
    start_offset: int,
    end_offset: int,
)
    requires
        in_window(occurrence, now),
        rendered(occurrence, spaces, start_offset, end_offset) is Some,
    ensures
        occurrence.start is Some,
        occurrence.end is Some,
        in_order(occurrence.start->0, occurrence.end->0),
        !is_before(occurrence.end->0, now),
        is_before(occurrence.end->0, horizon(now)),
        !is_after(occurrence.start->0, horizon(now)),
{
}

/// Each record of `rendered_all` is the record of one of the occurrences, on
/// the clock that `offsets` holds for it.
pub proof fn law_records_are_renderings(
    occurrences: Seq<OccurrenceView>,
    spaces: Seq<SpaceEntryView>,
    offsets: Seq<ClockOffsets>,
    i: int,
)
    requires
        offsets.len() == occurrences.len(),
        0 <= i < rendered_all(occurrences, spaces, offsets).len(),
    ensures
        exists|j: int|
            0 <= j < occurrences.len() && #[trigger] rendered(
                occurrences[j],
                spaces,
                offsets[j].start,
                offsets[j].end,
            ) == Some(rendered_all(occurrences, spaces, offsets)[i]),
    decreases occurrences.len(),
{
    let before = rendered_all(occurrences.drop_last(), spaces, offsets.drop_last());
    if i < before.len() {
        law_records_are_renderings(occurrences.drop_last(), spaces, offsets.drop_last(), i);
        let j = choose|j: int|
            0 <= j < occurrences.drop_last().len() && #[trigger] rendered(
                occurrences.drop_last()[j],
                spaces,
                offsets.drop_last()[j].start,
                offsets.drop_last()[j].end,
            ) == Some(before[i]);
        assert(occurrences[j] == occurrences.drop_last()[j]);
        assert(offsets[j] == offsets.drop_last()[j]);
    } else {
        let j = occurrences.len() - 1;
        assert(rendered(occurrences[j], spaces, offsets[j].start, offsets[j].end) == Some(
            rendered_all(occurrences, spaces, offsets)[i],
        ));
    }
}

/// How many of `available` records are shown where the caller asks for
/// `amount` of them, or names no number: as many as asked for, or
/// `DEFAULT_AMOUNT`, and all where there are no more.
pub open spec fn shown_count(available: nat, amount: Option<usize>) -> nat {
    let asked: nat = match amount {
        Some(amount) => amount as nat,
        None => DEFAULT_AMOUNT as nat,
    };
    if asked < available {
        asked
    } else {
        available
    }
}

/// The records that are shown of a feed: the first `shown_count` of them.
pub fn take_first(events: Vec<OutputEvent>, amount: Option<usize>) -> (shown: Vec<OutputEvent>)
    ensures
        shown@ == events@.take(shown_count(events@.len(), amount) as int),
{
    let limit: usize = match amount {
        Some(amount) => amount,
        None => DEFAULT_AMOUNT,
    };
    let mut shown = events;
    if limit < shown.len() {
        shown.truncate(limit);
    } else {
        assert(shown@.take(shown.len() as int) == shown@);
    }
    shown
}

} // verus!
