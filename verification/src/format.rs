//! The texts that are shown of an occurrence, and the record made of them.

use crate::date::{
    date_of_day_number, split_days, CivilDate, PlainDate, EPOCH_DAY_NUMBER, LAST_DAY_NUMBER,
    SECONDS_PER_DAY,
};
use crate::event::{
    copy_text, in_order, EventDate, Location, LocationView, Occurrence, OccurrenceView,
    OutputEvent, OutputEventView, Stamp,
};
use crate::location::{url_for, url_of, SpaceEntry, SpaceEntryView};
use crate::text::{four_digits, push_four_digits, push_two_digits, two_digits};
use chrono::TimeZone;
use vstd::prelude::*;
use vstd::string::*;

verus! {

/// The first instant whose UTC date lies in year 1.
pub const FIRST_INSTANT: i64 = -62_135_596_800;

/// The last instant whose UTC date lies in year 9999.
pub const LAST_INSTANT: i64 = 253_402_300_799;

/// A date as `DD/MM/YYYY`.
pub open spec fn date_text(date: CivilDate) -> Seq<char> {
    two_digits(date.day) + seq!['/'] + two_digits(date.month) + seq!['/'] + four_digits(date.year)
}

/// A date without its year, as `DD/MM`.
pub open spec fn day_month_text(date: CivilDate) -> Seq<char> {
    two_digits(date.day) + seq!['/'] + two_digits(date.month)
}

/// A date as `YYYY-MM-DD`.
pub open spec fn iso_date_text(date: CivilDate) -> Seq<char> {
    four_digits(date.year) + seq!['-'] + two_digits(date.month) + seq!['-'] + two_digits(date.day)
}

/// The hour and minute of a second of the day, as `HH:MM`.
pub open spec fn clock_text(second_of_day: int) -> Seq<char> {
    two_digits(second_of_day / 3600) + seq![':'] + two_digits(second_of_day / 60 % 60)
}

/// What a clock shows: the date, and the second of the day.
pub struct WallTime {
    pub date: CivilDate,
    pub second_of_day: int,
}

/// What a clock shows.
#[derive(Clone, Copy, Debug)]
pub struct WallClock {
    pub date: PlainDate,
    pub second_of_day: u32,
}

impl View for WallClock {
    type V = WallTime;

    open spec fn view(&self) -> WallTime {
        WallTime { date: self.date@, second_of_day: self.second_of_day as int }
    }
}

impl DeepView for WallClock {
    type V = WallTime;

    open spec fn deep_view(&self) -> WallTime {
        self@
    }
}

/// What a clock that runs `offset` seconds ahead of UTC shows at `instant`,
/// where that is a date of the years 1 to 9999.
pub open spec fn wall_time(instant: int, offset: int) -> Option<WallTime> {
    let local = instant + offset;
    let day = local / (SECONDS_PER_DAY as int) + EPOCH_DAY_NUMBER;
    if 1 <= day <= LAST_DAY_NUMBER {
        Some(
            WallTime {
                date: date_of_day_number(day),
                second_of_day: local % (SECONDS_PER_DAY as int),
            },
        )
    } else {
        None
    }
}

/// An instant as RFC 3339 writes it in UTC, to the second and with the offset
/// spelled out: `YYYY-MM-DDTHH:MM:SS+00:00`.
pub open spec fn rfc3339_text(instant: int) -> Option<Seq<char>> {
    match wall_time(instant, 0) {
        Some(utc) => Some(
            iso_date_text(utc.date) + seq!['T'] + clock_text(utc.second_of_day) + seq![':']
                + two_digits(utc.second_of_day % 60) + "+00:00"@,
        ),
        None => None,
    }
}

/// A timestamp in ISO 8601: a date as `YYYY-MM-DD`, an instant as RFC 3339.
pub open spec fn iso_text(stamp: Stamp) -> Option<Seq<char>> {
    match stamp {
        Stamp::Date(date) => Some(iso_date_text(date)),
        Stamp::Instant(instant) => rfc3339_text(instant),
    }
}

/// The range of an occurrence as it is shown.
///
/// From date to date: the start alone where the end is the day after it, else
/// both with ` - ` between them. From instant to instant, on clocks that run
/// `start_offset` and `end_offset` seconds ahead of UTC: the start's date and
/// time, then the end's time alone where less than a day lies between the two,
/// else the end's day, month and time. From one form to the other: nothing.
pub open spec fn display_text(start: Stamp, end: Stamp, start_offset: int, end_offset: int)
    -> Option<Seq<char>> {
    match (start, end) {
        (Stamp::Date(first), Stamp::Date(last)) => {
            if last.day_number() - first.day_number() == 1 {
                Some(date_text(first))
            } else {
                Some(date_text(first) + " - "@ + date_text(last))
            }
        },
        (Stamp::Instant(first), Stamp::Instant(last)) => {
            match (wall_time(first, start_offset), wall_time(last, end_offset)) {
                (Some(from), Some(to)) => {
                    if last - first < SECONDS_PER_DAY {
                        Some(
                            date_text(from.date) + " "@ + clock_text(from.second_of_day) + " - "@
                                + clock_text(to.second_of_day),
                        )
                    } else {
                        Some(
                            date_text(from.date) + " "@ + clock_text(from.second_of_day) + " - "@
                                + day_month_text(to.date) + " "@ + clock_text(to.second_of_day),
                        )
                    }
                },
                _ => None,
            }
        },
        _ => None,
    }
}

fn push_date(out: &mut String, date: &PlainDate)
    ensures
        final(out)@ == old(out)@ + date_text(date@),
{
    push_two_digits(out, date.day());
    out.append("/");
    push_two_digits(out, date.month());
    out.append("/");
    push_four_digits(out, date.year() as u32);
    proof {
        reveal_strlit("/");
        assert(out@ =~= old(out)@ + date_text(date@));
    }
}

fn push_day_month(out: &mut String, date: &PlainDate)
    ensures
        final(out)@ == old(out)@ + day_month_text(date@),
{
    push_two_digits(out, date.day());
    out.append("/");
    push_two_digits(out, date.month());
    proof {
        reveal_strlit("/");
        assert(out@ =~= old(out)@ + day_month_text(date@));
    }
}

fn push_iso_date(out: &mut String, date: &PlainDate)
    ensures
        final(out)@ == old(out)@ + iso_date_text(date@),
{
    push_four_digits(out, date.year() as u32);
    out.append("-");
    push_two_digits(out, date.month());
    out.append("-");
    push_two_digits(out, date.day());
    proof {
        reveal_strlit("-");
        assert(out@ =~= old(out)@ + iso_date_text(date@));
    }
}

fn push_clock(out: &mut String, second_of_day: u32)
    requires
        second_of_day < SECONDS_PER_DAY,
    ensures
        final(out)@ == old(out)@ + clock_text(second_of_day as int),
{
    push_two_digits(out, second_of_day / 3600);
    out.append(":");
    push_two_digits(out, second_of_day / 60 % 60);
    proof {
        reveal_strlit(":");
        assert(out@ =~= old(out)@ + clock_text(second_of_day as int));
    }
}

/// What a clock that runs `offset` seconds ahead of UTC shows at `instant`: the
/// date and the second of the day.
pub fn wall_time_at(instant: i64, offset: i32) -> (shown: Option<WallClock>)
    ensures
        shown.deep_view() == wall_time(instant as int, offset as int),
        shown is Some ==> shown->0.second_of_day < SECONDS_PER_DAY,
{
    let local: i64 = match instant.checked_add(offset as i64) {
        Some(local) => local,
        None => {
            return None;
        },
    };
    let (days, second_of_day) = split_days(local);
    let day: i64 = days + EPOCH_DAY_NUMBER as i64;
    if 1 <= day && day <= LAST_DAY_NUMBER as i64 {
        match PlainDate::from_day_number(day as i32) {
            Some(date) => Some(WallClock { date, second_of_day }),
            None => None,
        }
    } else {
        None
    }
}

/// A date as `DD/MM/YYYY`.
pub fn date_to_text(date: &PlainDate) -> (text: String)
    ensures
        text@ == date_text(date@),
{
    let mut text = String::new();
    push_date(&mut text, date);
    text
}

/// A timestamp in ISO 8601, where its date is one of the years 1 to 9999.
pub fn to_iso8601(stamp: &EventDate) -> (text: Option<String>)
    ensures
        text.deep_view() == iso_text(stamp@),
{
    let mut text = String::new();
    match stamp {
        EventDate::Date(date) => {
            push_iso_date(&mut text, date);
            Some(text)
        },
        EventDate::DateTimeUtc(instant) => {
            match wall_time_at(*instant, 0) {
                Some(utc) => {
                    push_iso_date(&mut text, &utc.date);
                    text.append("T");
                    push_clock(&mut text, utc.second_of_day);
                    text.append(":");
                    push_two_digits(&mut text, utc.second_of_day % 60);
                    text.append("+00:00");
                    proof {
                        reveal_strlit("T");
                        reveal_strlit(":");
                        assert(text@ =~= rfc3339_text(*instant as int)->0);
                    }
                    Some(text)
                },
                None => None,
            }
        },
    }
}

/// The range from `start` to `end` as it is shown, the instants on clocks that
/// run `start_offset` and `end_offset` seconds ahead of UTC.
pub fn display_date(
    start: &EventDate,
    end: &EventDate,
    start_offset: i32,
    end_offset: i32,
) -> (text: Option<String>)
    ensures
        text.deep_view() == display_text(start@, end@, start_offset as int, end_offset as int),
{
    let mut text = String::new();
    match (start, end) {
        (EventDate::Date(first), EventDate::Date(last)) => {
            push_date(&mut text, first);
            if last.day_number() - first.day_number() != 1 {
                text.append(" - ");
                push_date(&mut text, last);
            }
            Some(text)
        },
        (EventDate::DateTimeUtc(first), EventDate::DateTimeUtc(last)) => {
            match (wall_time_at(*first, start_offset), wall_time_at(*last, end_offset)) {
                (Some(from), Some(to)) => {
                    push_date(&mut text, &from.date);
                    text.append(" ");
                    push_clock(&mut text, from.second_of_day);
                    text.append(" - ");
                    if (*last as i128) - (*first as i128) >= SECONDS_PER_DAY as i128 {
                        push_day_month(&mut text, &to.date);
                        text.append(" ");
                    }
                    push_clock(&mut text, to.second_of_day);
                    proof {
                        assert(text@ =~= display_text(
                            start@,
                            end@,
                            start_offset as int,
                            end_offset as int,
                        )->0);
                    }
                    Some(text)
                },
                _ => None,
            }
        },
        _ => None,
    }
}

/// chrono's `Local` as a `TimeZone`: `offset_from_utc_datetime` at the instant,
/// which `DateTime::from_timestamp` turns into a date-time, and then
/// `FixedOffset::local_minus_utc`: the seconds that the machine's clock runs
/// ahead of UTC at that instant. Which offset it is depends on the machine; a
/// `FixedOffset` is always less than a day.
#[verifier::external_body]
fn local_offset_at(instant: i64) -> (offset: i32)
    requires
        FIRST_INSTANT <= instant <= LAST_INSTANT,
    ensures
        -SECONDS_PER_DAY < offset < SECONDS_PER_DAY,
{
    let utc = chrono::DateTime::from_timestamp(instant, 0).unwrap().naive_utc();
    chrono::Local.offset_from_utc_datetime(&utc).local_minus_utc()
}

/// The link that goes with the place of an occurrence.
pub open spec fn location_of(location: Option<Seq<char>>, spaces: Seq<SpaceEntryView>) -> Option<
    LocationView,
> {
    match location {
        Some(text) => Some(LocationView { text, url: url_of(text, spaces) }),
        None => None,
    }
}

/// The record that is shown of an occurrence, the instants on clocks that run
/// `start_offset` and `end_offset` seconds ahead of UTC.
///
/// There is none where the occurrence lacks its summary, its start or its end,
/// where the two are not of one form, where the start comes after the end, or
/// where one of the texts cannot be written. A place comes with its link; where
/// the occurrence has no place or no description, the record has none.
pub open spec fn rendered(
    occurrence: OccurrenceView,
    spaces: Seq<SpaceEntryView>,
    start_offset: int,
    end_offset: int,
) -> Option<OutputEventView> {
    if occurrence.summary is Some && occurrence.start is Some && occurrence.end is Some && in_order(
        occurrence.start->0,
        occurrence.end->0,
    ) {
        let start = occurrence.start->0;
        let end = occurrence.end->0;
        match (display_text(start, end, start_offset, end_offset), iso_text(start), iso_text(end)) {
            (Some(display_date), Some(start_iso8601), Some(end_iso8601)) => Some(
                OutputEventView {
                    summary: occurrence.summary->0,
                    display_date,
                    start_iso8601,
                    end_iso8601,
                    location: location_of(occurrence.location, spaces),
                    description: occurrence.description,
                },
            ),
            _ => None,
        }
    } else {
        None
    }
}

/// Whether the start does not come after the end, each in the form of its own.
pub fn is_in_order(start: &EventDate, end: &EventDate) -> (result: bool)
    ensures
        result == in_order(start@, end@),
{
    match (start, end) {
        (EventDate::Date(first), EventDate::Date(last)) => first.day_number() <= last.day_number(),
        (EventDate::DateTimeUtc(first), EventDate::DateTimeUtc(last)) => *first <= *last,
        _ => false,
    }
}

/// The record that is shown of an occurrence, the instants on clocks that run
/// `start_offset` and `end_offset` seconds ahead of UTC.
pub fn format_event_at(
    occurrence: &Occurrence,
    spaces: &Vec<SpaceEntry>,
    start_offset: i32,
    end_offset: i32,
) -> (event: Option<OutputEvent>)
    ensures
        event.deep_view() == rendered(
            occurrence@,
            spaces.deep_view(),
            start_offset as int,
            end_offset as int,
        ),
{
    let (summary, start, end) = match (&occurrence.summary, &occurrence.start, &occurrence.end) {
        (Some(summary), Some(start), Some(end)) => (summary, start, end),
        _ => {
            return None;
        },
    };
    if !is_in_order(start, end) {
        return None;
    }
    let display_date = display_date(start, end, start_offset, end_offset);
    let start_iso8601 = to_iso8601(start);
    let end_iso8601 = to_iso8601(end);
    match (display_date, start_iso8601, end_iso8601) {
        (Some(display_date), Some(start_iso8601), Some(end_iso8601)) => {
            let location = match &occurrence.location {
                Some(text) => Some(
                    Location { text: text.clone(), url: url_for(text.as_str(), spaces) },
                ),
                None => None,
            };
            Some(
                OutputEvent {
                    summary: summary.clone(),
                    display_date,
                    start_iso8601,
                    end_iso8601,
                    location,
                    description: copy_text(&occurrence.description),
                },
            )
        },
        _ => None,
    }
}

/// An offset that a clock can run ahead of UTC: less than a day either way.
pub open spec fn is_clock_offset(offset: int) -> bool {
    -SECONDS_PER_DAY < offset < SECONDS_PER_DAY
}

/// The record that is shown of an occurrence, its instants on the clock of this
/// machine. The offsets of that clock at the start and at the end come from
/// the machine; what is made of them is what `rendered` says.
pub fn format_event(occurrence: &Occurrence, spaces: &Vec<SpaceEntry>) -> (event: Option<
    OutputEvent,
>)
    ensures
        exists|start_offset: int, end_offset: int|
            is_clock_offset(start_offset) && is_clock_offset(end_offset) && event.deep_view()
                == #[trigger] rendered(occurrence@, spaces.deep_view(), start_offset, end_offset),
        !(occurrence@.start matches Some(Stamp::Instant(_)) && occurrence@.end matches Some(
            Stamp::Instant(_),
        )) ==> event.deep_view() == rendered(occurrence@, spaces.deep_view(), 0, 0),
{
    let (start_offset, end_offset): (i32, i32) = match (&occurrence.start, &occurrence.end) {
        (Some(EventDate::DateTimeUtc(first)), Some(EventDate::DateTimeUtc(last))) => {
            if FIRST_INSTANT <= *first && *first <= LAST_INSTANT && FIRST_INSTANT <= *last && *last
                <= LAST_INSTANT {
                (local_offset_at(*first), local_offset_at(*last))
            } else {
                (0, 0)
            }
        },
        _ => (0, 0),
    };
    let event = format_event_at(occurrence, spaces, start_offset, end_offset);
    assert(event.deep_view() == rendered(
        occurrence@,
        spaces.deep_view(),
        start_offset as int,
        end_offset as int,
    ));
    event
}

/// The record of an occurrence that does not run from instant to instant is
/// the same on every clock.
pub proof fn law_dates_need_no_clock(
    occurrence: OccurrenceView,
    spaces: Seq<SpaceEntryView>,
    start_offset: int,
    end_offset: int,
)
    requires
        !(occurrence.start matches Some(Stamp::Instant(_)) && occurrence.end matches Some(
            Stamp::Instant(_),
        )),
    ensures
        rendered(occurrence, spaces, start_offset, end_offset) == rendered(
            occurrence,
            spaces,
            0,
            0,
        ),
{
}

/// Of an occurrence that runs from date to date, what is shown is the start
/// alone where the end is the day after it: a date as `DD/MM/YYYY`, ten
/// characters with no space and no hyphen among them. Of every other one it is
/// the two dates with a space, a hyphen and a space between them.
pub proof fn law_display_of_dates(
    first: CivilDate,
    last: CivilDate,
    start_offset: int,
    end_offset: int,
)
    requires
        first.valid(),
        last.valid(),
    ensures
        last.day_number() - first.day_number() == 1 ==> display_text(
            Stamp::Date(first),
            Stamp::Date(last),
            start_offset,
            end_offset,
        ) == Some(date_text(first)),
        last.day_number() - first.day_number() != 1 ==> display_text(
            Stamp::Date(first),
            Stamp::Date(last),
            start_offset,
            end_offset,
        ) == Some(date_text(first) + seq![' ', '-', ' '] + date_text(last)),
        date_text(first).len() == 10,
        !date_text(first).contains(' '),
        !date_text(first).contains('-'),
{
    reveal_strlit(" - ");
    assert(" - "@ =~= seq![' ', '-', ' ']);
    let text = date_text(first);
    assert(text.len() == 10);
    assert forall|i: int| 0 <= i < text.len() implies text[i] != ' ' && text[i] != '-' by {}
}

/// Of an occurrence that runs from instant to instant, what is shown is one
/// date with two times where less than a day lies between the two, as
/// `DD/MM/YYYY HH:MM - HH:MM`; else it is two dates, each with its time, as
/// `DD/MM/YYYY HH:MM - DD/MM HH:MM`.
pub proof fn law_display_of_instants(first: int, last: int, start_offset: int, end_offset: int)
    requires
        wall_time(first, start_offset) is Some,
        wall_time(last, end_offset) is Some,
    ensures
        ({
            let from = wall_time(first, start_offset)->0;
            let to = wall_time(last, end_offset)->0;
            let shown = display_text(
                Stamp::Instant(first),
                Stamp::Instant(last),
                start_offset,
                end_offset,
            );
            &&& last - first < SECONDS_PER_DAY ==> shown == Some(
                date_text(from.date) + seq![' '] + clock_text(from.second_of_day) + seq![
                    ' ',
                    '-',
                    ' ',
                ] + clock_text(to.second_of_day),
            ) && shown->0.len() == 24
            &&& last - first >= SECONDS_PER_DAY ==> shown == Some(
                date_text(from.date) + seq![' '] + clock_text(from.second_of_day) + seq![
                    ' ',
                    '-',
                    ' ',
                ] + day_month_text(to.date) + seq![' '] + clock_text(to.second_of_day),
            ) && shown->0.len() == 30
        }),
{
    reveal_strlit(" - ");
    reveal_strlit(" ");
    assert(" - "@ =~= seq![' ', '-', ' ']);
    assert(" "@ =~= seq![' ']);
}

} // verus!
