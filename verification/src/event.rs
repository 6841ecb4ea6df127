//! The records that pass through the feed: what a calendar gives, what one
//! occurrence of an event is, and what is shown of it.

use crate::date::{CivilDate, PlainDate, EPOCH_DAY_NUMBER, SECONDS_PER_DAY};
use crate::recurrence::{RecurrenceFields, RecurrenceFieldsView};
use vstd::prelude::*;

verus! {

/// The model of a normalized timestamp: a calendar date, or an instant counted
/// in seconds from 1970-01-01T00:00:00Z.
pub enum Stamp {
    Date(CivilDate),
    Instant(int),
}

impl Stamp {
    /// The instant by which a timestamp is ordered: its own for an instant, UTC
    /// midnight of the day for a date.
    pub open spec fn sort_key(self) -> int {
        match self {
            Stamp::Date(date) => (date.day_number() - EPOCH_DAY_NUMBER) * SECONDS_PER_DAY,
            Stamp::Instant(instant) => instant,
        }
    }

}

/// The start does not come after the end, each in the form of its own: the two
/// are dates or the two are instants, and the start is not the later one.
pub open spec fn in_order(start: Stamp, end: Stamp) -> bool {
    match (start, end) {
        (Stamp::Date(first), Stamp::Date(last)) => first.day_number() <= last.day_number(),
        (Stamp::Instant(first), Stamp::Instant(last)) => first <= last,
        _ => false,
    }
}

/// A normalized timestamp.
#[derive(Clone, Copy, Debug)]
pub enum EventDate {
    Date(PlainDate),
    DateTimeUtc(i64),
}

impl View for EventDate {
    type V = Stamp;

    open spec fn view(&self) -> Stamp {
        match *self {
            EventDate::Date(date) => Stamp::Date(date@),
            EventDate::DateTimeUtc(instant) => Stamp::Instant(instant as int),
        }
    }
}

impl DeepView for EventDate {
    type V = Stamp;

    open spec fn deep_view(&self) -> Stamp {
        self@
    }
}

/// A timestamp as a calendar states it.
#[derive(Clone, Debug)]
pub enum CalendarTimestamp {
    /// A date without a time.
    Date(PlainDate),
    /// A date-time flagged as UTC: seconds from the epoch and the nanoseconds
    /// past that second.
    Utc { seconds: i64, subsec_nanos: u32 },
    /// A wall-clock reading in a named zone. `wall_seconds` counts the reading's
    /// seconds from 1970-01-01T00:00:00 on that same wall clock.
    Zoned { wall_seconds: i64, tzid: String },
    /// A wall-clock reading bound to no zone.
    Floating { wall_seconds: i64 },
}

pub enum CalendarTimestampView {
    Date(CivilDate),
    Utc { seconds: int, subsec_nanos: int },
    Zoned { wall_seconds: int, tzid: Seq<char> },
    Floating { wall_seconds: int },
}

impl View for CalendarTimestamp {
    type V = CalendarTimestampView;

    open spec fn view(&self) -> CalendarTimestampView {
        match *self {
            CalendarTimestamp::Date(date) => CalendarTimestampView::Date(date@),
            CalendarTimestamp::Utc { seconds, subsec_nanos } => CalendarTimestampView::Utc {
                seconds: seconds as int,
                subsec_nanos: subsec_nanos as int,
            },
            CalendarTimestamp::Zoned { wall_seconds, tzid } => CalendarTimestampView::Zoned {
                wall_seconds: wall_seconds as int,
                tzid: tzid@,
            },
            CalendarTimestamp::Floating { wall_seconds } => CalendarTimestampView::Floating {
                wall_seconds: wall_seconds as int,
            },
        }
    }
}

impl DeepView for CalendarTimestamp {
    type V = CalendarTimestampView;

    open spec fn deep_view(&self) -> CalendarTimestampView {
        self@
    }
}

/// An event as the calendar holds it.
#[derive(Clone, Debug)]
pub struct RawEvent {
    pub summary: Option<String>,
    pub description: Option<String>,
    pub location: Option<String>,
    pub start: Option<CalendarTimestamp>,
    pub end: Option<CalendarTimestamp>,
    pub recurrence: RecurrenceFields,
}

pub struct RawEventView {
    pub summary: Option<Seq<char>>,
    pub description: Option<Seq<char>>,
    pub location: Option<Seq<char>>,
    pub start: Option<CalendarTimestampView>,
    pub end: Option<CalendarTimestampView>,
    pub recurrence: RecurrenceFieldsView,
}

impl View for RawEvent {
    type V = RawEventView;

    open spec fn view(&self) -> RawEventView {
        RawEventView {
            summary: self.summary.deep_view(),
            description: self.description.deep_view(),
            location: self.location.deep_view(),
            start: self.start.deep_view(),
            end: self.end.deep_view(),
            recurrence: self.recurrence@,
        }
    }
}

impl DeepView for RawEvent {
    type V = RawEventView;

    open spec fn deep_view(&self) -> RawEventView {
        self@
    }
}

/// One component of a calendar. Only events are read.
#[derive(Clone, Debug)]
pub enum CalendarComponent {
    Event(RawEvent),
    Other,
}

pub enum CalendarComponentView {
    Event(RawEventView),
    Other,
}

impl View for CalendarComponent {
    type V = CalendarComponentView;

    open spec fn view(&self) -> CalendarComponentView {
        match self {
            CalendarComponent::Event(event) => CalendarComponentView::Event(event@),
            CalendarComponent::Other => CalendarComponentView::Other,
        }
    }
}

impl DeepView for CalendarComponent {
    type V = CalendarComponentView;

    open spec fn deep_view(&self) -> CalendarComponentView {
        self@
    }
}

/// One concrete instance of an event, with the start and end of its own.
#[derive(Clone, Debug)]
pub struct Occurrence {
    pub summary: Option<String>,
    pub description: Option<String>,
    pub location: Option<String>,
    pub start: Option<EventDate>,
    pub end: Option<EventDate>,
}

pub struct OccurrenceView {
    pub summary: Option<Seq<char>>,
    pub description: Option<Seq<char>>,
    pub location: Option<Seq<char>>,
    pub start: Option<Stamp>,
    pub end: Option<Stamp>,
}

impl View for Occurrence {
    type V = OccurrenceView;

    open spec fn view(&self) -> OccurrenceView {
        OccurrenceView {
            summary: self.summary.deep_view(),
            description: self.description.deep_view(),
            location: self.location.deep_view(),
            start: self.start.deep_view(),
            end: self.end.deep_view(),
        }
    }
}

impl DeepView for Occurrence {
    type V = OccurrenceView;

    open spec fn deep_view(&self) -> OccurrenceView {
        self@
    }
}

impl Occurrence {
    /// A copy of the occurrence.
    pub fn duplicate(&self) -> (copy: Occurrence)
        ensures
            copy@ == self@,
    {
        Occurrence {
            summary: copy_text(&self.summary),
            description: copy_text(&self.description),
            location: copy_text(&self.location),
            start: self.start,
            end: self.end,
        }
    }
}

/// A place and the link that leads to it.
#[derive(Clone, Debug)]
pub struct Location {
    pub text: String,
    pub url: String,
}

pub struct LocationView {
    pub text: Seq<char>,
    pub url: Seq<char>,
}

impl View for Location {
    type V = LocationView;

    open spec fn view(&self) -> LocationView {
        LocationView { text: self.text@, url: self.url@ }
    }
}

impl DeepView for Location {
    type V = LocationView;

    open spec fn deep_view(&self) -> LocationView {
        self@
    }
}

/// What the feed shows of one occurrence.
#[derive(Clone, Debug)]
pub struct OutputEvent {
    pub summary: String,
    pub display_date: String,
    pub start_iso8601: String,
    pub end_iso8601: String,
    pub location: Option<Location>,
    pub description: Option<String>,
}

pub struct OutputEventView {
    pub summary: Seq<char>,
    pub display_date: Seq<char>,
    pub start_iso8601: Seq<char>,
    pub end_iso8601: Seq<char>,
    pub location: Option<LocationView>,
    pub description: Option<Seq<char>>,
}

impl View for OutputEvent {
    type V = OutputEventView;

    open spec fn view(&self) -> OutputEventView {
        OutputEventView {
            summary: self.summary@,
            display_date: self.display_date@,
            start_iso8601: self.start_iso8601@,
            end_iso8601: self.end_iso8601@,
            location: self.location.deep_view(),
            description: self.description.deep_view(),
        }
    }
}

impl DeepView for OutputEvent {
    type V = OutputEventView;

    open spec fn deep_view(&self) -> OutputEventView {
        self@
    }
}

/// A copy of an optional text.
pub fn copy_text(text: &Option<String>) -> (copy: Option<String>)
    ensures
        copy.deep_view() == text.deep_view(),
{
    match text {
        Some(text) => Some(text.clone()),
        None => None,
    }
}

} // verus!
