//! Reduces the timestamps of a calendar to a date or a UTC instant.

use crate::event::{CalendarTimestamp, CalendarTimestampView, EventDate, Stamp};
use chrono::offset::LocalResult;
use chrono::TimeZone;
use vstd::prelude::*;

verus! {

/// What a named zone makes of a wall-clock reading.
#[derive(Clone, Copy, Debug)]
pub enum ZoneLookup {
    /// No zone of that name is known.
    UnknownZone,
    /// The zone never shows the reading: its clocks skip it, or it lies beyond
    /// the years that can be counted.
    NoSuchTime,
    /// The zone shows the reading once, at this instant.
    Single(i64),
    /// The zone shows the reading twice, at these instants.
    Ambiguous(i64, i64),
}

/// What the zone database makes of the reading `wall_seconds` in the zone named
/// `tzid`.
pub uninterp spec fn zone_lookup_of(tzid: Seq<char>, wall_seconds: int) -> ZoneLookup;

/// chrono-tz's `Tz::from_str`, then chrono's `TimeZone::from_local_datetime` on
/// the zone found. The reading is handed over as the `NaiveDateTime` that
/// `DateTime::from_timestamp` makes of it, and each instant comes back through
/// `DateTime::timestamp`. The result depends on the name and the reading alone:
/// the zone database is compiled into chrono-tz.
#[verifier::external_body]
fn zone_lookup(tzid: &str, wall_seconds: i64) -> (lookup: ZoneLookup)
    ensures
        lookup == zone_lookup_of(tzid@, wall_seconds as int),
{
    let zone = match tzid.parse::<chrono_tz::Tz>() {
        Ok(zone) => zone,
        Err(_) => return ZoneLookup::UnknownZone,
    };
    let wall = match chrono::DateTime::from_timestamp(wall_seconds, 0) {
        Some(reading) => reading.naive_utc(),
        None => return ZoneLookup::NoSuchTime,
    };
    match zone.from_local_datetime(&wall) {
        LocalResult::None => ZoneLookup::NoSuchTime,
        LocalResult::Single(t) => ZoneLookup::Single(t.timestamp()),
        LocalResult::Ambiguous(t, u) => ZoneLookup::Ambiguous(t.timestamp(), u.timestamp()),
    }
}

/// The instant that a lookup settles on: the one that the zone gives, the
/// earlier one where it gives two, and none where it gives none.
pub open spec fn resolved(lookup: ZoneLookup) -> Option<Stamp> {
    match lookup {
        ZoneLookup::Single(instant) => Some(Stamp::Instant(instant as int)),
        ZoneLookup::Ambiguous(first, second) => Some(
            Stamp::Instant(
                if first <= second {
                    first as int
                } else {
                    second as int
                },
            ),
        ),
        ZoneLookup::UnknownZone | ZoneLookup::NoSuchTime => None,
    }
}

/// The normalized form of a calendar's timestamp: a bare date stays a date, a
/// UTC date-time is the instant of its whole second, a reading in a named zone
/// is the instant that the zone puts it at, and a reading without a zone has no
/// normalized form.
pub open spec fn normalized(timestamp: CalendarTimestampView) -> Option<Stamp> {
    match timestamp {
        CalendarTimestampView::Date(date) => Some(Stamp::Date(date)),
        CalendarTimestampView::Utc { seconds, subsec_nanos } => Some(Stamp::Instant(seconds)),
        CalendarTimestampView::Zoned { wall_seconds, tzid } => resolved(
            zone_lookup_of(tzid, wall_seconds),
        ),
        CalendarTimestampView::Floating { wall_seconds } => None,
    }
}

/// The instant that a zone lookup settles on.
pub fn resolve_lookup(lookup: ZoneLookup) -> (instant: Option<EventDate>)
    ensures
        instant.deep_view() == resolved(lookup),
{
    match lookup {
        ZoneLookup::Single(instant) => Some(EventDate::DateTimeUtc(instant)),
        ZoneLookup::Ambiguous(first, second) => {
            if first <= second {
                Some(EventDate::DateTimeUtc(first))
            } else {
                Some(EventDate::DateTimeUtc(second))
            }
        },
        ZoneLookup::UnknownZone => None,
        ZoneLookup::NoSuchTime => None,
    }
}

/// Normalizes one timestamp of a calendar.
pub fn to_event_date(datetime: &CalendarTimestamp) -> (date: Option<EventDate>)
    ensures
        date.deep_view() == normalized(datetime@),
{
    match datetime {
        CalendarTimestamp::Date(date) => Some(EventDate::Date(*date)),
        CalendarTimestamp::Utc { seconds, subsec_nanos } => Some(EventDate::DateTimeUtc(*seconds)),
        CalendarTimestamp::Zoned { wall_seconds, tzid } => resolve_lookup(
            zone_lookup(tzid.as_str(), *wall_seconds),
        ),
        CalendarTimestamp::Floating { wall_seconds } => None,
    }
}

} // verus!
