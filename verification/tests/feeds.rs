use event_feed::date::PlainDate;
use event_feed::event::{CalendarComponent, CalendarTimestamp, OutputEvent, RawEvent};
use event_feed::feed::{
    events, expand_all, render_all, take_first, upcoming_events, CALENDAR_FAILURE, DEFAULT_AMOUNT,
};
use event_feed::location::{SpaceEntry, SpaceRecord};
use event_feed::recurrence::{RawParameter, RawProperty, RecurrenceFields};

const NOW: i64 = 1_770_049_931;

fn day(year: i32, month: u32, day: u32) -> Option<CalendarTimestamp> {
    Some(CalendarTimestamp::Date(PlainDate::new(year, month, day).unwrap()))
}

fn utc(seconds: i64) -> Option<CalendarTimestamp> {
    Some(CalendarTimestamp::Utc { seconds, subsec_nanos: 0 })
}

fn raw(
    summary: &str,
    start: Option<CalendarTimestamp>,
    end: Option<CalendarTimestamp>,
) -> RawEvent {
    RawEvent {
        summary: Some(summary.to_string()),
        description: None,
        location: None,
        start,
        end,
        recurrence: RecurrenceFields::new(),
    }
}

fn summaries(events: &Vec<OutputEvent>) -> Vec<String> {
    events.iter().map(|event| event.summary.clone()).collect()
}

fn record(summary: &str) -> OutputEvent {
    OutputEvent {
        summary: summary.to_string(),
        display_date: "03/02/2026".to_string(),
        start_iso8601: "2026-02-03".to_string(),
        end_iso8601: "2026-02-04".to_string(),
        location: None,
        description: None,
    }
}

#[test]
fn a_single_event_of_two_dates_gives_one_record() {
    let mut event = raw("Test event", day(2026, 2, 3), day(2026, 2, 4));
    event.location = Some("Test Location".to_string());
    event.description = Some("Test description".to_string());
    event.recurrence.anchor.push(RawProperty {
        parameters: vec![RawParameter { name: "VALUE".to_string(), value: "DATE".to_string() }],
        value: "20260203".to_string(),
    });
    let components = vec![CalendarComponent::Event(event)];
    let feed = events(Ok(components), Some(Vec::new()), NOW).unwrap();
    assert_eq!(feed.len(), 1);
    assert_eq!(feed[0].summary, "Test event");
    assert_eq!(feed[0].display_date, "03/02/2026");
    assert_eq!(feed[0].start_iso8601, "2026-02-03");
    assert_eq!(feed[0].end_iso8601, "2026-02-04");
    assert_eq!(feed[0].description.as_deref(), Some("Test description"));
    let location = feed[0].location.as_ref().unwrap();
    assert_eq!(location.text, "Test Location");
    assert!(!location.url.is_empty());
    assert_eq!(location.url, "https://osm.org/search?query=Test%20Location");
}

#[test]
fn an_event_in_a_zone_that_is_not_known_is_left_out_without_an_error() {
    let unknown = CalendarTimestamp::Zoned {
        wall_seconds: 1_770_112_800,
        tzid: "Atlantis/Capital".to_string(),
    };
    let also_unknown = CalendarTimestamp::Zoned {
        wall_seconds: 1_770_116_400,
        tzid: "Atlantis/Capital".to_string(),
    };
    let components = vec![
        CalendarComponent::Event(raw("Lost", Some(unknown), Some(also_unknown))),
        CalendarComponent::Event(raw("Found", utc(NOW + 60), utc(NOW + 120))),
    ];
    let feed = events(Ok(components), None, NOW);
    assert_eq!(summaries(&feed.unwrap()), vec!["Found"]);
}

#[test]
fn a_calendar_that_could_not_be_had_ends_the_feed_with_an_error() {
    let failure = events(Err("connection refused".to_string()), Some(Vec::new()), NOW).unwrap_err();
    assert_eq!(failure.message, "The remote calendar could not be processed.");
    assert_eq!(failure.message, CALENDAR_FAILURE);
    assert_eq!(failure.details.as_deref(), Some("connection refused"));
}

#[test]
fn a_registry_that_could_not_be_had_counts_as_empty() {
    let mut event = raw("Somewhere", day(2026, 2, 3), day(2026, 2, 4));
    event.location = Some("ABC123".to_string());
    let without = events(Ok(vec![CalendarComponent::Event(event.clone())]), None, NOW).unwrap();
    assert_eq!(without[0].location.as_ref().unwrap().url, "https://osm.org/search?query=ABC123");
    let records = vec![
        SpaceRecord { space_label: Some(String::new()), id: "1".to_string() },
        SpaceRecord { space_label: Some("ABC".to_string()), id: "7".to_string() },
    ];
    let with = events(Ok(vec![CalendarComponent::Event(event)]), Some(records), NOW).unwrap();
    assert_eq!(with[0].location.as_ref().unwrap().url, "https://osm.org/node/7");
}

#[test]
fn the_feed_is_windowed_and_ordered_by_end() {
    let components = vec![
        CalendarComponent::Event(raw("third", utc(NOW + 10), utc(NOW + 3_000))),
        CalendarComponent::Other,
        CalendarComponent::Event(raw("past", utc(NOW - 100), utc(NOW - 1))),
        CalendarComponent::Event(raw("first", utc(NOW - 100), utc(NOW))),
        CalendarComponent::Event(raw("far", utc(NOW), utc(NOW + 365 * 86_400))),
        CalendarComponent::Event(raw("second", day(2026, 2, 1), day(2026, 2, 3))),
        CalendarComponent::Event(raw("tie a", utc(NOW + 50), utc(NOW + 4_000))),
        CalendarComponent::Event(raw("tie b", utc(NOW + 20), utc(NOW + 4_000))),
        CalendarComponent::Event(raw("late start", utc(NOW + 366 * 86_400), utc(NOW + 5_000))),
    ];
    let feed = upcoming_events(&components, &Vec::new(), NOW);
    assert_eq!(summaries(&feed), vec!["first", "third", "tie a", "tie b", "second"]);
}

#[test]
fn events_that_lack_what_is_required_are_left_out() {
    let mut nameless = raw("", utc(NOW + 10), utc(NOW + 20));
    nameless.summary = None;
    let components = vec![
        CalendarComponent::Event(nameless),
        CalendarComponent::Event(raw("no start", None, utc(NOW + 20))),
        CalendarComponent::Event(raw("no end", utc(NOW + 10), None)),
        CalendarComponent::Event(raw("mixed", day(2026, 2, 3), utc(NOW + 20))),
        CalendarComponent::Event(raw(
            "floating",
            Some(CalendarTimestamp::Floating { wall_seconds: NOW + 10 }),
            Some(CalendarTimestamp::Floating { wall_seconds: NOW + 20 }),
        )),
        CalendarComponent::Event(raw("whole", utc(NOW + 10), utc(NOW + 20))),
    ];
    let feed = upcoming_events(&components, &Vec::new(), NOW);
    assert_eq!(summaries(&feed), vec!["whole"]);
}

#[test]
fn a_recurring_event_is_shown_once_for_each_occurrence_in_the_window() {
    let mut weekly = raw("Weekly", utc(1_769_500_800), utc(1_769_504_400));
    weekly.recurrence.anchor.push(RawProperty {
        parameters: Vec::new(),
        value: "20260127T080000Z".to_string(),
    });
    weekly.recurrence.rules.push(RawProperty {
        parameters: Vec::new(),
        value: "FREQ=WEEKLY;COUNT=4".to_string(),
    });
    let components = vec![
        CalendarComponent::Event(raw("Between", utc(1_770_400_000), utc(1_770_400_600))),
        CalendarComponent::Event(weekly),
    ];
    let feed = upcoming_events(&components, &Vec::new(), NOW);
    assert_eq!(summaries(&feed), vec!["Weekly", "Between", "Weekly", "Weekly"]);
    assert_eq!(feed[0].start_iso8601, "2026-02-03T08:00:00+00:00");
    assert_eq!(feed[0].end_iso8601, "2026-02-03T09:00:00+00:00");
    assert_eq!(feed[2].start_iso8601, "2026-02-10T08:00:00+00:00");
    assert_eq!(feed[3].start_iso8601, "2026-02-17T08:00:00+00:00");
}

#[test]
fn an_empty_calendar_gives_an_empty_feed() {
    assert!(events(Ok(Vec::new()), None, NOW).unwrap().is_empty());
    assert!(upcoming_events(&vec![CalendarComponent::Other], &Vec::new(), NOW).is_empty());
}

#[test]
fn expand_all_reads_the_events_in_their_order() {
    let components = vec![
        CalendarComponent::Event(raw("one", utc(1), utc(2))),
        CalendarComponent::Other,
        CalendarComponent::Event(raw("two", utc(3), utc(4))),
    ];
    let occurrences = expand_all(&components);
    let names: Vec<String> = occurrences.iter().map(|o| o.summary.clone().unwrap()).collect();
    assert_eq!(names, vec!["one", "two"]);
}

#[test]
fn render_all_leaves_out_what_has_no_record() {
    let components = vec![
        CalendarComponent::Event(raw("kept", day(2026, 2, 3), day(2026, 2, 4))),
        CalendarComponent::Event(raw("backwards", day(2026, 2, 4), day(2026, 2, 3))),
        CalendarComponent::Event(raw("also kept", day(2026, 2, 3), day(2026, 2, 6))),
    ];
    let occurrences = expand_all(&components);
    let spaces: Vec<SpaceEntry> = Vec::new();
    let records = render_all(&occurrences, &spaces);
    assert_eq!(summaries(&records), vec!["kept", "also kept"]);
    assert_eq!(records[1].display_date, "03/02/2026 - 06/02/2026");
}

#[test]
fn take_first_shows_as_many_as_asked_for() {
    let feed: Vec<OutputEvent> = (0..15).map(|i| record(&format!("event {}", i))).collect();
    assert_eq!(DEFAULT_AMOUNT, 10);
    assert_eq!(take_first(feed.clone(), None).len(), 10);
    assert_eq!(take_first(feed.clone(), Some(3)).len(), 3);
    assert_eq!(summaries(&take_first(feed.clone(), Some(2))), vec!["event 0", "event 1"]);
    assert_eq!(take_first(feed.clone(), Some(15)).len(), 15);
    assert_eq!(take_first(feed.clone(), Some(100)).len(), 15);
    assert!(take_first(feed, Some(0)).is_empty());
    assert!(take_first(Vec::new(), None).is_empty());
}
