use event_feed::date::PlainDate;
use event_feed::event::{EventDate, Occurrence};
use event_feed::format::{
    date_to_text, display_date, format_event, format_event_at, is_in_order, to_iso8601,
    wall_time_at, FIRST_INSTANT, LAST_INSTANT,
};
use event_feed::location::SpaceEntry;

fn date(year: i32, month: u32, day: u32) -> EventDate {
    EventDate::Date(PlainDate::new(year, month, day).unwrap())
}

fn instant(seconds: i64) -> EventDate {
    EventDate::DateTimeUtc(seconds)
}

fn occurrence(start: EventDate, end: EventDate) -> Occurrence {
    Occurrence {
        summary: Some("Concert".to_string()),
        description: Some("Test description".to_string()),
        location: Some("Test Location".to_string()),
        start: Some(start),
        end: Some(end),
    }
}

#[test]
fn a_date_is_written_day_first() {
    assert_eq!(date_to_text(&PlainDate::new(2026, 2, 3).unwrap()), "03/02/2026");
    assert_eq!(date_to_text(&PlainDate::new(1, 1, 1).unwrap()), "01/01/0001");
    assert_eq!(date_to_text(&PlainDate::new(9999, 12, 31).unwrap()), "31/12/9999");
    assert_eq!(date_to_text(&PlainDate::new(987, 10, 20).unwrap()), "20/10/0987");
}

#[test]
fn a_date_in_iso_8601_is_written_year_first() {
    assert_eq!(to_iso8601(&date(2026, 2, 3)).unwrap(), "2026-02-03");
    assert_eq!(to_iso8601(&date(1, 1, 1)).unwrap(), "0001-01-01");
    assert_eq!(to_iso8601(&date(9999, 12, 31)).unwrap(), "9999-12-31");
}

#[test]
fn an_instant_in_iso_8601_is_written_in_utc_with_its_offset() {
    assert_eq!(to_iso8601(&instant(1_770_049_931)).unwrap(), "2026-02-02T16:32:11+00:00");
    assert_eq!(to_iso8601(&instant(0)).unwrap(), "1970-01-01T00:00:00+00:00");
    assert_eq!(to_iso8601(&instant(-1)).unwrap(), "1969-12-31T23:59:59+00:00");
    assert_eq!(to_iso8601(&instant(FIRST_INSTANT)).unwrap(), "0001-01-01T00:00:00+00:00");
    assert_eq!(to_iso8601(&instant(LAST_INSTANT)).unwrap(), "9999-12-31T23:59:59+00:00");
}

#[test]
fn an_instant_outside_the_years_that_are_written_has_no_text() {
    assert!(to_iso8601(&instant(FIRST_INSTANT - 1)).is_none());
    assert!(to_iso8601(&instant(LAST_INSTANT + 1)).is_none());
    assert!(to_iso8601(&instant(i64::MIN)).is_none());
    assert!(to_iso8601(&instant(i64::MAX)).is_none());
}

#[test]
fn the_wall_time_follows_the_offset_of_the_clock() {
    let utc = wall_time_at(1_770_157_800, 0).unwrap();
    assert_eq!((utc.date.year(), utc.date.month(), utc.date.day()), (2026, 2, 3));
    assert_eq!(utc.second_of_day, 22 * 3_600 + 30 * 60);
    let east = wall_time_at(1_770_157_800, 7_200).unwrap();
    assert_eq!((east.date.year(), east.date.month(), east.date.day()), (2026, 2, 4));
    assert_eq!(east.second_of_day, 30 * 60);
    let west = wall_time_at(1_770_076_800, -1).unwrap();
    assert_eq!((west.date.year(), west.date.month(), west.date.day()), (2026, 2, 2));
    assert_eq!(west.second_of_day, 86_399);
    assert!(wall_time_at(FIRST_INSTANT, -1).is_none());
    assert!(wall_time_at(LAST_INSTANT, 1).is_none());
    assert!(wall_time_at(i64::MAX, 86_399).is_none());
    assert!(wall_time_at(i64::MIN, -86_399).is_none());
}

#[test]
fn dates_a_day_apart_are_shown_as_one_date() {
    let shown = display_date(&date(2026, 2, 3), &date(2026, 2, 4), 0, 0).unwrap();
    assert_eq!(shown, "03/02/2026");
    assert!(!shown.contains(" - "));
    let over_a_year = display_date(&date(2025, 12, 31), &date(2026, 1, 1), 3_600, 3_600).unwrap();
    assert_eq!(over_a_year, "31/12/2025");
}

#[test]
fn dates_further_apart_are_shown_as_a_range() {
    assert_eq!(
        display_date(&date(2026, 2, 3), &date(2026, 2, 5), 0, 0).unwrap(),
        "03/02/2026 - 05/02/2026"
    );
    assert_eq!(
        display_date(&date(2026, 12, 30), &date(2027, 1, 2), 0, 0).unwrap(),
        "30/12/2026 - 02/01/2027"
    );
    assert_eq!(
        display_date(&date(2026, 2, 3), &date(2026, 2, 3), 0, 0).unwrap(),
        "03/02/2026 - 03/02/2026"
    );
}

#[test]
fn instants_less_than_a_day_apart_are_shown_with_one_date() {
    assert_eq!(
        display_date(&instant(1_770_105_600), &instant(1_770_109_200), 0, 0).unwrap(),
        "03/02/2026 08:00 - 09:00"
    );
    assert_eq!(
        display_date(&instant(1_770_105_600), &instant(1_770_109_200), 7_200, 7_200).unwrap(),
        "03/02/2026 10:00 - 11:00"
    );
    assert_eq!(
        display_date(&instant(1_770_157_800), &instant(1_770_164_100), 0, 0).unwrap(),
        "03/02/2026 22:30 - 00:15"
    );
    assert_eq!(
        display_date(&instant(1_770_105_600), &instant(1_770_105_600 + 86_399), 0, 0).unwrap(),
        "03/02/2026 08:00 - 07:59"
    );
    assert_eq!(
        display_date(&instant(1_770_105_600), &instant(1_770_105_600), -18_000, -18_000).unwrap(),
        "03/02/2026 03:00 - 03:00"
    );
}

#[test]
fn instants_a_day_or_more_apart_are_shown_with_two_dates() {
    assert_eq!(
        display_date(&instant(1_770_105_600), &instant(1_770_105_600 + 86_400), 0, 0).unwrap(),
        "03/02/2026 08:00 - 04/02 08:00"
    );
    assert_eq!(
        display_date(&instant(1_770_157_800), &instant(1_770_282_300), 0, 0).unwrap(),
        "03/02/2026 22:30 - 05/02 09:05"
    );
    assert_eq!(
        display_date(&instant(1_770_157_800), &instant(1_770_282_300), 7_200, 10_800).unwrap(),
        "04/02/2026 00:30 - 05/02 12:05"
    );
}

#[test]
fn a_start_and_an_end_of_different_forms_are_not_shown() {
    assert!(display_date(&date(2026, 2, 3), &instant(1_770_105_600), 0, 0).is_none());
    assert!(display_date(&instant(1_770_105_600), &date(2026, 2, 4), 0, 0).is_none());
}

#[test]
fn instants_that_no_date_can_be_written_of_are_not_shown() {
    assert!(display_date(&instant(i64::MIN), &instant(0), 0, 0).is_none());
    assert!(display_date(&instant(0), &instant(i64::MAX), 0, 0).is_none());
    assert!(display_date(&instant(LAST_INSTANT), &instant(LAST_INSTANT), 1, 0).is_none());
}

#[test]
fn the_order_of_start_and_end_is_told_in_their_own_form() {
    assert!(is_in_order(&date(2026, 2, 3), &date(2026, 2, 3)));
    assert!(is_in_order(&date(2025, 12, 31), &date(2026, 1, 1)));
    assert!(!is_in_order(&date(2026, 2, 4), &date(2026, 2, 3)));
    assert!(is_in_order(&instant(5), &instant(5)));
    assert!(!is_in_order(&instant(6), &instant(5)));
    assert!(!is_in_order(&instant(0), &date(2026, 2, 3)));
    assert!(!is_in_order(&date(1970, 1, 1), &instant(i64::MAX)));
}

#[test]
fn the_record_of_an_event_of_dates_holds_its_texts_and_its_link() {
    let event = format_event_at(&occurrence(date(2026, 2, 3), date(2026, 2, 4)), &Vec::new(), 0, 0)
        .unwrap();
    assert_eq!(event.summary, "Concert");
    assert_eq!(event.display_date, "03/02/2026");
    assert_eq!(event.start_iso8601, "2026-02-03");
    assert_eq!(event.end_iso8601, "2026-02-04");
    assert_eq!(event.description.as_deref(), Some("Test description"));
    let location = event.location.unwrap();
    assert_eq!(location.text, "Test Location");
    assert_eq!(location.url, "https://osm.org/search?query=Test%20Location");
}

#[test]
fn the_record_of_an_event_of_instants_shows_the_clock_that_it_is_given() {
    let spaces = vec![SpaceEntry { label_prefix: "Test".to_string(), id: "42".to_string() }];
    let event = format_event_at(
        &occurrence(instant(1_770_105_600), instant(1_770_109_200)),
        &spaces,
        7_200,
        7_200,
    )
    .unwrap();
    assert_eq!(event.display_date, "03/02/2026 10:00 - 11:00");
    assert_eq!(event.start_iso8601, "2026-02-03T08:00:00+00:00");
    assert_eq!(event.end_iso8601, "2026-02-03T09:00:00+00:00");
    assert_eq!(event.location.unwrap().url, "https://osm.org/node/42");
}

#[test]
fn a_record_without_place_or_description_has_neither() {
    let mut bare = occurrence(date(2026, 2, 3), date(2026, 2, 4));
    bare.location = None;
    bare.description = None;
    let event = format_event_at(&bare, &Vec::new(), 0, 0).unwrap();
    assert!(event.location.is_none());
    assert!(event.description.is_none());
}

#[test]
fn an_occurrence_that_lacks_what_is_required_has_no_record() {
    let mut nameless = occurrence(date(2026, 2, 3), date(2026, 2, 4));
    nameless.summary = None;
    assert!(format_event_at(&nameless, &Vec::new(), 0, 0).is_none());
    let mut unstarted = occurrence(date(2026, 2, 3), date(2026, 2, 4));
    unstarted.start = None;
    assert!(format_event_at(&unstarted, &Vec::new(), 0, 0).is_none());
    let mut unended = occurrence(date(2026, 2, 3), date(2026, 2, 4));
    unended.end = None;
    assert!(format_event_at(&unended, &Vec::new(), 0, 0).is_none());
}

#[test]
fn an_occurrence_of_two_forms_or_out_of_order_has_no_record() {
    let mixed = occurrence(date(2026, 2, 3), instant(1_770_163_200));
    assert!(format_event_at(&mixed, &Vec::new(), 0, 0).is_none());
    let backwards = occurrence(date(2026, 2, 4), date(2026, 2, 3));
    assert!(format_event_at(&backwards, &Vec::new(), 0, 0).is_none());
    let reversed = occurrence(instant(10), instant(9));
    assert!(format_event_at(&reversed, &Vec::new(), 0, 0).is_none());
    let beyond = occurrence(instant(0), instant(LAST_INSTANT + 1));
    assert!(format_event_at(&beyond, &Vec::new(), 0, 0).is_none());
}

#[test]
fn the_clock_of_the_machine_leaves_dates_and_iso_texts_alone() {
    let spaces = Vec::new();
    let dated = format_event(&occurrence(date(2026, 2, 3), date(2026, 2, 4)), &spaces).unwrap();
    assert_eq!(dated.display_date, "03/02/2026");
    let hour = occurrence(instant(1_770_105_600), instant(1_770_109_200));
    let timed = format_event(&hour, &spaces).unwrap();
    assert_eq!(timed.start_iso8601, "2026-02-03T08:00:00+00:00");
    assert_eq!(timed.end_iso8601, "2026-02-03T09:00:00+00:00");
    assert_eq!(timed.display_date.len(), 24);
    assert_eq!(&timed.display_date[16..19], " - ");
    let days = occurrence(instant(1_770_105_600), instant(1_770_282_300));
    let long = format_event(&days, &spaces).unwrap();
    assert_eq!(long.display_date.len(), 30);
    let far = occurrence(instant(i64::MIN), instant(i64::MAX));
    assert!(format_event(&far, &spaces).is_none());
}
