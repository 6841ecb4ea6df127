use event_feed::date::PlainDate;
use event_feed::event::{EventDate, Occurrence};
use event_feed::window::{end_key_of, filter_window, is_in_window, sort_by_end, WINDOW_DAYS};

const NOW: i64 = 1_770_049_931;
const YEAR: i64 = 365 * 86_400;

fn named(name: &str, start: Option<EventDate>, end: Option<EventDate>) -> Occurrence {
    Occurrence { summary: Some(name.to_string()), description: None, location: None, start, end }
}

fn ending_at(name: &str, end: i64) -> Occurrence {
    named(name, Some(EventDate::DateTimeUtc(end - 3_600)), Some(EventDate::DateTimeUtc(end)))
}

fn ending_on(name: &str, day: i32) -> Occurrence {
    named(
        name,
        Some(EventDate::Date(PlainDate::from_day_number(day - 1).unwrap())),
        Some(EventDate::Date(PlainDate::from_day_number(day).unwrap())),
    )
}

fn names(occurrences: &Vec<Occurrence>) -> Vec<String> {
    occurrences.iter().map(|occurrence| occurrence.summary.clone().unwrap()).collect()
}

#[test]
fn an_instant_that_ends_now_is_kept_and_one_before_is_not() {
    assert_eq!(WINDOW_DAYS, 365);
    assert!(is_in_window(&ending_at("now", NOW), NOW));
    assert!(is_in_window(&ending_at("soon", NOW + 1), NOW));
    assert!(!is_in_window(&ending_at("past", NOW - 1), NOW));
}

#[test]
fn an_instant_at_the_horizon_is_left_out_and_one_before_is_kept() {
    assert!(is_in_window(&ending_at("near", NOW + YEAR - 1), NOW));
    assert!(!is_in_window(&ending_at("horizon", NOW + YEAR), NOW));
    assert!(!is_in_window(&ending_at("far", NOW + YEAR + 1), NOW));
}

#[test]
fn a_date_is_held_against_the_days_that_the_bounds_fall_on() {
    assert!(is_in_window(&ending_on("today", 739_649), NOW));
    assert!(!is_in_window(&ending_on("yesterday", 739_648), NOW));
    assert!(is_in_window(&ending_on("tomorrow", 739_650), NOW));
    assert!(is_in_window(&ending_on("last day", 739_649 + 364), NOW));
    assert!(!is_in_window(&ending_on("horizon day", 739_649 + 365), NOW));
    let midnight = 1_770_076_800;
    assert!(is_in_window(&ending_on("today", 739_650), midnight));
    assert!(!is_in_window(&ending_on("yesterday", 739_649), midnight));
    assert!(is_in_window(&ending_on("yesterday", 739_649), midnight - 1));
}

#[test]
fn a_date_is_held_against_a_time_before_the_epoch_by_days_rounded_down() {
    assert!(is_in_window(&ending_on("eve", 719_162), -1));
    assert!(!is_in_window(&ending_on("day before", 719_161), -1));
    assert!(is_in_window(&ending_on("eve", 719_162), -86_400));
    assert!(!is_in_window(&ending_on("eve", 719_162), 0));
}

#[test]
fn an_occurrence_without_an_end_is_never_kept() {
    let open = named("open", Some(EventDate::DateTimeUtc(NOW)), None);
    assert!(!is_in_window(&open, NOW));
}

#[test]
fn the_window_is_counted_without_overflow() {
    assert!(is_in_window(&ending_at("last", i64::MAX), i64::MAX));
    assert!(!is_in_window(&ending_at("first", i64::MIN + 3_600), i64::MAX));
    assert!(is_in_window(&ending_at("first", i64::MIN + 3_600), i64::MIN));
    assert!(!is_in_window(&ending_on("day", 739_650), i64::MAX));
    assert!(!is_in_window(&ending_on("day", 739_650), i64::MIN));
}

#[test]
fn the_filter_keeps_what_lies_in_the_window_in_its_order() {
    let occurrences = vec![
        ending_at("late", NOW + 500),
        ending_at("past", NOW - 5),
        ending_on("today", 739_649),
        named("open", None, None),
        ending_at("far", NOW + YEAR),
        ending_at("early", NOW + 100),
    ];
    let kept = filter_window(&occurrences, NOW);
    assert_eq!(names(&kept), vec!["late", "today", "early"]);
    assert!(filter_window(&Vec::new(), NOW).is_empty());
}

#[test]
fn the_key_of_a_date_is_midnight_of_its_day() {
    assert_eq!(end_key_of(&ending_on("day", 739_651)), Some(1_770_163_200));
    assert_eq!(end_key_of(&ending_on("epoch", 719_163)), Some(0));
    assert_eq!(end_key_of(&ending_on("eve", 719_162)), Some(-86_400));
    assert_eq!(end_key_of(&ending_at("instant", 1_770_163_201)), Some(1_770_163_201));
    assert_eq!(end_key_of(&named("open", None, None)), None);
}

#[test]
fn the_sort_orders_by_end() {
    let occurrences = vec![
        ending_at("c", 300),
        ending_at("a", 100),
        ending_at("d", 400),
        ending_at("b", 200),
    ];
    assert_eq!(names(&sort_by_end(&occurrences)), vec!["a", "b", "c", "d"]);
    assert!(sort_by_end(&Vec::new()).is_empty());
}

#[test]
fn the_sort_keeps_the_order_of_those_that_end_together() {
    let occurrences = vec![
        ending_at("first of 200", 200),
        ending_at("first of 100", 100),
        ending_at("second of 200", 200),
        ending_at("second of 100", 100),
        ending_at("third of 200", 200),
    ];
    assert_eq!(
        names(&sort_by_end(&occurrences)),
        vec!["first of 100", "second of 100", "first of 200", "second of 200", "third of 200"]
    );
}

#[test]
fn the_sort_puts_a_date_at_midnight_of_its_day() {
    let occurrences = vec![
        ending_at("after midnight", 1_770_163_201),
        ending_on("the day", 739_651),
        ending_at("at midnight", 1_770_163_200),
        ending_at("before midnight", 1_770_163_199),
    ];
    assert_eq!(
        names(&sort_by_end(&occurrences)),
        vec!["before midnight", "the day", "at midnight", "after midnight"]
    );
}

#[test]
fn the_sort_puts_an_occurrence_without_an_end_first() {
    let occurrences = vec![
        ending_at("early", i64::MIN),
        named("open", None, None),
        ending_at("late", 5),
        named("open too", None, None),
    ];
    assert_eq!(names(&sort_by_end(&occurrences)), vec!["open", "open too", "early", "late"]);
}
