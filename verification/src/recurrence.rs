//! The recurrence of an event: the text of its rules, and the occurrences that
//! the rules give.

use crate::date::{date_of_day_number, lemma_day_number_of_date, PlainDate, LAST_DAY_NUMBER};
use crate::event::{copy_text, EventDate, Occurrence, OccurrenceView, RawEvent, RawEventView, Stamp};
use crate::normalize::{normalized, to_event_date};
use chrono::Datelike;
use vstd::prelude::*;
use vstd::string::*;

verus! {

/// One parameter of a calendar property, such as `TZID=Europe/Helsinki`.
#[derive(Clone, Debug)]
pub struct RawParameter {
    pub name: String,
    pub value: String,
}

pub struct RawParameterView {
    pub name: Seq<char>,
    pub value: Seq<char>,
}

impl View for RawParameter {
    type V = RawParameterView;

    open spec fn view(&self) -> RawParameterView {
        RawParameterView { name: self.name@, value: self.value@ }
    }
}

impl DeepView for RawParameter {
    type V = RawParameterView;

    open spec fn deep_view(&self) -> RawParameterView {
        self@
    }
}

/// The raw text of one calendar property: its parameters and its value.
#[derive(Clone, Debug)]
pub struct RawProperty {
    pub parameters: Vec<RawParameter>,
    pub value: String,
}

pub struct RawPropertyView {
    pub parameters: Seq<RawParameterView>,
    pub value: Seq<char>,
}

impl View for RawProperty {
    type V = RawPropertyView;

    open spec fn view(&self) -> RawPropertyView {
        RawPropertyView { parameters: self.parameters.deep_view(), value: self.value@ }
    }
}

impl DeepView for RawProperty {
    type V = RawPropertyView;

    open spec fn deep_view(&self) -> RawPropertyView {
        self@
    }
}

/// The properties of an event that govern its recurrence, each of which a
/// calendar may state any number of times.
#[derive(Clone, Debug)]
pub struct RecurrenceFields {
    /// `DTSTART`
    pub anchor: Vec<RawProperty>,
    /// `RRULE`
    pub rules: Vec<RawProperty>,
    /// `EXRULE`
    pub exception_rules: Vec<RawProperty>,
    /// `RDATE`
    pub extra_dates: Vec<RawProperty>,
    /// `EXDATE`
    pub excluded_dates: Vec<RawProperty>,
}

pub struct RecurrenceFieldsView {
    pub anchor: Seq<RawPropertyView>,
    pub rules: Seq<RawPropertyView>,
    pub exception_rules: Seq<RawPropertyView>,
    pub extra_dates: Seq<RawPropertyView>,
    pub excluded_dates: Seq<RawPropertyView>,
}

impl View for RecurrenceFields {
    type V = RecurrenceFieldsView;

    open spec fn view(&self) -> RecurrenceFieldsView {
        RecurrenceFieldsView {
            anchor: self.anchor.deep_view(),
            rules: self.rules.deep_view(),
            exception_rules: self.exception_rules.deep_view(),
            extra_dates: self.extra_dates.deep_view(),
            excluded_dates: self.excluded_dates.deep_view(),
        }
    }
}

impl DeepView for RecurrenceFields {
    type V = RecurrenceFieldsView;

    open spec fn deep_view(&self) -> RecurrenceFieldsView {
        self@
    }
}

/// The most occurrences that one event is expanded into.
pub const MAX_OCCURRENCES: usize = 100;

/// The text of a property's parameters: each one led by a semicolon.
pub open spec fn parameters_text(parameters: Seq<RawParameterView>) -> Seq<char>
    decreases parameters.len(),
{
    if parameters.len() == 0 {
        Seq::empty()
    } else {
        parameters_text(parameters.drop_last()) + seq![';'] + parameters.last().name + seq!['=']
            + parameters.last().value
    }
}

/// The content line of a property: its name, its parameters, a colon, its
/// value, and a line feed.
pub open spec fn line_text(name: Seq<char>, property: RawPropertyView) -> Seq<char> {
    name + parameters_text(property.parameters) + seq![':'] + property.value + seq!['\n']
}

/// The content lines of the properties that share a name, in their order.
pub open spec fn lines_text(name: Seq<char>, properties: Seq<RawPropertyView>) -> Seq<char>
    decreases properties.len(),
{
    if properties.len() == 0 {
        Seq::empty()
    } else {
        lines_text(name, properties.drop_last()) + line_text(name, properties.last())
    }
}

/// The ruleset description of an event: the lines of its recurrence fields,
/// the start anchor first.
pub open spec fn ruleset_text(fields: RecurrenceFieldsView) -> Seq<char> {
    lines_text("DTSTART"@, fields.anchor) + lines_text("RRULE"@, fields.rules) + lines_text(
        "EXRULE"@,
        fields.exception_rules,
    ) + lines_text("RDATE"@, fields.extra_dates) + lines_text("EXDATE"@, fields.excluded_dates)
}

/// The event states at least one recurrence field.
pub open spec fn has_recurrence(fields: RecurrenceFieldsView) -> bool {
    fields.anchor.len() > 0 || fields.rules.len() > 0 || fields.exception_rules.len() > 0
        || fields.extra_dates.len() > 0 || fields.excluded_dates.len() > 0
}

fn append_parameters(out: &mut String, parameters: &Vec<RawParameter>)
    ensures
        final(out)@ == old(out)@ + parameters_text(parameters.deep_view()),
{
    proof {
        reveal_strlit(";");
        reveal_strlit("=");
    }
    let mut i: usize = 0;
    while i < parameters.len()
        invariant
            i <= parameters.len(),
            out@ == old(out)@ + parameters_text(parameters.deep_view().take(i as int)),
            ";"@ == seq![';'],
            "="@ == seq!['='],
        decreases parameters.len() - i,
    {
        let ghost before = out@;
        out.append(";");
        out.append(parameters[i].name.as_str());
        out.append("=");
        out.append(parameters[i].value.as_str());
        proof {
            let all = parameters.deep_view();
            assert(all.take(i + 1).drop_last() == all.take(i as int));
            assert(all.take(i + 1).last() == parameters[i as int]@);
            assert(out@ == before + seq![';'] + parameters[i as int]@.name + seq!['=']
                + parameters[i as int]@.value);
            assert(out@ == old(out)@ + parameters_text(all.take(i + 1)));
        }
        i += 1;
    }
    proof {
        assert(parameters.deep_view().take(i as int) == parameters.deep_view());
    }
}

fn append_lines(out: &mut String, name: &str, properties: &Vec<RawProperty>)
    ensures
        final(out)@ == old(out)@ + lines_text(name@, properties.deep_view()),
{
    proof {
        reveal_strlit(":");
        reveal_strlit("\n");
    }
    let mut i: usize = 0;
    while i < properties.len()
        invariant
            i <= properties.len(),
            out@ == old(out)@ + lines_text(name@, properties.deep_view().take(i as int)),
            ":"@ == seq![':'],
            "\n"@ == seq!['\n'],
        decreases properties.len() - i,
    {
        let ghost before = out@;
        out.append(name);
        append_parameters(out, &properties[i].parameters);
        out.append(":");
        out.append(properties[i].value.as_str());
        out.append("\n");
        proof {
            let all = properties.deep_view();
            assert(all.take(i + 1).drop_last() == all.take(i as int));
            assert(all.take(i + 1).last() == properties[i as int]@);
            assert(out@ == before + line_text(name@, properties[i as int]@));
            assert(out@ == old(out)@ + lines_text(name@, all.take(i + 1)));
        }
        i += 1;
    }
    proof {
        assert(properties.deep_view().take(i as int) == properties.deep_view());
    }
}

impl RecurrenceFields {
    /// Fields that state nothing.
    pub fn new() -> (fields: RecurrenceFields)
        ensures
            fields@ == (RecurrenceFieldsView {
                anchor: Seq::empty(),
                rules: Seq::empty(),
                exception_rules: Seq::empty(),
                extra_dates: Seq::empty(),
                excluded_dates: Seq::empty(),
            }),
            !has_recurrence(fields@),
    {
        let fields = RecurrenceFields {
            anchor: Vec::new(),
            rules: Vec::new(),
            exception_rules: Vec::new(),
            extra_dates: Vec::new(),
            excluded_dates: Vec::new(),
        };
        assert(fields@.anchor =~= Seq::empty());
        assert(fields@.rules =~= Seq::empty());
        assert(fields@.exception_rules =~= Seq::empty());
        assert(fields@.extra_dates =~= Seq::empty());
        assert(fields@.excluded_dates =~= Seq::empty());
        fields
    }

    /// Whether any recurrence field is stated.
    pub fn is_present(&self) -> (present: bool)
        ensures
            present == has_recurrence(self@),
    {
        self.anchor.len() > 0 || self.rules.len() > 0 || self.exception_rules.len() > 0
            || self.extra_dates.len() > 0 || self.excluded_dates.len() > 0
    }

    /// The ruleset description that the fields make together.
    pub fn ruleset_text(&self) -> (text: String)
        ensures
            text@ == ruleset_text(self@),
    {
        let mut text = String::new();
        append_lines(&mut text, "DTSTART", &self.anchor);
        append_lines(&mut text, "RRULE", &self.rules);
        append_lines(&mut text, "EXRULE", &self.exception_rules);
        append_lines(&mut text, "RDATE", &self.extra_dates);
        append_lines(&mut text, "EXDATE", &self.excluded_dates);
        text
    }
}

/// Where one occurrence of a ruleset starts: the instant, and the day number of
/// the date that the ruleset's own clock shows at that instant.
#[derive(Clone, Copy, Debug)]
pub struct OccurrenceStart {
    pub instant: i64,
    pub day: i32,
}

/// rrule's `RRuleSet::from_str`, then `RRuleSet::all` with `limit` on the set
/// parsed: `None` where the text does not parse, else the starts that `all`
/// lists, each as its `DateTime::timestamp` and as the `num_days_from_ce` of its
/// `date_naive`. `all` stops once it has listed `limit` of them. Which starts
/// they are is not stated: a time without a zone is read by the machine's clock.
#[verifier::external_body]
fn rrule_occurrences(text: &str, limit: u16) -> (starts: Option<Vec<OccurrenceStart>>)
    ensures
        starts is Some ==> starts->0.len() <= limit,
{
    let set = match text.parse::<rrule::RRuleSet>() {
        Ok(set) => set,
        Err(_) => return None,
    };
    let found = set.all(limit).dates;
    Some(
        found.iter().map(
            |t| OccurrenceStart { instant: t.timestamp(), day: t.date_naive().num_days_from_ce() },
        ).collect(),
    )
}

/// The event itself as an occurrence: its texts, and its start and end
/// normalized.
pub open spec fn own_occurrence(event: RawEventView) -> OccurrenceView {
    OccurrenceView {
        summary: event.summary,
        description: event.description,
        location: event.location,
        start: match event.start {
            Some(start) => normalized(start),
            None => None,
        },
        end: match event.end {
            Some(end) => normalized(end),
            None => None,
        },
    }
}

/// The occurrence of `template` that starts at `start` and lasts as long as
/// `template` does: as many days where it runs from date to date, as many
/// seconds where it runs from instant to instant. There is none where
/// `template` has no such length, or where the new start or end cannot be held.
pub open spec fn shifted(template: OccurrenceView, start: OccurrenceStart) -> Option<
    OccurrenceView,
> {
    match (template.start, template.end) {
        (Some(Stamp::Date(first)), Some(Stamp::Date(last))) => {
            let days = last.day_number() - first.day_number();
            if 1 <= start.day <= LAST_DAY_NUMBER && 1 <= start.day + days <= LAST_DAY_NUMBER {
                Some(
                    OccurrenceView {
                        summary: template.summary,
                        description: template.description,
                        location: template.location,
                        start: Some(Stamp::Date(date_of_day_number(start.day as int))),
                        end: Some(Stamp::Date(date_of_day_number(start.day + days))),
                    },
                )
            } else {
                None
            }
        },
        (Some(Stamp::Instant(first)), Some(Stamp::Instant(last))) => {
            let seconds = last - first;
            if i64::MIN <= start.instant + seconds <= i64::MAX {
                Some(
                    OccurrenceView {
                        summary: template.summary,
                        description: template.description,
                        location: template.location,
                        start: Some(Stamp::Instant(start.instant as int)),
                        end: Some(Stamp::Instant(start.instant + seconds)),
                    },
                )
            } else {
                None
            }
        },
        _ => None,
    }
}

/// The occurrences of `template` at the given starts, in their order.
pub open spec fn shifted_all(template: OccurrenceView, starts: Seq<OccurrenceStart>) -> Seq<
    OccurrenceView,
>
    decreases starts.len(),
{
    if starts.len() == 0 {
        Seq::empty()
    } else {
        let before = shifted_all(template, starts.drop_last());
        match shifted(template, starts.last()) {
            Some(occurrence) => before.push(occurrence),
            None => before,
        }
    }
}

/// The occurrences of `template` at the first `MAX_OCCURRENCES` of the starts.
pub open spec fn materialized(template: OccurrenceView, starts: Seq<OccurrenceStart>) -> Seq<
    OccurrenceView,
> {
    if starts.len() <= MAX_OCCURRENCES {
        shifted_all(template, starts)
    } else {
        shifted_all(template, starts.take(MAX_OCCURRENCES as int))
    }
}

/// The occurrence of `template` at one start.
pub fn shift(template: &Occurrence, start: OccurrenceStart) -> (occurrence: Option<Occurrence>)
    ensures
        occurrence.deep_view() == shifted(template@, start),
{
    match (template.start, template.end) {
        (Some(EventDate::Date(first)), Some(EventDate::Date(last))) => {
            let days: i64 = last.day_number() as i64 - first.day_number() as i64;
            let end_day: i64 = start.day as i64 + days;
            if 1 <= start.day && start.day <= LAST_DAY_NUMBER && 1 <= end_day && end_day
                <= LAST_DAY_NUMBER as i64 {
                let new_start = PlainDate::from_day_number(start.day);
                let new_end = PlainDate::from_day_number(end_day as i32);
                match (new_start, new_end) {
                    (Some(new_start), Some(new_end)) => Some(
                        Occurrence {
                            summary: copy_text(&template.summary),
                            description: copy_text(&template.description),
                            location: copy_text(&template.location),
                            start: Some(EventDate::Date(new_start)),
                            end: Some(EventDate::Date(new_end)),
                        },
                    ),
                    _ => None,
                }
            } else {
                None
            }
        },
        (Some(EventDate::DateTimeUtc(first)), Some(EventDate::DateTimeUtc(last))) => {
            let end: i128 = start.instant as i128 + (last as i128 - first as i128);
            if i64::MIN as i128 <= end && end <= i64::MAX as i128 {
                Some(
                    Occurrence {
                        summary: copy_text(&template.summary),
                        description: copy_text(&template.description),
                        location: copy_text(&template.location),
                        start: Some(EventDate::DateTimeUtc(start.instant)),
                        end: Some(EventDate::DateTimeUtc(end as i64)),
                    },
                )
            } else {
                None
            }
        },
        _ => None,
    }
}

/// The occurrences of `template` at the given starts, of which no more than
/// `MAX_OCCURRENCES` are read.
pub fn materialize(template: &Occurrence, starts: &Vec<OccurrenceStart>) -> (occurrences: Vec<
    Occurrence,
>)
    ensures
        occurrences.deep_view() == materialized(template@, starts@),
        occurrences.len() <= MAX_OCCURRENCES,
{
    let count: usize = if starts.len() <= MAX_OCCURRENCES {
        starts.len()
    } else {
        MAX_OCCURRENCES
    };
    let mut occurrences: Vec<Occurrence> = Vec::new();
    let mut i: usize = 0;
    while i < count
        invariant
            i <= count <= starts.len(),
            occurrences.len() <= i,
            occurrences.deep_view() == shifted_all(template@, starts@.take(i as int)),
        decreases count - i,
    {
        let ghost before = occurrences.deep_view();
        let next = shift(template, starts[i]);
        proof {
            assert(starts@.take(i + 1).drop_last() == starts@.take(i as int));
            assert(starts@.take(i + 1).last() == starts@[i as int]);
        }
        match next {
            Some(occurrence) => {
                occurrences.push(occurrence);
                assert(occurrences.deep_view() == before.push(occurrence@));
            },
            None => {},
        }
        i += 1;
    }
    proof {
        assert(starts@.take(starts.len() as int) == starts@);
    }
    occurrences
}

/// The starts that a ruleset gave, as a sequence, where it gave any.
pub open spec fn starts_of(outcome: Option<Vec<OccurrenceStart>>) -> Option<Seq<OccurrenceStart>> {
    match outcome {
        Some(starts) => Some(starts@),
        None => None,
    }
}

/// The occurrences of an event, given what its ruleset came to: `None` where the
/// ruleset's text did not parse, else the starts that it lists. An event
/// without recurrence fields, and one whose ruleset did not parse, is its own
/// single occurrence.
pub open spec fn expanded(event: RawEventView, outcome: Option<Seq<OccurrenceStart>>) -> Seq<
    OccurrenceView,
> {
    if has_recurrence(event.recurrence) && outcome is Some {
        materialized(own_occurrence(event), outcome->0)
    } else {
        seq![own_occurrence(event)]
    }
}

/// The event itself as an occurrence.
pub fn own_occurrence_of(event: &RawEvent) -> (template: Occurrence)
    ensures
        template@ == own_occurrence(event@),
{
    let start = match &event.start {
        Some(start) => to_event_date(start),
        None => None,
    };
    let end = match &event.end {
        Some(end) => to_event_date(end),
        None => None,
    };
    Occurrence {
        summary: copy_text(&event.summary),
        description: copy_text(&event.description),
        location: copy_text(&event.location),
        start,
        end,
    }
}

/// The occurrences of an event, given what its ruleset came to.
pub fn expand_with(event: &RawEvent, outcome: Option<Vec<OccurrenceStart>>) -> (occurrences: Vec<
    Occurrence,
>)
    ensures
        occurrences.deep_view() == expanded(event@, starts_of(outcome)),
        occurrences.len() <= MAX_OCCURRENCES,
{
    let template = own_occurrence_of(event);
    match outcome {
        Some(starts) => {
            if event.recurrence.is_present() {
                return materialize(&template, &starts);
            }
        },
        None => {},
    }
    let mut occurrences: Vec<Occurrence> = Vec::new();
    occurrences.push(template);
    assert(occurrences.deep_view() == seq![template@]);
    occurrences
}

/// Expands an event into its occurrences. The text of its recurrence fields
/// goes to the ruleset parser; what comes of that decides as `expanded` says.
pub fn expand(event: &RawEvent) -> (occurrences: Vec<Occurrence>)
    ensures
        exists|outcome: Option<Seq<OccurrenceStart>>|
            occurrences.deep_view() == expanded(event@, outcome),
        !has_recurrence(event@.recurrence) ==> occurrences.deep_view() == seq![
            own_occurrence(event@),
        ],
        occurrences.len() <= MAX_OCCURRENCES,
{
    if !event.recurrence.is_present() {
        let occurrences = expand_with(event, None);
        assert(occurrences.deep_view() == expanded(event@, None));
        return occurrences;
    }
    let text = event.recurrence.ruleset_text();
    let outcome = rrule_occurrences(text.as_str(), MAX_OCCURRENCES as u16);
    let ghost found = starts_of(outcome);
    let occurrences = expand_with(event, outcome);
    assert(occurrences.deep_view() == expanded(event@, found));
    occurrences
}

/// How long an occurrence lasts: in days from date to date, in seconds from
/// instant to instant.
pub enum Span {
    Days(int),
    Seconds(int),
}

/// The length of an occurrence, where its start and end are of one form.
pub open spec fn span_of(occurrence: OccurrenceView) -> Option<Span> {
    match (occurrence.start, occurrence.end) {
        (Some(Stamp::Date(first)), Some(Stamp::Date(last))) => Some(
            Span::Days(last.day_number() - first.day_number()),
        ),
        (Some(Stamp::Instant(first)), Some(Stamp::Instant(last))) => Some(
            Span::Seconds(last - first),
        ),
        _ => None,
    }
}

/// An occurrence that is shifted to a new start lasts as long as the
/// template, in the unit of the template, and keeps its texts.
pub proof fn law_shift_keeps_span(template: OccurrenceView, start: OccurrenceStart)
    requires
        shifted(template, start) is Some,
    ensures
        span_of(template) is Some,
        span_of(shifted(template, start)->0) == span_of(template),
        shifted(template, start)->0.summary == template.summary,
        shifted(template, start)->0.description == template.description,
        shifted(template, start)->0.location == template.location,
{
    match (template.start, template.end) {
        (Some(Stamp::Date(first)), Some(Stamp::Date(last))) => {
            let days = last.day_number() - first.day_number();
            lemma_day_number_of_date(start.day as int);
            lemma_day_number_of_date(start.day + days);
        },
        _ => {},
    }
}

proof fn lemma_shifted_all_members(template: OccurrenceView, starts: Seq<OccurrenceStart>, i: int)
    requires
        0 <= i < shifted_all(template, starts).len(),
    ensures
        exists|j: int|
            0 <= j < starts.len() && #[trigger] shifted(template, starts[j]) == Some(
                shifted_all(template, starts)[i],
            ),
        shifted_all(template, starts).len() <= starts.len(),
    decreases starts.len(),
{
    lemma_shifted_all_len(template, starts);
    let before = shifted_all(template, starts.drop_last());
    if i < before.len() {
        lemma_shifted_all_members(template, starts.drop_last(), i);
        let j = choose|j: int|
            0 <= j < starts.drop_last().len() && #[trigger] shifted(
                template,
                starts.drop_last()[j],
            ) == Some(before[i]);
        assert(starts[j] == starts.drop_last()[j]);
    } else {
        assert(shifted(template, starts[starts.len() - 1]) == Some(
            shifted_all(template, starts)[i],
        ));
    }
}

proof fn lemma_shifted_all_len(template: OccurrenceView, starts: Seq<OccurrenceStart>)
    ensures
        shifted_all(template, starts).len() <= starts.len(),
    decreases starts.len(),
{
    if starts.len() > 0 {
        lemma_shifted_all_len(template, starts.drop_last());
    }
}

/// Every occurrence that a recurrence is expanded into lasts as long as the
/// event that it comes of, in the unit of that event: days from date to date, seconds
/// from instant to instant.
pub proof fn law_duration_preserved(template: OccurrenceView, starts: Seq<OccurrenceStart>, i: int)
    requires
        0 <= i < materialized(template, starts).len(),
    ensures
        span_of(template) is Some,
        span_of(materialized(template, starts)[i]) == span_of(template),
{
    let read = if starts.len() <= MAX_OCCURRENCES {
        starts
    } else {
        starts.take(MAX_OCCURRENCES as int)
    };
    lemma_shifted_all_members(template, read, i);
    let j = choose|j: int|
        0 <= j < read.len() && #[trigger] shifted(template, read[j]) == Some(
            shifted_all(template, read)[i],
        );
    law_shift_keeps_span(template, read[j]);
}

/// Every occurrence that the ruleset of an event gives lasts as long as the
/// event itself, in the unit of the event, and has the texts of the event.
pub proof fn law_expansion_keeps_duration(event: RawEventView, starts: Seq<OccurrenceStart>, i: int)
    requires
        has_recurrence(event.recurrence),
        0 <= i < expanded(event, Some(starts)).len(),
    ensures
        span_of(own_occurrence(event)) is Some,
        span_of(expanded(event, Some(starts))[i]) == span_of(own_occurrence(event)),
        expanded(event, Some(starts))[i].summary == event.summary,
        expanded(event, Some(starts))[i].description == event.description,
        expanded(event, Some(starts))[i].location == event.location,
{
    let template = own_occurrence(event);
    let read = if starts.len() <= MAX_OCCURRENCES {
        starts
    } else {
        starts.take(MAX_OCCURRENCES as int)
    };
    lemma_shifted_all_members(template, read, i);
    let j = choose|j: int|
        0 <= j < read.len() && #[trigger] shifted(template, read[j]) == Some(
            shifted_all(template, read)[i],
        );
    law_shift_keeps_span(template, read[j]);
}

/// An event without recurrence fields is its own single occurrence, whatever
/// a ruleset might have come to.
pub proof fn law_plain_event_is_single(event: RawEventView, outcome: Option<Seq<OccurrenceStart>>)
    requires
        !has_recurrence(event.recurrence),
    ensures
        expanded(event, outcome) == seq![own_occurrence(event)],
{
}

/// No recurrence is expanded into more than `MAX_OCCURRENCES` occurrences,
/// whatever its ruleset lists.
pub proof fn law_occurrences_capped(event: RawEventView, outcome: Option<Seq<OccurrenceStart>>)
    ensures
        expanded(event, outcome).len() <= MAX_OCCURRENCES,
{
    if outcome is Some {
        let starts = outcome->0;
        if starts.len() <= MAX_OCCURRENCES {
            lemma_shifted_all_len(own_occurrence(event), starts);
        } else {
            lemma_shifted_all_len(own_occurrence(event), starts.take(MAX_OCCURRENCES as int));
        }
    }
}

} // verus!
