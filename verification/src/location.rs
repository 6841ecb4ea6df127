//! Links for the places of events: the page of a registered space, or a map
//! search.

use crate::text::{digit_char, starts_with};
use vstd::prelude::*;
use vstd::string::*;
use vstd::utf8::encode_utf8;

verus! {

/// Where the page of a registered space is found: its id follows.
pub const SPACE_URL_BASE: &'static str = "https://osm.org/node/";

/// The map search that stands in for a place that is not registered: the
/// place's text follows as the query.
pub const MAP_SEARCH_URL: &'static str = "https://osm.org/search?query=";

/// One line of the location registry as it is fetched.
#[derive(Clone, Debug)]
pub struct SpaceRecord {
    pub space_label: Option<String>,
    pub id: String,
}

pub struct SpaceRecordView {
    pub space_label: Option<Seq<char>>,
    pub id: Seq<char>,
}

impl View for SpaceRecord {
    type V = SpaceRecordView;

    open spec fn view(&self) -> SpaceRecordView {
        SpaceRecordView { space_label: self.space_label.deep_view(), id: self.id@ }
    }
}

impl DeepView for SpaceRecord {
    type V = SpaceRecordView;

    open spec fn deep_view(&self) -> SpaceRecordView {
        self@
    }
}

/// A registered space: the text that the places in it begin with, and its id.
#[derive(Clone, Debug)]
pub struct SpaceEntry {
    pub label_prefix: String,
    pub id: String,
}

pub struct SpaceEntryView {
    pub label_prefix: Seq<char>,
    pub id: Seq<char>,
}

impl View for SpaceEntry {
    type V = SpaceEntryView;

    open spec fn view(&self) -> SpaceEntryView {
        SpaceEntryView { label_prefix: self.label_prefix@, id: self.id@ }
    }
}

impl DeepView for SpaceEntry {
    type V = SpaceEntryView;

    open spec fn deep_view(&self) -> SpaceEntryView {
        self@
    }
}

/// The entries of the records that have a label with text in it, in their
/// order.
pub open spec fn usable_entries(records: Seq<SpaceRecordView>) -> Seq<SpaceEntryView>
    decreases records.len(),
{
    if records.len() == 0 {
        Seq::empty()
    } else {
        let before = usable_entries(records.drop_last());
        match records.last().space_label {
            Some(label) if label.len() > 0 => before.push(
                SpaceEntryView { label_prefix: label, id: records.last().id },
            ),
            _ => before,
        }
    }
}

/// Makes the registry of what was fetched: records without a label, or with an
/// empty one, are left out.
pub fn load_spaces(records: &Vec<SpaceRecord>) -> (spaces: Vec<SpaceEntry>)
    ensures
        spaces.deep_view() == usable_entries(records.deep_view()),
{
    let mut spaces: Vec<SpaceEntry> = Vec::new();
    let mut i: usize = 0;
    while i < records.len()
        invariant
            i <= records.len(),
            spaces.deep_view() == usable_entries(records.deep_view().take(i as int)),
        decreases records.len() - i,
    {
        let ghost before = spaces.deep_view();
        proof {
            let all = records.deep_view();
            assert(all.take(i + 1).drop_last() == all.take(i as int));
            assert(all.take(i + 1).last() == records[i as int]@);
        }
        match &records[i].space_label {
            Some(label) => {
                if !label.as_str().is_empty() {
                    let id = records[i].id.clone();
                    let entry = SpaceEntry { label_prefix: label.clone(), id };
                    spaces.push(entry);
                    assert(spaces.deep_view() == before.push(entry@));
                }
            },
            None => {},
        }
        i += 1;
    }
    proof {
        assert(records.deep_view().take(i as int) == records.deep_view());
    }
    spaces
}

/// The bytes that a URL holds as they are: letters, digits, and `-`, `.`, `_`,
/// `~`.
pub open spec fn is_unreserved(byte: u8) -> bool {
    ||| 0x30 <= byte <= 0x39
    ||| 0x41 <= byte <= 0x5a
    ||| 0x61 <= byte <= 0x7a
    ||| byte == 0x2d
    ||| byte == 0x2e
    ||| byte == 0x5f
    ||| byte == 0x7e
}

/// The character that writes a hexadecimal digit, in upper case.
pub open spec fn hex_digit(value: int) -> char {
    if value < 10 {
        digit_char(value)
    } else if value == 10 {
        'A'
    } else if value == 11 {
        'B'
    } else if value == 12 {
        'C'
    } else if value == 13 {
        'D'
    } else if value == 14 {
        'E'
    } else {
        'F'
    }
}

/// One byte as a URL holds it: itself, or a percent sign and its two
/// hexadecimal digits.
pub open spec fn encoded_byte(byte: u8) -> Seq<char> {
    if is_unreserved(byte) {
        seq![byte as char]
    } else {
        seq!['%', hex_digit(byte as int / 16), hex_digit(byte as int % 16)]
    }
}

/// The bytes, each as a URL holds it.
pub open spec fn percent_encoded(bytes: Seq<u8>) -> Seq<char>
    decreases bytes.len(),
{
    if bytes.len() == 0 {
        Seq::empty()
    } else {
        percent_encoded(bytes.drop_last()) + encoded_byte(bytes.last())
    }
}

/// urlencoding's `encode`: the UTF-8 bytes of the text, each one that is not a
/// letter, a digit or one of `-`, `.`, `_`, `~` written as a percent sign and
/// two upper-case hexadecimal digits.
#[verifier::external_body]
fn percent_encode(text: &str) -> (encoded: String)
    ensures
        encoded@ == percent_encoded(encode_utf8(text@)),
{
    urlencoding::encode(text).into_owned()
}

/// The first entry whose label the location begins with.
pub open spec fn matching_entry(location: Seq<char>, spaces: Seq<SpaceEntryView>) -> Option<
    SpaceEntryView,
>
    decreases spaces.len(),
{
    if spaces.len() == 0 {
        None
    } else if spaces[0].label_prefix.is_prefix_of(location) {
        Some(spaces[0])
    } else {
        matching_entry(location, spaces.drop_first())
    }
}

/// The link for a location: the page of the first registered space whose label
/// the location begins with, else a map search for the location's whole text.
pub open spec fn url_of(location: Seq<char>, spaces: Seq<SpaceEntryView>) -> Seq<char> {
    match matching_entry(location, spaces) {
        Some(entry) => SPACE_URL_BASE@ + percent_encoded(encode_utf8(entry.id)),
        None => MAP_SEARCH_URL@ + percent_encoded(encode_utf8(location)),
    }
}

/// The link for a location.
pub fn url_for(location: &str, spaces: &Vec<SpaceEntry>) -> (url: String)
    ensures
        url@ == url_of(location@, spaces.deep_view()),
{
    let mut i: usize = 0;
    assert(spaces.deep_view().skip(0) == spaces.deep_view());
    while i < spaces.len()
        invariant
            i <= spaces.len(),
            matching_entry(location@, spaces.deep_view()) == matching_entry(
                location@,
                spaces.deep_view().skip(i as int),
            ),
        decreases spaces.len() - i,
    {
        proof {
            let rest = spaces.deep_view().skip(i as int);
            assert(rest[0] == spaces[i as int]@);
            assert(rest.drop_first() == spaces.deep_view().skip(i + 1));
        }
        if starts_with(location, spaces[i].label_prefix.as_str()) {
            let mut url = String::from_str(SPACE_URL_BASE);
            url.append(percent_encode(spaces[i].id.as_str()).as_str());
            return url;
        }
        i += 1;
    }
    let mut url = String::from_str(MAP_SEARCH_URL);
    url.append(percent_encode(location).as_str());
    url
}

/// The entry at `at` is the first one whose label the location begins with.
pub open spec fn is_first_match(location: Seq<char>, spaces: Seq<SpaceEntryView>, at: int) -> bool {
    &&& 0 <= at < spaces.len()
    &&& spaces[at].label_prefix.is_prefix_of(location)
    &&& forall|before: int|
        0 <= before < at ==> !(#[trigger] spaces[before]).label_prefix.is_prefix_of(location)
}

/// The first match wins: the entry that is found is the earliest one whose
/// label the location begins with, and none is found only where no label is
/// such a beginning.
pub proof fn law_first_match_wins(location: Seq<char>, spaces: Seq<SpaceEntryView>)
    ensures
        match matching_entry(location, spaces) {
            Some(entry) => exists|at: int| #[trigger]
                is_first_match(location, spaces, at) && spaces[at] == entry,
            None => forall|at: int|
                0 <= at < spaces.len() ==> !(#[trigger] spaces[at]).label_prefix.is_prefix_of(
                    location,
                ),
        },
    decreases spaces.len(),
{
    if spaces.len() == 0 {
    } else if spaces[0].label_prefix.is_prefix_of(location) {
        assert(is_first_match(location, spaces, 0));
    } else {
        let rest = spaces.drop_first();
        law_first_match_wins(location, rest);
        match matching_entry(location, rest) {
            Some(entry) => {
                let at = choose|at: int| #[trigger]
                    is_first_match(location, rest, at) && rest[at] == entry;
                assert forall|before: int| 0 <= before < at + 1 implies !(
                #[trigger] spaces[before]).label_prefix.is_prefix_of(location) by {
                    if before > 0 {
                        assert(spaces[before] == rest[before - 1]);
                    }
                }
                assert(spaces[at + 1] == rest[at]);
                assert(is_first_match(location, spaces, at + 1));
            },
            None => {
                assert forall|at: int| 0 <= at < spaces.len() implies !(
                #[trigger] spaces[at]).label_prefix.is_prefix_of(location) by {
                    if at > 0 {
                        assert(spaces[at] == rest[at - 1]);
                    }
                }
            },
        }
    }
}

/// A character that a URL holds as it is, or the percent sign.
pub open spec fn is_url_character(c: char) -> bool {
    ||| '0' <= c <= '9'
    ||| 'A' <= c <= 'Z'
    ||| 'a' <= c <= 'z'
    ||| c == '-'
    ||| c == '.'
    ||| c == '_'
    ||| c == '~'
    ||| c == '%'
}

/// Percent-encoded text holds nothing but letters, digits, `-`, `.`, `_`, `~`
/// and `%`, whatever the bytes were.
pub proof fn law_encoded_is_url_text(bytes: Seq<u8>, i: int)
    requires
        0 <= i < percent_encoded(bytes).len(),
    ensures
        is_url_character(percent_encoded(bytes)[i]),
    decreases bytes.len(),
{
    let front = percent_encoded(bytes.drop_last());
    if i < front.len() {
        law_encoded_is_url_text(bytes.drop_last(), i);
    } else {
        let byte = bytes.last();
        let last = encoded_byte(byte);
        assert(percent_encoded(bytes)[i] == last[i - front.len()]);
        if is_unreserved(byte) {
            assert(last[0] == byte as char);
        }
    }
}

} // verus!
