use event_feed::location::{load_spaces, url_for, SpaceEntry, SpaceRecord};

fn entry(label: &str, id: &str) -> SpaceEntry {
    SpaceEntry { label_prefix: label.to_string(), id: id.to_string() }
}

#[test]
fn a_registered_space_gives_the_link_of_its_id() {
    let spaces = vec![entry("ABC", "7")];
    let url = url_for("ABC123", &spaces);
    assert_eq!(url, "https://osm.org/node/7");
    assert!(url.contains("7"));
}

#[test]
fn an_unregistered_place_gives_a_map_search() {
    let url = url_for("ZZZ", &Vec::new());
    assert_eq!(url, "https://osm.org/search?query=ZZZ");
}

#[test]
fn the_map_search_holds_the_place_percent_encoded() {
    assert_eq!(
        url_for("Test Location", &Vec::new()),
        "https://osm.org/search?query=Test%20Location"
    );
    assert_eq!(
        url_for("K\u{e4}pyl\u{e4} & co/2?", &Vec::new()),
        "https://osm.org/search?query=K%C3%A4pyl%C3%A4%20%26%20co%2F2%3F"
    );
    assert_eq!(url_for("a-b_c.d~e", &Vec::new()), "https://osm.org/search?query=a-b_c.d~e");
    assert_eq!(url_for("", &Vec::new()), "https://osm.org/search?query=");
}

#[test]
fn the_first_matching_entry_wins() {
    let spaces = vec![entry("XY", "1"), entry("AB", "2"), entry("ABC", "3"), entry("A", "4")];
    assert_eq!(url_for("ABC123", &spaces), "https://osm.org/node/2");
    assert_eq!(url_for("A1", &spaces), "https://osm.org/node/4");
    assert_eq!(url_for("XY", &spaces), "https://osm.org/node/1");
}

#[test]
fn the_prefix_is_matched_letter_for_letter() {
    let spaces = vec![entry("ABC", "7")];
    assert_eq!(url_for("abc123", &spaces), "https://osm.org/search?query=abc123");
    assert_eq!(url_for("AB", &spaces), "https://osm.org/search?query=AB");
    assert_eq!(url_for(" ABC", &spaces), "https://osm.org/search?query=%20ABC");
    assert_eq!(url_for("ABC", &spaces), "https://osm.org/node/7");
}

#[test]
fn a_prefix_of_other_letters_is_matched_by_its_characters() {
    let spaces = vec![entry("K\u{e4}", "9")];
    assert_eq!(url_for("K\u{e4}pyl\u{e4}", &spaces), "https://osm.org/node/9");
    assert_eq!(url_for("Ka", &spaces), "https://osm.org/search?query=Ka");
}

#[test]
fn the_id_of_a_space_is_percent_encoded_in_its_link() {
    let spaces = vec![entry("ABC", "a b/7")];
    assert_eq!(url_for("ABC123", &spaces), "https://osm.org/node/a%20b%2F7");
}

#[test]
fn records_without_a_label_are_left_out() {
    let records = vec![
        SpaceRecord { space_label: Some("ABC".to_string()), id: "7".to_string() },
        SpaceRecord { space_label: None, id: "8".to_string() },
        SpaceRecord { space_label: Some(String::new()), id: "9".to_string() },
        SpaceRecord { space_label: Some("D".to_string()), id: "10".to_string() },
    ];
    let spaces = load_spaces(&records);
    assert_eq!(spaces.len(), 2);
    assert_eq!(spaces[0].label_prefix, "ABC");
    assert_eq!(spaces[0].id, "7");
    assert_eq!(spaces[1].label_prefix, "D");
    assert_eq!(spaces[1].id, "10");
    assert_eq!(url_for("Somewhere", &spaces), "https://osm.org/search?query=Somewhere");
}

#[test]
fn every_byte_is_kept_or_written_in_hexadecimal() {
    let hex = b"0123456789ABCDEF";
    let mut place = String::new();
    let mut expected = String::from("https://osm.org/search?query=");
    for code in 0_u32..0x250 {
        let letter = char::from_u32(code).unwrap();
        place.push(letter);
        let mut bytes = [0_u8; 4];
        for byte in letter.encode_utf8(&mut bytes).bytes() {
            let kept = byte.is_ascii_alphanumeric() || b"-._~".contains(&byte);
            if kept {
                expected.push(byte as char);
            } else {
                expected.push('%');
                expected.push(hex[(byte / 16) as usize] as char);
                expected.push(hex[(byte % 16) as usize] as char);
            }
        }
    }
    assert_eq!(url_for(&place, &Vec::new()), expected);
}
