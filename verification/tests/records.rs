use vaffelbot::domain::{Enrollment, QueueEntry};
use vaffelbot::infrastructure::queue_key;
use vaffelbot::infrastructure::records::{
    decode_entry, decode_popped, decode_records, encode_entry, frame_record, position_of, refusal,
};

fn entry(user_id: &str, display_name: &str) -> QueueEntry {
    QueueEntry::new(user_id.to_string(), display_name.to_string())
}

fn record(user_id: &str, display_name: &str) -> String {
    format!("{{\"user_id\":\"{user_id}\",\"display_name\":\"{display_name}\"}}")
}

#[test]
fn the_key_of_a_guild() {
    assert_eq!(queue_key("1234"), "queue:1234");
    assert_eq!(queue_key(""), "queue:");
}

#[test]
fn an_entry_is_written_as_a_json_object() {
    assert_eq!(
        encode_entry(&entry("foo", "Foo User")),
        "{\"user_id\":\"foo\",\"display_name\":\"Foo User\"}"
    );
}

#[test]
fn what_json_cannot_hold_is_escaped() {
    assert_eq!(
        encode_entry(&entry("a\"b", "line\nbreak \\ tab\t")),
        "{\"user_id\":\"a\\\"b\",\"display_name\":\"line\\nbreak \\\\ tab\\t\"}"
    );
}

#[test]
fn a_record_is_framed_from_its_two_fields() {
    assert_eq!(frame_record("\"u\"", "\"n\""), "{\"user_id\":\"u\",\"display_name\":\"n\"}");
    assert_eq!(frame_record("", ""), "{\"user_id\":,\"display_name\":}");
}

#[test]
fn a_record_is_read_back() {
    assert_eq!(decode_entry(&record("foo", "Foo User")), Some(entry("foo", "Foo User")));
    assert_eq!(
        decode_entry("{ \"display_name\" : \"B\\u00e5rd\", \"extra\": [1, 2], \"user_id\" : \"7\" }"),
        Some(entry("7", "Bård"))
    );
}

#[test]
fn what_is_written_is_read_back() {
    for e in [entry("1", "plain"), entry("a\"b", "x\\y\n"), entry("", ""), entry("ø", "🧇")] {
        let written = encode_entry(&e);
        assert_eq!(decode_entry(&written), Some(e));
    }
}

#[test]
fn a_malformed_record_stands_for_nothing() {
    assert_eq!(decode_entry(""), None);
    assert_eq!(decode_entry("foo"), None);
    assert_eq!(decode_entry("{\"user_id\":\"foo\"}"), None);
    assert_eq!(decode_entry("{\"display_name\":\"Foo\"}"), None);
    assert_eq!(decode_entry("{\"user_id\":7,\"display_name\":\"Foo\"}"), None);
    assert_eq!(decode_entry("{\"user_id\":\"foo\",\"display_name\":null}"), None);
    assert_eq!(decode_entry("[\"foo\",\"Foo\"]"), None);
    assert_eq!(decode_entry("\"foo\""), None);
    assert_eq!(decode_entry("{\"user_id\":\"foo\",\"display_name\":\"Foo\"} trailing"), None);
}

#[test]
fn malformed_records_are_left_out_and_noted() {
    let records = vec![
        record("a", "A"),
        "garbage".to_string(),
        record("b", "B"),
        "{}".to_string(),
    ];
    let read = decode_records(&records);
    assert_eq!(read.entries, vec![entry("a", "A"), entry("b", "B")]);
    assert_eq!(read.malformed, vec![1, 3]);
}

#[test]
fn no_records_hold_no_entries() {
    let read = decode_records(&vec![]);
    assert_eq!(read.entries, vec![]);
    assert_eq!(read.malformed, Vec::<usize>::new());
}

#[test]
fn the_place_of_a_user_counts_every_record() {
    let records = vec![
        "garbage".to_string(),
        record("a", "A"),
        record("b", "B"),
        record("a", "again"),
    ];
    assert_eq!(position_of(&records, "a"), Some(1));
    assert_eq!(position_of(&records, "b"), Some(2));
    assert_eq!(position_of(&records, "c"), None);
    assert_eq!(position_of(&records, "garbage"), None);
    assert_eq!(position_of(&vec![], "a"), None);
}

#[test]
fn a_removed_record_is_read() {
    assert_eq!(decode_popped(vec![record("a", "A")]), Some(entry("a", "A")));
    assert_eq!(decode_popped(vec![]), None);
    assert_eq!(decode_popped(vec!["garbage".to_string()]), None);
}

#[test]
fn every_text_can_be_written() {
    for text in ["", "\u{0}\u{1f}\u{7f}", "\u{10ffff}", "\\\"\\", "\r\n\t\u{8}\u{c}"] {
        let e = entry(text, text);
        assert_eq!(decode_entry(&encode_entry(&e)), Some(e));
    }
}

#[test]
fn where_every_record_is_read_places_are_those_of_the_entries() {
    let records = vec![record("a", "A"), record("b", "B"), record("a", "again")];
    let read = decode_records(&records);
    assert_eq!(read.malformed, Vec::<usize>::new());
    for user in ["a", "b", "c"] {
        assert_eq!(
            position_of(&records, user),
            read.entries.iter().position(|e| e.user_id == user)
        );
    }
}

#[test]
fn an_array_or_a_repeated_name_is_read_as_json_reads_it() {
    assert_eq!(decode_entry("[\"foo\",\"Foo\"]"), None);
    assert_eq!(
        decode_entry("{\"user_id\":\"a\",\"display_name\":\"A\",\"user_id\":\"b\"}"),
        Some(entry("b", "A"))
    );
}

#[test]
fn a_request_to_join_is_refused_or_not() {
    let records = vec!["garbage".to_string(), record("a", "A"), record("b", "B")];
    assert_eq!(refusal(false, &records, "a"), Some(Enrollment::Closed));
    assert_eq!(refusal(false, &records, "c"), Some(Enrollment::Closed));
    assert_eq!(refusal(false, &vec![], "c"), Some(Enrollment::Closed));
    assert_eq!(refusal(true, &records, "a"), Some(Enrollment::AlreadyPresent(1)));
    assert_eq!(refusal(true, &records, "b"), Some(Enrollment::AlreadyPresent(2)));
    assert_eq!(refusal(true, &records, "c"), None);
    assert_eq!(refusal(true, &vec![], "a"), None);
}
