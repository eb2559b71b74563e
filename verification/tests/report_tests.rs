use alive_boi::report::{Status, StatusReport};
use alive_boi::timestamp::Timestamp;

fn new_year_2024() -> Timestamp {
    Timestamp::new(2024, 1, 1, 0, 0, 0, 0, 0).unwrap()
}

fn text(bytes: &[u8]) -> String {
    String::from_utf8(bytes.to_vec()).unwrap()
}

fn report(unit_name: &str, status: Status, start_time: Timestamp) -> StatusReport {
    StatusReport::new(unit_name.to_string(), status, start_time)
}

#[test]
fn report_keeps_its_fields() {
    let made = report("sensor-7", Status::Reconnected, new_year_2024());
    assert_eq!(made.unit_name, "sensor-7");
    assert_eq!(made.status, Status::Reconnected);
    assert_eq!(made.start_time, new_year_2024());
}

#[test]
fn status_names_are_those_of_the_variants() {
    assert_eq!(Status::Alive.as_str(), "Alive");
    assert_eq!(Status::Reconnected.as_str(), "Reconnected");
    assert_eq!(Status::Dead.as_str(), "Dead");
}

#[test]
fn encode_writes_the_three_fields_in_order() {
    let dead = report("sensor-7", Status::Dead, new_year_2024());
    assert_eq!(
        text(&dead.encode()),
        "{\"unit_name\":\"sensor-7\",\"status\":\"Dead\",\"start_time\":\"2024-01-01T00:00:00Z\"}"
    );
}

#[test]
fn encode_names_each_status() {
    let alive = report("sensor-7", Status::Alive, new_year_2024());
    assert_eq!(
        text(&alive.encode()),
        "{\"unit_name\":\"sensor-7\",\"status\":\"Alive\",\"start_time\":\"2024-01-01T00:00:00Z\"}"
    );
    let reconnected = report("sensor-7", Status::Reconnected, new_year_2024());
    assert_eq!(
        text(&reconnected.encode()),
        "{\"unit_name\":\"sensor-7\",\"status\":\"Reconnected\",\"start_time\":\"2024-01-01T00:00:00Z\"}"
    );
}

#[test]
fn encode_writes_local_time_with_its_offset() {
    let start = Timestamp::new(2024, 6, 30, 18, 45, 12, 345_678_000, 120).unwrap();
    let alive = report("pump", Status::Alive, start);
    assert_eq!(
        text(&alive.encode()),
        "{\"unit_name\":\"pump\",\"status\":\"Alive\",\"start_time\":\"2024-06-30T18:45:12.345678+02:00\"}"
    );
}

#[test]
fn encode_escapes_the_name_of_the_unit() {
    let odd = report("a\"b\\c\n\u{01}", Status::Alive, new_year_2024());
    assert_eq!(
        text(&odd.encode()),
        "{\"unit_name\":\"a\\\"b\\\\c\\n\\u0001\",\"status\":\"Alive\",\"start_time\":\"2024-01-01T00:00:00Z\"}"
    );
}

#[test]
fn encode_takes_an_empty_name() {
    let nameless = report("", Status::Dead, new_year_2024());
    assert_eq!(
        text(&nameless.encode()),
        "{\"unit_name\":\"\",\"status\":\"Dead\",\"start_time\":\"2024-01-01T00:00:00Z\"}"
    );
}

#[test]
fn encode_gives_the_same_bytes_each_time() {
    let alive = report("sensor-7", Status::Alive, new_year_2024());
    assert_eq!(alive.encode(), alive.encode());
    assert_eq!(alive.encode(), alive.clone().encode());
}

#[test]
fn encode_is_json_that_holds_the_three_fields() {
    let start = Timestamp::new(2024, 6, 30, 18, 45, 12, 5_000_000, -210).unwrap();
    let names = ["sensor-7", "", "a\"b\\c", "line\nbreak\ttab", "\u{00}\u{1f}", "日本 🦀 é"];
    for name in names {
        for status in [Status::Alive, Status::Reconnected, Status::Dead] {
            let bytes = report(name, status, start).encode();
            let value: serde_json::Value = serde_json::from_slice(&bytes).unwrap();
            let object = value.as_object().unwrap();
            assert_eq!(object.len(), 3);
            assert_eq!(object.get("unit_name").unwrap().as_str(), Some(name));
            assert_eq!(object.get("status").unwrap().as_str(), Some(status.as_str()));
            assert_eq!(
                object.get("start_time").unwrap().as_str(),
                Some("2024-06-30T18:45:12.005-03:30")
            );
        }
    }
}

#[test]
fn encode_writes_a_start_time_that_chrono_reads() {
    let start = Timestamp::new(2024, 6, 30, 18, 45, 12, 5_000_000, -210).unwrap();
    let bytes = report("sensor-7", Status::Alive, start).encode();
    let value: serde_json::Value = serde_json::from_slice(&bytes).unwrap();
    let written = value.get("start_time").unwrap().as_str().unwrap();
    let read = chrono::DateTime::parse_from_rfc3339(written).unwrap();
    assert_eq!(read.timestamp(), 1_719_785_712);
    assert_eq!(read.timestamp_subsec_nanos(), 5_000_000);
    assert_eq!(read.offset().local_minus_utc(), -210 * 60);
}

#[test]
fn decode_gives_back_what_encode_took() {
    let alive = report("sensor-7", Status::Alive, new_year_2024());
    assert_eq!(StatusReport::decode(&alive.encode()), Some(alive));
}

#[test]
fn decode_gives_back_every_field() {
    let starts = [
        new_year_2024(),
        Timestamp::new(0, 1, 1, 0, 0, 0, 0, -1439).unwrap(),
        Timestamp::new(9999, 12, 31, 23, 59, 60, 999_999_999, 1439).unwrap(),
        Timestamp::new(2024, 2, 29, 12, 0, 0, 500_000_000, 60).unwrap(),
        Timestamp::new(2024, 2, 29, 12, 0, 0, 500_000, -60).unwrap(),
        Timestamp::new(2024, 2, 29, 12, 0, 0, 500, 1).unwrap(),
    ];
    let names = [
        "sensor-7",
        "",
        "a\"b\\c",
        "\"",
        "\\",
        "\\\"",
        "\u{00}\u{01}\u{08}\t\n\u{0b}\u{0c}\r\u{1f}",
        "日本 🦀 é \u{7f}",
        "\",\"status\":\"Dead",
    ];
    for start in starts {
        for name in names {
            for status in [Status::Alive, Status::Reconnected, Status::Dead] {
                let made = report(name, status, start);
                let back = StatusReport::decode(&made.encode()).unwrap();
                assert_eq!(back.unit_name, name);
                assert_eq!(back.status, status);
                assert_eq!(back.start_time, start);
            }
        }
    }
}

#[test]
fn decode_reads_the_encoded_form() {
    let bytes =
        b"{\"unit_name\":\"sensor-7\",\"status\":\"Reconnected\",\"start_time\":\"2024-01-01T00:00:00.250+01:00\"}";
    let expected = report(
        "sensor-7",
        Status::Reconnected,
        Timestamp::new(2024, 1, 1, 0, 0, 0, 250_000_000, 60).unwrap(),
    );
    assert_eq!(StatusReport::decode(bytes), Some(expected));
}

#[test]
fn decode_refuses_what_is_no_report() {
    assert_eq!(StatusReport::decode(b""), None);
    assert_eq!(StatusReport::decode(b"{}"), None);
    assert_eq!(StatusReport::decode(b"null"), None);
    assert_eq!(StatusReport::decode(b"{\"unit_name\":\"sensor-7\"}"), None);
    assert_eq!(
        StatusReport::decode(b"{\"unit_name\":\"sensor-7\",\"status\":\"Dead\"}"),
        None
    );
}

#[test]
fn decode_refuses_a_status_that_it_does_not_know() {
    assert_eq!(
        StatusReport::decode(
            b"{\"unit_name\":\"sensor-7\",\"status\":\"Asleep\",\"start_time\":\"2024-01-01T00:00:00Z\"}"
        ),
        None
    );
    assert_eq!(
        StatusReport::decode(
            b"{\"unit_name\":\"sensor-7\",\"status\":\"dead\",\"start_time\":\"2024-01-01T00:00:00Z\"}"
        ),
        None
    );
    assert_eq!(
        StatusReport::decode(
            b"{\"unit_name\":\"sensor-7\",\"status\":\"Deadly\",\"start_time\":\"2024-01-01T00:00:00Z\"}"
        ),
        None
    );
}

#[test]
fn decode_refuses_a_start_time_that_is_no_moment() {
    assert_eq!(
        StatusReport::decode(
            b"{\"unit_name\":\"sensor-7\",\"status\":\"Dead\",\"start_time\":\"2023-02-29T00:00:00Z\"}"
        ),
        None
    );
    assert_eq!(
        StatusReport::decode(
            b"{\"unit_name\":\"sensor-7\",\"status\":\"Dead\",\"start_time\":\"yesterday\"}"
        ),
        None
    );
}

#[test]
fn decode_refuses_bytes_that_encode_would_not_write() {
    // A space behind a colon.
    assert_eq!(
        StatusReport::decode(
            b"{\"unit_name\": \"sensor-7\",\"status\":\"Dead\",\"start_time\":\"2024-01-01T00:00:00Z\"}"
        ),
        None
    );
    // The fields in another order.
    assert_eq!(
        StatusReport::decode(
            b"{\"status\":\"Dead\",\"unit_name\":\"sensor-7\",\"start_time\":\"2024-01-01T00:00:00Z\"}"
        ),
        None
    );
    // Bytes behind the object.
    assert_eq!(
        StatusReport::decode(
            b"{\"unit_name\":\"sensor-7\",\"status\":\"Dead\",\"start_time\":\"2024-01-01T00:00:00Z\"}\n"
        ),
        None
    );
    // A fourth field.
    assert_eq!(
        StatusReport::decode(
            b"{\"unit_name\":\"sensor-7\",\"status\":\"Dead\",\"start_time\":\"2024-01-01T00:00:00Z\",\"v\":1}"
        ),
        None
    );
    // UTC written as an offset.
    assert_eq!(
        StatusReport::decode(
            b"{\"unit_name\":\"sensor-7\",\"status\":\"Dead\",\"start_time\":\"2024-01-01T00:00:00+00:00\"}"
        ),
        None
    );
    // A fraction longer than it need be.
    assert_eq!(
        StatusReport::decode(
            b"{\"unit_name\":\"sensor-7\",\"status\":\"Dead\",\"start_time\":\"2024-01-01T00:00:00.500000Z\"}"
        ),
        None
    );
    // A fraction of nothing.
    assert_eq!(
        StatusReport::decode(
            b"{\"unit_name\":\"sensor-7\",\"status\":\"Dead\",\"start_time\":\"2024-01-01T00:00:00.000Z\"}"
        ),
        None
    );
    // An escape where none is needed.
    assert_eq!(
        StatusReport::decode(
            b"{\"unit_name\":\"sensor\\u002d7\",\"status\":\"Dead\",\"start_time\":\"2024-01-01T00:00:00Z\"}"
        ),
        None
    );
    // A line feed written in hexadecimal.
    assert_eq!(
        StatusReport::decode(
            b"{\"unit_name\":\"a\\u000ab\",\"status\":\"Dead\",\"start_time\":\"2024-01-01T00:00:00Z\"}"
        ),
        None
    );
    // A control byte left as it is.
    assert_eq!(
        StatusReport::decode(
            b"{\"unit_name\":\"a\nb\",\"status\":\"Dead\",\"start_time\":\"2024-01-01T00:00:00Z\"}"
        ),
        None
    );
}

#[test]
fn decode_refuses_a_name_that_is_not_utf8() {
    let mut bytes = b"{\"unit_name\":\"".to_vec();
    bytes.push(0xff);
    bytes.extend_from_slice(b"\",\"status\":\"Dead\",\"start_time\":\"2024-01-01T00:00:00Z\"}");
    assert_eq!(StatusReport::decode(&bytes), None);
    let mut cut = b"{\"unit_name\":\"".to_vec();
    cut.extend_from_slice(&[0xe6, 0x97]);
    cut.extend_from_slice(b"\",\"status\":\"Dead\",\"start_time\":\"2024-01-01T00:00:00Z\"}");
    assert_eq!(StatusReport::decode(&cut), None);
}

#[test]
fn decode_tells_reports_apart() {
    let first = report("sensor-7", Status::Alive, new_year_2024());
    let other_name = report("sensor-8", Status::Alive, new_year_2024());
    let other_status = report("sensor-7", Status::Dead, new_year_2024());
    let other_start =
        report("sensor-7", Status::Alive, Timestamp::new(2024, 1, 1, 0, 0, 0, 1, 0).unwrap());
    assert_ne!(first.encode(), other_name.encode());
    assert_ne!(first.encode(), other_status.encode());
    assert_ne!(first.encode(), other_start.encode());
}

fn with_start_time(start_time: &str) -> Vec<u8> {
    format!(
        "{{\"unit_name\":\"sensor-7\",\"status\":\"Alive\",\"start_time\":\"{start_time}\"}}"
    )
    .into_bytes()
}

fn with_unit_name(literal: &str) -> Vec<u8> {
    format!(
        "{{\"unit_name\":{literal},\"status\":\"Alive\",\"start_time\":\"2024-01-01T00:00:00Z\"}}"
    )
    .into_bytes()
}

#[test]
fn decode_reads_each_form_of_fraction() {
    let cases = [
        ("2024-01-01T00:00:00Z", 0),
        ("2024-01-01T00:00:00.120Z", 120_000_000),
        ("2024-01-01T00:00:00.000120Z", 120_000),
        ("2024-01-01T00:00:00.000000120Z", 120),
        ("2024-01-01T00:00:00.999999999Z", 999_999_999),
    ];
    for (text, nanosecond) in cases {
        let report = StatusReport::decode(&with_start_time(text)).unwrap();
        assert_eq!(
            report.start_time,
            Timestamp::new(2024, 1, 1, 0, 0, 0, nanosecond, 0).unwrap()
        );
    }
}

#[test]
fn decode_reads_either_sign_of_offset() {
    let ahead = StatusReport::decode(&with_start_time("2024-01-01T00:00:00+05:45")).unwrap();
    assert_eq!(ahead.start_time, Timestamp::new(2024, 1, 1, 0, 0, 0, 0, 345).unwrap());
    let behind = StatusReport::decode(&with_start_time("2024-01-01T00:00:00-09:30")).unwrap();
    assert_eq!(behind.start_time, Timestamp::new(2024, 1, 1, 0, 0, 0, 0, -570).unwrap());
}

#[test]
fn decode_refuses_a_broken_start_time() {
    let broken = [
        "",
        "2024-01-01T00:00:00",
        "2024-01-01 00:00:00Z",
        "2024/01/01T00:00:00Z",
        "2024-01-01T00.00.00Z",
        "2024-1-01T00:00:00Z",
        "20x4-01-01T00:00:00Z",
        "2024-01-01T00:00:00.Z",
        "2024-01-01T00:00:00.12Z",
        "2024-01-01T00:00:00.1234Z",
        "2024-01-01T00:00:00+0100",
        "2024-01-01T00:00:00+01:0",
        "2024-01-01T00:00:00z",
        "2024-01-01T00:00:00ZZ",
        " 2024-01-01T00:00:00Z",
    ];
    for text in broken {
        assert_eq!(StatusReport::decode(&with_start_time(text)), None);
    }
}

#[test]
fn decode_refuses_fields_that_make_no_moment() {
    let wrong = [
        "2023-02-29T00:00:00Z",
        "2024-13-01T00:00:00Z",
        "2024-00-01T00:00:00Z",
        "2024-01-00T00:00:00Z",
        "2024-04-31T00:00:00Z",
        "2024-01-01T24:00:00Z",
        "2024-01-01T00:60:00Z",
        "2024-01-01T00:00:61Z",
        "2024-01-01T00:00:00+24:00",
        "2024-01-01T00:00:00-23:60",
        "2024-01-01T00:00:00-00:00",
    ];
    for text in wrong {
        assert_eq!(StatusReport::decode(&with_start_time(text)), None);
    }
}

#[test]
fn decode_undoes_each_escape() {
    let cases: [(&str, &str); 8] = [
        ("\"\\\"\"", "\""),
        ("\"\\\\\"", "\\"),
        ("\"\\b\"", "\u{08}"),
        ("\"\\t\"", "\t"),
        ("\"\\n\"", "\n"),
        ("\"\\f\"", "\u{0c}"),
        ("\"\\r\"", "\r"),
        ("\"\\u0000\\u001f\\u000b\"", "\u{00}\u{1f}\u{0b}"),
    ];
    for (literal, name) in cases {
        let report = StatusReport::decode(&with_unit_name(literal)).unwrap();
        assert_eq!(report.unit_name, name);
    }
}

#[test]
fn decode_refuses_escapes_that_encode_does_not_write() {
    let literals = [
        "\"\\x\"",
        "\"\\/\"",
        "\"\\u12\"",
        "\"\\u0100\"",
        "\"\\u00g0\"",
        "\"\\u001F\"",
        "\"\\u0041\"",
        "\"\\u0008\"",
        "\"\\u0022\"",
        "\"\\",
        "\"abc",
        "abc\"",
        "abc",
    ];
    for literal in literals {
        assert_eq!(StatusReport::decode(&with_unit_name(literal)), None);
    }
}
