use time_hedge::codec::{encode_state, load_from_text, parse_state};
use time_hedge::state::{Mode, State};

#[test]
fn encode_writes_the_exact_record() {
    let s = State { balance: -900_000, mode: Mode::Idle, start_time: 1_700_000_000_000 };
    assert_eq!(
        encode_state(&s),
        "{\"balance\":-900000,\"mode\":\"IDLE\",\"start_time\":1700000000000}".to_string()
    );
    let d = State { balance: 0, mode: Mode::Work, start_time: 0 };
    assert_eq!(encode_state(&d), "{\"balance\":0,\"mode\":\"WORK\",\"start_time\":0}".to_string());
}

#[test]
fn round_trip_reproduces_every_field() {
    let states = [
        State { balance: 0, mode: Mode::Idle, start_time: 0 },
        State { balance: 5_400_000, mode: Mode::Work, start_time: 1_700_000_000_123 },
        State { balance: -1, mode: Mode::Research, start_time: 42 },
        State { balance: i64::MAX, mode: Mode::Work, start_time: i64::MAX },
        State { balance: i64::MIN, mode: Mode::Research, start_time: -7 },
    ];
    for s in states.iter() {
        let text = encode_state(s);
        assert_eq!(parse_state(text.as_str()), Some(*s));
        assert_eq!(load_from_text(text.as_str()), *s);
    }
}

#[test]
fn corrupt_content_falls_back_to_default() {
    let default = State { balance: 0, mode: Mode::Idle, start_time: 0 };
    let bad = [
        "",
        "garbage",
        "{}",
        "{\"balance\":,\"mode\":\"IDLE\",\"start_time\":0}",
        "{\"balance\":1.5,\"mode\":\"IDLE\",\"start_time\":0}",
        "{\"balance\":1,\"mode\":\"NAP\",\"start_time\":0}",
        "{\"balance\":1,\"mode\":\"IDLE\",\"start_time\":}",
        "{\"balance\":1,\"mode\":\"IDLE\",\"start_time\":2",
        "{\"start_time\":2,\"mode\":\"IDLE\",\"balance\":1}",
        "{\"balance\": 1,\"mode\":\"IDLE\",\"start_time\":2}",
        "{\"balance\":1,\"mode\":\"IDLE\",\"start_time\":2}trailing",
    ];
    for text in bad.iter() {
        assert_eq!(parse_state(text), None);
        assert_eq!(load_from_text(text), default);
    }
}

#[test]
fn non_canonical_numbers_are_rejected() {
    // A reader that accepted these could not promise an exact round trip.
    assert_eq!(parse_state("{\"balance\":007,\"mode\":\"IDLE\",\"start_time\":0}"), None);
    assert_eq!(parse_state("{\"balance\":-0,\"mode\":\"IDLE\",\"start_time\":0}"), None);
    assert_eq!(parse_state("{\"balance\":+1,\"mode\":\"IDLE\",\"start_time\":0}"), None);
    assert_eq!(
        parse_state("{\"balance\":9223372036854775808,\"mode\":\"IDLE\",\"start_time\":0}"),
        None
    );
    assert_eq!(
        parse_state("{\"balance\":-9223372036854775809,\"mode\":\"IDLE\",\"start_time\":0}"),
        None
    );
}

#[test]
fn extreme_integers_parse_exactly() {
    assert_eq!(
        parse_state("{\"balance\":9223372036854775807,\"mode\":\"IDLE\",\"start_time\":0}"),
        Some(State { balance: i64::MAX, mode: Mode::Idle, start_time: 0 })
    );
    assert_eq!(
        parse_state("{\"balance\":-9223372036854775808,\"mode\":\"IDLE\",\"start_time\":0}"),
        Some(State { balance: i64::MIN, mode: Mode::Idle, start_time: 0 })
    );
}

#[test]
fn save_load_save_is_stable() {
    // Loading whatever was saved and saving again writes the same bytes.
    let s = State { balance: -123_456_789, mode: Mode::Research, start_time: 987_654_321 };
    let text = encode_state(&s);
    let loaded = load_from_text(text.as_str());
    assert_eq!(encode_state(&loaded), text);
}
