//! Unit tests for the dispatcher, the decimal reader, the URL builders,
//! the JSON traversal and the location store.

use weatherbot::dispatch::{dispatch_message, Dispatch};
use weatherbot::json::JsonValue;
use weatherbot::num::{ms_to_kmh, parse_fixed, round_to_unit, Fixed};
use weatherbot::store::LocationStore;
use weatherbot::urlenc::{forecast_url, geocode_url, percent_encode_query, weather_url};

// ---------------------------------------------------------------------------
// Dispatcher
// ---------------------------------------------------------------------------
#[test]
fn direct_message_is_ignored() {
    assert!(matches!(dispatch_message(true, "!w London"), Dispatch::Ignore));
    assert!(matches!(dispatch_message(true, "anything at all"), Dispatch::Ignore));
}

#[test]
fn other_commands_are_ignored() {
    assert!(matches!(dispatch_message(false, "hello world"), Dispatch::Ignore));
    assert!(matches!(dispatch_message(false, "!weather London"), Dispatch::Ignore));
    assert!(matches!(dispatch_message(false, "!W London"), Dispatch::Ignore));
}

#[test]
fn empty_message_is_ignored() {
    assert!(matches!(dispatch_message(false, ""), Dispatch::Ignore));
    assert!(matches!(dispatch_message(false, "   \t "), Dispatch::Ignore));
}

#[test]
fn weather_command_extracts_argument() {
    match dispatch_message(false, "!w  New York  ") {
        Dispatch::Weather { args } => assert_eq!(args, "New York"),
        _ => panic!("expected the weather command"),
    }
}

#[test]
fn unicode_whitespace_splits_the_command() {
    match dispatch_message(false, "!w\u{00a0}Paris") {
        Dispatch::Weather { args } => assert_eq!(args, "Paris"),
        _ => panic!("expected the weather command"),
    }
    match dispatch_message(false, "\u{2003}!w Tokyo\u{3000}") {
        Dispatch::Weather { args } => assert_eq!(args, "Tokyo"),
        _ => panic!("expected the weather command"),
    }
}

#[test]
fn bare_weather_command_has_empty_argument() {
    match dispatch_message(false, "!w") {
        Dispatch::Weather { args } => assert_eq!(args, ""),
        _ => panic!("expected the weather command"),
    }
}

// ---------------------------------------------------------------------------
// Decimal texts
// ---------------------------------------------------------------------------
#[test]
fn parse_fixed_whole_and_fraction() {
    assert_eq!(parse_fixed("10"), Some(Fixed { micros: 10_000_000 }));
    assert_eq!(parse_fixed("21.5"), Some(Fixed { micros: 21_500_000 }));
    assert_eq!(parse_fixed("-3.25"), Some(Fixed { micros: -3_250_000 }));
    assert_eq!(parse_fixed("0.93"), Some(Fixed { micros: 930_000 }));
    assert_eq!(parse_fixed("2.3522"), Some(Fixed { micros: 2_352_200 }));
}

#[test]
fn parse_fixed_truncates_below_micros() {
    assert_eq!(parse_fixed("0.1234567"), Some(Fixed { micros: 123_456 }));
}

#[test]
fn parse_fixed_rejects_junk() {
    assert_eq!(parse_fixed(""), None);
    assert_eq!(parse_fixed("-"), None);
    assert_eq!(parse_fixed("1."), None);
    assert_eq!(parse_fixed(".5"), None);
    assert_eq!(parse_fixed("1e5"), None);
    assert_eq!(parse_fixed("12a"), None);
    assert_eq!(parse_fixed("1.2.3"), None);
    assert_eq!(parse_fixed("1234567890"), None); // ten integer digits
}

#[test]
fn rounding_is_to_nearest_with_ties_away() {
    assert_eq!(round_to_unit(&Fixed { micros: 21_500_000 }), 22);
    assert_eq!(round_to_unit(&Fixed { micros: 21_499_999 }), 21);
    assert_eq!(round_to_unit(&Fixed { micros: -21_500_000 }), -22);
    assert_eq!(round_to_unit(&Fixed { micros: 0 }), 0);
}

#[test]
fn wind_conversion_ten_ms_is_thirtysix_kmh() {
    let kmh = ms_to_kmh(&Fixed { micros: 10_000_000 });
    assert_eq!(kmh.micros, 36_000_000);
    assert_eq!(round_to_unit(&kmh), 36);
}

// ---------------------------------------------------------------------------
// URLs
// ---------------------------------------------------------------------------
#[test]
fn percent_encoding_escapes_the_query_set() {
    assert_eq!(percent_encode_query(b"New York"), "New%20York");
    assert_eq!(percent_encode_query(b"a\"b#c<d>e"), "a%22b%23c%3Cd%3Ee");
    assert_eq!(percent_encode_query("M\u{fc}nchen".as_bytes()), "M%C3%BCnchen");
    assert_eq!(percent_encode_query(b"plain-text_1.2"), "plain-text_1.2");
}

#[test]
fn geocode_url_is_exact() {
    assert_eq!(
        geocode_url("New York", "KEY"),
        "https://maps.googleapis.com/maps/api/geocode/json?address=New%20York&key=KEY"
    );
}

#[test]
fn forecast_url_is_exact() {
    assert_eq!(
        forecast_url("KEY", "48.8566", "2.3522"),
        "https://api.forecast.io/forecast/KEY/48.8566,2.3522?units=si"
    );
}

#[test]
fn weather_url_is_exact() {
    assert_eq!(
        weather_url("San Jos\u{e9}", "KEY"),
        "https://api.openweathermap.org/data/2.5/weather?q=San%20Jos%C3%A9&units=metric&appid=KEY"
    );
}

// ---------------------------------------------------------------------------
// JSON traversal
// ---------------------------------------------------------------------------
#[test]
fn find_takes_the_first_matching_key() {
    let obj = JsonValue::Obj(vec![
        ("a".to_string(), JsonValue::Str("one".to_string())),
        ("b".to_string(), JsonValue::Str("two".to_string())),
    ]);
    match obj.find("b") {
        Some(JsonValue::Str(s)) => assert_eq!(s, "two"),
        _ => panic!("expected the string under b"),
    }
    assert!(obj.find("c").is_none());
    assert!(JsonValue::Null.find("a").is_none());
}

#[test]
fn as_number_reads_decimal_text() {
    let n = JsonValue::Num("21.5".to_string());
    assert_eq!(n.as_number(), Some(Fixed { micros: 21_500_000 }));
    let bad = JsonValue::Num("oops".to_string());
    assert_eq!(bad.as_number(), None);
    assert_eq!(JsonValue::Bool(true).as_number(), None);
}

// ---------------------------------------------------------------------------
// Location store
// ---------------------------------------------------------------------------
#[test]
fn empty_store_encodes_as_empty_object() {
    let st = LocationStore::new();
    assert_eq!(st.encode(), "{}");
    assert!(st.get("anyone").is_none());
}

#[test]
fn put_then_get() {
    let mut st = LocationStore::new();
    st.put("alice", "Paris");
    assert_eq!(st.get("alice"), Some(&"Paris".to_string()));
    assert!(st.get("bob").is_none());
}

#[test]
fn last_write_wins() {
    let mut st = LocationStore::new();
    st.put("alice", "Paris");
    st.put("alice", "Tokyo");
    assert_eq!(st.get("alice"), Some(&"Tokyo".to_string()));
    assert_eq!(st.encode(), "{\"alice\":\"Tokyo\"}");
}

#[test]
fn encode_two_entries() {
    let mut st = LocationStore::new();
    st.put("a", "1");
    st.put("b", "2");
    assert_eq!(st.encode(), "{\"a\":\"1\",\"b\":\"2\"}");
}

#[test]
fn round_trip_plain_entries() {
    let mut st = LocationStore::new();
    st.put("alice", "Paris");
    st.put("bob", "New York");
    let text = st.encode();
    let back = LocationStore::decode(&text).expect("the encoded store must decode");
    assert_eq!(back.get("alice"), Some(&"Paris".to_string()));
    assert_eq!(back.get("bob"), Some(&"New York".to_string()));
    assert_eq!(back.encode(), text);
}

#[test]
fn round_trip_escaped_characters() {
    let mut st = LocationStore::new();
    st.put("quo\"te", "back\\slash");
    st.put("colon:comma,", "{braces}");
    let text = st.encode();
    let back = LocationStore::decode(&text).expect("the encoded store must decode");
    assert_eq!(back.get("quo\"te"), Some(&"back\\slash".to_string()));
    assert_eq!(back.get("colon:comma,"), Some(&"{braces}".to_string()));
}

#[test]
fn decode_rejects_corrupt_documents() {
    assert!(LocationStore::decode("").is_none());
    assert!(LocationStore::decode("not json").is_none());
    assert!(LocationStore::decode("{").is_none());
    assert!(LocationStore::decode("{\"a\":\"1\"").is_none());
    assert!(LocationStore::decode("{\"a\":1}").is_none());
    assert!(LocationStore::decode("{\"a\":\"1\"}x").is_none());
}

#[test]
fn decode_rejects_duplicate_users() {
    assert!(LocationStore::decode("{\"a\":\"1\",\"a\":\"2\"}").is_none());
}

#[test]
fn decode_empty_object_is_empty_store() {
    let st = LocationStore::decode("{}").expect("an empty object is a store");
    assert!(st.get("anyone").is_none());
    assert_eq!(st.encode(), "{}");
}
