use esclusa_gate::clock::{now_micros, ts_string, Timestamp};
use esclusa_gate::json::{normalize_params, Json};
use esclusa_gate::text;
use serde_json::Value;

fn from_value(v: Value) -> Json {
    match v {
        Value::Null => Json::Null,
        Value::Bool(b) => Json::Bool(b),
        Value::Number(n) => Json::Number(n),
        Value::String(s) => Json::String(s),
        Value::Array(a) => Json::Array(a.into_iter().map(from_value).collect()),
        Value::Object(o) => {
            Json::Object(o.into_iter().map(|(k, x)| (k, from_value(x))).collect())
        }
    }
}

fn json(text: &str) -> Json {
    from_value(serde_json::from_str(text).unwrap())
}

#[test]
fn a_document_prints_as_serde_json_prints_it() {
    for text in [
        "null",
        "true",
        "[1,-2,3.5,1e300,\"a\\\"\\u0001b\",[],{}]",
        "{\"a\":{\"z\":null,\"y\":[false]},\"b\":\"ä\"}",
        "18446744073709551615",
        "-9223372036854775808",
    ] {
        let v: Value = serde_json::from_str(text).unwrap();
        assert_eq!(json(text).to_value(), v);
        assert_eq!(json(text).to_text(), serde_json::to_string(&v).unwrap());
    }
}

#[test]
fn different_documents_print_differently() {
    let docs = ["null", "false", "0", "0.0", "\"0\"", "\"null\"", "[]", "{}", "[0]", "{\"0\":0}"];
    for (i, a) in docs.iter().enumerate() {
        for (j, b) in docs.iter().enumerate() {
            assert_eq!(json(a).to_text() == json(b).to_text(), i == j);
        }
    }
}

#[test]
fn member_order_is_immaterial() {
    let ab = Json::object().with("a", Json::integer(1)).with("b", Json::integer(2));
    let ba = Json::object().with("b", Json::integer(2)).with("a", Json::integer(1));
    assert_eq!(ab.to_text(), "{\"a\":1,\"b\":2}");
    assert_eq!(ba.to_text(), ab.to_text());
}

#[test]
fn a_later_member_replaces_an_earlier_one() {
    let j = Json::object().with("a", Json::integer(1)).with("a", Json::text("x"));
    assert_eq!(j.to_text(), "{\"a\":\"x\"}");
    assert_eq!(j.get("a").and_then(|v| v.as_str()), Some("x"));
    assert!(j.get("b").is_none());
    assert!(Json::Null.get("a").is_none());
}

#[test]
fn negative_zero_is_found_at_any_depth() {
    let j = json("[-0.0, {\"a\": [-0.0, 1, \"-0.0\"]}, 0, -1.5]");
    let n = normalize_params(&j);
    assert_eq!(n.to_text(), "[0.0,{\"a\":[0.0,1,\"-0.0\"]},0,-1.5]");
    assert_eq!(normalize_params(&n).to_text(), n.to_text());
}

#[test]
fn a_copy_of_a_document_prints_the_same() {
    let j = json("{\"a\": [1, {\"b\": -0.0}], \"c\": null, \"d\": true, \"e\": \"x\"}");
    assert_eq!(j.clone().to_text(), j.to_text());
}

#[test]
fn integers_print_as_numerals() {
    assert_eq!(Json::integer(0).to_text(), "0");
    assert_eq!(Json::integer(-17).to_text(), "-17");
    assert_eq!(Json::integer(i64::MIN).to_text(), "-9223372036854775808");
    assert!(Json::integer(0).is_zero());
    assert!(!Json::integer(1).is_zero());
    let texts = Json::texts(&vec!["a".to_string(), "b".to_string()]);
    assert_eq!(texts.to_text(), "[\"a\",\"b\"]");
}

#[test]
fn an_instant_prints_with_six_digits() {
    let t = Timestamp { secs: 1_786_190_400, nanos: 123_456_789 };
    assert_eq!(ts_string(&t), "2026-08-08T12:00:00.123456Z");
    assert_eq!(ts_string(&t.truncate()), ts_string(&t));
    assert_eq!(t.truncate().nanos, 123_456_000);
    assert_eq!(ts_string(&Timestamp { secs: 0, nanos: 0 }), "1970-01-01T00:00:00.000000Z");
    assert_eq!(ts_string(&Timestamp { secs: -1, nanos: 0 }), "1969-12-31T23:59:59.000000Z");
}

#[test]
fn the_ends_of_time_can_be_printed() {
    let first = Timestamp { secs: -8_334_601_228_800, nanos: 0 };
    let last = Timestamp { secs: 8_210_266_876_799, nanos: 999_999_999 };
    assert_eq!(ts_string(&first), "-262143-01-01T00:00:00.000000Z");
    assert_eq!(ts_string(&last), "+262142-12-31T23:59:59.999999Z");
}

#[test]
fn now_is_in_whole_microseconds() {
    let a = now_micros();
    assert_eq!(a.nanos % 1000, 0);
    assert!(a.secs > 1_700_000_000);
    let b = now_micros();
    assert!((b.secs, b.nanos) >= (a.secs, a.nanos));
}

#[test]
fn numerals() {
    assert_eq!(text::dec_text(0), "0");
    assert_eq!(text::dec_text(u64::MAX), "18446744073709551615");
    assert_eq!(text::i64_text(i64::MIN), "-9223372036854775808");
    assert_eq!(text::i64_text(-10), "-10");
    for (s, v) in [
        ("0", Some(0)),
        ("3000", Some(3000)),
        ("+80", Some(80)),
        ("007", Some(7)),
        ("65535", Some(65535)),
        ("65536", None),
        ("-1", None),
        ("", None),
        ("+", None),
        (" 80", None),
        ("8o", None),
    ] {
        assert_eq!(text::parse_u16(s), v, "{s}");
        assert_eq!(s.parse::<u16>().ok(), v, "{s}");
    }
}

#[test]
fn blank_texts_are_those_that_trim_to_nothing() {
    for s in ["", " ", "\t\r\n", "\u{a0}\u{2003}", "\u{85}", "a", " a ", "\u{200b}", "\u{3000}"] {
        assert_eq!(text::is_blank(s), s.trim().is_empty(), "{s:?}");
    }
    for c in (0u32..0x3100).filter_map(char::from_u32) {
        assert_eq!(text::white_space(c), c.is_whitespace(), "{c:?}");
    }
}
