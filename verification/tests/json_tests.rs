//! The JSON codec: writing, parsing, and their round trip.

use raven::json::{Json, parse_json, write_json};

fn parse_str(s: &str) -> Option<Json> {
    parse_json(s.as_bytes())
}

fn written(j: &Json) -> String {
    String::from_utf8(write_json(j)).unwrap()
}

#[test]
fn writes_every_shape() {
    let j = Json::Obj(vec![
        ("a".to_string(), Json::Null),
        ("b".to_string(), Json::Bool(true)),
        ("c".to_string(), Json::Int(-12)),
        ("d".to_string(), Json::Str("x".to_string())),
        ("e".to_string(), Json::Arr(vec![Json::Int(1), Json::Int(2)])),
    ]);
    assert_eq!(
        written(&j),
        "{\"a\":null,\"b\":true,\"c\":-12,\"d\":\"x\",\"e\":[1,2]}"
    );
}

#[test]
fn parses_whitespace_and_nesting() {
    let j = parse_str(" { \"test\" : [ 1 , { \"deep\" : false } ] } ").unwrap();
    match j {
        Json::Obj(fields) => {
            assert_eq!(fields.len(), 1);
            assert_eq!(fields[0].0, "test");
            match &fields[0].1 {
                Json::Arr(items) => {
                    assert_eq!(items.len(), 2);
                    assert!(matches!(items[0], Json::Int(1)));
                    match &items[1] {
                        Json::Obj(inner) => {
                            assert_eq!(inner[0].0, "deep");
                            assert!(matches!(inner[0].1, Json::Bool(false)));
                        }
                        _ => panic!("expected object"),
                    }
                }
                _ => panic!("expected array"),
            }
        }
        _ => panic!("expected object"),
    }
}

#[test]
fn round_trips_escapes() {
    let j = Json::Str("a\"b\\c\nd\te\u{1}f".to_string());
    let text = written(&j);
    assert_eq!(text, "\"a\\\"b\\\\c\\nd\\te\\u0001f\"");
    match parse_str(&text).unwrap() {
        Json::Str(s) => assert_eq!(s, "a\"b\\c\nd\te\u{1}f"),
        _ => panic!("expected string"),
    }
}

#[test]
fn round_trips_multibyte_text() {
    let j = Json::Str("héllo wörld \u{1F600}".to_string());
    let text = written(&j);
    match parse_str(&text).unwrap() {
        Json::Str(s) => assert_eq!(s, "héllo wörld \u{1F600}"),
        _ => panic!("expected string"),
    }
}

#[test]
fn parses_unicode_escapes() {
    match parse_str("\"\\u0041\\u00e9\\u20ac\"").unwrap() {
        Json::Str(s) => assert_eq!(s, "Aé€"),
        _ => panic!("expected string"),
    }
}

#[test]
fn round_trips_integer_extremes() {
    for n in [0i64, 7, -1, i64::MAX, i64::MIN] {
        let text = written(&Json::Int(n));
        match parse_str(&text).unwrap() {
            Json::Int(m) => assert_eq!(m, n),
            _ => panic!("expected number"),
        }
    }
    assert_eq!(written(&Json::Int(i64::MIN)), "-9223372036854775808");
}

#[test]
fn rejects_what_is_not_json() {
    assert!(parse_str("not json").is_none());
    assert!(parse_str("{\"open\":").is_none());
    assert!(parse_str("{} trailing").is_none());
    assert!(parse_str("").is_none());
    assert!(parse_str("\"unterminated").is_none());
}

#[test]
fn rejects_fractions_and_exponents() {
    assert!(parse_str("1.5").is_none());
    assert!(parse_str("1e3").is_none());
    assert!(parse_str("[2.0]").is_none());
}

#[test]
fn rejects_numbers_outside_the_wire_range() {
    assert!(parse_str("9223372036854775808").is_none());
    assert!(parse_str("-9223372036854775809").is_none());
    assert!(parse_str("9223372036854775807").is_some());
}

#[test]
fn rejects_invalid_text_bytes() {
    // a raw byte that is no UTF-8 inside a string literal
    let bytes = vec![0x22u8, 0xffu8, 0x22u8];
    assert!(parse_json(&bytes).is_none());
}

#[test]
fn surrogate_pairs_combine() {
    match parse_str("\"\\ud83d\\ude00\"").unwrap() {
        Json::Str(s) => assert_eq!(s, "\u{1F600}"),
        _ => panic!("expected string"),
    }
    match parse_str("\"a\\ud834\\udd1eb\"").unwrap() {
        Json::Str(s) => assert_eq!(s, "a\u{1D11E}b"),
        _ => panic!("expected string"),
    }
}

#[test]
fn rejects_unpaired_surrogate_escapes() {
    assert!(parse_str("\"\\ud800\"").is_none());
    assert!(parse_str("\"\\udc00\"").is_none());
    assert!(parse_str("\"\\ud800x\"").is_none());
    assert!(parse_str("\"\\ud800\\u0041\"").is_none());
}

#[test]
fn parses_empty_containers() {
    assert!(matches!(parse_str("{}").unwrap(), Json::Obj(f) if f.is_empty()));
    assert!(matches!(parse_str("[]").unwrap(), Json::Arr(v) if v.is_empty()));
}

#[test]
fn duplicate_preserves_structure() {
    let j = parse_str("{\"a\":[1,\"x\",null]}").unwrap();
    let copy = j.duplicate();
    assert_eq!(written(&j), written(&copy));
}
