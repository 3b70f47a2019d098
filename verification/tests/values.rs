use kubectl_ditto::json::{find_member, less, names_of, set_member, Json, JsonNumber};
use kubectl_ditto::text::{
    contains, ends_with, escape_quotes, find, first_line, join, parse_integer, same, signed_text,
    strip_prefix, trim, unsigned_text,
};

fn value(text: &str) -> serde_json::Value {
    serde_json::from_str(text).unwrap()
}

#[test]
fn json_values_are_read_and_written_back() {
    let texts = [
        "null",
        "true",
        "18446744073709551615",
        "-9223372036854775808",
        "0.1",
        "1e300",
        "\"x\\\"y\"",
        "[1,[2,[]],{}]",
        "{\"a\":1,\"b\":{\"c\":null}}",
    ];
    for text in texts {
        let v = value(text);
        let j = Json::from_value(&v);
        assert_eq!(j.to_value().unwrap(), v);
        assert_eq!(j.compact().unwrap(), serde_json::to_string(&v).unwrap());
        assert_eq!(j.pretty().unwrap(), serde_json::to_string_pretty(&v).unwrap());
        assert_eq!(j.copy(), j);
    }
}

#[test]
fn members_are_read_in_the_order_of_their_names() {
    let j = Json::from_value(&value("{\"b\":2,\"a\":1}"));
    assert_eq!(names_of(&j), vec!["a".to_string(), "b".to_string()]);
    assert!(names_of(&Json::Null).is_empty());
    assert_eq!(j.get("b"), Some(&Json::Number(JsonNumber::Unsigned(2))));
    assert_eq!(j.get("c"), None);
    assert_eq!(Json::Null.get("a"), None);
}

#[test]
fn members_are_written_in_the_order_of_their_names() {
    let j = Json::Object(vec![
        ("b".to_string(), Json::Bool(true)),
        ("a".to_string(), Json::Null),
        ("b".to_string(), Json::Bool(false)),
    ]);
    assert_eq!(j.compact().unwrap(), "{\"a\":null,\"b\":false}");
}

#[test]
fn a_text_that_is_no_number_is_not_written() {
    let j = Json::Number(JsonNumber::Float("1.5.5".to_string()));
    assert!(j.to_value().is_err());
    assert!(Json::Array(vec![j]).compact().is_err());
    let j = Json::Object(vec![(
        "a".to_string(),
        Json::Number(JsonNumber::Float("x".to_string())),
    )]);
    assert!(j.pretty().is_err());
}

#[test]
fn a_set_member_is_found() {
    let mut members = vec![];
    for (k, n) in [("m", 1), ("z", 2), ("a", 3), ("m", 4)] {
        set_member(
            &mut members,
            k.to_string(),
            Json::Number(JsonNumber::Unsigned(n)),
        );
    }
    let names: Vec<&str> = members.iter().map(|(k, _)| k.as_str()).collect();
    assert_eq!(names, vec!["a", "m", "z"]);
    assert_eq!(
        find_member(&members, "m"),
        Some(&Json::Number(JsonNumber::Unsigned(4)))
    );
    assert_eq!(find_member(&members, "b"), None);
}

#[test]
fn names_are_ordered_by_their_characters() {
    for (a, b) in [("", "a"), ("a", "b"), ("a", "aa"), ("Z", "a"), ("z", "é")] {
        assert!(less(a, b) && a < b);
        assert!(!less(b, a));
        assert!(!less(a, a));
    }
}

#[test]
fn texts_are_compared_and_searched() {
    assert!(same("a", "a") && !same("a", "b"));
    assert_eq!(find("aébb", "b"), Some(2));
    assert_eq!(find("abc", ""), Some(0));
    assert_eq!(find("", ""), Some(0));
    assert_eq!(find("ab", "abc"), None);
    assert_eq!(find("aab", "ab"), Some(1));
    assert!(contains("xyz", "yz") && !contains("xyz", "zy"));
    assert!(ends_with("abc", "bc") && ends_with("abc", "") && !ends_with("bc", "abc"));
    assert_eq!(strip_prefix("#/a", "#/"), Some("a"));
    assert_eq!(strip_prefix("/a", "#/"), None);
}

#[test]
fn numbers_are_written_and_read() {
    assert_eq!(unsigned_text(0), "0");
    assert_eq!(unsigned_text(u64::MAX), "18446744073709551615");
    assert_eq!(signed_text(i64::MIN), "-9223372036854775808");
    assert_eq!(signed_text(70), "70");
    for text in ["0", "-1", "+1", "007", "9223372036854775807"] {
        assert_eq!(parse_integer(text), text.parse::<i64>().ok());
        assert!(parse_integer(text).is_some());
    }
    for text in ["", "+", "-", "--1", "1 ", "9223372036854775808", "1e3", "٣"] {
        assert_eq!(parse_integer(text), None);
        assert!(text.parse::<i64>().is_err());
    }
}

#[test]
fn white_space_is_trimmed() {
    for text in ["", "  ", " a b ", "\t\u{a0}x\u{2003}\n", "x"] {
        assert_eq!(trim(text), text.trim());
    }
}

#[test]
fn every_character_is_white_space_or_not() {
    for c in (0..=0x10ffff).filter_map(char::from_u32) {
        let text = c.to_string();
        assert_eq!(trim(&text).is_empty(), c.is_whitespace());
    }
}

#[test]
fn lines_and_quotes() {
    for text in ["", "a", "a\nb", "a\r\nb", "a\r", "\nb", "a\r\r\nb", "\r\n"] {
        assert_eq!(first_line(text), text.lines().next().unwrap_or(text));
    }
    assert_eq!(escape_quotes("a\"b\\"), "a\\\"b\\");
    let list = |items: &[&str]| -> Vec<String> { items.iter().map(|s| s.to_string()).collect() };
    assert_eq!(join(&list(&[]), ", "), "");
    assert_eq!(join(&list(&["a"]), ", "), "a");
    assert_eq!(join(&list(&["a", "", "b"]), ", "), "a, , b");
}

#[test]
fn texts_are_read_as_json() {
    assert_eq!(
        Json::from_text(" {\"b\": [1.50], \"a\": -2} ").unwrap(),
        Json::Object(vec![
            ("a".to_string(), Json::Number(JsonNumber::Signed(-2))),
            (
                "b".to_string(),
                Json::Array(vec![Json::Number(JsonNumber::Float("1.5".to_string()))])
            ),
        ])
    );
    for text in ["", "{", "[1,]", "nul", "1 2"] {
        assert!(Json::from_text(text).is_err());
    }
}

#[test]
fn copies_are_equal() {
    let j = Json::from_text("{\"a\":[1,-1,0.5,\"x\",null,true],\"b\":{}}").unwrap();
    assert_eq!(j.clone(), j);
    let n = JsonNumber::Float("0.5".to_string());
    assert_eq!(n.clone(), n);
}
