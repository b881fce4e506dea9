use effectfence::hex::encode;
use effectfence::json::Json;
use effectfence::text::{join, padded_text, parse_count, trim};

fn number(n: &str) -> Json {
    Json::Number(n.to_string())
}

fn text(s: &str) -> Json {
    Json::String(s.to_string())
}

fn object(members: Vec<(&str, Json)>) -> Json {
    Json::Object(members.into_iter().map(|(k, v)| (k.to_string(), v)).collect())
}

fn sample() -> Json {
    object(vec![
        ("z", Json::Array(vec![Json::Null, Json::Bool(true), Json::Bool(false), number("-1.5e3")])),
        ("a", object(vec![("y", number("2")), ("x", text("é\u{1f600}"))])),
        ("", Json::Array(vec![])),
        ("\"\\\n\t\r\u{8}\u{c}\u{1}\u{1f}\u{7f}/", object(vec![])),
    ])
}

#[test]
fn text_is_what_the_json_crate_writes() {
    for s in ["", "plain", "\"q\"", "back\\slash", "\n\t\r\u{8}\u{c}", "\u{0}\u{1}\u{1f}\u{7f}", "é\u{1f600}/"] {
        assert_eq!(text(s).to_text(), serde_json::to_string(s).unwrap());
    }
    let written = sample().to_text();
    assert_eq!(
        written,
        "{\"z\":[null,true,false,-1.5e3],\"a\":{\"y\":2,\"x\":\"é\u{1f600}\"},\"\":[],\"\\\"\\\\\\n\\t\\r\\b\\f\\u0001\\u001f\u{7f}/\":{}}"
    );
    assert!(serde_json::from_str::<serde_json::Value>(&written).is_ok());
}

#[test]
fn canonical_form_sorts_every_object() {
    assert_eq!(
        sample().canonicalize().to_text(),
        "{\"\":[],\"\\\"\\\\\\n\\t\\r\\b\\f\\u0001\\u001f\u{7f}/\":{},\"a\":{\"x\":\"é\u{1f600}\",\"y\":2},\"z\":[null,true,false,-1.5e3]}"
    );
    let once = sample().canonicalize();
    assert_eq!(once.canonicalize().to_text(), once.to_text());
}

#[test]
fn the_last_of_equal_keys_counts() {
    let v = object(vec![("k", number("1")), ("j", number("2")), ("k", number("3"))]);
    assert_eq!(v.canonicalize().to_text(), "{\"j\":2,\"k\":3}");
    assert_eq!(v.get("k"), Some(&number("3")));
    assert_eq!(v.get("absent"), None);
    assert_eq!(number("1").get("k"), None);
}

#[test]
fn the_order_of_elements_matters_and_that_of_members_does_not() {
    let a = object(vec![("k", Json::Array(vec![number("1"), number("2")])), ("l", Json::Null)]);
    let b = object(vec![("l", Json::Null), ("k", Json::Array(vec![number("1"), number("2")]))]);
    let c = object(vec![("k", Json::Array(vec![number("2"), number("1")])), ("l", Json::Null)]);
    assert_eq!(a.canonicalize().to_text(), b.canonicalize().to_text());
    assert_ne!(a.canonicalize().to_text(), c.canonicalize().to_text());
    assert_eq!(a, b);
    assert_ne!(a, c);
    assert_ne!(a.to_text(), b.to_text());
    assert_eq!(a.clone(), a);
}

#[test]
fn strings_have_text() {
    assert_eq!(text("x").as_str(), Some("x"));
    assert_eq!(Json::Null.as_str(), None);
}

#[test]
fn hexadecimal_is_two_lower_case_digits_per_byte() {
    assert_eq!(encode(&[]), "");
    assert_eq!(encode(&[0, 1, 15, 16, 171, 255]), "00010f10abff");
}

#[test]
fn counts_are_read_as_machine_words() {
    for s in ["", "+", "-", "++1", "é", "99999999999999999999é", "1é99999999999999999999", "-1", "-0", "1 ", " 1", "1_0", "0x1", "١", "99999999999999999999999999"] {
        let error = s.parse::<usize>().unwrap_err();
        assert_eq!(parse_count(s).unwrap_err().message(), error.to_string(), "{s:?}");
    }
    for s in ["0", "7", "+7", "007", "18446744073709551615", "18446744073709551616"] {
        assert_eq!(parse_count(s).ok(), s.parse::<usize>().ok(), "{s:?}");
    }
}

#[test]
fn numbers_are_padded_with_zeros() {
    assert_eq!(padded_text(0, 5), "00000");
    assert_eq!(padded_text(42, 5), "00042");
    assert_eq!(padded_text(123456, 5), "123456");
}

#[test]
fn joining_puts_separators_between() {
    let parts = |v: &[&str]| v.iter().map(|s| s.to_string()).collect::<Vec<String>>();
    assert_eq!(join(&parts(&[]), ", "), "");
    assert_eq!(join(&parts(&["a"]), ", "), "a");
    assert_eq!(join(&parts(&["a", "b", ""]), ", "), "a, b, ");
}

#[test]
fn white_space_is_trimmed_at_both_ends() {
    for s in ["", " ", "a", " a b ", "\t\r\n a\u{85}\u{2028}", "\u{3000}é \u{200b}", "\u{feff}x"] {
        assert_eq!(trim(s), s.trim(), "{s:?}");
    }
    for c in '\0'..=char::MAX {
        let s = c.to_string();
        assert_eq!(trim(&s).is_empty(), c.is_whitespace(), "{c:?}");
    }
}

fn from_value(value: &serde_json::Value) -> Json {
    match value {
        serde_json::Value::Null => Json::Null,
        serde_json::Value::Bool(b) => Json::Bool(*b),
        serde_json::Value::Number(n) => Json::Number(n.to_string()),
        serde_json::Value::String(s) => text(s),
        serde_json::Value::Array(items) => Json::Array(items.iter().map(from_value).collect()),
        // The other way round: the order of members makes no difference.
        serde_json::Value::Object(m) => {
            Json::Object(m.iter().rev().map(|(k, v)| (k.clone(), from_value(v))).collect())
        }
    }
}

#[test]
fn values_are_equal_as_those_of_the_json_crate_are() {
    let texts = [
        "null", "true", "false", "0", "0.0", "-0.0", "-0", "1", "1.0", "10e-1", "-1", "\"1\"", "\"\"",
        "[]", "{}", "[0.0,1]", "[-0.0,1]", "[1,0.0]", "[[]]", "{\"a\":1}", "{\"a\":2}", "{\"b\":1}",
        "{\"a\":1,\"b\":{\"c\":[-0.0],\"d\":null}}", "{\"b\":{\"d\":null,\"c\":[0.0]},\"a\":1}",
        "{\"b\":{\"d\":null},\"a\":1}",
    ];
    let values: Vec<serde_json::Value> =
        texts.iter().map(|t| serde_json::from_str(t).unwrap()).collect();
    for (i, v) in values.iter().enumerate() {
        for (j, w) in values.iter().enumerate() {
            assert_eq!(from_value(v) == from_value(w), v == w, "{} and {}", texts[i], texts[j]);
        }
    }
    let twice = object(vec![("k", number("1")), ("k", number("2"))]);
    assert_eq!(twice, object(vec![("k", number("2"))]));
}
