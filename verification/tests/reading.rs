use serde_json::{Number, Value};
use zeron::event::{tag, AgentEvent};
use zeron::json::{from_value, parse_bytes, parse_text, Json};
use zeron::text::{characters, field, same_text, white_space};

fn text(s: &str) -> Json {
    Json::String(s.to_string())
}

#[test]
fn parsed_json_is_the_same_tree() {
    let expected = Json::Object(vec![
        (
            "a".to_string(),
            Json::Array(vec![
                Json::Number(Number::from(1u64)),
                Json::Number(Number::from(-2i64)),
                Json::Number(Number::from_f64(2.5).unwrap()),
                Json::Null,
                Json::Bool(true),
                text("x\u{e9}"),
            ]),
        ),
        ("b".to_string(), Json::Object(vec![])),
    ]);
    let source = "{\"b\": {}, \"a\": [1, -2, 2.5, null, true, \"x\\u00e9\"]}";
    assert_eq!(parse_bytes(source.as_bytes()), Some(expected.clone()));
    assert_eq!(parse_text(source), Some(expected));
}

#[test]
fn what_is_not_json_is_none() {
    for source in ["", "{", "[1,]", "{} {}", "nul"] {
        assert_eq!(parse_bytes(source.as_bytes()), None);
        assert_eq!(parse_text(source), None);
    }
    assert_eq!(parse_bytes(b"\"\xff\""), None);
}

#[test]
fn a_repeated_key_counts_once() {
    let json = parse_text(r#"{"k": 1, "l": 2, "k": 3}"#).unwrap();
    assert_eq!(json.get("k"), Some(&Json::Number(Number::from(3u64))));
    match &json {
        Json::Object(members) => assert_eq!(members.len(), 2),
        other => panic!("{other:?}"),
    }
}

#[test]
fn values_convert_and_answer() {
    let mut map = serde_json::Map::new();
    map.insert("s".to_string(), Value::String("t".to_string()));
    map.insert("l".to_string(), Value::Array(vec![Value::Null, Value::Bool(false)]));
    let json = from_value(Value::Object(map));
    assert_eq!(json.get("s").and_then(Json::as_str), Some("t"));
    assert_eq!(json.get("l").and_then(Json::as_array), Some(&vec![Json::Null, Json::Bool(false)]));
    assert_eq!(json.get("x"), None);
    assert_eq!(json.as_str(), None);
    assert_eq!(json.as_array(), None);
    assert_eq!(text("s").get("s"), None);
    assert_eq!(json.clone(), json);
}

#[test]
fn every_member_is_found_by_its_key() {
    let json = parse_text(r#"{"d": 4, "a": 1, "c": 3, "b": 2}"#).unwrap();
    for (key, n) in [("a", 1u64), ("b", 2), ("c", 3), ("d", 4)] {
        assert_eq!(json.get(key), Some(&Json::Number(Number::from(n))));
    }
}

#[test]
fn texts_compare_by_characters() {
    assert!(same_text("", ""));
    assert!(same_text("a\u{2192}", "a\u{2192}"));
    assert!(!same_text("a", "b"));
    assert!(!same_text("a", "ab"));
    assert!(!same_text("e\u{301}", "\u{e9}"));
    assert_eq!(characters("a\u{2192}b"), vec!['a', '\u{2192}', 'b']);
}

#[test]
fn white_space_is_the_unicode_property() {
    for u in 0..=0x10ffffu32 {
        if let Some(c) = char::from_u32(u) {
            assert_eq!(white_space(c), c.is_whitespace(), "U+{u:04x}");
        }
    }
}

#[test]
fn fields_are_found_as_lines_are_split() {
    for source in [
        "",
        "\n",
        "k:",
        "k: v",
        "k: v\r",
        "k: v\r\n",
        "\r\nk: v\rw\r\n",
        "a\n\nk:\u{2003}v w \nk: x",
        " k: v\nkk: w\nk",
        "a\r\r\nk:  \n",
    ] {
        let expected = source
            .lines()
            .find_map(|l| l.strip_prefix("k:").map(|rest| rest.trim().to_string()));
        assert_eq!(field(source, "k:"), expected, "{source:?}");
    }
}

#[test]
fn a_tag_keeps_the_event() {
    assert_eq!(
        tag("p", AgentEvent::TextDelta { text: "t".to_string() }),
        AgentEvent::Subagent {
            parent_tool_use_id: "p".to_string(),
            event: Box::new(AgentEvent::TextDelta { text: "t".to_string() }),
        }
    );
}
