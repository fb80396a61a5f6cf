use zerker_reason::json::{encode_value, JsonValue};

fn ours(v: &JsonValue) -> String {
    encode_value(v).into_iter().collect()
}

fn theirs(v: &serde_json::Value) -> String {
    serde_json::to_string(v).unwrap()
}

fn text_pair(s: &str) -> (JsonValue, serde_json::Value) {
    (JsonValue::String(s.to_owned()), serde_json::Value::String(s.to_owned()))
}

#[test]
fn strings_encode_as_serde_json_writes_them() {
    let samples = [
        "plain",
        "",
        "quote \" and backslash \\",
        "controls \u{0} \u{1} \u{8} \u{9} \u{a} \u{c} \u{d} \u{1f}",
        "delete \u{7f} stays raw",
        "accents é ü and cjk 中文",
        "astral \u{1f600}",
        "slash / is not escaped",
    ];
    for s in samples {
        let (a, b) = text_pair(s);
        assert_eq!(ours(&a), theirs(&b), "sample {s:?}");
    }
}

#[test]
fn nested_values_encode_as_serde_json_writes_them() {
    let mut map = serde_json::Map::new();
    map.insert("arguments".to_owned(), serde_json::Value::Array(vec![
        serde_json::Value::String("1.4.0".to_owned()),
        serde_json::Value::Bool(true),
        serde_json::Value::Null,
        serde_json::Value::from(42),
        serde_json::Value::from(-7),
    ]));
    map.insert("negated".to_owned(), serde_json::Value::Bool(false));
    map.insert("predicate".to_owned(), serde_json::Value::String("approved".to_owned()));
    let theirs_value = serde_json::Value::Object(map);
    let ours_value = JsonValue::Object(
        vec!["arguments".to_owned(), "negated".to_owned(), "predicate".to_owned()],
        vec![
            JsonValue::Array(vec![
                JsonValue::String("1.4.0".to_owned()),
                JsonValue::Bool(true),
                JsonValue::Null,
                JsonValue::Number("42".to_owned()),
                JsonValue::Number("-7".to_owned()),
            ]),
            JsonValue::Bool(false),
            JsonValue::String("approved".to_owned()),
        ],
    );
    assert_eq!(ours(&ours_value), theirs(&theirs_value));
    assert_eq!(ours(&JsonValue::Array(vec![])), "[]");
    assert_eq!(ours(&JsonValue::Object(vec![], vec![])), "{}");
}
