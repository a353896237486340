use sentinel_kit::audit::json::{canonical_json, json_is_wf, text_less, JsonValue};

fn s(t: &str) -> String {
    t.to_string()
}

#[test]
fn objects_are_sorted_by_key_at_every_depth() {
    let inner = JsonValue::Object(vec![
        (s("z"), JsonValue::Bool(true)),
        (s("a"), JsonValue::Null),
    ]);
    let v = JsonValue::Object(vec![
        (s("user"), JsonValue::Str(s("alice"))),
        (s("ip"), JsonValue::Str(s("10.0.0.9"))),
        (s("list"), JsonValue::Array(vec![inner, JsonValue::Number(s("1.5"))])),
    ]);
    let expected = JsonValue::Object(vec![
        (s("ip"), JsonValue::Str(s("10.0.0.9"))),
        (
            s("list"),
            JsonValue::Array(vec![
                JsonValue::Object(vec![(s("a"), JsonValue::Null), (s("z"), JsonValue::Bool(true))]),
                JsonValue::Number(s("1.5")),
            ]),
        ),
        (s("user"), JsonValue::Str(s("alice"))),
    ]);
    let c = canonical_json(&v);
    assert_eq!(c, expected);
    assert_eq!(canonical_json(&c), expected);
}

#[test]
fn scalars_and_arrays_keep_their_order() {
    let v = JsonValue::Array(vec![
        JsonValue::Number(s("3")),
        JsonValue::Number(s("1")),
        JsonValue::Str(s("b")),
    ]);
    let c = canonical_json(&v);
    assert_eq!(
        c,
        JsonValue::Array(vec![JsonValue::Number(s("3")), JsonValue::Number(s("1")), JsonValue::Str(s("b"))])
    );
    assert_eq!(canonical_json(&JsonValue::Null), JsonValue::Null);
    assert_eq!(canonical_json(&JsonValue::Object(vec![])), JsonValue::Object(vec![]));
}

#[test]
fn keys_follow_str_ordering() {
    assert!(text_less("a", "b"));
    assert!(text_less("", "a"));
    assert!(text_less("ab", "abc"));
    assert!(!text_less("abc", "ab"));
    assert!(!text_less("same", "same"));
    assert!(text_less("Z", "a"));
    assert!(text_less("z", "é"));
    let keys = ["é", "z", "Z", "", "ab", "a"];
    let v = JsonValue::Object(keys.iter().map(|k| (s(k), JsonValue::Null)).collect());
    let mut sorted: Vec<&str> = keys.to_vec();
    sorted.sort();
    match canonical_json(&v) {
        JsonValue::Object(entries) => {
            let got: Vec<&str> = entries.iter().map(|(k, _)| k.as_str()).collect();
            assert_eq!(got, sorted);
        }
        other => panic!("unexpected {other:?}"),
    }
}

#[test]
fn key_order_does_not_change_the_canonical_form() {
    let a = JsonValue::Object(vec![
        (s("n"), JsonValue::Number(s("1"))),
        (s("action"), JsonValue::Str(s("credit"))),
        (s("amount"), JsonValue::Number(s("10"))),
    ]);
    let b = JsonValue::Object(vec![
        (s("amount"), JsonValue::Number(s("10"))),
        (s("n"), JsonValue::Number(s("1"))),
        (s("action"), JsonValue::Str(s("credit"))),
    ]);
    assert_eq!(canonical_json(&a), canonical_json(&b));
}

#[test]
fn repeated_keys_are_detected() {
    let dup = JsonValue::Object(vec![(s("a"), JsonValue::Null), (s("a"), JsonValue::Null)]);
    assert!(!json_is_wf(&dup));
    let nested = JsonValue::Array(vec![JsonValue::Null, dup]);
    assert!(!json_is_wf(&nested));
    let ok = JsonValue::Object(vec![
        (s("a"), JsonValue::Array(vec![JsonValue::Object(vec![(s("x"), JsonValue::Null)])])),
        (s("b"), JsonValue::Null),
    ]);
    assert!(json_is_wf(&ok));
}
