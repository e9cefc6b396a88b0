use gh_issues::issue::{extract_labels, normalize, normalize_all};
use gh_issues::json::{get_field, get_int, get_text, parse_json, same_text, JsonValue};

fn doc(text: &str) -> JsonValue {
    parse_json(text).expect("test input is JSON")
}

fn items(text: &str) -> Vec<JsonValue> {
    match doc(text) {
        JsonValue::Array(v) => v,
        other => panic!("not an array: {:?}", other),
    }
}

#[test]
fn full_record_is_accepted() {
    let raw = doc(r#"{"number": 7, "title": "Crash", "html_url": "https://github.com/o/r/issues/7",
        "state": "open", "labels": [{"name": "bug"}, {"name": "p1"}]}"#);
    let issue = normalize("o/r", &raw).expect("accepted");
    assert_eq!(issue.repo, "o/r");
    assert_eq!(issue.number, 7);
    assert_eq!(issue.title, "Crash");
    assert_eq!(issue.url, "https://github.com/o/r/issues/7");
    assert_eq!(issue.state, "open");
    assert_eq!(issue.labels, vec!["bug".to_string(), "p1".to_string()]);
}

#[test]
fn missing_title_is_dropped() {
    let raw = doc(r#"{"number": 7, "html_url": "u", "state": "open"}"#);
    assert!(normalize("o/r", &raw).is_none());
}

#[test]
fn missing_state_is_dropped() {
    let raw = doc(r#"{"number": 7, "title": "t", "html_url": "u"}"#);
    assert!(normalize("o/r", &raw).is_none());
}

#[test]
fn wrong_field_types_are_dropped() {
    assert!(normalize("o/r", &doc(r#"{"number": "7", "title": "t", "html_url": "u", "state": "open"}"#)).is_none());
    assert!(normalize("o/r", &doc(r#"{"number": 1.5, "title": "t", "html_url": "u", "state": "open"}"#)).is_none());
    assert!(normalize("o/r", &doc(r#"{"number": 7, "title": 3, "html_url": "u", "state": "open"}"#)).is_none());
    assert!(normalize("o/r", &doc(r#"[1, 2]"#)).is_none());
}

#[test]
fn number_is_kept_in_32_bits() {
    let raw = doc(r#"{"number": 4294967301, "title": "t", "html_url": "u", "state": "closed"}"#);
    assert_eq!(normalize("o/r", &raw).expect("accepted").number, 5);
}

#[test]
fn labels_entry_without_name_is_dropped() {
    let raw = doc(r#"{"labels": [{"name":"bug"},{"foo":"bar"}]}"#);
    assert_eq!(extract_labels(&raw), vec!["bug".to_string()]);
}

#[test]
fn absent_or_non_array_labels_give_none() {
    assert!(extract_labels(&doc(r#"{"title": "t"}"#)).is_empty());
    assert!(extract_labels(&doc(r#"{"labels": "bug"}"#)).is_empty());
    assert!(extract_labels(&doc(r#"{"labels": [{"name": 3}, "bug"]}"#)).is_empty());
}

#[test]
fn normalizing_twice_gives_the_same() {
    let raw = doc(r#"{"number": 3, "title": "t", "html_url": "u", "state": "open", "labels": [{"name": "x"}]}"#);
    let a = normalize("o/r", &raw).expect("accepted");
    let b = normalize("o/r", &raw).expect("accepted");
    assert_eq!(format!("{:?}", a), format!("{:?}", b));
    let dropped = doc(r#"{"number": 3}"#);
    assert!(normalize("o/r", &dropped).is_none());
    assert!(normalize("o/r", &dropped).is_none());
}

#[test]
fn untitled_record_dropped_others_kept_in_order() {
    let raws = items(r#"[
        {"number": 1, "title": "one", "html_url": "u1", "state": "open"},
        {"number": 2, "html_url": "u2", "state": "open"},
        {"number": 3, "title": "three", "html_url": "u3", "state": "closed"}
    ]"#);
    let out = normalize_all("o/r", &raws);
    let numbers: Vec<i32> = out.iter().map(|i| i.number).collect();
    assert_eq!(numbers, vec![1, 3]);
    assert_eq!(out[1].title, "three");
    assert!(out.iter().all(|i| i.repo == "o/r"));
}

#[test]
fn field_lookups() {
    let v = doc(r#"{"a": 1, "b": "x", "c": null}"#);
    assert_eq!(get_int(&v, "a"), Some(1));
    assert_eq!(get_int(&v, "b"), None);
    assert_eq!(get_text(&v, "b").map(|s| s.as_str()), Some("x"));
    assert!(matches!(get_field(&v, "c"), Some(JsonValue::Null)));
    assert!(get_field(&v, "d").is_none());
    assert!(get_field(&doc("5"), "a").is_none());
    assert!(same_text("ab", "ab"));
    assert!(!same_text("ab", "abc"));
}

#[test]
fn parse_of_non_json_fails() {
    assert!(parse_json("{not json").is_none());
    assert!(matches!(parse_json("-3"), Some(JsonValue::Number(Some(-3)))));
    assert!(matches!(parse_json("18446744073709551615"), Some(JsonValue::Number(None))));
}
