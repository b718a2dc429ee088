use toy_http::query::{QueryString, Value};

#[test]
fn query_single_values() {
    let query = QueryString::from("x=1&y=2");
    assert_eq!(query.parse("x"), Some(&Value::Single("1")));
    assert_eq!(query.parse("y"), Some(&Value::Single("2")));
    assert_eq!(query.parse("z"), None);
}

#[test]
fn query_repeated_key_keeps_first_seen_order() {
    let query = QueryString::from("d=&d=7&d=abc");
    assert_eq!(query.parse("d"), Some(&Value::Multiple(vec!["", "7", "abc"])));
}

#[test]
fn query_second_occurrence_makes_a_pair() {
    let query = QueryString::from("k=first&k=second");
    assert_eq!(query.parse("k"), Some(&Value::Multiple(vec!["first", "second"])));
}

#[test]
fn query_splits_only_on_first_equals() {
    let query = QueryString::from("e===");
    assert_eq!(query.parse("e"), Some(&Value::Single("==")));
    assert_eq!(query.parse("e="), None);
}

#[test]
fn query_segment_without_equals_has_empty_value() {
    let query = QueryString::from("c");
    assert_eq!(query.parse("c"), Some(&Value::Single("")));
}

#[test]
fn query_mixed_segments() {
    let query = QueryString::from("a=1&b=2&c&d=&e===&d=7&d=abc");
    assert_eq!(query.parse("a"), Some(&Value::Single("1")));
    assert_eq!(query.parse("b"), Some(&Value::Single("2")));
    assert_eq!(query.parse("c"), Some(&Value::Single("")));
    assert_eq!(query.parse("d"), Some(&Value::Multiple(vec!["", "7", "abc"])));
    assert_eq!(query.parse("e"), Some(&Value::Single("==")));
    assert_eq!(query.parse(""), None);
    assert_eq!(query.parse("f"), None);
}

#[test]
fn query_empty_segment_has_empty_key_and_value() {
    let query = QueryString::from("a=1&&b=2");
    assert_eq!(query.parse(""), Some(&Value::Single("")));
    assert_eq!(query.parse("a"), Some(&Value::Single("1")));
    assert_eq!(query.parse("b"), Some(&Value::Single("2")));
}

#[test]
fn query_of_empty_text_is_one_empty_segment() {
    let query = QueryString::from("");
    assert_eq!(query.parse(""), Some(&Value::Single("")));
}

#[test]
fn query_of_separators_only() {
    let query = QueryString::from("&&");
    assert_eq!(query.parse(""), Some(&Value::Multiple(vec!["", "", ""])));
}

#[test]
fn query_empty_key_with_value() {
    let query = QueryString::from("=v&=w");
    assert_eq!(query.parse(""), Some(&Value::Multiple(vec!["v", "w"])));
}

#[test]
fn query_keys_differ_by_case() {
    let query = QueryString::from("k=1&K=2");
    assert_eq!(query.parse("k"), Some(&Value::Single("1")));
    assert_eq!(query.parse("K"), Some(&Value::Single("2")));
}

#[test]
fn query_values_are_not_decoded() {
    let query = QueryString::from("q=a+b%20c&r=?x");
    assert_eq!(query.parse("q"), Some(&Value::Single("a+b%20c")));
    assert_eq!(query.parse("r"), Some(&Value::Single("?x")));
}

#[test]
fn query_text_beyond_ascii() {
    let query = QueryString::from("\u{43a}=\u{437}&caf\u{e9}=\u{1f600}=\u{e9}&\u{43a}=2");
    assert_eq!(query.parse("\u{43a}"), Some(&Value::Multiple(vec!["\u{437}", "2"])));
    assert_eq!(query.parse("caf\u{e9}"), Some(&Value::Single("\u{1f600}=\u{e9}")));
}

#[test]
fn query_many_keys_interleaved() {
    let query = QueryString::from("a=1&b=1&a=2&c=1&b=2&a=3");
    assert_eq!(query.parse("a"), Some(&Value::Multiple(vec!["1", "2", "3"])));
    assert_eq!(query.parse("b"), Some(&Value::Multiple(vec!["1", "2"])));
    assert_eq!(query.parse("c"), Some(&Value::Single("1")));
}

#[test]
fn query_values_borrow_from_the_text() {
    let text = String::from("key=value");
    let query = QueryString::from(&text);
    match query.parse("key") {
        Some(Value::Single(value)) => assert_eq!(value.as_ptr(), text[4..].as_ptr()),
        other => panic!("unexpected value: {:?}", other),
    }
}
