use toy_http::method::{HTTPMethod, MethodError};
use toy_http::text::next_word;

#[test]
fn next_word_splits_at_first_space() {
    assert_eq!(next_word("GET / HTTP/1.1\r\n"), Some(("GET", "/ HTTP/1.1\r\n")));
}

#[test]
fn next_word_splits_at_carriage_return() {
    assert_eq!(next_word("HTTP/1.1\r\n"), Some(("HTTP/1.1", "\n")));
}

#[test]
fn next_word_takes_whichever_break_comes_first() {
    assert_eq!(next_word("a\rb c"), Some(("a", "b c")));
    assert_eq!(next_word("a b\rc"), Some(("a", "b\rc")));
}

#[test]
fn next_word_without_break_is_none() {
    assert_eq!(next_word("HTTP/1.1"), None);
    assert_eq!(next_word("\n"), None);
    assert_eq!(next_word(""), None);
}

#[test]
fn next_word_may_be_empty() {
    assert_eq!(next_word(" x"), Some(("", "x")));
    assert_eq!(next_word("\r"), Some(("", "")));
    assert_eq!(next_word("x "), Some(("x", "")));
}

#[test]
fn next_word_does_not_stop_at_tab_or_line_feed() {
    assert_eq!(next_word("a\tb\nc d"), Some(("a\tb\nc", "d")));
}

#[test]
fn next_word_keeps_text_beyond_ascii_whole() {
    assert_eq!(next_word("caf\u{e9} \u{65e5}\u{672c}\r"), Some(("caf\u{e9}", "\u{65e5}\u{672c}\r")));
    assert_eq!(next_word("\u{1f600}\r\u{e9}"), Some(("\u{1f600}", "\u{e9}")));
    assert_eq!(next_word("\u{e9}\u{e8}"), None);
}

#[test]
fn next_word_borrows_from_its_input() {
    let line = String::from("PUT /x HTTP/1.1\r");
    let (word, rest) = next_word(&line).unwrap();
    assert_eq!(word.as_ptr(), line.as_ptr());
    assert_eq!(rest.as_ptr(), line[4..].as_ptr());
}

#[test]
fn method_from_each_canonical_name() {
    assert_eq!(HTTPMethod::from_str("GET"), Ok(HTTPMethod::GET));
    assert_eq!(HTTPMethod::from_str("HEAD"), Ok(HTTPMethod::HEAD));
    assert_eq!(HTTPMethod::from_str("POST"), Ok(HTTPMethod::POST));
    assert_eq!(HTTPMethod::from_str("PUT"), Ok(HTTPMethod::PUT));
    assert_eq!(HTTPMethod::from_str("DELETE"), Ok(HTTPMethod::DELETE));
    assert_eq!(HTTPMethod::from_str("CONNECT"), Ok(HTTPMethod::CONNECT));
    assert_eq!(HTTPMethod::from_str("OPTIONS"), Ok(HTTPMethod::OPTIONS));
    assert_eq!(HTTPMethod::from_str("TRACE"), Ok(HTTPMethod::TRACE));
    assert_eq!(HTTPMethod::from_str("PATCH"), Ok(HTTPMethod::PATCH));
}

#[test]
fn method_from_other_tokens_is_an_error() {
    assert_eq!(HTTPMethod::from_str("get"), Err(MethodError));
    assert_eq!(HTTPMethod::from_str("Get"), Err(MethodError));
    assert_eq!(HTTPMethod::from_str(""), Err(MethodError));
    assert_eq!(HTTPMethod::from_str("GET "), Err(MethodError));
    assert_eq!(HTTPMethod::from_str("GE"), Err(MethodError));
    assert_eq!(HTTPMethod::from_str("GETS"), Err(MethodError));
    assert_eq!(HTTPMethod::from_str("FETCH"), Err(MethodError));
    assert_eq!(HTTPMethod::from_str("PATCH\r"), Err(MethodError));
}
