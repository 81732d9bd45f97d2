use http_header_codec::list::{comma_join, comma_split};
use http_header_codec::name::normalise_header_name;
use http_header_codec::params::{push_parameters, push_quality};
use http_header_codec::token::{
    is_token, maybe_quoted_string, maybe_unquote_string, quoted_string, unquote_string,
};

#[test]
fn normalise_is_idempotent_on_examples() {
    for name in ["foo-bar", "FOO-BAR", "content-TYPE", "-x-", "x", "", "a--b"] {
        let once = normalise_header_name(&String::from(name)).unwrap();
        let twice = normalise_header_name(&once).unwrap();
        assert_eq!(once, twice);
    }
}

#[test]
fn normalise_capitalises_after_each_hyphen() {
    assert_eq!(normalise_header_name(&String::from("x-FORWARDED-for")), Some(String::from("X-Forwarded-For")));
    assert_eq!(normalise_header_name(&String::from("")), Some(String::new()));
    assert_eq!(normalise_header_name(&String::from("--a")), Some(String::from("--A")));
    assert_eq!(normalise_header_name(&String::from("a1-2b")), Some(String::from("A1-2b")));
}

#[test]
fn normalise_rejects_any_non_ascii_character() {
    assert_eq!(normalise_header_name(&String::from("é")), None);
    assert_eq!(normalise_header_name(&String::from("content-typ\u{e9}")), None);
}

#[test]
fn token_classification() {
    assert!(is_token("bar"));
    assert!(is_token("text-html_1.0~!#$%&'*+^`|"));
    assert!(!is_token(""));
    assert!(!is_token("bar/baz"));
    assert!(!is_token("fuzz zee"));
    assert!(!is_token("a\tb"));
    assert!(!is_token("a\u{7f}"));
    assert!(!is_token("caf\u{e9}"));
    assert!(!is_token("\"bar\""));
}

#[test]
fn quote_then_unquote_gives_back_the_text() {
    for t in ["", "bar", "a\"b", "a\\b", "\\\"", "x y z", "ünïcode \"q\"", "\""] {
        let t = String::from(t);
        assert_eq!(unquote_string(&quoted_string(&t)), Some(t.clone()));
    }
}

#[test]
fn maybe_quote_then_maybe_unquote_gives_back_the_text() {
    for t in ["", "bar", "bar/baz", "a\"b", "\\", "x y", "token-1"] {
        let t = String::from(t);
        assert_eq!(maybe_unquote_string(&maybe_quoted_string(&t)), Some(t.clone()));
    }
}

#[test]
fn quoting_edge_cases() {
    assert_eq!(quoted_string(&String::new()), String::from("\"\""));
    assert_eq!(maybe_quoted_string(&String::new()), String::from("\"\""));
    assert_eq!(quoted_string(&String::from("\\")), String::from("\"\\\\\""));
}

#[test]
fn unquote_edge_cases() {
    assert_eq!(unquote_string(&String::new()), None);
    assert_eq!(unquote_string(&String::from("\"")), None);
    assert_eq!(unquote_string(&String::from("\"\"")), Some(String::new()));
    assert_eq!(unquote_string(&String::from("\"\\a\"")), Some(String::from("a")));
    assert_eq!(unquote_string(&String::from("\"ab\\")), None);
    assert_eq!(unquote_string(&String::from("\"a\"\"")), None);
    assert_eq!(maybe_unquote_string(&String::from("bar baz")), None);
}

#[test]
fn split_and_join_edges() {
    assert_eq!(comma_split(","), vec![String::new(), String::new()]);
    assert_eq!(comma_split("a,\t b,\u{a0}c"), vec![String::from("a"), String::from("b"), String::from("c")]);
    assert_eq!(comma_join(&[]), String::new());
    assert_eq!(comma_join(&[String::from("foo")]), String::from("foo"));
    assert_eq!(comma_join(&[String::from("foo"), String::from("bar")]), String::from("foo, bar"));
}

#[test]
fn split_does_not_undo_join_of_values_with_commas() {
    let joined = comma_join(&[String::from("a,b"), String::from("c")]);
    assert_eq!(comma_split(&joined), vec![String::from("a"), String::from("b"), String::from("c")]);
}

#[test]
fn parameters_quote_only_non_tokens() {
    assert_eq!(
        push_parameters(
            String::from("foo"),
            &[
                (String::from("bar"), String::from("baz")),
                (String::from("quux"), String::from("fuzz zee"))
            ]
        ),
        String::from("foo;bar=baz;quux=\"fuzz zee\"")
    );
    assert_eq!(
        push_parameters(String::new(), &[(String::from("a"), String::from(""))]),
        String::from(";a=\"\"")
    );
}

#[test]
fn quality_suffix() {
    assert_eq!(push_quality(String::new(), Some(800)), String::from(";q=0.800"));
    assert_eq!(push_quality(String::new(), None), String::new());
    assert_eq!(push_quality(String::from("en"), Some(1000)), String::from("en;q=1.000"));
    assert_eq!(push_quality(String::from("en"), Some(0)), String::from("en;q=0.000"));
    assert_eq!(push_quality(String::from("en"), Some(5)), String::from("en;q=0.005"));
    assert_eq!(push_quality(String::from("en"), Some(123)), String::from("en;q=0.123"));
}
