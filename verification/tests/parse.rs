use quad_url::{easy_parse, format_token};

#[test]
fn single_dash_with_value() {
    assert_eq!(easy_parse("-x=1"), Some(("x", Some("1"))));
}

#[test]
fn double_dash_flag() {
    assert_eq!(easy_parse("--flag"), Some(("flag", None)));
}

#[test]
fn trailing_equals_is_no_value() {
    assert_eq!(easy_parse("--k="), Some(("k", None)));
    assert_eq!(easy_parse("-k="), Some(("k", None)));
}

#[test]
fn text_without_dash_is_no_parameter() {
    assert_eq!(easy_parse("notaflag"), None);
    assert_eq!(easy_parse(""), None);
    assert_eq!(easy_parse("=x"), None);
    assert_eq!(easy_parse("index.html"), None);
    assert_eq!(easy_parse(" -x"), None);
    assert_eq!(easy_parse("a-b"), None);
}

#[test]
fn bare_dashes_have_the_empty_name() {
    assert_eq!(easy_parse("-"), Some(("", None)));
    assert_eq!(easy_parse("--"), Some(("", None)));
}

#[test]
fn value_may_hold_spaces() {
    assert_eq!(easy_parse("--something=spa ce"), Some(("something", Some("spa ce"))));
}

#[test]
fn only_two_dashes_are_stripped() {
    assert_eq!(easy_parse("---x"), Some(("-x", None)));
    assert_eq!(easy_parse("----"), Some(("--", None)));
    assert_eq!(easy_parse("-a-b"), Some(("a-b", None)));
    assert_eq!(easy_parse("--a-b=c-d"), Some(("a-b", Some("c-d"))));
}

#[test]
fn first_equals_parts_name_and_value() {
    assert_eq!(easy_parse("--a=b=c"), Some(("a", Some("b=c"))));
    assert_eq!(easy_parse("--a=="), Some(("a", Some("="))));
    assert_eq!(easy_parse("-="), Some(("", None)));
    assert_eq!(easy_parse("--="), Some(("", None)));
    assert_eq!(easy_parse("--=v"), Some(("", Some("v"))));
    assert_eq!(easy_parse("-=v"), Some(("", Some("v"))));
}

#[test]
fn characters_are_counted_not_bytes() {
    assert_eq!(easy_parse("--ключ=значение"), Some(("ключ", Some("значение"))));
    assert_eq!(easy_parse("-é=ü"), Some(("é", Some("ü"))));
    assert_eq!(easy_parse("--日本語"), Some(("日本語", None)));
    assert_eq!(easy_parse("-😀=😀😀"), Some(("😀", Some("😀😀"))));
    assert_eq!(easy_parse("é"), None);
}

#[test]
fn name_and_value_come_back() {
    for (name, value) in [
        ("k", "1"),
        ("something", "spa ce"),
        ("", "v"),
        ("ключ", "значение"),
        ("é", "="),
        ("a-b", "c=d"),
        ("--", "x"),
        ("-x", "-"),
    ] {
        let token = format_token(name, value);
        assert_eq!(easy_parse(&token), Some((name, Some(value))), "{}", token);
    }
}

#[test]
fn empty_value_comes_back_as_none() {
    for name in ["k", "begin", "", "ключ", "é", "a-b", "--"] {
        let token = format_token(name, "");
        assert_eq!(easy_parse(&token), Some((name, None)), "{}", token);
    }
}

#[test]
fn names_that_do_not_come_back() {
    // A single dash behind its own dash reads as two dashes.
    assert_eq!(format_token("-", "v"), "--=v");
    assert_eq!(easy_parse("--=v"), Some(("", Some("v"))));
    // An `=` in the name ends the name.
    assert_eq!(format_token("a=b", "c"), "--a=b=c");
    assert_eq!(easy_parse("--a=b=c"), Some(("a", Some("b=c"))));
}
