use rustdown::document::Document;
use rustdown::inline::CodeSpan;
use rustdown::parsers::ParseResult;
use rustdown::parsers::TryParseResult;

#[test]
fn it_parses_basic_example() {
    let document = Document::new();

    assert_eq!(
        CodeSpan::try_parse(String::from("`foo`"), &document),
        TryParseResult::Accepted(ParseResult(String::from("foo"), None))
    );
}

#[test]
fn it_parses_basic_example_with_leftover() {
    let document = Document::new();

    assert_eq!(
        CodeSpan::try_parse(String::from("`foo` bar"), &document),
        TryParseResult::Accepted(ParseResult(String::from("foo"), Some(String::from(" bar"))))
    );
}

#[test]
fn it_parses_multiple_delimiters() {
    let document = Document::new();

    assert_eq!(
        CodeSpan::try_parse(String::from("``foo ` bar``"), &document),
        TryParseResult::Accepted(ParseResult(String::from("foo ` bar"), None))
    );
}

#[test]
fn it_strips_single_leading_and_trailing_spaces_if_they_both_exist() {
    let document = Document::new();

    assert_eq!(
        CodeSpan::try_parse(String::from("`  ``  `"), &document),
        TryParseResult::Accepted(ParseResult(String::from(" `` "), None))
    );
}

#[test]
fn it_does_not_strip_leading_space_if_trailing_space_does_not_exists() {
    let document = Document::new();

    assert_eq!(
        CodeSpan::try_parse(String::from("` a`"), &document),
        TryParseResult::Accepted(ParseResult(String::from(" a"), None))
    );
}

#[test]
fn it_does_not_strip_unicode_white_space() {
    let document = Document::new();

    assert_eq!(
        CodeSpan::try_parse(String::from("`\tb\t`"), &document),
        TryParseResult::Accepted(ParseResult(String::from("\tb\t"), None))
    );
}

#[test]
fn it_does_not_strip_space_if_span_only_contains_spaces() {
    let document = Document::new();

    assert_eq!(
        CodeSpan::try_parse(String::from("`  `"), &document),
        TryParseResult::Accepted(ParseResult(String::from("  "), None))
    );
}

#[test]
fn it_converts_line_endings_to_spaces() {
    let document = Document::new();

    assert_eq!(
        CodeSpan::try_parse(String::from("`foo\nbar`"), &document),
        TryParseResult::Accepted(ParseResult(String::from("foo bar"), None))
    );
}

#[test]
fn code_span_rejects_unclosed_opening_run() {
    let document = Document::new();

    assert_eq!(
        CodeSpan::try_parse(String::from("`foo"), &document),
        TryParseResult::Rejected(String::from("`foo"))
    );

    assert_eq!(
        CodeSpan::try_parse(String::from("``foo`"), &document),
        TryParseResult::Rejected(String::from("``foo`"))
    );
}

#[test]
fn code_span_rejects_input_without_leading_backtick() {
    let document = Document::new();

    assert_eq!(
        CodeSpan::try_parse(String::from("plain"), &document),
        TryParseResult::Rejected(String::from("plain"))
    );

    assert_eq!(
        CodeSpan::try_parse(String::new(), &document),
        TryParseResult::Rejected(String::new())
    );
}

#[test]
fn code_span_converts_carriage_return_line_feed_to_one_space() {
    let document = Document::new();

    assert_eq!(
        CodeSpan::try_parse(String::from("`foo\r\nbar`"), &document),
        TryParseResult::Accepted(ParseResult(String::from("foo bar"), None))
    );
}
