use rustdown::block::BlockQuote;
use rustdown::document::Document;
use rustdown::leaf::Paragraph;
use rustdown::leaf::ThematicBreak;
use rustdown::parsers::ParseResult;
use rustdown::parsers::TryParseResult;

#[test]
fn it_accepts_simple_example() {
    let document = Document::new();

    assert_eq!(
        BlockQuote::try_parse(String::from("> # Foo\n> bar\n> baz"), &document),
        TryParseResult::Accepted(ParseResult(String::from("# Foo\nbar\nbaz"), None))
    );
}

#[test]
fn it_accepts_omitted_space_after_delimiter() {
    let document = Document::new();

    assert_eq!(
        BlockQuote::try_parse(String::from("> # Foo\n>bar\n> baz"), &document),
        TryParseResult::Accepted(ParseResult(String::from("# Foo\nbar\nbaz"), None))
    );
}

#[test]
fn it_accepts_one_leading_space() {
    let document = Document::new();

    assert_eq!(
        BlockQuote::try_parse(String::from(" > # Foo"), &document),
        TryParseResult::Accepted(ParseResult(String::from("# Foo"), None))
    );
}

#[test]
fn it_accepts_two_leading_spaces() {
    let document = Document::new();

    assert_eq!(
        BlockQuote::try_parse(String::from("  > # Foo"), &document),
        TryParseResult::Accepted(ParseResult(String::from("# Foo"), None))
    );
}

#[test]
fn it_accepts_three_leading_spaces() {
    let document = Document::new();

    assert_eq!(
        BlockQuote::try_parse(String::from("   > # Foo"), &document),
        TryParseResult::Accepted(ParseResult(String::from("# Foo"), None))
    );
}

#[test]
fn it_rejects_four_or_more_leading_spaces() {
    let document = Document::new();

    assert_eq!(
        BlockQuote::try_parse(String::from("    > # Foo"), &document),
        TryParseResult::Rejected(String::from("    > # Foo"))
    );

    assert_eq!(
        BlockQuote::try_parse(String::from("     > # Foo"), &document),
        TryParseResult::Rejected(String::from("     > # Foo"))
    );
}

#[test]
fn it_accepts_lazy_continuation_lines() {
    let document = Document::new();

    assert_eq!(
        BlockQuote::try_parse(String::from("> # Foo\nbar\nbaz"), &document),
        TryParseResult::Accepted(ParseResult(String::from("# Foo\nbar\nbaz"), None))
    );
}

#[test]
fn it_accepts_some_lazy_continuation_lines_and_some_delimiters() {
    let document = Document::new();

    assert_eq!(
        BlockQuote::try_parse(String::from("> # Foo\nbar\n>baz"), &document),
        TryParseResult::Accepted(ParseResult(String::from("# Foo\nbar\nbaz"), None))
    );
}

#[test]
fn it_rejects_lazy_continuation_lines_for_non_paragraph_continuation_text() {
    let document = Document::new();

    assert_eq!(
        BlockQuote::try_parse(String::from("> # Foo\n---"), &document),
        TryParseResult::Accepted(ParseResult(
            String::from("# Foo\n"),
            Some(String::from("---"))
        ))
    );
}

#[test]
fn block_quote_blank_line_ends_the_quote_and_keeps_the_rest() {
    let document = Document::new();

    assert_eq!(
        BlockQuote::try_parse(String::from("> quoted\n\nafter"), &document),
        TryParseResult::Accepted(ParseResult(
            String::from("quoted\n"),
            Some(String::from("after"))
        ))
    );
}

#[test]
fn it_accepts_any_sequence_of_non_blank_lines() {
    let document = Document::new();

    assert_eq!(
        Paragraph::parse(
            String::from("paragraph\ncontinued paragraph\n\nsomething else"),
            &document
        ),
        ParseResult(
            String::from("paragraph\ncontinued paragraph\n"),
            Some(String::from("something else"))
        )
    );
}

#[test]
fn paragraph_consumes_everything_without_blank_line() {
    let document = Document::new();

    assert_eq!(
        Paragraph::parse(String::from("one\ntwo"), &document),
        ParseResult(String::from("one\ntwo"), None)
    );
}

#[test]
fn it_accepts_three_subsequent_asterisks() {
    let document = Document::new();

    assert_eq!(
        ThematicBreak::try_parse(String::from("***"), &document),
        TryParseResult::Accepted(ParseResult(String::from("***"), None))
    );
}

#[test]
fn it_accepts_three_subsequent_dashes() {
    let document = Document::new();

    assert_eq!(
        ThematicBreak::try_parse(String::from("---"), &document),
        TryParseResult::Accepted(ParseResult(String::from("---"), None))
    );
}

#[test]
fn it_accepts_three_subsequent_underscores() {
    let document = Document::new();

    assert_eq!(
        ThematicBreak::try_parse(String::from("___"), &document),
        TryParseResult::Accepted(ParseResult(String::from("___"), None))
    );
}

#[test]
fn it_accepts_basic_example_and_returns_remaining_lines() {
    let document = Document::new();

    assert_eq!(
        ThematicBreak::try_parse(String::from("***\nleftover"), &document),
        TryParseResult::Accepted(ParseResult(
            String::from("***\n"),
            Some(String::from("leftover"))
        ))
    );
}

#[test]
fn thematic_break_it_rejects_wrong_characters() {
    let document = Document::new();

    assert_eq!(
        ThematicBreak::try_parse(String::from("+++"), &document),
        TryParseResult::Rejected(String::from("+++"))
    );

    assert_eq!(
        ThematicBreak::try_parse(String::from("==="), &document),
        TryParseResult::Rejected(String::from("==="))
    );
}

#[test]
fn it_rejects_not_enough_characters() {
    let document = Document::new();

    assert_eq!(
        ThematicBreak::try_parse(String::from("**"), &document),
        TryParseResult::Rejected(String::from("**"))
    );
}

#[test]
fn it_accepts_single_space_indent() {
    let document = Document::new();

    assert_eq!(
        ThematicBreak::try_parse(String::from(" ***"), &document),
        TryParseResult::Accepted(ParseResult(String::from(" ***"), None))
    );
}

#[test]
fn it_accepts_double_space_indent() {
    let document = Document::new();

    assert_eq!(
        ThematicBreak::try_parse(String::from("  ***"), &document),
        TryParseResult::Accepted(ParseResult(String::from("  ***"), None))
    );
}

#[test]
fn it_accepts_triple_space_indent() {
    let document = Document::new();

    assert_eq!(
        ThematicBreak::try_parse(String::from("   ***"), &document),
        TryParseResult::Accepted(ParseResult(String::from("   ***"), None))
    );
}

#[test]
fn it_rejects_quadruple_space_indent() {
    let document = Document::new();

    assert_eq!(
        ThematicBreak::try_parse(String::from("    ***"), &document),
        TryParseResult::Rejected(String::from("    ***"))
    );
}

#[test]
fn it_accepts_four_or_more_delimiters() {
    let document = Document::new();

    assert_eq!(
        ThematicBreak::try_parse(String::from("****"), &document),
        TryParseResult::Accepted(ParseResult(String::from("****"), None))
    );
}

#[test]
fn it_accepts_spaces_between_delimiters() {
    let document = Document::new();

    assert_eq!(
        ThematicBreak::try_parse(String::from("* * *"), &document),
        TryParseResult::Accepted(ParseResult(String::from("* * *"), None))
    );
}

#[test]
fn it_rejects_other_characters_on_line() {
    let document = Document::new();

    assert_eq!(
        ThematicBreak::try_parse(String::from("***a"), &document),
        TryParseResult::Rejected(String::from("***a"))
    );
}

#[test]
fn it_rejects_multiple_different_correct_delimiters() {
    let document = Document::new();

    assert_eq!(
        ThematicBreak::try_parse(String::from("*-*"), &document),
        TryParseResult::Rejected(String::from("*-*"))
    );
}
