use rustdown::matchers::Matcher;
use rustdown::preliminaries::BlankLine;
use rustdown::preliminaries::Character;
use rustdown::preliminaries::Line;
use rustdown::preliminaries::LineEnding;
use rustdown::preliminaries::Preliminaries;
use rustdown::preliminaries::Space;
use rustdown::preliminaries::Whitespace;

const CARRIAGE_RETURN: char = '\u{000D}';
const FORM_FEED: char = '\u{000C}';
const LINE_TABULATION: char = '\u{000B}';
const NEWLINE: char = '\u{000A}';
const SPACE: char = '\u{0020}';
const TAB: char = '\u{0009}';

#[test]
fn it_accepts_empty_line() {
    let blank_line = BlankLine;

    assert_eq!(
        blank_line.try_match(String::from("\nline\n")),
        Ok((String::from("\n"), String::from("line\n")))
    );
}

#[test]
fn it_accepts_line_with_spaces_and_tabs() {
    let blank_line = BlankLine;

    assert_eq!(
        blank_line.try_match(String::from("      \nline\n")),
        Ok((String::from("      \n"), String::from("line\n")))
    );
}

#[test]
fn it_rejects_lines_with_wrong_characters() {
    let blank_line = BlankLine;

    assert_eq!(
        blank_line.try_match(String::from("   a\n")),
        Err(String::from("   a\n"))
    );
}

#[test]
fn it_accepts_any_character() {
    let character = Character;

    assert_eq!(
        character.try_match(String::from("ab")),
        Ok((String::from("a"), String::from("b")))
    );
}

#[test]
fn it_rejects_empty_string() {
    let character = Character;

    assert_eq!(character.try_match(String::new()), Err(String::new()));
}

#[test]
fn it_accepts_a_line() {
    let line = Line;

    assert_eq!(
        line.try_match(String::from("line")),
        Ok((String::from("line"), String::new()))
    );

    assert_eq!(
        line.try_match(String::from("line\nanother line")),
        Ok((String::from("line\n"), String::from("another line")))
    );
}

#[test]
fn line_ending_it_accepts_newline() {
    let line_ending = LineEnding;

    assert_eq!(
        line_ending.try_match(format!("{newline}another line", newline = NEWLINE)),
        Ok((String::from(NEWLINE), String::from("another line")))
    );
}

#[test]
fn it_accepts_carriage_return_not_followed_by_newline() {
    let line_ending = LineEnding;

    assert_eq!(
        line_ending.try_match(format!(
            "{carriage_return}another line",
            carriage_return = CARRIAGE_RETURN
        )),
        Ok((String::from(CARRIAGE_RETURN), String::from("another line")))
    );
}

#[test]
fn it_accepts_carriage_return_followed_by_newline() {
    let line_ending = LineEnding;

    assert_eq!(
        line_ending.try_match(format!(
            "{carriage_return}{newline}another line",
            carriage_return = CARRIAGE_RETURN,
            newline = NEWLINE
        )),
        Ok((
            format!(
                "{carriage_return}{newline}",
                carriage_return = CARRIAGE_RETURN,
                newline = NEWLINE
            ),
            String::from("another line")
        ))
    );
}

#[test]
fn line_ending_it_rejects_wrong_characters() {
    let line_ending = LineEnding;

    assert_eq!(
        line_ending.try_match(String::from("not a line ending")),
        Err(String::from("not a line ending"))
    );
}

#[test]
fn space_it_accepts_space() {
    let space = Space;

    assert_eq!(
        space.try_match(format!("{}word", SPACE)),
        Ok((String::from(SPACE), String::from("word")))
    );
}

#[test]
fn space_it_rejects_wrong_characters() {
    let space = Space;

    assert_eq!(
        space.try_match(String::from("not a space")),
        Err(String::from("not a space"))
    );
}

#[test]
fn space_get_literal_is_one_space() {
    let space = Space;

    assert_eq!(space.get_literal(), String::from(" "));
}

#[test]
fn it_accepts_carriage_return() {
    let whitespace = Whitespace;

    assert_eq!(
        whitespace.try_match(format!(
            "{carriage_return}word",
            carriage_return = CARRIAGE_RETURN
        )),
        Ok((String::from(CARRIAGE_RETURN), String::from("word")))
    );
}

#[test]
fn it_accepts_form_feed() {
    let whitespace = Whitespace;

    assert_eq!(
        whitespace.try_match(format!("{form_feed}word", form_feed = FORM_FEED)),
        Ok((String::from(FORM_FEED), String::from("word")))
    );
}

#[test]
fn it_accepts_line_tabulation() {
    let whitespace = Whitespace;

    assert_eq!(
        whitespace.try_match(format!(
            "{line_tabulation}word",
            line_tabulation = LINE_TABULATION
        )),
        Ok((String::from(LINE_TABULATION), String::from("word")))
    );
}

#[test]
fn whitespace_it_accepts_newline() {
    let whitespace = Whitespace;

    assert_eq!(
        whitespace.try_match(format!("{newline}word", newline = NEWLINE)),
        Ok((String::from(NEWLINE), String::from("word")))
    );
}

#[test]
fn whitespace_it_accepts_space() {
    let whitespace = Whitespace;

    assert_eq!(
        whitespace.try_match(format!("{space}word", space = SPACE)),
        Ok((String::from(SPACE), String::from("word")))
    );
}

#[test]
fn it_accepts_tab() {
    let whitespace = Whitespace;

    assert_eq!(
        whitespace.try_match(format!("{tab}word", tab = TAB)),
        Ok((String::from(TAB), String::from("word")))
    );
}

#[test]
fn whitespace_it_rejects_wrong_characters() {
    let whitespace = Whitespace;

    assert_eq!(
        whitespace.try_match(String::from("not whitespace")),
        Err(String::from("not whitespace"))
    );
}

#[test]
fn preliminaries_expose_the_shared_matchers() {
    let preliminaries = Preliminaries::initialize();

    assert_eq!(
        preliminaries.space.try_match(String::from(" x")),
        Ok((String::from(" "), String::from("x")))
    );
    assert_eq!(
        preliminaries.line.try_match(String::from("a\nb")),
        Ok((String::from("a\n"), String::from("b")))
    );
}

#[test]
fn blank_line_at_end_of_input_needs_no_line_ending() {
    let blank_line = BlankLine;

    assert_eq!(
        blank_line.try_match(String::from("  \t ")),
        Ok((String::from("  \t "), String::new()))
    );
}
