use rustdown::matchers::IndividualMatcher;
use rustdown::matchers::Matcher;
use rustdown::matchers::SelectionMatcher;

#[test]
fn individual_it_accepts_matched_and_returns_leftover() {
    let a_matcher = IndividualMatcher::from(String::from('a'));

    assert_eq!(
        a_matcher.try_match(String::from("a")),
        Ok((String::from("a"), String::new()))
    );

    assert_eq!(
        a_matcher.try_match(String::from("abc")),
        Ok((String::from("a"), String::from("bc")))
    );
}

#[test]
fn individual_it_rejects_mismatched_and_returns_original() {
    let a_matcher = IndividualMatcher::from(String::from('a'));

    assert_eq!(
        a_matcher.try_match(String::from("bc")),
        Err(String::from("bc"))
    );

    assert_eq!(a_matcher.try_match(String::new()), Err(String::new()));
}

#[test]
fn selection_it_accepts_matched_and_returns_leftover() {
    let a_or_b_matcher = SelectionMatcher::from(vec![String::from('a'), String::from('b')]);

    assert_eq!(
        a_or_b_matcher.try_match(String::from('a')),
        Ok((String::from('a'), String::new()))
    );

    assert_eq!(
        a_or_b_matcher.try_match(String::from('b')),
        Ok((String::from('b'), String::new()))
    );

    assert_eq!(
        a_or_b_matcher.try_match(String::from("abc")),
        Ok((String::from('a'), String::from("bc")))
    );

    assert_eq!(
        a_or_b_matcher.try_match(String::from("bc")),
        Ok((String::from('b'), String::from('c')))
    );
}

#[test]
fn selection_it_rejects_mismatched_and_returns_original() {
    let a_or_b_matcher = SelectionMatcher::from(vec![String::from('a'), String::from('b')]);

    assert_eq!(
        a_or_b_matcher.try_match(String::from('c')),
        Err(String::from('c'))
    );

    assert_eq!(a_or_b_matcher.try_match(String::new()), Err(String::new()));
}

#[test]
fn individual_from_char_matches_that_character() {
    let matcher = IndividualMatcher::from('x');

    assert_eq!(
        matcher.try_match(String::from("xy")),
        Ok((String::from("x"), String::from("y")))
    );
    assert_eq!(matcher.try_match(String::from("y")), Err(String::from("y")));
}

#[test]
fn selection_order_breaks_ties() {
    // a two-character line ending must be tried before its one-character prefix
    let matcher = SelectionMatcher::from(vec![String::from("\r\n"), String::from("\r")]);

    assert_eq!(
        matcher.try_match(String::from("\r\nrest")),
        Ok((String::from("\r\n"), String::from("rest")))
    );
    assert_eq!(
        matcher.try_match(String::from("\rrest")),
        Ok((String::from("\r"), String::from("rest")))
    );
}
