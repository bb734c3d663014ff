//! The shared parsing vocabulary: parse results, optional leftovers, and
//! the capabilities the block and inline parsers expose.

use crate::document::Document;
use vstd::prelude::*;
use vstd::string::StrSliceExecFns;

verus! {

/// A parsed value paired with the unconsumed rest of the input; the rest is
/// absent exactly when it is empty.
#[derive(Debug, PartialEq, Eq)]
pub struct ParseResult<T>(pub T, pub Option<String>);

/// Relates an optional leftover to the character sequence it stands for:
/// absent exactly when the sequence is empty.
pub open spec fn leftover_is(leftover: Option<String>, s: Seq<char>) -> bool {
    match leftover {
        None => s.len() == 0,
        Some(l) => l@ == s && s.len() > 0,
    }
}

impl<T> ParseResult<T> {
    pub fn new(result: T, unconsumed: String) -> (r: ParseResult<T>)
        ensures
            r.0 == result,
            leftover_is(r.1, unconsumed@),
    {
        if unconsumed.as_str().unicode_len() == 0 {
            ParseResult(result, None)
        } else {
            ParseResult(result, Some(unconsumed))
        }
    }
}

/// The outcome of a grammar alternative that may backtrack: either a parse
/// result, or the original input handed back unchanged.
#[derive(Debug, PartialEq, Eq)]
pub enum TryParseResult<T> {
    Accepted(ParseResult<T>),
    Rejected(String),
}

/// A rule that always produces a value.
pub trait Parse<T> {
    fn parse(input: String, document: &Document) -> ParseResult<T>;
}

/// A rule that either produces a value or rejects.
///
/// Whatever the rule, rejection gives the input back exactly: no alternative
/// may destroy information when it fails.
pub trait TryParse<T> {
    fn try_parse(input: String, document: &Document) -> (r: TryParseResult<T>)
        ensures
            (match r {
                TryParseResult::Rejected(rejected) => rejected@ == input@,
                TryParseResult::Accepted(_) => true,
            }),
    ;
}

/// A rule applied repeatedly until no leftover remains.
pub trait ParseMultiple<T> {
    fn parse_multiple(input: String, document: &Document) -> Vec<T>;
}

} // verus!
