//! The preliminary matchers: CommonMark's character classes, built as
//! instances of the `Matcher` capability.

use crate::matchers::LeftoverString;
use crate::matchers::MatchedString;
use crate::matchers::Matcher;
use crate::matchers::RejectedString;
use crate::text::blank_line_accepts;
use crate::text::blank_line_at;
use crate::text::blank_line_len;
use crate::text::is_whitespace_char;
use crate::text::line_ending_len;
use crate::text::line_ending_len_at;
use crate::text::line_len;
use crate::text::line_len_at;
use crate::text::seg;
use vstd::prelude::*;
use vstd::string::StrSliceExecFns;

verus! {

/// Matches any one character; fails only on empty input.
pub struct Character;

impl Matcher for Character {
    open spec fn spec_accepts(&self, s: Seq<char>) -> bool {
        s.len() > 0
    }

    open spec fn spec_consumed(&self, s: Seq<char>) -> Seq<char> {
        s.take(1)
    }

    fn try_match(&self, input: String) -> (r: Result<
        (MatchedString, LeftoverString),
        RejectedString,
    >) {
        let len = input.as_str().unicode_len();
        if len > 0 {
            let consumed = seg(input.as_str(), 0, 1);
            let rest = seg(input.as_str(), 1, len);
            proof {
                assert(input@.subrange(0, 1) + input@.subrange(1, len as int) =~= input@);
            }
            Ok((consumed, rest))
        } else {
            Err(input)
        }
    }
}

/// Matches CR LF, CR or LF, in that order, so a CR LF pair is never split.
pub struct LineEnding;

impl Matcher for LineEnding {
    open spec fn spec_accepts(&self, s: Seq<char>) -> bool {
        line_ending_len(s) > 0
    }

    open spec fn spec_consumed(&self, s: Seq<char>) -> Seq<char> {
        s.take(line_ending_len(s) as int)
    }

    fn try_match(&self, input: String) -> (r: Result<
        (MatchedString, LeftoverString),
        RejectedString,
    >) {
        let len = input.as_str().unicode_len();
        proof {
            assert(input@.skip(0) =~= input@);
        }
        let e = line_ending_len_at(input.as_str(), 0);
        if e > 0 {
            let consumed = seg(input.as_str(), 0, e);
            let rest = seg(input.as_str(), e, len);
            proof {
                assert(input@.subrange(0, e as int) + input@.subrange(e as int, len as int)
                    =~= input@);
            }
            Ok((consumed, rest))
        } else {
            Err(input)
        }
    }
}

/// Matches a whole line, the terminating line ending included; never fails.
pub struct Line;

impl Matcher for Line {
    open spec fn spec_accepts(&self, s: Seq<char>) -> bool {
        true
    }

    open spec fn spec_consumed(&self, s: Seq<char>) -> Seq<char> {
        s.take(line_len(s) as int)
    }

    fn try_match(&self, input: String) -> (r: Result<
        (MatchedString, LeftoverString),
        RejectedString,
    >) {
        let len = input.as_str().unicode_len();
        proof {
            assert(input@.skip(0) =~= input@);
        }
        let n = line_len_at(input.as_str(), 0);
        let consumed = seg(input.as_str(), 0, n);
        let rest = seg(input.as_str(), n, len);
        proof {
            assert(input@.subrange(0, n as int) + input@.subrange(n as int, len as int)
                =~= input@);
        }
        Ok((consumed, rest))
    }
}

/// Matches exactly one literal space.
pub struct Space;

impl Space {
    /// The literal this matcher consumes: a single space.
    pub fn get_literal(&self) -> (r: String)
        ensures
            r@ == seq![' '],
    {
        let mut literal = String::new();
        literal.push(' ');
        proof {
            assert(literal@ =~= seq![' ']);
        }
        literal
    }
}

impl Matcher for Space {
    open spec fn spec_accepts(&self, s: Seq<char>) -> bool {
        s.len() > 0 && s[0] == ' '
    }

    open spec fn spec_consumed(&self, s: Seq<char>) -> Seq<char> {
        s.take(1)
    }

    fn try_match(&self, input: String) -> (r: Result<
        (MatchedString, LeftoverString),
        RejectedString,
    >) {
        let len = input.as_str().unicode_len();
        if len > 0 && input.as_str().get_char(0) == ' ' {
            let consumed = seg(input.as_str(), 0, 1);
            let rest = seg(input.as_str(), 1, len);
            proof {
                assert(input@.subrange(0, 1) + input@.subrange(1, len as int) =~= input@);
            }
            Ok((consumed, rest))
        } else {
            Err(input)
        }
    }
}

/// Matches one whitespace character: CR, form feed, line tabulation, LF,
/// space or tab.
pub struct Whitespace;

impl Matcher for Whitespace {
    open spec fn spec_accepts(&self, s: Seq<char>) -> bool {
        s.len() > 0 && is_whitespace_char(s[0])
    }

    open spec fn spec_consumed(&self, s: Seq<char>) -> Seq<char> {
        s.take(1)
    }

    fn try_match(&self, input: String) -> (r: Result<
        (MatchedString, LeftoverString),
        RejectedString,
    >) {
        let len = input.as_str().unicode_len();
        if len > 0 {
            let c = input.as_str().get_char(0);
            if c == '\u{000D}' || c == '\u{000C}' || c == '\u{000B}' || c == '\u{000A}'
                || c == ' ' || c == '\t' {
                let consumed = seg(input.as_str(), 0, 1);
                let rest = seg(input.as_str(), 1, len);
                proof {
                    assert(input@.subrange(0, 1) + input@.subrange(1, len as int) =~= input@);
                }
                return Ok((consumed, rest));
            }
        }
        Err(input)
    }
}

/// Matches a run of spaces and tabs closed by a line ending or the end of
/// input; any other character voids the whole attempt.
pub struct BlankLine;

impl Matcher for BlankLine {
    open spec fn spec_accepts(&self, s: Seq<char>) -> bool {
        blank_line_accepts(s)
    }

    open spec fn spec_consumed(&self, s: Seq<char>) -> Seq<char> {
        s.take(blank_line_len(s) as int)
    }

    fn try_match(&self, input: String) -> (r: Result<
        (MatchedString, LeftoverString),
        RejectedString,
    >) {
        let len = input.as_str().unicode_len();
        proof {
            assert(input@.skip(0) =~= input@);
        }
        let (accepted, n) = blank_line_at(input.as_str(), 0);
        if accepted {
            let consumed = seg(input.as_str(), 0, n);
            let rest = seg(input.as_str(), n, len);
            proof {
                assert(input@.subrange(0, n as int) + input@.subrange(n as int, len as int)
                    =~= input@);
            }
            Ok((consumed, rest))
        } else {
            Err(input)
        }
    }
}

/// The stateless preliminary matchers, shared read-only across a parse.
pub struct Preliminaries {
    pub blank_line: BlankLine,
    pub character: Character,
    pub line: Line,
    pub line_ending: LineEnding,
    pub space: Space,
    pub whitespace: Whitespace,
}

impl Preliminaries {
    pub fn initialize() -> Preliminaries {
        Preliminaries {
            blank_line: BlankLine,
            character: Character,
            line: Line,
            line_ending: LineEnding,
            space: Space,
            whitespace: Whitespace,
        }
    }
}

} // verus!
