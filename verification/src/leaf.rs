//! Leaf blocks: ATX headings, thematic breaks, and the paragraph
//! catch-all, tried in that order.

use crate::document::Document;
use crate::parsers::leftover_is;
use crate::parsers::Parse;
use crate::parsers::ParseResult;
use crate::parsers::TryParse;
use crate::parsers::TryParseResult;
use crate::text::blank_line_accepts;
use crate::text::blank_line_at;
use crate::text::blank_line_len;
use crate::text::count_char_upto;
use crate::text::lemma_line_len_bounds;
use crate::text::lemma_skip_skip;
use crate::text::line_body_len;
use crate::text::line_body_len_at;
use crate::text::line_len;
use crate::text::line_len_at;
use crate::text::seg;
use crate::text::space_run;
use crate::text::space_run_at;
use vstd::pervasive::unreached;
use vstd::prelude::*;
use vstd::string::StrSliceExecFns;

verus! {

// ---------------------------------------------------------------------------
// Categories
// ---------------------------------------------------------------------------

#[derive(Debug, PartialEq, Eq, Structural, Clone, Copy)]
pub enum AtxHeadingLevel {
    One,
    Two,
    Three,
    Four,
    Five,
    Six,
}

#[derive(Debug, PartialEq, Eq, Structural, Clone, Copy)]
pub enum LeafCategory {
    AtxHeading(AtxHeadingLevel),
    ThematicBreak,
    Paragraph,
}

/// A leaf block: its category and the raw matched text.
pub struct Leaf {
    pub category: LeafCategory,
    pub text: String,
}

impl Leaf {
    pub fn new(category: LeafCategory, text: String) -> (r: Leaf)
        ensures
            r.category == category,
            r.text == text,
    {
        Leaf { category, text }
    }
}

// ---------------------------------------------------------------------------
// ATX heading: a rule that always rejects, so heading lines degrade to
// paragraphs.  The block-quote lazy-continuation rule depends on this.
// ---------------------------------------------------------------------------

pub struct AtxHeading {
    pub level: AtxHeadingLevel,
}

impl AtxHeading {
    pub fn try_parse(input: String, _document: &Document) -> (r: TryParseResult<
        (AtxHeadingLevel, String),
    >)
        ensures
            (match r {
                TryParseResult::Rejected(rejected) => rejected@ == input@,
                TryParseResult::Accepted(_) => false,
            }),
    {
        TryParseResult::Rejected(input)
    }
}

impl TryParse<(AtxHeadingLevel, String)> for AtxHeading {
    fn try_parse(input: String, document: &Document) -> (r: TryParseResult<
        (AtxHeadingLevel, String),
    >) {
        AtxHeading::try_parse(input, document)
    }
}

// ---------------------------------------------------------------------------
// Thematic break
// ---------------------------------------------------------------------------

pub open spec fn is_tb_char(c: char) -> bool {
    c == '-' || c == '_' || c == '*'
}

/// Whether the first line of `s` is a thematic break: at most three leading
/// spaces, then at least three occurrences of one repeated delimiter
/// character drawn from `-`, `_`, `*`, with spaces permitted between the
/// delimiters and nothing else before the line ends.
pub open spec fn tb_accepts(s: Seq<char>) -> bool {
    let b = line_body_len(s) as int;
    let k = space_run(s) as int;
    k <= 3 && k < b && is_tb_char(s[k]) && (forall|i: int|
        k <= i < b ==> s[i] == s[k] || s[i] == ' ') && count_char_upto(s, s[k], b) >= 3
}

/// Decides `tb_accepts` for the input starting at position `at` of `s`.
pub fn tb_check(s: &str, at: usize) -> (r: bool)
    requires
        at <= s@.len(),
    ensures
        r == tb_accepts(s@.skip(at as int)),
{
    let ghost v = s@.skip(at as int);
    let len = s.unicode_len();
    let b = line_body_len_at(s, at);
    let k = space_run_at(s, at);
    if !(k <= 3 && k < b) {
        return false;
    }
    let d = s.get_char(at + k);
    proof {
        assert(v[k as int] == s@[at + k]);
    }
    if !(d == '-' || d == '_' || d == '*') {
        return false;
    }
    proof {
        crate::text::lemma_space_run_spaces(v);
        crate::text::lemma_count_upto_zero(v, d, k as int);
    }
    let mut i = k;
    let mut cnt: usize = 0;
    loop
        invariant
            k <= i <= b,
            len == s@.len(),
            at + b <= s@.len(),
            b == line_body_len(v),
            k == space_run(v),
            k < b,
            v == s@.skip(at as int),
            d == v[k as int],
            cnt == count_char_upto(v, d, i as int),
            cnt <= i,
            forall|j: int| k <= j < i ==> v[j] == d || v[j] == ' ',
        ensures
            (i == b && cnt == count_char_upto(v, d, b as int) && forall|j: int|
                k <= j < b ==> v[j] == d || v[j] == ' ') || (i < b && v[i as int] != d
                && v[i as int] != ' '),
        decreases b - i,
    {
        if i >= b {
            break;
        }
        let c = s.get_char(at + i);
        proof {
            assert(v[i as int] == s@[at + i]);
        }
        if c == d {
            cnt = cnt + 1;
        } else if c != ' ' {
            break;
        }
        i = i + 1;
    }
    if i < b {
        return false;
    }
    cnt >= 3
}

pub struct ThematicBreak;

impl ThematicBreak {
    pub fn try_parse(input: String, _document: &Document) -> (r: TryParseResult<String>)
        ensures
            (match r {
                TryParseResult::Accepted(pr) => tb_accepts(input@) && pr.0@ == input@.take(
                    line_len(input@) as int,
                ) && leftover_is(pr.1, input@.skip(line_len(input@) as int)),
                TryParseResult::Rejected(rejected) => !tb_accepts(input@) && rejected@ == input@,
            }),
    {
        let len = input.as_str().unicode_len();
        proof {
            assert(input@.skip(0) =~= input@);
        }
        if tb_check(input.as_str(), 0) {
            let n = line_len_at(input.as_str(), 0);
            let consumed = seg(input.as_str(), 0, n);
            let rest = seg(input.as_str(), n, len);
            proof {
                assert(input@.subrange(0, n as int) =~= input@.take(n as int));
                assert(input@.subrange(n as int, len as int) =~= input@.skip(n as int));
            }
            TryParseResult::Accepted(ParseResult::new(consumed, rest))
        } else {
            TryParseResult::Rejected(input)
        }
    }
}

impl TryParse<String> for ThematicBreak {
    fn try_parse(input: String, document: &Document) -> (r: TryParseResult<String>) {
        ThematicBreak::try_parse(input, document)
    }
}

// ---------------------------------------------------------------------------
// Paragraph
// ---------------------------------------------------------------------------

/// Number of characters of the consecutive non-blank lines that open `s`.
pub open spec fn para_body_len(s: Seq<char>) -> nat
    decreases s.len(),
{
    if s.len() == 0 {
        0
    } else if blank_line_accepts(s) {
        0
    } else {
        proof {
            lemma_line_len_bounds(s);
        }
        line_len(s) + para_body_len(s.skip(line_len(s) as int))
    }
}

/// Length of the blank line that closes the paragraph (0 at end of input).
pub open spec fn para_blank_len(s: Seq<char>) -> nat
    decreases s.len(),
{
    if s.len() == 0 {
        0
    } else if blank_line_accepts(s) {
        blank_line_len(s)
    } else {
        proof {
            lemma_line_len_bounds(s);
        }
        para_blank_len(s.skip(line_len(s) as int))
    }
}

/// The text a paragraph consumes from `s`.
pub open spec fn para_text(s: Seq<char>) -> Seq<char> {
    s.take(para_body_len(s) as int)
}

/// What a paragraph leaves of `s`: the blank separator is consumed too.
pub open spec fn para_rest(s: Seq<char>) -> Seq<char> {
    s.skip((para_body_len(s) + para_blank_len(s)) as int)
}

pub proof fn lemma_para_len_le(s: Seq<char>)
    ensures
        para_body_len(s) + para_blank_len(s) <= s.len(),
    decreases s.len(),
{
    if s.len() == 0 {
    } else if blank_line_accepts(s) {
        crate::text::lemma_blank_line_len_bounds(s);
    } else {
        lemma_line_len_bounds(s);
        lemma_para_len_le(s.skip(line_len(s) as int));
    }
}

#[derive(Debug, Eq, PartialEq)]
pub struct Paragraph;

impl Paragraph {
    pub fn parse(input: String, _document: &Document) -> (r: ParseResult<String>)
        ensures
            r.0@ == para_text(input@),
            leftover_is(r.1, para_rest(input@)),
    {
        let len = input.as_str().unicode_len();
        proof {
            assert(input@.skip(0) =~= input@);
        }
        let mut pos: usize = 0;
        let mut blank: usize = 0;
        loop
            invariant
                0 <= pos <= len,
                len == input@.len(),
                para_body_len(input@) == pos + para_body_len(input@.skip(pos as int)),
                para_blank_len(input@) == para_blank_len(input@.skip(pos as int)),
            ensures
                pos + blank <= len,
                para_body_len(input@) == pos,
                para_blank_len(input@) == blank,
            decreases len - pos,
        {
            if pos >= len {
                blank = 0;
                break;
            }
            let (is_blank, blen) = blank_line_at(input.as_str(), pos);
            if is_blank {
                blank = blen;
                break;
            }
            let n = line_len_at(input.as_str(), pos);
            proof {
                lemma_skip_skip(input@, pos as int, n as int);
            }
            pos = pos + n;
        }
        let consumed = seg(input.as_str(), 0, pos);
        let rest = seg(input.as_str(), pos + blank, len);
        proof {
            assert(input@.subrange(0, pos as int) =~= input@.take(pos as int));
            assert(input@.subrange((pos + blank) as int, len as int) =~= input@.skip(
                (pos + blank) as int,
            ));
        }
        ParseResult::new(consumed, rest)
    }
}

impl Parse<String> for Paragraph {
    fn parse(input: String, document: &Document) -> (r: ParseResult<String>) {
        Paragraph::parse(input, document)
    }
}

// ---------------------------------------------------------------------------
// The leaf alternation
// ---------------------------------------------------------------------------

pub open spec fn leaf_category_of(s: Seq<char>) -> LeafCategory {
    if tb_accepts(s) {
        LeafCategory::ThematicBreak
    } else {
        LeafCategory::Paragraph
    }
}

pub open spec fn leaf_text(s: Seq<char>) -> Seq<char> {
    if tb_accepts(s) {
        s.take(line_len(s) as int)
    } else {
        para_text(s)
    }
}

pub open spec fn leaf_rest(s: Seq<char>) -> Seq<char> {
    if tb_accepts(s) {
        s.skip(line_len(s) as int)
    } else {
        para_rest(s)
    }
}

impl Leaf {
    /// Tries `AtxHeading`, then `ThematicBreak`, then the paragraph
    /// catch-all, which always accepts.
    pub fn parse(input: String, document: &Document) -> (r: ParseResult<Leaf>)
        ensures
            r.0.category == leaf_category_of(input@),
            r.0.text@ == leaf_text(input@),
            leftover_is(r.1, leaf_rest(input@)),
    {
        match AtxHeading::try_parse(input, document) {
            TryParseResult::Accepted(_) => unreached(),
            TryParseResult::Rejected(rejected) => {
                match ThematicBreak::try_parse(rejected, document) {
                    TryParseResult::Accepted(pr) => {
                        let ParseResult(text, leftover) = pr;
                        ParseResult(Leaf::new(LeafCategory::ThematicBreak, text), leftover)
                    },
                    TryParseResult::Rejected(rejected2) => {
                        let ParseResult(text, leftover) = Paragraph::parse(rejected2, document);
                        ParseResult(Leaf::new(LeafCategory::Paragraph, text), leftover)
                    },
                }
            },
        }
    }
}

impl Parse<Leaf> for Leaf {
    fn parse(input: String, document: &Document) -> (r: ParseResult<Leaf>) {
        Leaf::parse(input, document)
    }
}

} // verus!
