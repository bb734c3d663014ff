//! Inline-level parsing: code spans delimited by backtick runs, and the
//! textual-content fallback that absorbs everything else.

use crate::document::Document;
use crate::parsers::leftover_is;
use crate::parsers::Parse;
use crate::parsers::ParseMultiple;
use crate::parsers::ParseResult;
use crate::parsers::TryParse;
use crate::parsers::TryParseResult;
use crate::text::lemma_skip_skip;
use crate::text::lemma_tick_run_le;
use crate::text::line_ending_len;
use crate::text::line_ending_len_at;
use crate::text::seg;
use crate::text::tick_run;
use crate::text::tick_run_at;
use vstd::prelude::*;
use vstd::string::StrSliceExecFns;

verus! {

// ---------------------------------------------------------------------------
// Code span: the character-level specification
// ---------------------------------------------------------------------------

/// Position in `r` of the first maximal backtick run of length exactly `n`,
/// or -1 if none occurs.  Shorter and longer runs are passed over whole.
pub open spec fn cs_close(r: Seq<char>, n: nat) -> int
    decreases r.len(),
{
    if r.len() == 0 {
        -1
    } else {
        let t = tick_run(r);
        if t == n {
            0
        } else {
            let step: int = if t > 0 {
                t as int
            } else {
                1
            };
            proof {
                lemma_tick_run_le(r);
            }
            let rec = cs_close(r.skip(step), n);
            if rec < 0 {
                -1
            } else {
                step + rec
            }
        }
    }
}

/// A code span opens `s` when it starts with a backtick run and a closing
/// run of exactly the same length follows.
pub open spec fn cs_accepts(s: Seq<char>) -> bool {
    s.len() > 0 && s[0] == '`' && cs_close(s.skip(tick_run(s) as int), tick_run(s)) >= 0
}

/// Total span length, opening and closing runs included.
pub open spec fn cs_len(s: Seq<char>) -> int {
    tick_run(s) + cs_close(s.skip(tick_run(s) as int), tick_run(s)) + tick_run(s)
}

/// The raw interior between the opening and closing runs.
pub open spec fn cs_raw(s: Seq<char>) -> Seq<char> {
    s.subrange(
        tick_run(s) as int,
        tick_run(s) + cs_close(s.skip(tick_run(s) as int), tick_run(s)),
    )
}

/// Every line ending of the interior becomes a single space.
pub open spec fn normalize_endings(t: Seq<char>) -> Seq<char>
    decreases t.len(),
{
    if t.len() == 0 {
        Seq::empty()
    } else if line_ending_len(t) > 0 {
        seq![' '] + normalize_endings(t.skip(line_ending_len(t) as int))
    } else {
        seq![t[0]] + normalize_endings(t.skip(1))
    }
}

/// The span's text: the normalized interior, with exactly one leading and
/// one trailing space stripped when the raw interior has both and the
/// normalized interior is not made of spaces alone.
pub open spec fn cs_text(s: Seq<char>) -> Seq<char> {
    let raw = cs_raw(s);
    let norm = normalize_endings(raw);
    if raw.len() > 0 && raw[0] == ' ' && raw[raw.len() - 1] == ' ' && (exists|k: int|
        0 <= k < norm.len() && norm[k] != ' ') {
        norm.subrange(1, norm.len() - 1)
    } else {
        norm
    }
}

/// What the span leaves of `s`: everything after the closing run.
pub open spec fn cs_rest(s: Seq<char>) -> Seq<char> {
    s.skip(cs_len(s))
}

pub proof fn lemma_cs_close_bounds(r: Seq<char>, n: nat)
    requires
        cs_close(r, n) >= 0,
    ensures
        cs_close(r, n) + n <= r.len(),
    decreases r.len(),
{
    let t = tick_run(r);
    lemma_tick_run_le(r);
    if t == n {
    } else {
        let step: int = if t > 0 {
            t as int
        } else {
            1
        };
        lemma_cs_close_bounds(r.skip(step), n);
    }
}

pub proof fn lemma_cs_len_bounds(s: Seq<char>)
    requires
        cs_accepts(s),
    ensures
        1 <= cs_len(s) <= s.len(),
{
    lemma_tick_run_le(s);
    lemma_cs_close_bounds(s.skip(tick_run(s) as int), tick_run(s));
}

// ---------------------------------------------------------------------------
// Code span: the parser
// ---------------------------------------------------------------------------

/// Whether any character of `s` differs from a space.
fn has_non_space(s: &str) -> (b: bool)
    ensures
        b == exists|k: int| 0 <= k < s@.len() && s@[k] != ' ',
{
    let len = s.unicode_len();
    let mut i: usize = 0;
    loop
        invariant
            0 <= i <= len,
            len == s@.len(),
            forall|j: int| 0 <= j < i ==> s@[j] == ' ',
        ensures
            (i < len && s@[i as int] != ' ') || (i == len && forall|j: int|
                0 <= j < len ==> s@[j] == ' '),
        decreases len - i,
    {
        if i >= len {
            break;
        }
        if s.get_char(i) != ' ' {
            break;
        }
        i = i + 1;
    }
    i < len
}

pub struct CodeSpan;

impl CodeSpan {
    /// Tracks the opening backtick run, scans for the first equal-length
    /// run that closes the span, and normalizes the interior.  With no
    /// closing run the whole attempt rejects with the untouched input.
    pub fn try_parse(input: String, _document: &Document) -> (r: TryParseResult<String>)
        ensures
            (match r {
                TryParseResult::Accepted(pr) => cs_accepts(input@) && pr.0@ == cs_text(input@)
                    && leftover_is(pr.1, cs_rest(input@)),
                TryParseResult::Rejected(rejected) => !cs_accepts(input@) && rejected@ == input@,
            }),
    {
        let len = input.as_str().unicode_len();
        proof {
            assert(input@.skip(0) =~= input@);
        }
        let n = tick_run_at(input.as_str(), 0);
        if n == 0 {
            return TryParseResult::Rejected(input);
        }
        let ghost rseq = input@.skip(n as int);
        let mut i = n;
        let mut found = false;
        loop
            invariant
                n <= i <= len,
                len == input@.len(),
                n == tick_run(input@),
                1 <= n,
                rseq == input@.skip(n as int),
                !found ==> (cs_close(rseq, n as nat) >= 0 <==> cs_close(
                    input@.skip(i as int),
                    n as nat,
                ) >= 0),
                !found ==> (cs_close(input@.skip(i as int), n as nat) >= 0 ==> cs_close(
                    rseq,
                    n as nat,
                ) == i - n + cs_close(input@.skip(i as int), n as nat)),
                found ==> i + n <= len && cs_close(rseq, n as nat) == i - n && tick_run(
                    input@.skip(i as int),
                ) == n,
            ensures
                found ==> cs_close(rseq, n as nat) == i - n && i + n <= len && tick_run(
                    input@.skip(i as int),
                ) == n,
                !found ==> cs_close(rseq, n as nat) < 0,
            decreases len - i,
        {
            if i >= len {
                proof {
                    assert(input@.skip(i as int).len() == 0);
                }
                break;
            }
            let t = tick_run_at(input.as_str(), i);
            if t == n {
                found = true;
                break;
            }
            let step = if t > 0 {
                t
            } else {
                1
            };
            proof {
                lemma_skip_skip(input@, i as int, step as int);
            }
            i = i + step;
        }
        if !found {
            return TryParseResult::Rejected(input);
        }
        // the interior is input[n .. i]; the closing run is input[i .. i + n]
        let ghost raw = input@.subrange(n as int, i as int);
        proof {
            assert(cs_raw(input@) == raw);
            assert(cs_len(input@) == i + n);
        }
        let mut norm = String::new();
        let mut j = n;
        proof {
            assert(norm@ + normalize_endings(input@.subrange(j as int, i as int))
                =~= normalize_endings(raw));
        }
        loop
            invariant
                n <= j <= i,
                i + n <= len,
                len == input@.len(),
                raw == input@.subrange(n as int, i as int),
                tick_run(input@.skip(i as int)) == n,
                1 <= n,
                normalize_endings(raw) == norm@ + normalize_endings(
                    input@.subrange(j as int, i as int),
                ),
            ensures
                norm@ == normalize_endings(raw),
            decreases i - j,
        {
            let ghost part = input@.subrange(j as int, i as int);
            if j >= i {
                proof {
                    assert(part.len() == 0);
                    assert(norm@ + normalize_endings(part) =~= norm@);
                }
                break;
            }
            let e = line_ending_len_at(input.as_str(), j);
            proof {
                // within the interior the line ending is the same as in the
                // whole input: the character after the interior is a backtick
                assert(input@.skip(i as int)[0] == input@[i as int]);
                assert(input@[i as int] == '`');
                assert(part[0] == input@[j as int]);
                if j + 1 < i {
                    assert(part[1] == input@[j + 1]);
                }
                if j + 1 < len {
                    assert(input@.skip(j as int)[1] == input@[j + 1]);
                }
                assert(input@.skip(j as int)[0] == input@[j as int]);
                assert(line_ending_len(part) == line_ending_len(input@.skip(j as int)));
            }
            if e > 0 {
                norm.push(' ');
                proof {
                    assert(part.skip(e as int) =~= input@.subrange((j + e) as int, i as int));
                    assert(normalize_endings(part) == seq![' '] + normalize_endings(
                        part.skip(e as int),
                    ));
                    assert((norm@ + seq![' ']) + normalize_endings(part.skip(e as int))
                        =~= norm@ + (seq![' '] + normalize_endings(part.skip(e as int))));
                }
                j = j + e;
            } else {
                let c = input.as_str().get_char(j);
                norm.push(c);
                proof {
                    assert(part.skip(1) =~= input@.subrange((j + 1) as int, i as int));
                    assert(normalize_endings(part) == seq![part[0]] + normalize_endings(
                        part.skip(1),
                    ));
                    assert((norm@ + seq![c]) + normalize_endings(part.skip(1)) =~= norm@ + (seq![
                        c,
                    ] + normalize_endings(part.skip(1))));
                }
                j = j + 1;
            }
        }
        let raw_len = i - n;
        let strip = if raw_len > 0 && input.as_str().get_char(n) == ' ' && input.as_str().get_char(
            i - 1,
        ) == ' ' {
            proof {
                assert(raw[0] == input@[n as int]);
                assert(raw[raw_len - 1] == input@[i - 1]);
            }
            has_non_space(norm.as_str())
        } else {
            proof {
                if raw.len() > 0 {
                    assert(raw[0] == input@[n as int]);
                    assert(raw[raw.len() - 1] == input@[i - 1]);
                }
            }
            false
        };
        let text = if strip {
            let m = norm.as_str().unicode_len();
            proof {
                // the normalized interior opens with the raw leading space,
                // and some later character differs from a space
                assert(line_ending_len(raw) == 0);
                assert(normalize_endings(raw) == seq![raw[0]] + normalize_endings(raw.skip(1)));
                assert(norm@[0] == ' ');
                let k = choose|k: int| 0 <= k < norm@.len() && norm@[k] != ' ';
                assert(k >= 1);
            }
            seg(norm.as_str(), 1, m - 1)
        } else {
            norm
        };
        let rest = seg(input.as_str(), i + n, len);
        proof {
            assert(input@.subrange((i + n) as int, len as int) =~= input@.skip((i + n) as int));
        }
        TryParseResult::Accepted(ParseResult::new(text, rest))
    }
}

impl TryParse<String> for CodeSpan {
    fn try_parse(input: String, document: &Document) -> (r: TryParseResult<String>) {
        CodeSpan::try_parse(input, document)
    }
}

// ---------------------------------------------------------------------------
// The inline alternation
// ---------------------------------------------------------------------------

#[derive(Debug, PartialEq, Eq, Structural, Clone, Copy)]
pub enum InlineCategory {
    CodeSpan,
    TextualContent,
}

/// An inline node: its category and its text.
pub struct Inline {
    pub category: InlineCategory,
    pub text: String,
}

impl Inline {
    pub fn new(category: InlineCategory, text: String) -> (r: Inline)
        ensures
            r.category == category,
            r.text == text,
    {
        Inline { category, text }
    }
}

pub open spec fn inline_category_of(s: Seq<char>) -> InlineCategory {
    if cs_accepts(s) {
        InlineCategory::CodeSpan
    } else {
        InlineCategory::TextualContent
    }
}

pub open spec fn inline_text(s: Seq<char>) -> Seq<char> {
    if cs_accepts(s) {
        cs_text(s)
    } else {
        s
    }
}

/// The textual-content fallback absorbs the whole remaining input, so only
/// a code span leaves a leftover.
pub open spec fn inline_rest(s: Seq<char>) -> Seq<char> {
    if cs_accepts(s) {
        cs_rest(s)
    } else {
        Seq::empty()
    }
}

impl Inline {
    /// Ordered alternation: try `CodeSpan`, else fall back to
    /// `TextualContent`, which always accepts.
    pub fn parse(input: String, document: &Document) -> (r: ParseResult<Inline>)
        ensures
            r.0.category == inline_category_of(input@),
            r.0.text@ == inline_text(input@),
            leftover_is(r.1, inline_rest(input@)),
    {
        match CodeSpan::try_parse(input, document) {
            TryParseResult::Accepted(pr) => {
                let ParseResult(text, leftover) = pr;
                ParseResult(Inline::new(InlineCategory::CodeSpan, text), leftover)
            },
            TryParseResult::Rejected(rejected) => ParseResult(
                Inline::new(InlineCategory::TextualContent, rejected),
                None,
            ),
        }
    }
}

impl Parse<Inline> for Inline {
    fn parse(input: String, document: &Document) -> (r: ParseResult<Inline>) {
        Inline::parse(input, document)
    }
}

// ---------------------------------------------------------------------------
// The spec-level inline parser
// ---------------------------------------------------------------------------

/// The inline alternation applied until no leftover remains: the categories
/// and texts of the nodes, in order.
pub open spec fn parse_inlines_model(s: Seq<char>) -> Seq<(InlineCategory, Seq<char>)>
    decreases s.len(),
{
    if inline_rest(s).len() == 0 {
        seq![(inline_category_of(s), inline_text(s))]
    } else {
        proof {
            if cs_accepts(s) {
                lemma_cs_len_bounds(s);
            }
        }
        seq![(inline_category_of(s), inline_text(s))] + parse_inlines_model(inline_rest(s))
    }
}

pub proof fn lemma_inline_rest(s: Seq<char>)
    ensures
        inline_rest(s).len() <= s.len(),
        s.len() > 0 ==> inline_rest(s).len() < s.len(),
        s.len() == 0 ==> inline_rest(s).len() == 0,
{
    if cs_accepts(s) {
        lemma_cs_len_bounds(s);
    }
}

pub open spec fn inlines_model_from(v: Vec<Inline>, i: int) -> Seq<(InlineCategory, Seq<char>)>
    decreases v.len() - i,
{
    if i < 0 || i >= v.len() {
        Seq::empty()
    } else {
        seq![(v[i].category, v[i].text@)] + inlines_model_from(v, i + 1)
    }
}

pub open spec fn inlines_model(v: Vec<Inline>) -> Seq<(InlineCategory, Seq<char>)> {
    inlines_model_from(v, 0)
}

pub proof fn lemma_inlines_model_push(v1: Vec<Inline>, v2: Vec<Inline>, b: Inline, i: int)
    requires
        0 <= i <= v1@.len(),
        v2@ == v1@.push(b),
    ensures
        inlines_model_from(v2, i) == inlines_model_from(v1, i) + seq![(b.category, b.text@)],
    decreases v1@.len() - i,
{
    if i < v1@.len() {
        lemma_inlines_model_push(v1, v2, b, i + 1);
        assert(v2@[i] == v1@[i]);
        assert(seq![(v1[i].category, v1[i].text@)] + (inlines_model_from(v1, i + 1) + seq![
            (b.category, b.text@),
        ]) =~= (seq![(v1[i].category, v1[i].text@)] + inlines_model_from(v1, i + 1)) + seq![
            (b.category, b.text@),
        ]);
    } else {
        assert(v2@[i] == b);
        assert(inlines_model_from(v2, i) == seq![(b.category, b.text@)] + inlines_model_from(
            v2,
            i + 1,
        ));
        assert(seq![(b.category, b.text@)] + Seq::<(InlineCategory, Seq<char>)>::empty() =~= seq![
            (b.category, b.text@),
        ]);
        assert(Seq::<(InlineCategory, Seq<char>)>::empty() + seq![(b.category, b.text@)] =~= seq![
            (b.category, b.text@),
        ]);
    }
}

pub proof fn lemma_inlines_model_tail(v1: Vec<Inline>, v2: Vec<Inline>, i: int)
    requires
        0 <= i,
        v1@.len() > 0,
        v2@ == v1@.skip(1),
    ensures
        inlines_model_from(v2, i) == inlines_model_from(v1, i + 1),
    decreases v2@.len() - i,
{
    if i < v2@.len() {
        lemma_inlines_model_tail(v1, v2, i + 1);
        assert(v2@[i] == v1@[i + 1]);
    }
}

impl Inline {
    /// Applies the inline alternation until no leftover remains.
    pub fn parse_multiple(input: String, document: &Document) -> (r: Vec<Inline>)
        ensures
            inlines_model(r) == parse_inlines_model(input@),
    {
        let mut inlines: Vec<Inline> = Vec::new();
        let mut optional_unconsumed: Option<String> = Some(input);
        proof {
            assert(inlines_model(inlines) + parse_inlines_model(input@) =~= parse_inlines_model(
                input@,
            ));
        }
        loop
            invariant
                (match optional_unconsumed {
                    Some(u) => parse_inlines_model(input@) == inlines_model(inlines)
                        + parse_inlines_model(u@),
                    None => parse_inlines_model(input@) == inlines_model(inlines),
                }),
            ensures
                parse_inlines_model(input@) == inlines_model(inlines),
            decreases (match optional_unconsumed {
                Some(u) => u@.len() as int + 1,
                None => 0int,
            }),
        {
            match optional_unconsumed {
                Some(unconsumed) => {
                    let ghost u_view = unconsumed@;
                    let ghost inlines_before = inlines;
                    let ParseResult(inline, leftover) = Inline::parse(unconsumed, document);
                    proof {
                        lemma_inline_rest(u_view);
                    }
                    inlines.push(inline);
                    proof {
                        lemma_inlines_model_push(inlines_before, inlines, inline, 0);
                        assert((inlines_model(inlines_before) + seq![
                            (inline.category, inline.text@),
                        ]) + parse_inlines_model(inline_rest(u_view)) =~= inlines_model(
                            inlines_before,
                        ) + (seq![(inline.category, inline.text@)] + parse_inlines_model(
                            inline_rest(u_view),
                        )));
                        assert(inlines_model(inlines_before) + seq![
                            (inline.category, inline.text@),
                        ] =~= inlines_model(inlines));
                    }
                    optional_unconsumed = leftover;
                },
                None => {
                    break;
                },
            }
        }
        inlines
    }
}

impl ParseMultiple<Inline> for Inline {
    fn parse_multiple(input: String, document: &Document) -> (r: Vec<Inline>) {
        Inline::parse_multiple(input, document)
    }
}

} // verus!
