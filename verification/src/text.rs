//! Character-level ground truth for the grammar: line endings, runs of
//! repeated characters, blank lines, and the executable scanners that
//! compute them over a `&str`.

use vstd::prelude::*;
use vstd::string::StrSliceExecFns;

verus! {

/// Relies on std's String::push: it appends the given character to the end
/// of the string, and nothing else.
pub assume_specification[ String::push ](s: &mut String, ch: char)
    ensures
        final(s)@ == old(s)@.push(ch),
;

// ---------------------------------------------------------------------------
// Character classes
// ---------------------------------------------------------------------------

pub open spec fn is_space_or_tab(c: char) -> bool {
    c == ' ' || c == '\t'
}

pub open spec fn is_whitespace_char(c: char) -> bool {
    c == '\u{000D}' || c == '\u{000C}' || c == '\u{000B}' || c == '\u{000A}' || c == ' '
        || c == '\t'
}

// ---------------------------------------------------------------------------
// Line endings and lines
// ---------------------------------------------------------------------------

/// Length (0, 1 or 2) of the line ending that starts `s`: CR LF counts as a
/// single two-character ending, a lone CR or LF as a one-character ending.
pub open spec fn line_ending_len(s: Seq<char>) -> nat {
    if s.len() >= 2 && s[0] == '\r' && s[1] == '\n' {
        2
    } else if s.len() >= 1 && (s[0] == '\r' || s[0] == '\n') {
        1
    } else {
        0
    }
}

/// Number of characters of `s` before its first line ending (all of `s` if
/// it has none).
pub open spec fn line_body_len(s: Seq<char>) -> nat
    decreases s.len(),
{
    if s.len() == 0 || line_ending_len(s) > 0 {
        0
    } else {
        1 + line_body_len(s.skip(1))
    }
}

/// Length of the first line of `s`, including its line ending if present.
pub open spec fn line_len(s: Seq<char>) -> nat {
    line_body_len(s) + line_ending_len(s.skip(line_body_len(s) as int))
}

// ---------------------------------------------------------------------------
// Runs
// ---------------------------------------------------------------------------

/// Length of the longest prefix of `s` made of spaces.
pub open spec fn space_run(s: Seq<char>) -> nat
    decreases s.len(),
{
    if s.len() > 0 && s[0] == ' ' {
        1 + space_run(s.skip(1))
    } else {
        0
    }
}

/// Length of the longest prefix of `s` made of spaces and tabs.
pub open spec fn space_tab_run(s: Seq<char>) -> nat
    decreases s.len(),
{
    if s.len() > 0 && is_space_or_tab(s[0]) {
        1 + space_tab_run(s.skip(1))
    } else {
        0
    }
}

/// Length of the longest prefix of `s` made of backticks.
pub open spec fn tick_run(s: Seq<char>) -> nat
    decreases s.len(),
{
    if s.len() > 0 && s[0] == '`' {
        1 + tick_run(s.skip(1))
    } else {
        0
    }
}

/// How many of the first `n` characters of `s` equal `c`.
pub open spec fn count_char_upto(s: Seq<char>, c: char, n: int) -> int
    decreases n,
{
    if n <= 0 {
        0
    } else {
        count_char_upto(s, c, n - 1) + (if s[n - 1] == c {
            1int
        } else {
            0int
        })
    }
}

// ---------------------------------------------------------------------------
// Blank lines
// ---------------------------------------------------------------------------

/// A blank line: spaces and tabs up to a line ending or the end of input.
pub open spec fn blank_line_accepts(s: Seq<char>) -> bool {
    space_tab_run(s) == s.len() || line_ending_len(s.skip(space_tab_run(s) as int)) > 0
}

/// Number of characters the blank line covers, its line ending included.
pub open spec fn blank_line_len(s: Seq<char>) -> nat {
    space_tab_run(s) + line_ending_len(s.skip(space_tab_run(s) as int))
}

// ---------------------------------------------------------------------------
// Ordered selection among literals
// ---------------------------------------------------------------------------

/// Index of the first member of `lits` that is a prefix of `s`; -1 if none is.
pub open spec fn first_prefix_index(lits: Seq<Seq<char>>, s: Seq<char>) -> int
    decreases lits.len(),
{
    if lits.len() == 0 {
        -1
    } else if lits[0].is_prefix_of(s) {
        0
    } else {
        let r = first_prefix_index(lits.skip(1), s);
        if r < 0 {
            -1
        } else {
            1 + r
        }
    }
}

pub proof fn lemma_first_prefix_index_found(lits: Seq<Seq<char>>, s: Seq<char>, i: int)
    requires
        0 <= i < lits.len(),
        lits[i].is_prefix_of(s),
        forall|j: int| 0 <= j < i ==> !(#[trigger] lits[j]).is_prefix_of(s),
    ensures
        first_prefix_index(lits, s) == i,
    decreases i,
{
    if i > 0 {
        assert(forall|j: int|
            0 <= j < i - 1 ==> lits.skip(1)[j] == #[trigger] lits[j + 1]);
        lemma_first_prefix_index_found(lits.skip(1), s, i - 1);
    }
}

pub proof fn lemma_first_prefix_index_none(lits: Seq<Seq<char>>, s: Seq<char>)
    requires
        forall|j: int| 0 <= j < lits.len() ==> !(#[trigger] lits[j]).is_prefix_of(s),
    ensures
        first_prefix_index(lits, s) == -1,
    decreases lits.len(),
{
    if lits.len() > 0 {
        assert(forall|j: int|
            0 <= j < lits.len() - 1 ==> lits.skip(1)[j] == #[trigger] lits[j + 1]);
        lemma_first_prefix_index_none(lits.skip(1), s);
    }
}

// ---------------------------------------------------------------------------
// Basic lemmas
// ---------------------------------------------------------------------------

pub proof fn lemma_skip_skip(s: Seq<char>, a: int, b: int)
    requires
        0 <= a,
        0 <= b,
        a + b <= s.len(),
    ensures
        s.skip(a).skip(b) == s.skip(a + b),
{
    assert(s.skip(a).skip(b) =~= s.skip(a + b));
}

pub proof fn lemma_line_body_len_le(s: Seq<char>)
    ensures
        line_body_len(s) <= s.len(),
    decreases s.len(),
{
    if s.len() > 0 && line_ending_len(s) == 0 {
        lemma_line_body_len_le(s.skip(1));
    }
}

pub proof fn lemma_line_len_bounds(s: Seq<char>)
    ensures
        line_len(s) <= s.len(),
        s.len() > 0 ==> line_len(s) >= 1,
        line_body_len(s) <= line_len(s),
{
    lemma_line_body_len_le(s);
}

pub proof fn lemma_space_run_le(s: Seq<char>)
    ensures
        space_run(s) <= s.len(),
    decreases s.len(),
{
    if s.len() > 0 && s[0] == ' ' {
        lemma_space_run_le(s.skip(1));
    }
}

pub proof fn lemma_space_run_spaces(s: Seq<char>)
    ensures
        forall|j: int| 0 <= j < space_run(s) ==> s[j] == ' ',
    decreases s.len(),
{
    lemma_space_run_le(s);
    if s.len() > 0 && s[0] == ' ' {
        lemma_space_run_spaces(s.skip(1));
        assert forall|j: int| 0 <= j < space_run(s) implies s[j] == ' ' by {
            if j > 0 {
                assert(s.skip(1)[j - 1] == s[j]);
            }
        }
    }
}

pub proof fn lemma_count_upto_zero(s: Seq<char>, c: char, n: int)
    requires
        forall|j: int| 0 <= j < n ==> s[j] != c,
    ensures
        count_char_upto(s, c, n) == 0,
    decreases n,
{
    if n > 0 {
        lemma_count_upto_zero(s, c, n - 1);
    }
}

pub proof fn lemma_space_tab_run_le(s: Seq<char>)
    ensures
        space_tab_run(s) <= s.len(),
    decreases s.len(),
{
    if s.len() > 0 && is_space_or_tab(s[0]) {
        lemma_space_tab_run_le(s.skip(1));
    }
}

pub proof fn lemma_tick_run_le(s: Seq<char>)
    ensures
        tick_run(s) <= s.len(),
    decreases s.len(),
{
    if s.len() > 0 && s[0] == '`' {
        lemma_tick_run_le(s.skip(1));
    }
}

pub proof fn lemma_blank_line_len_bounds(s: Seq<char>)
    ensures
        blank_line_len(s) <= s.len(),
        s.len() > 0 && blank_line_accepts(s) ==> blank_line_len(s) >= 1,
{
    lemma_space_tab_run_le(s);
}

// ---------------------------------------------------------------------------
// Executable scanners
// ---------------------------------------------------------------------------

/// Copies the characters of `s` between `from` and `to` into a fresh string.
pub fn seg(s: &str, from: usize, to: usize) -> (r: String)
    requires
        from <= to <= s@.len(),
    ensures
        r@ == s@.subrange(from as int, to as int),
{
    s.substring_char(from, to).to_owned()
}

pub fn line_ending_len_at(s: &str, at: usize) -> (r: usize)
    requires
        at <= s@.len(),
    ensures
        r == line_ending_len(s@.skip(at as int)),
{
    let len = s.unicode_len();
    if at < len {
        let c = s.get_char(at);
        if c == '\r' {
            if at + 1 < len && s.get_char(at + 1) == '\n' {
                2
            } else {
                1
            }
        } else if c == '\n' {
            1
        } else {
            0
        }
    } else {
        0
    }
}

pub fn line_body_len_at(s: &str, at: usize) -> (r: usize)
    requires
        at <= s@.len(),
    ensures
        r == line_body_len(s@.skip(at as int)),
        at + r <= s@.len(),
        s@.len() <= usize::MAX,
{
    let len = s.unicode_len();
    let mut i = at;
    loop
        invariant
            at <= i <= len,
            len == s@.len(),
            line_body_len(s@.skip(at as int)) == (i - at) + line_body_len(s@.skip(i as int)),
        ensures
            at <= i <= len,
            line_body_len(s@.skip(at as int)) == i - at,
        decreases len - i,
    {
        if i >= len {
            break;
        }
        if line_ending_len_at(s, i) > 0 {
            break;
        }
        proof {
            lemma_skip_skip(s@, i as int, 1);
        }
        i = i + 1;
    }
    i - at
}

pub fn line_len_at(s: &str, at: usize) -> (r: usize)
    requires
        at <= s@.len(),
    ensures
        r == line_len(s@.skip(at as int)),
        at + r <= s@.len(),
        s@.skip(at as int).len() > 0 ==> r >= 1,
{
    let b = line_body_len_at(s, at);
    let e = line_ending_len_at(s, at + b);
    proof {
        lemma_skip_skip(s@, at as int, b as int);
        lemma_line_len_bounds(s@.skip(at as int));
    }
    b + e
}

pub fn space_run_at(s: &str, at: usize) -> (r: usize)
    requires
        at <= s@.len(),
    ensures
        r == space_run(s@.skip(at as int)),
        at + r <= s@.len(),
{
    let len = s.unicode_len();
    let mut i = at;
    loop
        invariant
            at <= i <= len,
            len == s@.len(),
            space_run(s@.skip(at as int)) == (i - at) + space_run(s@.skip(i as int)),
        ensures
            at <= i <= len,
            space_run(s@.skip(at as int)) == i - at,
        decreases len - i,
    {
        if i >= len {
            break;
        }
        if s.get_char(i) != ' ' {
            break;
        }
        proof {
            lemma_skip_skip(s@, i as int, 1);
        }
        i = i + 1;
    }
    i - at
}

pub fn space_tab_run_at(s: &str, at: usize) -> (r: usize)
    requires
        at <= s@.len(),
    ensures
        r == space_tab_run(s@.skip(at as int)),
        at + r <= s@.len(),
{
    let len = s.unicode_len();
    let mut i = at;
    loop
        invariant
            at <= i <= len,
            len == s@.len(),
            space_tab_run(s@.skip(at as int)) == (i - at) + space_tab_run(s@.skip(i as int)),
        ensures
            at <= i <= len,
            space_tab_run(s@.skip(at as int)) == i - at,
        decreases len - i,
    {
        if i >= len {
            break;
        }
        let c = s.get_char(i);
        if c != ' ' && c != '\t' {
            break;
        }
        proof {
            lemma_skip_skip(s@, i as int, 1);
        }
        i = i + 1;
    }
    i - at
}

pub fn tick_run_at(s: &str, at: usize) -> (r: usize)
    requires
        at <= s@.len(),
    ensures
        r == tick_run(s@.skip(at as int)),
        at + r <= s@.len(),
{
    let len = s.unicode_len();
    let mut i = at;
    loop
        invariant
            at <= i <= len,
            len == s@.len(),
            tick_run(s@.skip(at as int)) == (i - at) + tick_run(s@.skip(i as int)),
        ensures
            at <= i <= len,
            tick_run(s@.skip(at as int)) == i - at,
        decreases len - i,
    {
        if i >= len {
            break;
        }
        if s.get_char(i) != '`' {
            break;
        }
        proof {
            lemma_skip_skip(s@, i as int, 1);
        }
        i = i + 1;
    }
    i - at
}

pub fn blank_line_at(s: &str, at: usize) -> (r: (bool, usize))
    requires
        at <= s@.len(),
    ensures
        r.0 == blank_line_accepts(s@.skip(at as int)),
        r.0 ==> r.1 == blank_line_len(s@.skip(at as int)) && at + r.1 <= s@.len(),
{
    let len = s.unicode_len();
    let k = space_tab_run_at(s, at);
    proof {
        lemma_skip_skip(s@, at as int, k as int);
    }
    if at + k == len {
        (true, k)
    } else {
        let e = line_ending_len_at(s, at + k);
        if e > 0 {
            (true, k + e)
        } else {
            (false, 0)
        }
    }
}

/// Whether the characters of `p` occur, in order, at position `at` of `s`.
pub fn is_prefix_at(p: &str, s: &str, at: usize) -> (b: bool)
    requires
        at <= s@.len(),
    ensures
        b == p@.is_prefix_of(s@.skip(at as int)),
{
    let plen = p.unicode_len();
    let slen = s.unicode_len();
    if plen > slen - at {
        return false;
    }
    let mut i: usize = 0;
    loop
        invariant
            0 <= i <= plen,
            at + plen <= slen,
            plen == p@.len(),
            slen == s@.len(),
            forall|j: int| 0 <= j < i ==> p@[j] == s@[at + j],
        ensures
            (i == plen && forall|j: int| 0 <= j < plen ==> p@[j] == s@[at + j]) || (i < plen
                && p@[i as int] != s@[at + i]),
        decreases plen - i,
    {
        if i >= plen {
            break;
        }
        if p.get_char(i) != s.get_char(at + i) {
            break;
        }
        i = i + 1;
    }
    if i == plen {
        proof {
            assert(p@ =~= s@.skip(at as int).subrange(0, p@.len() as int));
        }
        true
    } else {
        proof {
            assert(s@.skip(at as int)[i as int] == s@[at + i]);
        }
        false
    }
}

} // verus!
