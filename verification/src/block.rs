//! Block-level parsing: the block-quote container, the block alternation
//! (container first, then leaf), and the repeated parser that turns a whole
//! input into an ordered block sequence.

use crate::document::Document;
use crate::leaf::leaf_category_of;
use crate::leaf::leaf_rest;
use crate::leaf::leaf_text;
use crate::leaf::tb_accepts;
use crate::leaf::tb_check;
use crate::leaf::Leaf;
use crate::leaf::LeafCategory;
use crate::parsers::leftover_is;
use crate::parsers::Parse;
use crate::parsers::ParseMultiple;
use crate::parsers::ParseResult;
use crate::parsers::TryParse;
use crate::parsers::TryParseResult;
use crate::text::blank_line_accepts;
use crate::text::blank_line_at;
use crate::text::blank_line_len;
use crate::text::lemma_blank_line_len_bounds;
use crate::text::lemma_line_len_bounds;
use crate::text::lemma_skip_skip;
use crate::text::lemma_space_run_le;
use crate::text::line_len;
use crate::text::line_len_at;
use crate::text::seg;
use crate::text::space_run;
use crate::text::space_run_at;
use vstd::prelude::*;
use vstd::string::StrSliceExecFns;
use vstd::string::StringExecFns;

verus! {

broadcast use vstd::std_specs::vec::axiom_vec_index_decreases;

// ---------------------------------------------------------------------------
// Block data model
// ---------------------------------------------------------------------------

/// A block: either a container of nested blocks or a leaf.
pub enum Block {
    Container(Container),
    Leaf(Leaf),
}

/// A container block; a block quote owns its recursively parsed children.
pub enum Container {
    BlockQuote(Vec<Block>),
}

/// The mathematical shape of a parsed block: a quote is its ordered
/// children, a leaf is its category and raw text.
pub enum BlockModel {
    Quote(Seq<BlockModel>),
    Leaf(LeafCategory, Seq<char>),
}

pub open spec fn block_model(b: Block) -> BlockModel
    decreases b, 0int,
{
    match b {
        Block::Container(c) => match c {
            Container::BlockQuote(children) => BlockModel::Quote(
                blocks_model_from(children, 0),
            ),
        },
        Block::Leaf(l) => BlockModel::Leaf(l.category, l.text@),
    }
}

pub open spec fn blocks_model_from(v: Vec<Block>, i: int) -> Seq<BlockModel>
    decreases v, v.len() - i,
{
    if i < 0 || i >= v.len() {
        Seq::empty()
    } else {
        seq![block_model(v[i])] + blocks_model_from(v, i + 1)
    }
}

pub open spec fn blocks_model(v: Vec<Block>) -> Seq<BlockModel> {
    blocks_model_from(v, 0)
}

pub proof fn lemma_blocks_model_push(v1: Vec<Block>, v2: Vec<Block>, b: Block, i: int)
    requires
        0 <= i <= v1@.len(),
        v2@ == v1@.push(b),
    ensures
        blocks_model_from(v2, i) == blocks_model_from(v1, i) + seq![block_model(b)],
    decreases v1@.len() - i,
{
    if i < v1@.len() {
        lemma_blocks_model_push(v1, v2, b, i + 1);
        assert(v2@[i] == v1@[i]);
        assert(seq![block_model(v1[i])] + (blocks_model_from(v1, i + 1) + seq![block_model(b)])
            =~= (seq![block_model(v1[i])] + blocks_model_from(v1, i + 1)) + seq![
            block_model(b),
        ]);
    } else {
        assert(v2@[i] == b);
        assert(blocks_model_from(v2, i) == seq![block_model(b)] + blocks_model_from(v2, i + 1));
        assert(seq![block_model(b)] + Seq::<BlockModel>::empty() =~= seq![block_model(b)]);
        assert(Seq::<BlockModel>::empty() + seq![block_model(b)] =~= seq![block_model(b)]);
    }
}

// ---------------------------------------------------------------------------
// Block quote: the character-level specification
// ---------------------------------------------------------------------------

/// Length (0, 1 or 2) of the quote delimiter that starts `s`: `> ` counts
/// whole, a bare `>` counts alone.
pub open spec fn bq_delim_len(s: Seq<char>) -> nat {
    if s.len() >= 2 && s[0] == '>' && s[1] == ' ' {
        2
    } else if s.len() >= 1 && s[0] == '>' {
        1
    } else {
        0
    }
}

/// Whether a block quote opens `s`: at most three leading spaces, then `>`.
/// A fourth leading space disqualifies the whole attempt.
pub open spec fn bq_opens(s: Seq<char>) -> bool {
    space_run(s) <= 3 && space_run(s) < s.len() && s[space_run(s) as int] == '>'
}

/// Characters the opening consumes: the leading spaces (discarded, they are
/// not quoted content) and the delimiter.
pub open spec fn bq_open_len(s: Seq<char>) -> nat {
    space_run(s) + bq_delim_len(s.skip(space_run(s) as int))
}

pub proof fn lemma_bq_open_len_bounds(s: Seq<char>)
    requires
        bq_opens(s),
    ensures
        1 <= bq_open_len(s) <= s.len(),
{
    lemma_space_run_le(s);
    let k = space_run(s) as int;
    assert(s.skip(k)[0] == s[k]);
    if s.skip(k).len() >= 2 && s.skip(k)[1] == ' ' {
        assert(bq_delim_len(s.skip(k)) == 2);
    }
}

/// The in-quote phase, one line at a time: a blank line ends the quote and
/// is consumed as the separator; a line that re-matches the delimiter is
/// stripped and quoted; a line that parses as a paragraph is quoted whole
/// (lazy continuation); any other leaf ends the quote, pushed back
/// unconsumed.  Returns the quoted content and the leftover.
pub open spec fn bq_lines(u: Seq<char>) -> (Seq<char>, Seq<char>)
    decreases u.len(),
{
    if u.len() == 0 {
        (Seq::empty(), Seq::empty())
    } else if blank_line_accepts(u) {
        (Seq::empty(), u.skip(blank_line_len(u) as int))
    } else {
        let n = line_len(u) as int;
        let d = bq_delim_len(u) as int;
        proof {
            lemma_line_len_bounds(u);
        }
        if d > 0 {
            let rec = bq_lines(u.skip(n));
            (u.take(n).skip(d) + rec.0, rec.1)
        } else if tb_accepts(u) {
            (Seq::empty(), u)
        } else {
            let rec = bq_lines(u.skip(n));
            (u.take(n) + rec.0, rec.1)
        }
    }
}

/// In the branch that strips a delimiter, the delimiter lies inside the
/// line: a `>` is never a line ending, nor is the space after it.
pub proof fn lemma_bq_delim_in_line(u: Seq<char>)
    requires
        bq_delim_len(u) > 0,
    ensures
        bq_delim_len(u) <= crate::text::line_body_len(u),
{
    assert(crate::text::line_ending_len(u) == 0);
    assert(crate::text::line_body_len(u) == 1 + crate::text::line_body_len(u.skip(1)));
    if bq_delim_len(u) == 2 {
        assert(u.skip(1)[0] == u[1]);
        assert(crate::text::line_ending_len(u.skip(1)) == 0);
        assert(crate::text::line_body_len(u.skip(1)) == 1 + crate::text::line_body_len(
            u.skip(1).skip(1),
        ));
    }
}

pub proof fn lemma_bq_lines_le(u: Seq<char>)
    ensures
        bq_lines(u).0.len() + bq_lines(u).1.len() <= u.len(),
    decreases u.len(),
{
    if u.len() == 0 {
    } else if blank_line_accepts(u) {
        lemma_blank_line_len_bounds(u);
    } else {
        let n = line_len(u) as int;
        lemma_line_len_bounds(u);
        if bq_delim_len(u) > 0 {
            lemma_bq_delim_in_line(u);
            lemma_bq_lines_le(u.skip(n));
        } else if tb_accepts(u) {
        } else {
            lemma_bq_lines_le(u.skip(n));
        }
    }
}

// ---------------------------------------------------------------------------
// Block quote: the parser
// ---------------------------------------------------------------------------

pub struct BlockQuote;

impl BlockQuote {
    /// Two-phase line-driven parse: seek the delimiter under the
    /// indentation limit, then absorb lines until the quote ends.  On
    /// acceptance the result is the accumulated quoted text; on rejection
    /// the untouched input.
    pub fn try_parse(input: String, _document: &Document) -> (r: TryParseResult<String>)
        ensures
            (match r {
                TryParseResult::Accepted(pr) => {
                    &&& bq_opens(input@)
                    &&& pr.0@ == bq_lines(input@.skip(bq_open_len(input@) as int)).0
                    &&& leftover_is(pr.1, bq_lines(input@.skip(bq_open_len(input@) as int)).1)
                    &&& pr.0@.len() < input@.len()
                },
                TryParseResult::Rejected(rejected) => !bq_opens(input@) && rejected@ == input@,
            }),
    {
        let s_len = input.as_str().unicode_len();
        proof {
            assert(input@.skip(0) =~= input@);
        }
        let k = space_run_at(input.as_str(), 0);
        if !(k <= 3 && k < s_len && input.as_str().get_char(k) == '>') {
            proof {
                assert(!bq_opens(input@));
            }
            return TryParseResult::Rejected(input);
        }
        proof {
            assert(input@.skip(k as int)[0] == input@[k as int]);
        }
        let d: usize = if k + 1 < s_len && input.as_str().get_char(k + 1) == ' ' {
            2
        } else {
            1
        };
        proof {
            if k + 1 < s_len {
                assert(input@.skip(k as int)[1] == input@[k + 1]);
            }
            assert(d == bq_delim_len(input@.skip(k as int)));
        }
        let open = k + d;
        let ghost u0 = input@.skip(open as int);
        let mut pos = open;
        let mut content = String::new();
        let mut qend = s_len;
        proof {
            assert(Seq::<char>::empty() + bq_lines(u0).0 =~= bq_lines(u0).0);
        }
        loop
            invariant
                open <= pos <= s_len,
                1 <= open,
                s_len == input@.len(),
                u0 == input@.skip(open as int),
                bq_lines(u0).0 == content@ + bq_lines(input@.skip(pos as int)).0,
                bq_lines(u0).1 == bq_lines(input@.skip(pos as int)).1,
                content@.len() <= pos - open,
            ensures
                content@ == bq_lines(u0).0,
                qend <= s_len,
                input@.skip(qend as int) == bq_lines(u0).1,
                content@.len() <= s_len - open,
            decreases s_len - pos,
        {
            let ghost cur = input@.skip(pos as int);
            if pos >= s_len {
                qend = s_len;
                proof {
                    assert(cur.len() == 0);
                    assert(content@ + bq_lines(cur).0 =~= content@);
                    assert(input@.skip(s_len as int) =~= Seq::<char>::empty());
                }
                break;
            }
            let (is_blank, blen) = blank_line_at(input.as_str(), pos);
            if is_blank {
                qend = pos + blen;
                proof {
                    lemma_skip_skip(input@, pos as int, blen as int);
                    assert(content@ + bq_lines(cur).0 =~= content@);
                }
                break;
            }
            let n = line_len_at(input.as_str(), pos);
            let c0 = input.as_str().get_char(pos);
            proof {
                assert(cur[0] == input@[pos as int]);
            }
            if c0 == '>' {
                let dd: usize = if n >= 2 && input.as_str().get_char(pos + 1) == ' ' {
                    2
                } else {
                    1
                };
                proof {
                    lemma_line_len_bounds(cur);
                    if cur.len() >= 2 && cur[1] == ' ' {
                        // the space after the delimiter is part of the line body
                        assert(crate::text::line_ending_len(cur) == 0);
                        assert(crate::text::line_body_len(cur) == 1 + crate::text::line_body_len(
                            cur.skip(1),
                        ));
                        assert(cur.skip(1)[0] == cur[1]);
                        assert(crate::text::line_ending_len(cur.skip(1)) == 0);
                        assert(crate::text::line_body_len(cur.skip(1)) >= 1);
                        assert(line_len(cur) >= 2);
                        assert(cur[1] == input@[pos + 1]);
                    }
                    if n >= 2 {
                        assert(cur[1] == input@[pos + 1]);
                    }
                    assert(dd == bq_delim_len(cur));
                }
                let piece = seg(input.as_str(), pos + dd, pos + n);
                proof {
                    lemma_skip_skip(input@, pos as int, n as int);
                    assert(cur.take(n as int).skip(dd as int) =~= input@.subrange(
                        (pos + dd) as int,
                        (pos + n) as int,
                    ));
                    assert((content@ + piece@) + bq_lines(input@.skip((pos + n) as int)).0
                        =~= content@ + (piece@ + bq_lines(input@.skip((pos + n) as int)).0));
                }
                content.append(piece.as_str());
                pos = pos + n;
            } else {
                proof {
                    assert(bq_delim_len(cur) == 0);
                }
                if tb_check(input.as_str(), pos) {
                    qend = pos;
                    proof {
                        assert(content@ + bq_lines(cur).0 =~= content@);
                    }
                    break;
                }
                let piece = seg(input.as_str(), pos, pos + n);
                proof {
                    lemma_skip_skip(input@, pos as int, n as int);
                    assert(cur.take(n as int) =~= input@.subrange(pos as int, (pos + n) as int));
                    assert((content@ + piece@) + bq_lines(input@.skip((pos + n) as int)).0
                        =~= content@ + (piece@ + bq_lines(input@.skip((pos + n) as int)).0));
                }
                content.append(piece.as_str());
                pos = pos + n;
            }
        }
        let rest = seg(input.as_str(), qend, s_len);
        proof {
            assert(input@.subrange(qend as int, s_len as int) =~= input@.skip(qend as int));
        }
        TryParseResult::Accepted(ParseResult::new(content, rest))
    }
}

impl TryParse<String> for BlockQuote {
    fn try_parse(input: String, document: &Document) -> (r: TryParseResult<String>) {
        BlockQuote::try_parse(input, document)
    }
}

// ---------------------------------------------------------------------------
// The spec-level block parser
// ---------------------------------------------------------------------------

/// What one step of the block alternation leaves of `s`.
pub open spec fn block_rest(s: Seq<char>) -> Seq<char> {
    if bq_opens(s) {
        bq_lines(s.skip(bq_open_len(s) as int)).1
    } else {
        leaf_rest(s)
    }
}

/// The block alternation on `s`: a block quote if one opens, else a leaf.
pub open spec fn parse_block_model(s: Seq<char>) -> BlockModel
    decreases s.len(), 1int,
{
    if bq_opens(s) {
        proof {
            lemma_bq_open_len_bounds(s);
            lemma_bq_lines_le(s.skip(bq_open_len(s) as int));
        }
        BlockModel::Quote(parse_blocks_model(bq_lines(s.skip(bq_open_len(s) as int)).0))
    } else {
        BlockModel::Leaf(leaf_category_of(s), leaf_text(s))
    }
}

/// How much any single block step can leave over, stated over the
/// character-level rules alone.
pub proof fn lemma_block_rest_len(s: Seq<char>)
    ensures
        bq_opens(s) ==> bq_lines(s.skip(bq_open_len(s) as int)).1.len() < s.len(),
        !bq_opens(s) ==> leaf_rest(s).len() <= s.len(),
        !bq_opens(s) && s.len() > 0 ==> leaf_rest(s).len() < s.len(),
        s.len() == 0 ==> leaf_rest(s).len() == 0,
{
    if bq_opens(s) {
        lemma_bq_open_len_bounds(s);
        lemma_bq_lines_le(s.skip(bq_open_len(s) as int));
    } else if tb_accepts(s) {
        lemma_line_len_bounds(s);
    } else {
        crate::leaf::lemma_para_len_le(s);
        if s.len() > 0 && blank_line_accepts(s) {
            lemma_blank_line_len_bounds(s);
        } else if s.len() > 0 {
            lemma_line_len_bounds(s);
        }
    }
}

pub proof fn lemma_parse_block_rest(s: Seq<char>)
    ensures
        block_rest(s).len() <= s.len(),
        s.len() > 0 ==> block_rest(s).len() < s.len(),
        s.len() == 0 ==> block_rest(s).len() == 0,
{
    lemma_block_rest_len(s);
}

/// The block alternation applied repeatedly until no leftover remains.
pub open spec fn parse_blocks_model(s: Seq<char>) -> Seq<BlockModel>
    decreases s.len(), 2int,
{
    if block_rest(s).len() == 0 {
        seq![parse_block_model(s)]
    } else {
        proof {
            lemma_block_rest_len(s);
        }
        seq![parse_block_model(s)] + parse_blocks_model(block_rest(s))
    }
}

// ---------------------------------------------------------------------------
// The executable block parsers
// ---------------------------------------------------------------------------

impl Container {
    /// Tries each container rule; currently the block quote alone.  On
    /// acceptance the quoted content is recursively re-parsed into the
    /// container's children: quoted text is a nested document fragment.
    pub fn try_parse(input: String, document: &Document) -> (r: TryParseResult<Container>)
        ensures
            (match r {
                TryParseResult::Accepted(pr) => {
                    &&& bq_opens(input@)
                    &&& (match pr.0 {
                        Container::BlockQuote(children) => blocks_model(children)
                            == parse_blocks_model(
                            bq_lines(input@.skip(bq_open_len(input@) as int)).0,
                        ),
                    })
                    &&& leftover_is(pr.1, bq_lines(input@.skip(bq_open_len(input@) as int)).1)
                },
                TryParseResult::Rejected(rejected) => !bq_opens(input@) && rejected@ == input@,
            }),
        decreases input@.len(), 1int,
    {
        match BlockQuote::try_parse(input, document) {
            TryParseResult::Accepted(pr) => {
                let ParseResult(consumed, unconsumed) = pr;
                let children = Block::parse_multiple(consumed, document);
                TryParseResult::Accepted(
                    ParseResult(Container::BlockQuote(children), unconsumed),
                )
            },
            TryParseResult::Rejected(rejected) => TryParseResult::Rejected(rejected),
        }
    }
}

impl TryParse<Container> for Container {
    fn try_parse(input: String, document: &Document) -> (r: TryParseResult<Container>) {
        Container::try_parse(input, document)
    }
}

impl Block {
    /// Ordered alternation: the container rules first, then the leaf rules.
    pub fn parse(input: String, document: &Document) -> (r: ParseResult<Block>)
        ensures
            block_model(r.0) == parse_block_model(input@),
            leftover_is(r.1, block_rest(input@)),
        decreases input@.len(), 2int,
    {
        match Container::try_parse(input, document) {
            TryParseResult::Accepted(pr) => {
                let ParseResult(container, unconsumed) = pr;
                ParseResult(Block::Container(container), unconsumed)
            },
            TryParseResult::Rejected(rejected) => {
                let ParseResult(leaf, unconsumed) = Leaf::parse(rejected, document);
                ParseResult(Block::Leaf(leaf), unconsumed)
            },
        }
    }

    /// Applies the block alternation until no leftover remains.
    pub fn parse_multiple(input: String, document: &Document) -> (r: Vec<Block>)
        ensures
            blocks_model(r) == parse_blocks_model(input@),
        decreases input@.len(), 3int,
    {
        let mut blocks: Vec<Block> = Vec::new();
        let mut optional_unconsumed: Option<String> = Some(input);
        proof {
            assert(blocks_model(blocks) + parse_blocks_model(input@) =~= parse_blocks_model(
                input@,
            ));
        }
        loop
            invariant
                (match optional_unconsumed {
                    Some(u) => parse_blocks_model(input@) == blocks_model(blocks)
                        + parse_blocks_model(u@) && u@.len() <= input@.len(),
                    None => parse_blocks_model(input@) == blocks_model(blocks),
                }),
            ensures
                parse_blocks_model(input@) == blocks_model(blocks),
            decreases (match optional_unconsumed {
                Some(u) => u@.len() as int + 1,
                None => 0int,
            }),
        {
            match optional_unconsumed {
                Some(unconsumed) => {
                    let ghost u_view = unconsumed@;
                    let ghost blocks_before = blocks;
                    let ParseResult(block, leftover) = Block::parse(unconsumed, document);
                    proof {
                        lemma_parse_block_rest(u_view);
                    }
                    blocks.push(block);
                    proof {
                        lemma_blocks_model_push(blocks_before, blocks, block, 0);
                        assert((blocks_model(blocks_before) + seq![block_model(block)])
                            + parse_blocks_model(block_rest(u_view)) =~= blocks_model(
                            blocks_before,
                        ) + (seq![block_model(block)] + parse_blocks_model(
                            block_rest(u_view),
                        )));
                        assert(blocks_model(blocks_before) + seq![block_model(block)]
                            =~= blocks_model(blocks));
                    }
                    optional_unconsumed = leftover;
                },
                None => {
                    break;
                },
            }
        }
        blocks
    }
}

impl Parse<Block> for Block {
    fn parse(input: String, document: &Document) -> (r: ParseResult<Block>) {
        Block::parse(input, document)
    }
}

impl ParseMultiple<Block> for Block {
    fn parse_multiple(input: String, document: &Document) -> (r: Vec<Block>) {
        Block::parse_multiple(input, document)
    }
}

} // verus!
