//! The document orchestrator: it owns the shared, read-only matcher
//! context, drives block parsing then, per leaf, inline parsing, and hands
//! the tree to the element renderers.

use crate::block::block_model;
use crate::block::blocks_model;
use crate::block::blocks_model_from;
use crate::block::parse_blocks_model;
use crate::block::Block;
use crate::block::BlockModel;
use crate::block::Container;
use crate::inline::inlines_model;
use crate::inline::inlines_model_from;
use crate::inline::parse_inlines_model;
use crate::inline::Inline;
use crate::inline::InlineCategory;
use crate::leaf::AtxHeadingLevel;
use crate::leaf::LeafCategory;
use crate::parsers::ParseMultiple;
use crate::preliminaries::Preliminaries;
use crate::renderers::normal_html;
use crate::renderers::void_html;
use crate::renderers::NormalElement;
use crate::renderers::Render;
use crate::renderers::TextElement;
use crate::renderers::VoidElement;
use std::collections::HashMap;
use vstd::prelude::*;
use vstd::string::StringExecFns;

verus! {

broadcast use
    vstd::seq::axiom_seq_index_decreases,
    vstd::seq::axiom_seq_subrange_decreases,
    vstd::std_specs::vec::axiom_vec_index_decreases,
;

// ---------------------------------------------------------------------------
// The rendering, as a function of the parsed models
// ---------------------------------------------------------------------------

pub open spec fn heading_tag(level: AtxHeadingLevel) -> Seq<char> {
    match level {
        AtxHeadingLevel::One => "h1"@,
        AtxHeadingLevel::Two => "h2"@,
        AtxHeadingLevel::Three => "h3"@,
        AtxHeadingLevel::Four => "h4"@,
        AtxHeadingLevel::Five => "h5"@,
        AtxHeadingLevel::Six => "h6"@,
    }
}

pub open spec fn render_inline_model(m: (InlineCategory, Seq<char>)) -> Seq<char> {
    match m.0 {
        InlineCategory::CodeSpan => normal_html("code"@, m.1),
        InlineCategory::TextualContent => m.1,
    }
}

pub open spec fn render_inlines_seq(ms: Seq<(InlineCategory, Seq<char>)>) -> Seq<char>
    decreases ms.len(),
{
    if ms.len() == 0 {
        Seq::empty()
    } else {
        render_inline_model(ms[0]) + render_inlines_seq(ms.skip(1))
    }
}

/// The rendering of a leaf's text: its inline nodes, in order.
pub open spec fn render_inlines_of(s: Seq<char>) -> Seq<char> {
    render_inlines_seq(parse_inlines_model(s))
}

pub open spec fn render_block_model(m: BlockModel) -> Seq<char>
    decreases m,
{
    match m {
        BlockModel::Quote(children) => normal_html("blockquote"@, render_blocks_seq(children)),
        BlockModel::Leaf(category, text) => match category {
            LeafCategory::AtxHeading(level) => normal_html(
                heading_tag(level),
                render_inlines_of(text),
            ),
            LeafCategory::ThematicBreak => void_html("hr"@),
            LeafCategory::Paragraph => normal_html("p"@, render_inlines_of(text)),
        },
    }
}

pub open spec fn render_blocks_seq(ms: Seq<BlockModel>) -> Seq<char>
    decreases ms,
{
    if ms.len() == 0 {
        Seq::empty()
    } else {
        render_block_model(ms[0]) + render_blocks_seq(ms.skip(1))
    }
}

/// The whole pipeline: what rendering an input produces, as a function of
/// its characters alone.
pub open spec fn document_html(s: Seq<char>) -> Seq<char> {
    render_blocks_seq(parse_blocks_model(s))
}

/// Rendering is deterministic: it is a pure function of the input, so two
/// renderings of the same input are identical, character for character.
pub proof fn lemma_render_deterministic(s: Seq<char>, first: Seq<char>, second: Seq<char>)
    requires
        first == document_html(s),
        second == document_html(s),
    ensures
        first == second,
{
}

// ---------------------------------------------------------------------------
// The orchestrator
// ---------------------------------------------------------------------------

/// The immutable context shared by reference across a whole parse: the
/// stateless preliminary matchers, and a name-to-URL table reserved for
/// future link-reference resolution (never populated or consulted).
pub struct Document {
    pub link_reference_map: HashMap<String, String>,
    pub preliminaries: Preliminaries,
}

impl Document {
    pub fn new() -> (r: Document)
        ensures
            r.link_reference_map@.len() == 0,
    {
        Document {
            link_reference_map: HashMap::new(),
            preliminaries: Preliminaries::initialize(),
        }
    }

    /// Renders Markdown text to HTML text: block parsing, then per-leaf
    /// inline parsing, then the element renderers.
    pub fn render(&self, input: String) -> (r: String)
        ensures
            r@ == document_html(input@),
    {
        let block_structure = Block::parse_multiple(input, self);
        self.render_blocks(block_structure)
    }

    pub fn render_blocks(&self, blocks: Vec<Block>) -> (r: String)
        ensures
            r@ == render_blocks_seq(blocks_model(blocks)),
    {
        self.render_blocks_from(&blocks, 0)
    }

    fn render_blocks_from(&self, blocks: &Vec<Block>, i: usize) -> (r: String)
        requires
            i <= blocks@.len(),
        ensures
            r@ == render_blocks_seq(blocks_model_from(*blocks, i as int)),
        decreases blocks, blocks@.len() - i,
    {
        if i >= blocks.len() {
            String::new()
        } else {
            let piece = self.render_block_at(&blocks[i]);
            let rest = self.render_blocks_from(blocks, i + 1);
            proof {
                assert((seq![block_model(blocks[i as int])] + blocks_model_from(
                    *blocks,
                    i + 1,
                )).skip(1) =~= blocks_model_from(*blocks, i + 1));
                assert((seq![block_model(blocks[i as int])] + blocks_model_from(
                    *blocks,
                    i + 1,
                ))[0] == block_model(blocks[i as int]));
            }
            piece.concat(rest.as_str())
        }
    }

    fn render_block_at(&self, block: &Block) -> (r: String)
        ensures
            r@ == render_block_model(block_model(*block)),
        decreases block, 0int,
    {
        match block {
            Block::Container(container) => match container {
                Container::BlockQuote(child_blocks) => {
                    let inner = self.render_blocks_from(child_blocks, 0);
                    NormalElement::new("blockquote".to_owned(), inner).render()
                },
            },
            Block::Leaf(leaf) => match leaf.category {
                LeafCategory::AtxHeading(atx_heading_level) => {
                    let inner_text = self.render_inlines(leaf.text.clone());
                    let tag = match atx_heading_level {
                        AtxHeadingLevel::One => "h1".to_owned(),
                        AtxHeadingLevel::Two => "h2".to_owned(),
                        AtxHeadingLevel::Three => "h3".to_owned(),
                        AtxHeadingLevel::Four => "h4".to_owned(),
                        AtxHeadingLevel::Five => "h5".to_owned(),
                        AtxHeadingLevel::Six => "h6".to_owned(),
                    };
                    NormalElement::new(tag, inner_text).render()
                },
                LeafCategory::ThematicBreak => VoidElement::new("hr".to_owned()).render(),
                LeafCategory::Paragraph => NormalElement::new(
                    "p".to_owned(),
                    self.render_inlines(leaf.text.clone()),
                ).render(),
            },
        }
    }

    /// Renders one block; the container case recurses into its children.
    pub fn render_block(&self, block: Block) -> (r: String)
        ensures
            r@ == render_block_model(block_model(block)),
    {
        self.render_block_at(&block)
    }

    pub fn render_inlines(&self, text: String) -> (r: String)
        ensures
            r@ == render_inlines_of(text@),
    {
        let mut inlines = Inline::parse_multiple(text, self);
        let mut rendered_inlines = String::new();
        proof {
            assert(rendered_inlines@ + render_inlines_seq(inlines_model(inlines))
                =~= render_inlines_seq(inlines_model(inlines)));
        }
        loop
            invariant
                render_inlines_of(text@) == rendered_inlines@ + render_inlines_seq(
                    inlines_model(inlines),
                ),
            ensures
                rendered_inlines@ == render_inlines_of(text@),
            decreases inlines@.len(),
        {
            if inlines.len() == 0 {
                proof {
                    assert(rendered_inlines@ + render_inlines_seq(inlines_model(inlines))
                        =~= rendered_inlines@);
                }
                break;
            }
            let ghost before = inlines;
            let inline = inlines.remove(0);
            proof {
                assert(before@.remove(0) =~= before@.skip(1));
                crate::inline::lemma_inlines_model_tail(before, inlines, 0);
                assert(inlines_model(before).skip(1) =~= inlines_model_from(before, 1));
                assert(inlines_model(before)[0] == (inline.category, inline.text@));
            }
            let piece = self.render_inline(inline);
            let ghost prev = rendered_inlines@;
            rendered_inlines.append(piece.as_str());
            proof {
                assert((prev + piece@) + render_inlines_seq(inlines_model(inlines)) =~= prev + (
                piece@ + render_inlines_seq(inlines_model(inlines))));
            }
        }
        rendered_inlines
    }

    pub fn render_inline(&self, inline: Inline) -> (r: String)
        ensures
            r@ == render_inline_model((inline.category, inline.text@)),
    {
        match inline.category {
            InlineCategory::CodeSpan => NormalElement::new("code".to_owned(), inline.text)
                .render(),
            InlineCategory::TextualContent => TextElement(inline.text).render(),
        }
    }
}

} // verus!
