pub mod block;
pub mod document;
pub mod inline;
pub mod leaf;
pub mod matchers;
pub mod parsers;
pub mod preliminaries;
pub mod renderers;
pub mod text;

use vstd::prelude::*;

verus! {

/// Renders Markdown text to HTML text.  The output is a pure function of
/// the input's characters: `document_html` says exactly which one.
pub fn parse(input: String) -> (output: String)
    ensures
        output@ == crate::document::document_html(input@),
{
    let document = crate::document::Document::new();
    document.render(input)
}

} // verus!
