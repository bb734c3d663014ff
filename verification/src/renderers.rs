//! The HTML element renderers the parsed tree is handed to: normal
//! elements, void elements and bare text.

use vstd::prelude::*;
use vstd::string::StringExecFns;

verus! {

/// The text of a normal element: `<tag>` + inner text + `</tag>`.
pub open spec fn normal_html(tag: Seq<char>, inner: Seq<char>) -> Seq<char> {
    seq!['<'] + tag + seq!['>'] + inner + seq!['<', '/'] + tag + seq!['>']
}

/// The text of a void element: `<tag />`.
pub open spec fn void_html(tag: Seq<char>) -> Seq<char> {
    seq!['<'] + tag + seq![' ', '/', '>']
}

/// Anything that renders itself to text.
pub trait Render {
    /// The exact text the renderer produces.
    spec fn spec_render(&self) -> Seq<char>;

    fn render(&self) -> (r: String)
        ensures
            r@ == self.spec_render(),
    ;
}

/// An element with an opening tag, content and a closing tag.
pub struct NormalElement {
    pub attributes: Vec<(String, String)>,
    pub inner_text: String,
    pub tag: String,
}

impl NormalElement {
    pub fn new(tag: String, inner_text: String) -> (r: NormalElement)
        ensures
            r.tag == tag,
            r.inner_text == inner_text,
            r.attributes@.len() == 0,
    {
        NormalElement { attributes: Vec::new(), inner_text, tag }
    }

    pub fn add_attribute(&mut self, key: String, value: String)
        ensures
            final(self).tag == old(self).tag,
            final(self).inner_text == old(self).inner_text,
            final(self).attributes@ == old(self).attributes@.push((key, value)),
    {
        self.attributes.push((key, value));
    }
}

impl Render for NormalElement {
    open spec fn spec_render(&self) -> Seq<char> {
        normal_html(self.tag@, self.inner_text@)
    }

    fn render(&self) -> (r: String) {
        let mut out = String::new();
        out.push('<');
        out.append(self.tag.as_str());
        out.push('>');
        out.append(self.inner_text.as_str());
        out.push('<');
        out.push('/');
        out.append(self.tag.as_str());
        out.push('>');
        proof {
            assert(out@ =~= normal_html(self.tag@, self.inner_text@));
        }
        out
    }
}

/// An element with no content and no closing tag.
pub struct VoidElement {
    pub attributes: Vec<(String, String)>,
    pub tag: String,
}

impl VoidElement {
    pub fn new(tag: String) -> (r: VoidElement)
        ensures
            r.tag == tag,
            r.attributes@.len() == 0,
    {
        VoidElement { attributes: Vec::new(), tag }
    }

    pub fn add_attribute(&mut self, key: String, value: String)
        ensures
            final(self).tag == old(self).tag,
            final(self).attributes@ == old(self).attributes@.push((key, value)),
    {
        self.attributes.push((key, value));
    }
}

impl Render for VoidElement {
    open spec fn spec_render(&self) -> Seq<char> {
        void_html(self.tag@)
    }

    fn render(&self) -> (r: String) {
        let mut out = String::new();
        out.push('<');
        out.append(self.tag.as_str());
        out.push(' ');
        out.push('/');
        out.push('>');
        proof {
            assert(out@ =~= void_html(self.tag@));
        }
        out
    }
}

/// Bare text, rendered as itself.
pub struct TextElement(pub String);

impl Render for TextElement {
    open spec fn spec_render(&self) -> Seq<char> {
        self.0@
    }

    fn render(&self) -> (r: String) {
        let TextElement(text) = self;
        text.clone()
    }
}

} // verus!
