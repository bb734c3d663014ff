use rustdown::block::Block;
use rustdown::document::Document;
use rustdown::inline::Inline;
use rustdown::inline::InlineCategory;
use rustdown::leaf::AtxHeadingLevel;
use rustdown::leaf::Leaf;
use rustdown::leaf::LeafCategory;
use rustdown::renderers::NormalElement;
use rustdown::renderers::Render;
use rustdown::renderers::TextElement;
use rustdown::renderers::VoidElement;

#[test]
fn it_parses_standard_example() {
    let input = String::from("***\nLorem ipsum");
    let expected = String::from("<hr /><p>Lorem ipsum</p>");

    assert_eq!(rustdown::parse(input), expected);
}

#[test]
fn it_parses_variant_example() {}

#[test]
fn it_prioritizes_code_block_over_inline_code_span() {
    let code_span_input = String::from("``Code span, not block``");
    let expected_code_span = String::from("<p><code>Code span, not block</code></p>");

    assert_eq!(rustdown::parse(code_span_input), expected_code_span);
}

#[test]
fn parsing_twice_yields_byte_identical_output() {
    let input = String::from("> # Foo\nbar\n\n***\n`code`");

    let first = rustdown::parse(input.clone());
    let second = rustdown::parse(input);

    assert_eq!(first, second);
}

#[test]
fn it_renders_empty_input_as_empty_paragraph() {
    assert_eq!(rustdown::parse(String::new()), String::from("<p></p>"));
}

#[test]
fn it_renders_a_block_quote_around_its_content() {
    assert_eq!(
        rustdown::parse(String::from("> # Foo\nbar")),
        String::from("<blockquote><p># Foo\nbar</p></blockquote>")
    );
}

#[test]
fn it_renders_paragraphs_separated_by_blank_lines() {
    assert_eq!(
        rustdown::parse(String::from("one\n\ntwo")),
        String::from("<p>one\n</p><p>two</p>")
    );
}

#[test]
fn normal_element_renders_tag_and_inner_text() {
    let element = NormalElement::new(String::from("p"), String::from("inner"));

    assert_eq!(element.render(), String::from("<p>inner</p>"));
}

#[test]
fn normal_element_attributes_do_not_change_the_rendering() {
    let mut element = NormalElement::new(String::from("p"), String::from("inner"));
    element.add_attribute(String::from("class"), String::from("quiet"));

    assert_eq!(element.render(), String::from("<p>inner</p>"));
}

#[test]
fn void_element_renders_self_closing_tag() {
    let element = VoidElement::new(String::from("hr"));

    assert_eq!(element.render(), String::from("<hr />"));
}

#[test]
fn void_element_attributes_do_not_change_the_rendering() {
    let mut element = VoidElement::new(String::from("hr"));
    element.add_attribute(String::from("class"), String::from("wide"));

    assert_eq!(element.render(), String::from("<hr />"));
}

#[test]
fn text_element_renders_its_text() {
    let element = TextElement(String::from("just text"));

    assert_eq!(element.render(), String::from("just text"));
}

#[test]
fn it_accepts_carriage_return_line_feed_line_endings_between_blocks() {
    assert_eq!(
        rustdown::parse(String::from("***\r\nLorem ipsum")),
        String::from("<hr /><p>Lorem ipsum</p>")
    );
}

#[test]
fn document_renders_a_heading_block_with_its_level() {
    let document = Document::new();
    let block = Block::Leaf(Leaf::new(
        LeafCategory::AtxHeading(AtxHeadingLevel::Three),
        String::from("title"),
    ));

    assert_eq!(document.render_block(block), String::from("<h3>title</h3>"));
}

#[test]
fn document_renders_a_thematic_break_block() {
    let document = Document::new();
    let block = Block::Leaf(Leaf::new(LeafCategory::ThematicBreak, String::from("***")));

    assert_eq!(document.render_block(block), String::from("<hr />"));
}

#[test]
fn document_renders_a_code_span_inline() {
    let document = Document::new();
    let inline = Inline::new(InlineCategory::CodeSpan, String::from("x"));

    assert_eq!(document.render_inline(inline), String::from("<code>x</code>"));
}

#[test]
fn document_renders_textual_content_literally() {
    let document = Document::new();
    let inline = Inline::new(InlineCategory::TextualContent, String::from("plain"));

    assert_eq!(document.render_inline(inline), String::from("plain"));
}
