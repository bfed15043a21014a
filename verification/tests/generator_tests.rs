use nestmark::ast::ASTNode;
use nestmark::parser::Parser;

fn compile(input: &str) -> String {
    Parser::new(input).parse().unwrap().to_html().unwrap()
}

#[test]
fn a_full_selector_renders_tag_attributes_content_and_style() {
    assert_eq!(
        compile("div#a.b (hello) { color: red; }"),
        "<div id=\"a\" class=\"b\">hello<style>div#a.b {color: red;}</style></div>"
    );
}

#[test]
fn a_tag_without_element_content_emits_no_tag_text() {
    assert_eq!(compile("p { }"), "");
}

#[test]
fn compiling_the_same_input_twice_gives_identical_output() {
    let input = "div#a.b (hello) { color: red; } p (x) { }";
    assert_eq!(compile(input), compile(input));
}

#[test]
fn empty_element_content_still_emits_tags() {
    assert_eq!(compile("p () { }"), "<p></p>");
}

#[test]
fn the_css_selector_chain_mirrors_the_nesting_depth() {
    assert_eq!(
        compile("div { p { color: red; } }"),
        "<style>div p {color: red;}</style>"
    );
}

#[test]
fn chain_segments_render_tag_id_and_classes_together() {
    assert_eq!(
        compile("div#a.b.c { p#d { color: red; } }"),
        "<style>div#a.b.c p#d {color: red;}</style>"
    );
}

#[test]
fn a_structural_selector_without_identity_still_scopes_rules() {
    // A selector with neither tag, id nor class contributes an empty chain
    // segment and no tag text of its own.
    assert_eq!(
        compile("div { p { color: red; } }"),
        compile("div { p { color: red; } }")
    );
    assert_eq!(
        compile(".wrap { color: red; }"),
        "<style>.wrap {color: red;}</style>"
    );
}

#[test]
fn the_last_id_wins_in_markup_and_css() {
    assert_eq!(
        compile("div#a#b (x) { color: red; }"),
        "<div id=\"b\">x<style>div#b {color: red;}</style></div>"
    );
}

#[test]
fn an_empty_ruleset_node_still_emits_a_style_block() {
    let node = ASTNode::StyleRuleset { declarations: vec![] };
    assert_eq!(node.to_html().unwrap(), "<style>{}</style>");
}

#[test]
fn declarations_keep_their_order_and_exact_punctuation() {
    assert_eq!(
        compile("div { a: 1px; b: two; c: 3; }"),
        "<style>div {a: 1px;b: two;c: 3;}</style>"
    );
}

#[test]
fn a_selector_without_a_tag_name_emits_no_tag_text_even_with_content() {
    assert_eq!(
        compile("#a (x) { color: red; }"),
        "<style>#a {color: red;}</style>"
    );
}

#[test]
fn a_top_level_ruleset_before_a_selector_has_an_empty_chain() {
    assert_eq!(
        compile("color: red; div { }"),
        "<style>{color: red;}</style>"
    );
}

#[test]
fn duplicate_classes_appear_in_both_attribute_and_selector() {
    assert_eq!(
        compile("div.a.b.a (x) { color: red; }"),
        "<div class=\"a b a\">x<style>div.a.b.a {color: red;}</style></div>"
    );
}

#[test]
fn siblings_concatenate_in_source_order() {
    assert_eq!(
        compile("p (one) { } p (two) { }"),
        "<p>one</p><p>two</p>"
    );
}

#[test]
fn a_nested_document_renders_depth_first() {
    let input = "\n        html#test.example.hello () {\n            head () {\n                title {}\n                meta {}\n            }\n            body (Hallo Welt) {\n                h1 () {\n                    font-size: 16px;\n                    color: red;\n                    font-weight: bold;\n\n                    .test {\n                        color: blue;\n                    }\n                }\n\n                background: black;\n            }\n\n            background: red;\n        }\n    ";
    let expected = "<html id=\"test\" class=\"example hello\"><head></head><body>Hallo Welt<h1><style>html#test.example.hello body h1 {font-size: 16px;color: red;font-weight: bold;}</style><style>html#test.example.hello body h1 .test {color: blue;}</style></h1><style>html#test.example.hello body {background: black;}</style></body><style>html#test.example.hello {background: red;}</style></html>";
    assert_eq!(compile(input), expected);
}
