use nestmark::ast::ASTNode;
use nestmark::parser::{Parser, ParsingError};

fn parse(input: &str) -> Result<ASTNode, ParsingError> {
    Parser::new(input).parse()
}

#[test]
fn parses_a_full_selector() {
    let tree = parse("div#a.b (hello) { color: red; }").unwrap();
    let children = match tree {
        ASTNode::Document(children) => children,
        _ => panic!("expected a document"),
    };
    assert_eq!(children.len(), 1);
    match &children[0] {
        ASTNode::Selector { tag, id, classes, element, children } => {
            assert_eq!(tag.as_deref(), Some("div"));
            assert_eq!(id.as_deref(), Some("a"));
            assert_eq!(classes, &vec!["b".to_string()]);
            assert_eq!(element.as_deref(), Some("hello"));
            assert_eq!(children.len(), 1);
            match &children[0] {
                ASTNode::StyleRuleset { declarations } => {
                    assert_eq!(
                        declarations,
                        &vec![("color".to_string(), "red".to_string())]
                    );
                }
                _ => panic!("expected a ruleset child"),
            }
        }
        _ => panic!("expected a selector"),
    }
}

#[test]
fn an_empty_document_parses_to_no_children() {
    let tree = parse("").unwrap();
    match tree {
        ASTNode::Document(children) => assert_eq!(children.len(), 0),
        _ => panic!("expected a document"),
    }
}

#[test]
fn resetting_the_id_keeps_the_last_value() {
    let tree = parse("div#a#b { }").unwrap();
    match tree {
        ASTNode::Document(children) => match &children[0] {
            ASTNode::Selector { id, .. } => assert_eq!(id.as_deref(), Some("b")),
            _ => panic!("expected a selector"),
        },
        _ => panic!("expected a document"),
    }
}

#[test]
fn duplicate_classes_are_kept_in_source_order() {
    let tree = parse("div.a.b.a { }").unwrap();
    match tree {
        ASTNode::Document(children) => match &children[0] {
            ASTNode::Selector { classes, .. } => {
                assert_eq!(
                    classes,
                    &vec!["a".to_string(), "b".to_string(), "a".to_string()]
                );
            }
            _ => panic!("expected a selector"),
        },
        _ => panic!("expected a document"),
    }
}

#[test]
fn later_element_content_overwrites_earlier_content() {
    let tree = parse("div (a) (b) { }").unwrap();
    match tree {
        ASTNode::Document(children) => match &children[0] {
            ASTNode::Selector { element, .. } => assert_eq!(element.as_deref(), Some("b")),
            _ => panic!("expected a selector"),
        },
        _ => panic!("expected a document"),
    }
}

#[test]
fn element_content_words_are_joined_by_single_spaces() {
    let tree = parse("div (Hallo  Welt   42) { }").unwrap();
    match tree {
        ASTNode::Document(children) => match &children[0] {
            ASTNode::Selector { element, .. } => {
                assert_eq!(element.as_deref(), Some("Hallo Welt 42"));
            }
            _ => panic!("expected a selector"),
        },
        _ => panic!("expected a document"),
    }
}

#[test]
fn missing_identifier_after_dot() {
    let err = parse(".{}").unwrap_err();
    assert!(matches!(err, ParsingError::MissingIdentifier(_)));
}

#[test]
fn missing_identifier_after_hash() {
    let err = parse("#{}").unwrap_err();
    assert!(matches!(err, ParsingError::MissingIdentifier(_)));
}

#[test]
fn missing_identifier_at_end_of_input() {
    let err = parse("div.").unwrap_err();
    assert!(matches!(err, ParsingError::MissingIdentifier(_)));
}

#[test]
fn unterminated_body_is_unexpected_end_of_input() {
    let err = parse("div {").unwrap_err();
    assert!(matches!(err, ParsingError::UnexpectedEndOfInput));
}

#[test]
fn a_second_tag_in_one_selector_is_an_unexpected_token() {
    let err = parse("div p { }").unwrap_err();
    assert!(matches!(err, ParsingError::UnexpectedToken(_)));
}

#[test]
fn a_stray_closing_brace_is_an_unexpected_token() {
    let err = parse("}").unwrap_err();
    assert!(matches!(err, ParsingError::UnexpectedToken(_)));
}

#[test]
fn a_top_level_ruleset_without_a_following_selector_runs_out_of_input() {
    let err = parse("color: red;").unwrap_err();
    assert!(matches!(err, ParsingError::UnexpectedEndOfInput));
}

#[test]
fn a_declaration_without_a_semicolon_is_an_unexpected_token() {
    let err = parse("div { color: red }").unwrap_err();
    assert!(matches!(err, ParsingError::UnexpectedToken(_)));
}

#[test]
fn a_declaration_without_a_value_is_an_unexpected_token() {
    let err = parse("div { color: ; }").unwrap_err();
    assert!(matches!(err, ParsingError::UnexpectedToken(_)));
}

#[test]
fn a_ruleset_ends_before_a_nested_selector() {
    let tree = parse("div { color: red; p { } }").unwrap();
    match tree {
        ASTNode::Document(children) => match &children[0] {
            ASTNode::Selector { children, .. } => {
                assert_eq!(children.len(), 2);
                assert!(matches!(&children[0], ASTNode::StyleRuleset { .. }));
                assert!(matches!(&children[1], ASTNode::Selector { .. }));
            }
            _ => panic!("expected a selector"),
        },
        _ => panic!("expected a document"),
    }
}

#[test]
fn a_selector_may_start_with_a_class_or_id_without_a_tag() {
    let tree = parse(".menu { } #main { }").unwrap();
    match tree {
        ASTNode::Document(children) => {
            assert_eq!(children.len(), 2);
            match &children[0] {
                ASTNode::Selector { tag, classes, .. } => {
                    assert_eq!(tag.as_deref(), None);
                    assert_eq!(classes, &vec!["menu".to_string()]);
                }
                _ => panic!("expected a selector"),
            }
            match &children[1] {
                ASTNode::Selector { tag, id, .. } => {
                    assert_eq!(tag.as_deref(), None);
                    assert_eq!(id.as_deref(), Some("main"));
                }
                _ => panic!("expected a selector"),
            }
        }
        _ => panic!("expected a document"),
    }
}
