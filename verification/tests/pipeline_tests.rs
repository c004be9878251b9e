//! Whole-pipeline scenarios: a hand-built document tree goes through the
//! AST builder, the world assembler and the validation engine in turn,
//! exactly as a front end would drive them.

use cld_os::parser::{CLDParser, NodeTag, ParseNode};
use cld_os::world::{validate_world, ConstructionError, ValidationError, World};

fn leaf(tag: NodeTag, text: &str) -> ParseNode {
    ParseNode { tag, text: text.to_string(), children: Vec::new() }
}

fn field(key: &str, value: ParseNode) -> ParseNode {
    ParseNode {
        tag: NodeTag::Field,
        text: String::new(),
        children: vec![leaf(NodeTag::IdentifierLit, key), value],
    }
}

fn decl(tag: NodeTag, name: &str, fields: Vec<ParseNode>) -> ParseNode {
    let mut children = vec![leaf(NodeTag::IdentifierLit, name)];
    children.extend(fields);
    ParseNode { tag, text: String::new(), children }
}

fn document(children: Vec<ParseNode>) -> ParseNode {
    ParseNode { tag: NodeTag::Document, text: String::new(), children }
}

fn anchor_list(names: Vec<&str>) -> ParseNode {
    ParseNode {
        tag: NodeTag::ListLit,
        text: String::new(),
        children: names.into_iter().map(|n| leaf(NodeTag::IdentifierLit, n)).collect(),
    }
}

#[test]
fn document_with_lone_origin_validates() {
    let doc = document(vec![decl(NodeTag::Origin, "Genesis", vec![])]);
    let citizens = CLDParser::parse_cld(&doc).unwrap();
    let world = World::from_citizens(citizens).unwrap();
    assert!(validate_world(&world).is_ok());
}

#[test]
fn document_with_two_origins_yields_no_world() {
    let doc = document(vec![
        decl(NodeTag::Origin, "First", vec![]),
        decl(NodeTag::Origin, "Second", vec![]),
    ]);
    let citizens = CLDParser::parse_cld(&doc).unwrap();
    let r = World::from_citizens(citizens);
    assert!(matches!(r, Err(ConstructionError::MultipleOrigin)));
}

#[test]
fn document_with_resolved_core_anchor_validates() {
    let doc = document(vec![
        decl(
            NodeTag::Origin,
            "Genesis",
            vec![field("核心锚点", anchor_list(vec!["AnchorEvent"]))],
        ),
        decl(NodeTag::CoreEvent, "AnchorEvent", vec![]),
    ]);
    let citizens = CLDParser::parse_cld(&doc).unwrap();
    let world = World::from_citizens(citizens).unwrap();
    assert!(validate_world(&world).is_ok());
}

#[test]
fn document_with_event_in_place_of_core_event_fails() {
    let doc = document(vec![
        decl(
            NodeTag::Origin,
            "Genesis",
            vec![field("核心锚点", anchor_list(vec!["AnchorEvent"]))],
        ),
        decl(NodeTag::Event, "AnchorEvent", vec![]),
    ]);
    let citizens = CLDParser::parse_cld(&doc).unwrap();
    let world = World::from_citizens(citizens).unwrap();
    match validate_world(&world) {
        Err(ValidationError::UnresolvedReference { name, .. }) => {
            assert_eq!(name, "AnchorEvent");
        }
        other => panic!("expected an unresolved anchor, got {:?}", other),
    }
}

#[test]
fn document_with_number_anchor_field_fails_cleanly() {
    let doc = document(vec![decl(
        NodeTag::Origin,
        "Genesis",
        vec![field("核心锚点", leaf(NodeTag::NumberLit, "5"))],
    )]);
    let citizens = CLDParser::parse_cld(&doc).unwrap();
    let world = World::from_citizens(citizens).unwrap();
    match validate_world(&world) {
        Err(ValidationError::TypeMismatch(_)) => {}
        other => panic!("expected a type mismatch, got {:?}", other),
    }
}
