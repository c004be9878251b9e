use cld_os::parser::{AstError, CLDParser, Citizen, NodeTag, ParseNode, StructureError};

fn leaf(tag: NodeTag, text: &str) -> ParseNode {
    ParseNode { tag, text: text.to_string(), children: Vec::new() }
}

fn field(key: &str, value: ParseNode) -> ParseNode {
    ParseNode {
        tag: NodeTag::Field,
        text: String::new(),
        children: vec![leaf(NodeTag::IdentifierLit, key), value],
    }
}

fn decl(tag: NodeTag, name: &str, fields: Vec<ParseNode>) -> ParseNode {
    let mut children = vec![leaf(NodeTag::IdentifierLit, name)];
    children.extend(fields);
    ParseNode { tag, text: String::new(), children }
}

fn document(children: Vec<ParseNode>) -> ParseNode {
    ParseNode { tag: NodeTag::Document, text: String::new(), children }
}

#[test]
fn builds_an_origin_with_fields() {
    let doc = document(vec![decl(
        NodeTag::Origin,
        "Genesis",
        vec![field("entropy", leaf(NodeTag::NumberLit, "42"))],
    )]);
    let citizens = CLDParser::parse_cld(&doc).unwrap();
    assert_eq!(citizens.len(), 1);
    match &citizens[0] {
        Citizen::Origin(o) => {
            assert_eq!(o.name, "Genesis");
            assert_eq!(o.fields.len(), 1);
            let v = o.fields.get(&"entropy".to_string()).unwrap();
            assert_eq!(v.as_number(), Some(&"42".to_string()));
        }
        other => panic!("expected an origin, got {:?}", other),
    }
}

#[test]
fn builds_every_citizen_kind() {
    let doc = document(vec![
        decl(NodeTag::Origin, "A", vec![]),
        decl(NodeTag::Timeline, "B", vec![]),
        decl(NodeTag::Event, "C", vec![]),
        decl(NodeTag::CoreEvent, "D", vec![]),
        decl(NodeTag::Niche, "E", vec![]),
        decl(NodeTag::Era, "F", vec![]),
        decl(NodeTag::Generator, "G", vec![]),
        decl(NodeTag::Memory, "H", vec![]),
        decl(NodeTag::Immune, "I", vec![]),
    ]);
    let citizens = CLDParser::parse_cld(&doc).unwrap();
    assert_eq!(citizens.len(), 9);
    assert!(matches!(citizens[0], Citizen::Origin(_)));
    assert!(matches!(citizens[1], Citizen::Timeline(_)));
    assert!(matches!(citizens[2], Citizen::Event(_)));
    assert!(matches!(citizens[3], Citizen::CoreEvent(_)));
    assert!(matches!(citizens[4], Citizen::Niche(_)));
    assert!(matches!(citizens[5], Citizen::Era(_)));
    assert!(matches!(citizens[6], Citizen::Generator(_)));
    assert!(matches!(citizens[7], Citizen::Memory(_)));
    assert!(matches!(citizens[8], Citizen::Immune(_)));
}

#[test]
fn core_event_is_not_an_event() {
    let doc = document(vec![decl(NodeTag::CoreEvent, "Anchor", vec![])]);
    let citizens = CLDParser::parse_cld(&doc).unwrap();
    assert!(matches!(citizens[0], Citizen::CoreEvent(_)));
    assert!(!matches!(citizens[0], Citizen::Event(_)));
}

#[test]
fn auxiliary_top_level_nodes_are_ignored() {
    let doc = document(vec![
        leaf(NodeTag::Other, "// comment"),
        decl(NodeTag::Event, "E", vec![]),
        leaf(NodeTag::Other, ""),
    ]);
    let citizens = CLDParser::parse_cld(&doc).unwrap();
    assert_eq!(citizens.len(), 1);
}

#[test]
fn missing_name_is_a_structure_error() {
    let doc = document(vec![ParseNode {
        tag: NodeTag::Origin,
        text: String::new(),
        children: Vec::new(),
    }]);
    let r = CLDParser::parse_cld(&doc);
    assert!(matches!(r, Err(AstError::Structure(StructureError::MissingName))));
    assert_eq!(r.unwrap_err().message(), "missing name");
}

#[test]
fn missing_field_key_is_a_structure_error() {
    let empty_field = ParseNode { tag: NodeTag::Field, text: String::new(), children: vec![] };
    let doc = document(vec![decl(NodeTag::Era, "E", vec![empty_field])]);
    let r = CLDParser::parse_cld(&doc);
    assert!(matches!(r, Err(AstError::Structure(StructureError::MissingFieldKey))));
}

#[test]
fn missing_field_value_is_a_structure_error() {
    let half_field = ParseNode {
        tag: NodeTag::Field,
        text: String::new(),
        children: vec![leaf(NodeTag::IdentifierLit, "key")],
    };
    let doc = document(vec![decl(NodeTag::Niche, "N", vec![half_field])]);
    let r = CLDParser::parse_cld(&doc);
    assert!(matches!(r, Err(AstError::Structure(StructureError::MissingFieldValue))));
    assert_eq!(r.unwrap_err().message(), "missing field value");
}

#[test]
fn bad_field_value_error_propagates_unchanged() {
    let doc = document(vec![decl(
        NodeTag::Memory,
        "M",
        vec![field("depth", leaf(NodeTag::NumberLit, "deep"))],
    )]);
    match CLDParser::parse_cld(&doc) {
        Err(AstError::ValueType(e)) => assert_eq!(e.text, "deep"),
        other => panic!("expected the value's own error, got {:?}", other),
    }
}

#[test]
fn later_field_key_overwrites_earlier() {
    let doc = document(vec![decl(
        NodeTag::Generator,
        "G",
        vec![
            field("rate", leaf(NodeTag::NumberLit, "1")),
            field("rate", leaf(NodeTag::NumberLit, "2")),
        ],
    )]);
    let citizens = CLDParser::parse_cld(&doc).unwrap();
    match &citizens[0] {
        Citizen::Generator(g) => {
            assert_eq!(g.fields.len(), 1);
            let v = g.fields.get(&"rate".to_string()).unwrap();
            assert_eq!(v.as_number(), Some(&"2".to_string()));
        }
        other => panic!("expected a generator, got {:?}", other),
    }
}

#[test]
fn non_field_children_of_a_declaration_are_ignored() {
    let doc = document(vec![ParseNode {
        tag: NodeTag::Timeline,
        text: String::new(),
        children: vec![
            leaf(NodeTag::IdentifierLit, "Main"),
            leaf(NodeTag::Other, "noise"),
            field("axis", leaf(NodeTag::StringLit, "\"main\"")),
        ],
    }]);
    let citizens = CLDParser::parse_cld(&doc).unwrap();
    match &citizens[0] {
        Citizen::Timeline(t) => {
            assert_eq!(t.name, "Main");
            assert_eq!(t.fields.len(), 1);
        }
        other => panic!("expected a timeline, got {:?}", other),
    }
}

#[test]
fn first_failing_declaration_decides_the_error() {
    let doc = document(vec![
        decl(NodeTag::Event, "Fine", vec![]),
        decl(NodeTag::Event, "Broken", vec![field("x", leaf(NodeTag::BooleanLit, "maybe"))]),
        ParseNode { tag: NodeTag::Origin, text: String::new(), children: Vec::new() },
    ]);
    match CLDParser::parse_cld(&doc) {
        Err(AstError::ValueType(e)) => assert_eq!(e.text, "maybe"),
        other => panic!("expected the boolean error first, got {:?}", other),
    }
}
