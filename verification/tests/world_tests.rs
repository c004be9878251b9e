use cld_os::citizens::{CoreEvent, Event, Origin, Value};
use cld_os::name_map::NameMap;
use cld_os::parser::Citizen;
use cld_os::world::{
    validate_world, ConstructionError, TypeMismatchKind, ValidationError, ValidationRule, World,
};

const ANCHOR_KEY: &str = "核心锚点";

fn record_fields(entries: Vec<(&str, Value)>) -> NameMap<Value> {
    let mut fields = NameMap::new();
    for (key, value) in entries {
        fields.insert(key.to_string(), value);
    }
    fields
}

fn origin(name: &str, fields: Vec<(&str, Value)>) -> Citizen {
    Citizen::Origin(Origin { name: name.to_string(), fields: record_fields(fields) })
}

fn core_event(name: &str) -> Citizen {
    Citizen::CoreEvent(CoreEvent { name: name.to_string(), fields: NameMap::new() })
}

fn event(name: &str) -> Citizen {
    Citizen::Event(Event { name: name.to_string(), fields: NameMap::new() })
}

fn anchors(names: Vec<&str>) -> Value {
    Value::List(names.into_iter().map(|n| Value::Identifier(n.to_string())).collect())
}

#[test]
fn scenario_a_lone_origin_assembles_and_validates() {
    let world = World::from_citizens(vec![origin("Genesis", vec![])]).unwrap();
    assert!(world.origin.is_some());
    assert!(validate_world(&world).is_ok());
}

#[test]
fn scenario_b_two_origins_fail_assembly() {
    let r = World::from_citizens(vec![origin("First", vec![]), origin("Second", vec![])]);
    match r {
        Err(ConstructionError::MultipleOrigin) => {}
        Ok(w) => panic!("a second origin must not assemble, got {:?}", w),
    }
}

#[test]
fn multiple_origin_message_text() {
    assert_eq!(ConstructionError::MultipleOrigin.message(), "Multiple @Origin declarations found");
}

#[test]
fn scenario_c_anchor_resolves_to_core_event() {
    let world = World::from_citizens(vec![
        origin("Genesis", vec![(ANCHOR_KEY, anchors(vec!["AnchorEvent"]))]),
        core_event("AnchorEvent"),
    ])
    .unwrap();
    assert!(validate_world(&world).is_ok());
}

#[test]
fn scenario_d_plain_event_does_not_resolve_an_anchor() {
    let world = World::from_citizens(vec![
        origin("Genesis", vec![(ANCHOR_KEY, anchors(vec!["AnchorEvent"]))]),
        event("AnchorEvent"),
    ])
    .unwrap();
    match validate_world(&world) {
        Err(ValidationError::UnresolvedReference { rule, name }) => {
            assert_eq!(rule, ValidationRule::CoreAnchorsResolved);
            assert_eq!(name, "AnchorEvent");
        }
        other => panic!("expected an unresolved reference, got {:?}", other),
    }
}

#[test]
fn unresolved_reference_message_names_the_anchor() {
    let world = World::from_citizens(vec![origin(
        "Genesis",
        vec![(ANCHOR_KEY, anchors(vec!["Ghost"]))],
    )])
    .unwrap();
    let e = validate_world(&world).unwrap_err();
    assert_eq!(
        e.message(),
        "CoreEvent 'Ghost' referenced in Origin.核心锚点 is not defined"
    );
}

#[test]
fn absent_anchor_field_validates() {
    let world = World::from_citizens(vec![
        origin("Genesis", vec![("entropy", Value::Number("3".to_string()))]),
        core_event("Unrelated"),
    ])
    .unwrap();
    assert!(validate_world(&world).is_ok());
}

#[test]
fn anchor_field_of_number_type_is_a_mismatch() {
    let world = World::from_citizens(vec![origin(
        "Genesis",
        vec![(ANCHOR_KEY, Value::Number("7".to_string()))],
    )])
    .unwrap();
    match validate_world(&world) {
        Err(ValidationError::TypeMismatch(k)) => {
            assert_eq!(k, TypeMismatchKind::AnchorsNotList);
        }
        other => panic!("expected a type mismatch, got {:?}", other),
    }
}

#[test]
fn anchor_list_mismatch_messages() {
    let not_list = World::from_citizens(vec![origin(
        "G",
        vec![(ANCHOR_KEY, Value::Boolean(true))],
    )])
    .unwrap();
    assert_eq!(validate_world(&not_list).unwrap_err().message(), "Origin.核心锚点 must be a list");

    let not_idents = World::from_citizens(vec![origin(
        "G",
        vec![(ANCHOR_KEY, Value::List(vec![Value::Number("1".to_string())]))],
    )])
    .unwrap();
    assert_eq!(
        validate_world(&not_idents).unwrap_err().message(),
        "Origin.核心锚点 must contain only identifiers"
    );
}

#[test]
fn missing_origin_fails_validation_first() {
    let world = World::from_citizens(vec![core_event("A"), event("B")]).unwrap();
    match validate_world(&world) {
        Err(ValidationError::MissingOrigin) => {}
        other => panic!("expected a missing origin, got {:?}", other),
    }
    let e = validate_world(&world).unwrap_err();
    assert_eq!(e.message(), "!Origin missing: A world must have exactly one @Origin");
}

#[test]
fn assembly_is_idempotent_on_equal_inputs() {
    let build = || {
        vec![
            origin("Genesis", vec![(ANCHOR_KEY, anchors(vec!["A", "B"]))]),
            core_event("A"),
            core_event("B"),
            event("E1"),
            Citizen::Timeline(cld_os::citizens::Timeline {
                name: "Main".to_string(),
                fields: NameMap::new(),
            }),
        ]
    };
    let w1 = World::from_citizens(build()).unwrap();
    let w2 = World::from_citizens(build()).unwrap();
    assert_eq!(w1, w2);
}

#[test]
fn later_citizen_of_same_name_overwrites_earlier() {
    let mut fields = NameMap::new();
    fields.insert("note".to_string(), Value::String("new".to_string()));
    let world = World::from_citizens(vec![
        event("E"),
        Citizen::Event(Event { name: "E".to_string(), fields }),
    ])
    .unwrap();
    assert_eq!(world.events.len(), 1);
    let e = world.events.get(&"E".to_string()).unwrap();
    let v = e.fields.get(&"note".to_string()).unwrap();
    assert_eq!(v.as_string(), Some(&"new".to_string()));
}

#[test]
fn citizens_route_to_their_own_collections() {
    let world = World::from_citizens(vec![
        origin("O", vec![]),
        core_event("Shared"),
        event("Shared"),
    ])
    .unwrap();
    assert_eq!(world.core_events.len(), 1);
    assert_eq!(world.events.len(), 1);
    assert!(world.core_events.contains_key(&"Shared".to_string()));
    assert!(world.events.contains_key(&"Shared".to_string()));
    assert_eq!(world.timelines.len(), 0);
    assert_eq!(world.niches.len(), 0);
}

#[test]
fn empty_world_has_nothing() {
    let world = World::new();
    assert!(world.origin.is_none());
    assert_eq!(world.events.len(), 0);
    assert!(!world.events.contains_key(&"E".to_string()));
}

#[test]
fn rule_list_is_ordered() {
    let rules = cld_os::world::rule_list();
    assert_eq!(rules, vec![ValidationRule::OriginExists, ValidationRule::CoreAnchorsResolved]);
    assert_eq!(rules[0].name(), "OriginExists");
    assert_eq!(rules[1].name(), "CoreAnchorsResolved");
}

#[test]
fn apply_rule_checks_one_rule_only() {
    let world = World::from_citizens(vec![origin(
        "G",
        vec![(ANCHOR_KEY, Value::Boolean(true))],
    )])
    .unwrap();
    assert!(cld_os::world::apply_rule(ValidationRule::OriginExists, &world).is_ok());
    assert!(cld_os::world::apply_rule(ValidationRule::CoreAnchorsResolved, &world).is_err());
}

#[test]
fn empty_anchor_list_validates() {
    let world = World::from_citizens(vec![origin("G", vec![(ANCHOR_KEY, anchors(vec![]))])])
        .unwrap();
    assert!(validate_world(&world).is_ok());
}

#[test]
fn first_unresolved_anchor_is_reported() {
    let world = World::from_citizens(vec![
        origin("G", vec![(ANCHOR_KEY, anchors(vec!["Known", "Lost", "AlsoLost"]))]),
        core_event("Known"),
    ])
    .unwrap();
    match validate_world(&world) {
        Err(ValidationError::UnresolvedReference { name, .. }) => assert_eq!(name, "Lost"),
        other => panic!("expected the first unresolved anchor, got {:?}", other),
    }
}
