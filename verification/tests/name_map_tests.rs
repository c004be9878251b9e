use cld_os::citizens::Value;
use cld_os::name_map::NameMap;

#[test]
fn new_map_is_empty() {
    let m: NameMap<Value> = NameMap::new();
    assert_eq!(m.len(), 0);
    assert!(m.get(&"k".to_string()).is_none());
}

#[test]
fn insert_then_get_returns_the_value() {
    let mut m: NameMap<Value> = NameMap::new();
    m.insert("k".to_string(), Value::Boolean(true));
    assert_eq!(m.len(), 1);
    assert!(m.contains_key(&"k".to_string()));
    assert_eq!(m.get(&"k".to_string()).unwrap().as_boolean(), Some(true));
}

#[test]
fn reinsert_under_same_name_replaces() {
    let mut m: NameMap<Value> = NameMap::new();
    m.insert("k".to_string(), Value::Number("1".to_string()));
    m.insert("other".to_string(), Value::Number("5".to_string()));
    m.insert("k".to_string(), Value::Number("2".to_string()));
    assert_eq!(m.len(), 2);
    assert_eq!(m.get(&"k".to_string()).unwrap().as_number(), Some(&"2".to_string()));
    assert_eq!(m.get(&"other".to_string()).unwrap().as_number(), Some(&"5".to_string()));
}

#[test]
fn distinct_names_do_not_collide() {
    let mut m: NameMap<Value> = NameMap::new();
    m.insert("a".to_string(), Value::Identifier("x".to_string()));
    m.insert("b".to_string(), Value::Identifier("y".to_string()));
    assert_eq!(m.len(), 2);
    assert_eq!(m.get(&"a".to_string()).unwrap().as_identifier(), Some(&"x".to_string()));
    assert_eq!(m.get(&"b".to_string()).unwrap().as_identifier(), Some(&"y".to_string()));
    assert!(!m.contains_key(&"c".to_string()));
}
