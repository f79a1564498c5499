use dotted_json::{
    extend_hashmap, string_to_dict, Engine, EngineOptions, Error, HowToDictInArray, LineOutcome,
    MapNodes, Node, TypedValue,
};
use serde_json::Value;

fn node_json(n: &Node) -> Value {
    match n {
        Node::Leaf(TypedValue::String(s)) => Value::String(s.clone()),
        Node::Leaf(TypedValue::Integer(i)) => Value::from(*i),
        Node::Leaf(TypedValue::Float(t)) => Value::from(t.parse::<f64>().unwrap()),
        Node::Dict(m) => map_json(m),
        Node::Array(v) => Value::Array(v.iter().map(node_json).collect()),
    }
}

fn map_json(m: &MapNodes) -> Value {
    let mut o = serde_json::Map::new();
    for (k, v) in &m.nodes {
        o.insert(k.clone(), node_json(v));
    }
    Value::Object(o)
}

fn json(s: &str) -> Value {
    serde_json::from_str(s).unwrap()
}

fn engine() -> Engine {
    Engine::new(EngineOptions::new().with_verbosity(10))
}

#[test]
fn test_string_to_dict() {
    let keys = vec!["a".to_string(), "b".to_string()];
    let value = Node::Leaf(TypedValue::Integer(1));
    let h = string_to_dict(keys, value);
    assert_eq!(map_json(&h), json(r#"{"a":{"b":1}}"#));
}

#[test]
fn test_empy_engine() {
    let mut engine = engine();
    engine.add_line("line").unwrap();
    assert_eq!(serde_json::to_string(&map_json(&engine.values)).unwrap(), "{}");
}

#[test]
fn test_1_key_str() {
    let mut engine = engine();
    engine.add_line(";a:value").unwrap();
    assert_eq!(map_json(&engine.values), json(r#"{"a":"value"}"#));
}

#[test]
fn test_1_key() {
    let mut engine = engine();
    engine.add_line(";a:1").unwrap();
    assert_eq!(map_json(&engine.values), json(r#"{"a":1}"#));
}

#[test]
fn test_2_key() {
    let mut engine = engine();
    engine.add_line(";a:1").unwrap();
    engine.add_line(";b:2").unwrap();
    assert_eq!(map_json(&engine.values), json(r#"{"a":1,"b":2}"#));
}

#[test]
fn test_1_1_key() {
    let mut engine = engine();
    engine.add_line(";a.b:1").unwrap();
    assert_eq!(map_json(&engine.values), json(r#"{"a":{"b":1}}"#));
}

#[test]
fn test_1_1_1_key() {
    let mut engine = engine();
    engine.add_line(";a.b.c:1").unwrap();
    assert_eq!(map_json(&engine.values), json(r#"{"a":{"b":{"c":1}}}"#));
}

#[test]
fn test_1_1_1_key_bis() {
    let mut engine = engine();
    engine.add_line(";a.b.c:1").unwrap();
    assert_eq!(map_json(&engine.values), json(r#"{"a":{"b":{"c":1}}}"#));
}

#[test]
fn test_1_2_key() {
    let mut engine = engine();
    engine.add_line(";a:1").unwrap();
    assert_eq!(map_json(&engine.values), json(r#"{"a":1}"#));
    engine.add_line(";a.c:2").unwrap();
    assert_eq!(map_json(&engine.values), json(r#"{"a":{"value":1,"c":2}}"#));
}

#[test]
fn test_1_1_2_key() {
    let mut engine = engine();
    engine.add_line(";a.c:2").unwrap();
    assert_eq!(map_json(&engine.values), json(r#"{"a":{"c":2}}"#));
    engine.add_line(";a.b:3").unwrap();
    assert_eq!(map_json(&engine.values), json(r#"{"a":{"c":2,"b":3}}"#));
}

#[test]
fn test_1_string_to_array_key() {
    let mut engine = engine();
    engine.add_line(";a:2").unwrap();
    assert_eq!(map_json(&engine.values), json(r#"{"a":2}"#));
    engine.add_line(";a:3").unwrap();
    assert_eq!(map_json(&engine.values), json(r#"{"a":[2,3]}"#));
}

#[test]
fn test_1_insert_string_to_array_key() {
    let mut engine = engine();
    engine.add_line(";a:2").unwrap();
    engine.add_line(";a:3").unwrap();
    assert_eq!(map_json(&engine.values), json(r#"{"a":[2,3]}"#));
    engine.add_line(";a:4").unwrap();
    assert_eq!(map_json(&engine.values), json(r#"{"a":[2,3,4]}"#));
}

#[test]
fn test_double_dots_in_key() {
    let mut engine = engine();
    engine.add_line(";a.b:2").unwrap();
    assert_eq!(map_json(&engine.values), json(r#"{"a":{"b":2}}"#));
    engine.add_line(";a.c:c:3").unwrap();
    assert_eq!(map_json(&engine.values), json(r#"{"a":{"b":2,"c":"c:3"}}"#));
}

#[test]
fn test_add_dict_in_array_err() {
    let mut engine = engine();
    engine.add_line(";a:1").unwrap();
    engine.add_line(";a:2").unwrap();
    engine.add_line(";a:3").unwrap();
    assert_eq!(map_json(&engine.values), json(r#"{"a":[1,2,3]}"#));
    let e = engine.add_line(";a.b:4");
    assert!(e.is_err());
    assert!(matches!(e, Err(Error::HowToDictInArray)));
    assert_eq!(map_json(&engine.values), json(r#"{"a":[1,2,3]}"#));
}

#[test]
fn test_add_dict_in_array_merge() {
    let options = EngineOptions::new()
        .with_how_to_dict_in_array(HowToDictInArray::MergeDictInArray)
        .with_verbosity(10);
    let mut engine = Engine::new(options);
    engine.add_line(";a:1").unwrap();
    engine.add_line(";a:2").unwrap();
    engine.add_line(";a:3").unwrap();
    assert_eq!(map_json(&engine.values), json(r#"{"a":[1,2,3]}"#));
    let e = engine.add_line(";a.b:4");
    assert!(e.is_ok());
    assert_eq!(map_json(&engine.values), json(r#"{"a":[1,2,3,{"b":4}]}"#));
    let e = engine.add_line(";a.b:5");
    assert!(e.is_ok());
    assert_eq!(
        map_json(&engine.values),
        json(r#"{"a":[1,2,3,{"b":4},{"b":5}]}"#)
    );
}

#[test]
fn promotes_leaf_to_mapping_with_value_key() {
    let mut engine = engine();
    engine.add_line(";a.b:1").unwrap();
    engine.add_line(";a.b.c:1").unwrap();
    assert_eq!(
        map_json(&engine.values),
        json(r#"{"a":{"b":{"value":1,"c":1}}}"#)
    );
}

#[test]
fn single_key_into_empty_root() {
    let mut root = MapNodes::new();
    let src = string_to_dict(vec!["k".to_string()], Node::Leaf(TypedValue::Integer(5)));
    extend_hashmap(&mut root, src, &EngineOptions::new()).unwrap();
    assert_eq!(root.nodes.len(), 1);
    assert_eq!(root.nodes[0].0, "k");
    assert_eq!(root.nodes[0].1, Node::Leaf(TypedValue::Integer(5)));
}

#[test]
fn make_array_as_dict_value_wraps_the_array() {
    let options = EngineOptions::new().with_how_to_dict_in_array(HowToDictInArray::MakeArrayAsDictValue);
    let mut engine = Engine::new(options);
    engine.add_line(";a:1").unwrap();
    engine.add_line(";a:2").unwrap();
    engine.add_line(";a:3").unwrap();
    engine.add_line(";a.b:4").unwrap();
    assert_eq!(
        map_json(&engine.values),
        json(r#"{"a":{"array":[1,2,3],"b":4}}"#)
    );
}

#[test]
fn scalar_into_mapping_is_unsupported() {
    let mut engine = engine();
    engine.add_line(";a.b:1").unwrap();
    let e = engine.add_line(";a:2");
    assert!(matches!(e, Err(Error::UnsupportedMerge)));
    assert_eq!(map_json(&engine.values), json(r#"{"a":{"b":1}}"#));
}

#[test]
fn clear_empties_without_output() {
    let mut engine = engine();
    engine.add_line(";a:1").unwrap();
    let o = engine.add_line(";stdout.loop:clear").unwrap();
    assert!(matches!(o, LineOutcome::Cleared));
    assert!(engine.values.nodes.is_empty());
}

#[test]
fn flush_hands_out_document_once() {
    let mut engine = engine();
    engine.add_line(";a:1").unwrap();
    let o = engine.add_line(";stdout.loop:flush\n").unwrap();
    match o {
        LineOutcome::Flushed(doc) => assert_eq!(map_json(&doc), json(r#"{"a":1}"#)),
        _ => panic!("expected a flush"),
    }
    assert!(engine.values.nodes.is_empty());
    let o = engine.add_line(";stdout.loop:flush").unwrap();
    match o {
        LineOutcome::Flushed(doc) => assert!(doc.nodes.is_empty()),
        _ => panic!("expected a flush"),
    }
}

#[test]
fn end_hands_out_document() {
    let mut engine = engine();
    engine.add_line(";x.y:z").unwrap();
    let o = engine.add_line(";stdout.loop:end").unwrap();
    match o {
        LineOutcome::Ended(doc) => assert_eq!(map_json(&doc), json(r#"{"x":{"y":"z"}}"#)),
        _ => panic!("expected an end"),
    }
    assert!(engine.values.nodes.is_empty());
}

#[test]
fn unknown_command_changes_nothing() {
    let mut engine = engine();
    engine.add_line(";a:1").unwrap();
    let o = engine.add_line(";stdout.loop:restart").unwrap();
    assert!(matches!(o, LineOutcome::UnknownCommand));
    assert_eq!(map_json(&engine.values), json(r#"{"a":1}"#));
}

#[test]
fn lines_without_sentinel_or_delimiter_are_ignored() {
    let mut engine = engine();
    assert!(matches!(engine.add_line("a:1").unwrap(), LineOutcome::Ignored));
    assert!(matches!(engine.add_line(";a").unwrap(), LineOutcome::Ignored));
    assert!(matches!(engine.add_line("").unwrap(), LineOutcome::Ignored));
    assert!(engine.values.nodes.is_empty());
}

#[test]
fn value_is_trimmed() {
    let mut engine = engine();
    engine.add_line(";a:  42 \n").unwrap();
    assert_eq!(engine.values.nodes[0].1, Node::Leaf(TypedValue::Integer(42)));
}

#[test]
fn custom_delimiter() {
    let options = EngineOptions::new().with_key_delimiter("=>".to_string());
    let mut engine = Engine::new(options);
    engine.add_line(";a.b=>x:y=>z").unwrap();
    assert_eq!(map_json(&engine.values), json(r#"{"a":{"b":"x:y=>z"}}"#));
    assert!(matches!(engine.add_line(";a:1").unwrap(), LineOutcome::Ignored));
}

#[test]
fn three_scalars_build_one_array() {
    let mut engine = engine();
    engine.add_line(";a:1").unwrap();
    engine.add_line(";a:2").unwrap();
    engine.add_line(";a:3").unwrap();
    assert_eq!(map_json(&engine.values), json(r#"{"a":[1,2,3]}"#));
}

#[test]
fn serialized_document_round_trips() {
    let mut engine = engine();
    engine.add_line(";a.b:1").unwrap();
    engine.add_line(";a.c:x").unwrap();
    engine.add_line(";a.c:2.5").unwrap();
    let text = serde_json::to_string(&map_json(&engine.values)).unwrap();
    let back: Value = serde_json::from_str(&text).unwrap();
    assert_eq!(back, map_json(&engine.values));
    assert_eq!(back, json(r#"{"a":{"b":1,"c":["x",2.5]}}"#));
}
