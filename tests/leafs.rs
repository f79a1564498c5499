use dotted_json::{MapNodes, Node, TypedValue};

fn leaf(i: i64) -> Node {
    Node::Leaf(TypedValue::Integer(i))
}

fn lookup<'a>(l: &'a [(String, TypedValue)], k: &str) -> Option<&'a TypedValue> {
    l.iter().find(|(key, _)| key == k).map(|(_, v)| v)
}

#[test]
fn get_leaf_1() {
    let m = MapNodes { nodes: vec![("a".to_string(), leaf(1))] };
    assert_eq!(m.nodes.len(), 1);
    let leafs = m._leafs();
    assert_eq!(leafs.len(), 1);
    assert_eq!(lookup(&leafs, "a").unwrap(), &TypedValue::Integer(1));
}

#[test]
fn get_leaf_2() {
    let m = MapNodes { nodes: vec![("a".to_string(), leaf(1)), ("b".to_string(), leaf(2))] };
    let leafs = m._leafs();
    assert_eq!(leafs.len(), 2);
    assert_eq!(lookup(&leafs, "a").unwrap(), &TypedValue::Integer(1));
    assert_eq!(lookup(&leafs, "b").unwrap(), &TypedValue::Integer(2));
}

#[test]
fn get_leaf_2_2() {
    let inner = MapNodes { nodes: vec![("b".to_string(), leaf(1)), ("c".to_string(), leaf(2))] };
    let m = MapNodes { nodes: vec![("a".to_string(), Node::Dict(inner))] };
    let leafs = m._leafs();
    assert_eq!(leafs.len(), 2);
    assert_eq!(lookup(&leafs, "a.b").unwrap(), &TypedValue::Integer(1));
    assert_eq!(lookup(&leafs, "a.c").unwrap(), &TypedValue::Integer(2));
}

#[test]
fn leaves_keep_entry_order_and_depth() {
    let deep = MapNodes { nodes: vec![("z".to_string(), Node::Leaf(TypedValue::String("s".to_string())))] };
    let mid = MapNodes { nodes: vec![("y".to_string(), Node::Dict(deep)), ("w".to_string(), leaf(3))] };
    let m = MapNodes { nodes: vec![("x".to_string(), Node::Dict(mid)), ("v".to_string(), leaf(4))] };
    let leafs = m._leafs();
    let keys: Vec<&str> = leafs.iter().map(|(k, _)| k.as_str()).collect();
    assert_eq!(keys, vec!["x.y.z", "x.w", "v"]);
    assert_eq!(leafs[0].1, TypedValue::String("s".to_string()));
}

#[test]
fn empty_map_has_no_leaves() {
    assert!(MapNodes::new()._leafs().is_empty());
}
