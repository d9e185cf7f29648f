use prc_diff::labels::label_hash;
use prc_diff::model::{Entry, Node};
use prc_diff::patch::ApplyError;

fn key(name: &str) -> u64 {
    label_hash(&String::from(name))
}

fn pair() -> Node {
    Node::Struct(vec![
        Entry { key: key("a"), value: Node::I32(1) },
        Entry { key: key("b"), value: Node::I32(2) },
    ])
}

#[test]
fn struct_get_finds_by_key() {
    let s = pair();
    assert_eq!(s.struct_get(key("b")), Some(&Node::I32(2)));
    assert_eq!(s.struct_get(key("c")), None);
    assert_eq!(Node::I32(1).struct_get(key("a")), None);
}

#[test]
fn struct_insert_appends_new_keys_only() {
    let mut s = pair();
    assert_eq!(s.struct_insert(key("c"), Node::Bool(true)), Ok(()));
    assert_eq!(s.struct_get(key("c")), Some(&Node::Bool(true)));
    match &s {
        Node::Struct(es) => assert_eq!(es[2].key, key("c")),
        other => panic!("expected a struct, got {:?}", other),
    }
    assert_eq!(s.struct_insert(key("a"), Node::I32(5)), Err(ApplyError::DuplicateKey));
    assert_eq!(s.struct_get(key("a")), Some(&Node::I32(1)));
    let mut list = Node::List(vec![]);
    assert_eq!(list.struct_insert(key("a"), Node::I32(5)), Err(ApplyError::StructuralMismatch));
}

#[test]
fn struct_remove_takes_the_entry_out() {
    let mut s = pair();
    assert_eq!(s.struct_remove(key("a")), Some(Node::I32(1)));
    assert_eq!(s, Node::Struct(vec![Entry { key: key("b"), value: Node::I32(2) }]));
    assert_eq!(s.struct_remove(key("a")), None);
}

#[test]
fn list_operations_by_index() {
    let mut l = Node::List(vec![Node::U16(1), Node::U16(2)]);
    assert_eq!(l.list_get(1), Some(&Node::U16(2)));
    assert_eq!(l.list_get(2), None);
    assert_eq!(l.list_set(0, Node::U16(7)), Ok(()));
    assert_eq!(l.list_set(2, Node::U16(7)), Err(ApplyError::StructuralMismatch));
    assert_eq!(l.list_push(Node::U16(3)), Ok(()));
    assert_eq!(l, Node::List(vec![Node::U16(7), Node::U16(2), Node::U16(3)]));
    assert_eq!(l.list_truncate(5), Ok(()));
    assert_eq!(l.list_truncate(1), Ok(()));
    assert_eq!(l, Node::List(vec![Node::U16(7)]));
    let mut s = pair();
    assert_eq!(s.list_push(Node::U16(3)), Err(ApplyError::StructuralMismatch));
    assert_eq!(s, pair());
}
