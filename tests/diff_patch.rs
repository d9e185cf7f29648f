use prc_diff::diff::diff;
use prc_diff::encoding::{decode_patch, encode_patch, patch_from_document, patch_to_document, PATCH_KEY};
use prc_diff::labels::label_hash;
use prc_diff::model::{deep_clone, node_eq, Entry, Node};
use prc_diff::patch::{apply_node, apply_patch, ApplyError, ListOp, Patch, StructOp};

fn key(name: &str) -> u64 {
    label_hash(&String::from(name))
}

fn entry(name: &str, value: Node) -> Entry {
    Entry { key: key(name), value }
}

fn int_list(items: &[i32]) -> Node {
    Node::List(items.iter().map(|i| Node::I32(*i)).collect())
}

fn sample_document() -> Node {
    Node::Struct(vec![
        entry("name", Node::Str(String::from("fighter"))),
        entry("speed", Node::Float(1.5f32.to_bits())),
        entry("weights", int_list(&[1, 2, 3])),
        entry(
            "params",
            Node::Struct(vec![
                entry("enabled", Node::Bool(true)),
                entry("id", Node::Hash(key("mario"))),
                entry("count", Node::U8(4)),
            ]),
        ),
    ])
}

fn modified_document() -> Node {
    Node::Struct(vec![
        entry("name", Node::Str(String::from("fighter"))),
        entry("speed", Node::Float(2.25f32.to_bits())),
        entry("weights", int_list(&[1, 7])),
        entry(
            "params",
            Node::Struct(vec![
                entry("enabled", Node::Bool(false)),
                entry("count", Node::U8(4)),
                entry("extra", Node::I16(-3)),
            ]),
        ),
        entry("added", Node::U32(99)),
    ])
}

/// Equality with structs compared by key set: the same keys, each with an
/// equal value, in any order.
fn same_keyed(a: &Node, b: &Node) -> bool {
    match (a, b) {
        (Node::Struct(x), Node::Struct(y)) => {
            x.len() == y.len()
                && y.iter().all(|e| {
                    x.iter().any(|f| f.key == e.key && same_keyed(&f.value, &e.value))
                })
        }
        (Node::List(x), Node::List(y)) => {
            x.len() == y.len() && x.iter().zip(y.iter()).all(|(p, q)| same_keyed(p, q))
        }
        _ => node_eq(a, b),
    }
}

fn rebuilds(a: &Node, b: &Node) {
    let mut doc = deep_clone(a);
    match diff(a, b) {
        Some(p) => {
            assert_eq!(apply_patch(&p, &mut doc), Ok(()));
            assert!(same_keyed(&doc, b));
        }
        None => assert!(same_keyed(a, b)),
    }
}

#[test]
fn struct_diff_is_key_set_based() {
    let source = Node::Struct(vec![entry("a", Node::I32(1)), entry("b", Node::I32(2))]);
    let target = Node::Struct(vec![entry("b", Node::I32(2)), entry("c", Node::I32(3))]);
    let p = diff(&source, &target).unwrap();
    assert_eq!(
        p,
        Patch::Struct(vec![StructOp::Remove(key("a")), StructOp::Add(key("c"), Node::I32(3))])
    );
    rebuilds(&source, &target);
}

#[test]
fn list_diff_truncates_the_tail() {
    let p = diff(&int_list(&[1, 2, 3]), &int_list(&[1, 9])).unwrap();
    assert_eq!(
        p,
        Patch::List(vec![ListOp::Change(1, Patch::Replace(Node::I32(9))), ListOp::Remove(2)])
    );
    rebuilds(&int_list(&[1, 2, 3]), &int_list(&[1, 9]));
}

#[test]
fn list_diff_appends_at_the_end() {
    let p = diff(&int_list(&[1, 2, 3]), &int_list(&[1, 2, 3, 4])).unwrap();
    assert_eq!(p, Patch::List(vec![ListOp::Add(3, Node::I32(4))]));
    rebuilds(&int_list(&[1, 2, 3]), &int_list(&[1, 2, 3, 4]));
}

#[test]
fn diff_of_equal_documents_is_none() {
    assert!(diff(&sample_document(), &sample_document()).is_none());
    assert!(diff(&int_list(&[]), &int_list(&[])).is_none());
}

#[test]
fn applying_a_diff_rebuilds_the_target() {
    rebuilds(&sample_document(), &modified_document());
    rebuilds(&modified_document(), &sample_document());
    rebuilds(&int_list(&[]), &int_list(&[5, 6]));
    rebuilds(&int_list(&[5, 6]), &int_list(&[]));
}

#[test]
fn nested_changes_stay_nested() {
    let p = diff(&sample_document(), &modified_document()).unwrap();
    match p {
        Patch::Struct(ops) => {
            assert_eq!(ops.len(), 4);
            assert_eq!(
                ops[0],
                StructOp::Change(key("speed"), Patch::Replace(Node::Float(2.25f32.to_bits())))
            );
            assert!(matches!(&ops[1], StructOp::Change(k, Patch::List(_)) if *k == key("weights")));
            assert!(matches!(&ops[2], StructOp::Change(k, Patch::Struct(_)) if *k == key("params")));
            assert_eq!(ops[3], StructOp::Add(key("added"), Node::U32(99)));
        }
        other => panic!("expected a struct patch, got {:?}", other),
    }
}

#[test]
fn reordered_struct_has_no_difference() {
    let source = Node::Struct(vec![entry("x", Node::I8(1)), entry("y", Node::I8(2))]);
    let target = Node::Struct(vec![entry("y", Node::I8(2)), entry("x", Node::I8(1))]);
    assert!(diff(&source, &target).is_none());
    let nested_a = Node::List(vec![source]);
    let nested_b = Node::List(vec![target]);
    assert!(diff(&nested_a, &nested_b).is_none());
}

#[test]
fn struct_diff_ignores_entry_order() {
    let source = Node::Struct(vec![entry("a", Node::I32(1)), entry("b", Node::I32(2))]);
    let target = Node::Struct(vec![
        entry("b", Node::I32(2)),
        entry("a", Node::I32(1)),
        entry("c", Node::I32(3)),
    ]);
    let p = diff(&source, &target).unwrap();
    assert_eq!(p, Patch::Struct(vec![StructOp::Add(key("c"), Node::I32(3))]));
    rebuilds(&source, &target);
}

#[test]
fn list_add_extends_a_shorter_baseline() {
    let source = Node::Struct(vec![entry("l", int_list(&[1, 2]))]);
    let target = Node::Struct(vec![entry("l", int_list(&[1, 2, 3]))]);
    let p = diff(&source, &target).unwrap();
    assert_eq!(
        p,
        Patch::Struct(vec![StructOp::Change(
            key("l"),
            Patch::List(vec![ListOp::Add(2, Node::I32(3))])
        )])
    );
    let mut baseline = Node::Struct(vec![entry("l", int_list(&[1]))]);
    assert_eq!(apply_patch(&p, &mut baseline), Ok(()));
    assert_eq!(baseline, Node::Struct(vec![entry("l", int_list(&[1, 3]))]));
}

#[test]
fn kind_change_is_a_replacement() {
    let p = diff(&Node::I32(1), &Node::U32(1)).unwrap();
    assert_eq!(p, Patch::Replace(Node::U32(1)));
    let p = diff(&int_list(&[1]), &Node::Str(String::from("x"))).unwrap();
    assert_eq!(p, Patch::Replace(Node::Str(String::from("x"))));
}

#[test]
fn patch_for_missing_key_fails_and_leaves_document_alone() {
    let a = sample_document();
    let b = modified_document();
    let p = diff(&a, &b).unwrap();
    let mut unrelated = Node::Struct(vec![entry("name", Node::Str(String::from("other")))]);
    let before = deep_clone(&unrelated);
    assert_eq!(apply_patch(&p, &mut unrelated), Err(ApplyError::StructuralMismatch));
    assert_eq!(unrelated, before);
}

#[test]
fn partial_failure_is_all_or_nothing() {
    let p = Patch::Struct(vec![
        StructOp::Remove(key("a")),
        StructOp::Change(key("zzz"), Patch::Replace(Node::I32(0))),
    ]);
    let mut doc = Node::Struct(vec![entry("a", Node::I32(1))]);
    assert_eq!(apply_patch(&p, &mut doc), Err(ApplyError::StructuralMismatch));
    assert_eq!(doc, Node::Struct(vec![entry("a", Node::I32(1))]));
}

#[test]
fn adding_a_present_key_is_a_duplicate() {
    let p = Patch::Struct(vec![StructOp::Add(key("a"), Node::I32(5))]);
    let mut doc = Node::Struct(vec![entry("a", Node::I32(1))]);
    assert_eq!(apply_patch(&p, &mut doc), Err(ApplyError::DuplicateKey));
}

#[test]
fn list_operations_check_their_index() {
    let list = int_list(&[1, 2]);
    let add_past = Patch::List(vec![ListOp::Add(3, Node::I32(0))]);
    assert_eq!(apply_node(&add_past, &list), Ok(int_list(&[1, 2, 0])));
    let add_held = Patch::List(vec![ListOp::Add(1, Node::I32(0))]);
    assert_eq!(apply_node(&add_held, &list), Err(ApplyError::StructuralMismatch));
    let remove_past = Patch::List(vec![ListOp::Remove(2)]);
    assert_eq!(apply_node(&remove_past, &list), Err(ApplyError::StructuralMismatch));
    let change_past = Patch::List(vec![ListOp::Change(5, Patch::Replace(Node::I32(0)))]);
    assert_eq!(apply_node(&change_past, &list), Err(ApplyError::StructuralMismatch));
    let truncate = Patch::List(vec![ListOp::Remove(0)]);
    assert_eq!(apply_node(&truncate, &list), Ok(int_list(&[])));
}

#[test]
fn container_patch_on_a_scalar_is_a_mismatch() {
    let p = Patch::Struct(vec![]);
    assert_eq!(apply_node(&p, &Node::Bool(true)), Err(ApplyError::StructuralMismatch));
    let p = Patch::List(vec![]);
    assert_eq!(apply_node(&p, &Node::Struct(vec![])), Err(ApplyError::StructuralMismatch));
}

#[test]
fn node_equality_is_deep_and_ordered() {
    assert!(node_eq(&sample_document(), &sample_document()));
    assert!(!node_eq(&sample_document(), &modified_document()));
    let ab = Node::Struct(vec![entry("a", Node::I8(1)), entry("b", Node::I8(2))]);
    let ba = Node::Struct(vec![entry("b", Node::I8(2)), entry("a", Node::I8(1))]);
    assert!(!node_eq(&ab, &ba));
    assert!(!node_eq(&Node::I8(1), &Node::U8(1)));
}

#[test]
fn patch_document_round_trip() {
    let p = diff(&sample_document(), &modified_document()).unwrap();
    let doc = patch_to_document(&p);
    match &doc {
        Node::Struct(es) => {
            assert_eq!(es.len(), 1);
            assert_eq!(es[0].key, PATCH_KEY);
        }
        other => panic!("expected a struct, got {:?}", other),
    }
    assert_eq!(patch_from_document(&doc), Some(p));
    let replace = Patch::Replace(int_list(&[4]));
    assert_eq!(patch_from_document(&patch_to_document(&replace)), Some(replace));
}

#[test]
fn patch_key_is_the_hash_of_patch() {
    assert_eq!(PATCH_KEY, key("patch"));
}

#[test]
fn documents_that_hold_no_patch_are_refused() {
    assert_eq!(patch_from_document(&sample_document()), None);
    assert_eq!(patch_from_document(&Node::Struct(vec![])), None);
    let bad_tag = Node::Struct(vec![Entry {
        key: PATCH_KEY,
        value: Node::List(vec![Node::U8(9), Node::I32(1)]),
    }]);
    assert_eq!(patch_from_document(&bad_tag), None);
    let bad_op = Node::Struct(vec![Entry {
        key: PATCH_KEY,
        value: Node::List(vec![Node::U8(1), Node::List(vec![Node::List(vec![Node::U8(1)])])]),
    }]);
    assert_eq!(patch_from_document(&bad_op), None);
}

#[test]
fn encoded_patch_layout() {
    let p = Patch::List(vec![ListOp::Remove(2)]);
    assert_eq!(
        encode_patch(&p),
        Node::List(vec![
            Node::U8(2),
            Node::List(vec![Node::List(vec![Node::U8(1), Node::U32(2)])]),
        ])
    );
    assert_eq!(decode_patch(&encode_patch(&p)), Some(p));
}
