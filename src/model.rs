use vstd::prelude::*;

verus! {

/// One node of a parameter document.
#[derive(Debug, PartialEq, Eq)]
pub enum Node {
    Bool(bool),
    I8(i8),
    U8(u8),
    I16(i16),
    U16(u16),
    I32(i32),
    U32(u32),
    /// A 32-bit float, held as its IEEE-754 bit pattern.
    Float(u32),
    /// A 40-bit hash stored as a value.
    Hash(u64),
    Str(String),
    List(Vec<Node>),
    Struct(Vec<Entry>),
}

/// A keyed member of a struct node.
#[derive(Debug, PartialEq, Eq)]
pub struct Entry {
    pub key: u64,
    pub value: Node,
}

/// The mathematical value of a node: the tree with its strings as character sequences.
pub ghost enum Val {
    Bool(bool),
    I8(i8),
    U8(u8),
    I16(i16),
    U16(u16),
    I32(i32),
    U32(u32),
    Float(u32),
    Hash(u64),
    Str(Seq<char>),
    List(Seq<Val>),
    Struct(Seq<(u64, Val)>),
}

pub open spec fn view_node(n: Node) -> Val
    decreases n,
{
    match n {
        Node::Bool(b) => Val::Bool(b),
        Node::I8(x) => Val::I8(x),
        Node::U8(x) => Val::U8(x),
        Node::I16(x) => Val::I16(x),
        Node::U16(x) => Val::U16(x),
        Node::I32(x) => Val::I32(x),
        Node::U32(x) => Val::U32(x),
        Node::Float(x) => Val::Float(x),
        Node::Hash(x) => Val::Hash(x),
        Node::Str(s) => Val::Str(s@),
        Node::List(v) => Val::List(view_nodes(v@)),
        Node::Struct(v) => Val::Struct(view_entries(v@)),
    }
}

pub open spec fn view_nodes(s: Seq<Node>) -> Seq<Val>
    decreases s,
{
    if s.len() == 0 {
        Seq::empty()
    } else {
        view_nodes(s.subrange(0, s.len() - 1)).push(view_node(s[s.len() - 1]))
    }
}

pub open spec fn view_entries(s: Seq<Entry>) -> Seq<(u64, Val)>
    decreases s,
{
    if s.len() == 0 {
        Seq::empty()
    } else {
        view_entries(s.subrange(0, s.len() - 1)).push(
            (s[s.len() - 1].key, view_node(s[s.len() - 1].value)),
        )
    }
}

impl View for Node {
    type V = Val;

    open spec fn view(&self) -> Val {
        view_node(*self)
    }
}

pub proof fn lemma_view_nodes(s: Seq<Node>)
    ensures
        view_nodes(s).len() == s.len(),
        forall|i: int| 0 <= i < s.len() ==> #[trigger] view_nodes(s)[i] == view_node(s[i]),
    decreases s.len(),
{
    if s.len() > 0 {
        lemma_view_nodes(s.subrange(0, s.len() - 1));
    }
}

pub proof fn lemma_view_entries(s: Seq<Entry>)
    ensures
        view_entries(s).len() == s.len(),
        forall|i: int|
            0 <= i < s.len() ==> #[trigger] view_entries(s)[i] == (s[i].key, view_node(s[i].value)),
    decreases s.len(),
{
    if s.len() > 0 {
        lemma_view_entries(s.subrange(0, s.len() - 1));
    }
}

pub proof fn lemma_view_nodes_push(s: Seq<Node>, x: Node)
    ensures
        view_nodes(s.push(x)) == view_nodes(s).push(view_node(x)),
{
    assert(s.push(x).subrange(0, s.len() as int) =~= s);
}

pub proof fn lemma_view_entries_push(s: Seq<Entry>, x: Entry)
    ensures
        view_entries(s.push(x)) == view_entries(s).push((x.key, view_node(x.value))),
{
    assert(s.push(x).subrange(0, s.len() as int) =~= s);
}

pub proof fn lemma_view_nodes_update(s: Seq<Node>, i: int, x: Node)
    requires
        0 <= i < s.len(),
    ensures
        view_nodes(s.update(i, x)) == view_nodes(s).update(i, view_node(x)),
{
    lemma_view_nodes(s);
    lemma_view_nodes(s.update(i, x));
    assert(view_nodes(s.update(i, x)) =~= view_nodes(s).update(i, view_node(x)));
}

pub proof fn lemma_view_nodes_prefix(s: Seq<Node>, i: int)
    requires
        0 <= i <= s.len(),
    ensures
        view_nodes(s.subrange(0, i)) == view_nodes(s).subrange(0, i),
{
    lemma_view_nodes(s);
    lemma_view_nodes(s.subrange(0, i));
    assert(view_nodes(s.subrange(0, i)) =~= view_nodes(s).subrange(0, i));
}

pub proof fn lemma_view_entries_update(s: Seq<Entry>, i: int, x: Entry)
    requires
        0 <= i < s.len(),
    ensures
        view_entries(s.update(i, x)) == view_entries(s).update(i, (x.key, view_node(x.value))),
{
    lemma_view_entries(s);
    lemma_view_entries(s.update(i, x));
    assert(view_entries(s.update(i, x)) =~= view_entries(s).update(
        i,
        (x.key, view_node(x.value)),
    ));
}

pub proof fn lemma_view_entries_remove(s: Seq<Entry>, i: int)
    requires
        0 <= i < s.len(),
    ensures
        view_entries(s.remove(i)) == view_entries(s).remove(i),
{
    lemma_view_entries(s);
    lemma_view_entries(s.remove(i));
    assert(view_entries(s.remove(i)) =~= view_entries(s).remove(i));
}

/// Copies a node; the copy has the same value.
pub fn deep_clone(n: &Node) -> (r: Node)
    ensures
        r@ == n@,
    decreases n,
{
    match n {
        Node::Bool(b) => Node::Bool(*b),
        Node::I8(x) => Node::I8(*x),
        Node::U8(x) => Node::U8(*x),
        Node::I16(x) => Node::I16(*x),
        Node::U16(x) => Node::U16(*x),
        Node::I32(x) => Node::I32(*x),
        Node::U32(x) => Node::U32(*x),
        Node::Float(x) => Node::Float(*x),
        Node::Hash(x) => Node::Hash(*x),
        Node::Str(s) => Node::Str(s.clone()),
        Node::List(v) => {
            let mut out: Vec<Node> = Vec::new();
            let mut i: usize = 0;
            while i < v.len()
                invariant
                    i <= v.len(),
                    view_nodes(out@) == view_nodes(v@.subrange(0, i as int)),
                    *n == Node::List(*v),
                decreases v.len() - i,
            {
                proof {
                    vstd::std_specs::vec::axiom_vec_index_decreases(*v, i as int);
                    assert(decreases_to!(*n => (*n)->List_0));
                }
                let c = deep_clone(&v[i]);
                proof {
                    lemma_view_nodes_push(out@, c);
                    assert(v@.subrange(0, i + 1).subrange(0, i as int) =~= v@.subrange(0, i as int));
                }
                out.push(c);
                i = i + 1;
            }
            assert(v@.subrange(0, v.len() as int) =~= v@);
            Node::List(out)
        },
        Node::Struct(v) => {
            let mut out: Vec<Entry> = Vec::new();
            let mut i: usize = 0;
            while i < v.len()
                invariant
                    i <= v.len(),
                    view_entries(out@) == view_entries(v@.subrange(0, i as int)),
                    *n == Node::Struct(*v),
                decreases v.len() - i,
            {
                proof {
                    vstd::std_specs::vec::axiom_vec_index_decreases(*v, i as int);
                    assert(decreases_to!(*n => (*n)->Struct_0));
                    assert(decreases_to!(v[i as int] => v[i as int].value));
                }
                let c = deep_clone(&v[i].value);
                let e = Entry { key: v[i].key, value: c };
                proof {
                    lemma_view_entries_push(out@, e);
                    assert(v@.subrange(0, i + 1).subrange(0, i as int) =~= v@.subrange(0, i as int));
                }
                out.push(e);
                i = i + 1;
            }
            assert(v@.subrange(0, v.len() as int) =~= v@);
            Node::Struct(out)
        },
    }
}

/// Deep structural comparison of two nodes: equal kinds, equal values, and, for
/// structs, the same entries in the same order.
pub fn node_eq(a: &Node, b: &Node) -> (r: bool)
    ensures
        r == (a@ == b@),
    decreases a,
{
    match (a, b) {
        (Node::Bool(x), Node::Bool(y)) => *x == *y,
        (Node::I8(x), Node::I8(y)) => *x == *y,
        (Node::U8(x), Node::U8(y)) => *x == *y,
        (Node::I16(x), Node::I16(y)) => *x == *y,
        (Node::U16(x), Node::U16(y)) => *x == *y,
        (Node::I32(x), Node::I32(y)) => *x == *y,
        (Node::U32(x), Node::U32(y)) => *x == *y,
        (Node::Float(x), Node::Float(y)) => *x == *y,
        (Node::Hash(x), Node::Hash(y)) => *x == *y,
        (Node::Str(x), Node::Str(y)) => x.eq(y),
        (Node::List(x), Node::List(y)) => {
            proof {
                lemma_view_nodes(x@);
                lemma_view_nodes(y@);
            }
            if x.len() != y.len() {
                return false;
            }
            let mut i: usize = 0;
            while i < x.len()
                invariant
                    x.len() == y.len(),
                    i <= x.len(),
                    *a == Node::List(*x),
                    *b == Node::List(*y),
                    forall|j: int| 0 <= j < i ==> view_node(#[trigger] x@[j]) == view_node(y@[j]),
                decreases x.len() - i,
            {
                proof {
                    vstd::std_specs::vec::axiom_vec_index_decreases(*x, i as int);
                    assert(decreases_to!(*a => (*a)->List_0));
                }
                if !node_eq(&x[i], &y[i]) {
                    proof {
                        lemma_view_nodes(x@);
                        lemma_view_nodes(y@);
                        assert(view_nodes(x@)[i as int] != view_nodes(y@)[i as int]);
                    }
                    return false;
                }
                i = i + 1;
            }
            proof {
                lemma_view_nodes(x@);
                lemma_view_nodes(y@);
                assert(view_nodes(x@) =~= view_nodes(y@));
            }
            true
        },
        (Node::Struct(x), Node::Struct(y)) => {
            proof {
                lemma_view_entries(x@);
                lemma_view_entries(y@);
            }
            if x.len() != y.len() {
                return false;
            }
            let mut i: usize = 0;
            while i < x.len()
                invariant
                    x.len() == y.len(),
                    i <= x.len(),
                    *a == Node::Struct(*x),
                    *b == Node::Struct(*y),
                    forall|j: int|
                        0 <= j < i ==> (#[trigger] x@[j]).key == y@[j].key && view_node(x@[j].value)
                            == view_node(y@[j].value),
                decreases x.len() - i,
            {
                proof {
                    vstd::std_specs::vec::axiom_vec_index_decreases(*x, i as int);
                    assert(decreases_to!(*a => (*a)->Struct_0));
                    assert(decreases_to!(x[i as int] => x[i as int].value));
                }
                if x[i].key != y[i].key || !node_eq(&x[i].value, &y[i].value) {
                    proof {
                        lemma_view_entries(x@);
                        lemma_view_entries(y@);
                        assert(view_entries(x@)[i as int] != view_entries(y@)[i as int]);
                    }
                    return false;
                }
                i = i + 1;
            }
            proof {
                lemma_view_entries(x@);
                lemma_view_entries(y@);
                assert(view_entries(x@) =~= view_entries(y@));
            }
            true
        },
        _ => false,
    }
}

} // verus!
