use vstd::prelude::*;
use crate::model::{
    deep_clone, lemma_view_entries, lemma_view_nodes, lemma_view_nodes_push, view_entries, view_node,
    view_nodes, Entry, Node, Val,
};
use crate::patch::{
    apply_spec, lemma_apply_value, lop_view, lops_view, sop_view, sops_view, ListOp, Patch, StructOp,
};

verus! {

/// Leading tag of a stored replacement.
pub const TAG_REPLACE: u8 = 0;
/// Leading tag of a stored struct patch.
pub const TAG_STRUCT: u8 = 1;
/// Leading tag of a stored list patch.
pub const TAG_LIST: u8 = 2;
/// Leading tag of a stored add operation.
pub const TAG_ADD: u8 = 0;
/// Leading tag of a stored remove operation.
pub const TAG_REMOVE: u8 = 1;
/// Leading tag of a stored change operation.
pub const TAG_CHANGE: u8 = 2;

/// The key, the hash of "patch", under which a patch document holds its patch.
pub const PATCH_KEY: u64 = 0x05_e22b9636;

/// The node that a patch is stored as: a list headed by a tag byte.
pub open spec fn enc_patch(p: Patch) -> Val
    decreases p,
{
    match p {
        Patch::Replace(v) => Val::List(seq![Val::U8(TAG_REPLACE), v@]),
        Patch::Struct(ops) => Val::List(seq![Val::U8(TAG_STRUCT), Val::List(enc_sops(ops@))]),
        Patch::List(ops) => Val::List(seq![Val::U8(TAG_LIST), Val::List(enc_lops(ops@))]),
    }
}

pub open spec fn enc_sops(s: Seq<StructOp>) -> Seq<Val>
    decreases s,
{
    if s.len() == 0 {
        Seq::empty()
    } else {
        enc_sops(s.subrange(0, s.len() - 1)).push(enc_sop(s[s.len() - 1]))
    }
}

pub open spec fn enc_sop(op: StructOp) -> Val
    decreases op,
{
    match op {
        StructOp::Add(k, v) => Val::List(seq![Val::U8(TAG_ADD), Val::Hash(k), v@]),
        StructOp::Remove(k) => Val::List(seq![Val::U8(TAG_REMOVE), Val::Hash(k)]),
        StructOp::Change(k, q) => Val::List(seq![Val::U8(TAG_CHANGE), Val::Hash(k), enc_patch(q)]),
    }
}

pub open spec fn enc_lops(s: Seq<ListOp>) -> Seq<Val>
    decreases s,
{
    if s.len() == 0 {
        Seq::empty()
    } else {
        enc_lops(s.subrange(0, s.len() - 1)).push(enc_lop(s[s.len() - 1]))
    }
}

pub open spec fn enc_lop(op: ListOp) -> Val
    decreases op,
{
    match op {
        ListOp::Add(i, v) => Val::List(seq![Val::U8(TAG_ADD), Val::U32(i), v@]),
        ListOp::Remove(i) => Val::List(seq![Val::U8(TAG_REMOVE), Val::U32(i)]),
        ListOp::Change(i, q) => Val::List(seq![Val::U8(TAG_CHANGE), Val::U32(i), enc_patch(q)]),
    }
}

pub proof fn lemma_enc_sops(s: Seq<StructOp>)
    ensures
        enc_sops(s).len() == s.len(),
        forall|i: int| 0 <= i < s.len() ==> #[trigger] enc_sops(s)[i] == enc_sop(s[i]),
    decreases s.len(),
{
    if s.len() > 0 {
        lemma_enc_sops(s.subrange(0, s.len() - 1));
    }
}

pub proof fn lemma_enc_lops(s: Seq<ListOp>)
    ensures
        enc_lops(s).len() == s.len(),
        forall|i: int| 0 <= i < s.len() ==> #[trigger] enc_lops(s)[i] == enc_lop(s[i]),
    decreases s.len(),
{
    if s.len() > 0 {
        lemma_enc_lops(s.subrange(0, s.len() - 1));
    }
}

fn list3(a: Node, b: Node, c: Node) -> (r: Node)
    ensures
        r@ == Val::List(seq![a@, b@, c@]),
{
    let v = vec![a, b, c];
    proof {
        lemma_view_nodes(v@);
        assert(view_nodes(v@) =~= seq![a@, b@, c@]);
    }
    Node::List(v)
}

fn list2(a: Node, b: Node) -> (r: Node)
    ensures
        r@ == Val::List(seq![a@, b@]),
{
    let v = vec![a, b];
    proof {
        lemma_view_nodes(v@);
        assert(view_nodes(v@) =~= seq![a@, b@]);
    }
    Node::List(v)
}

/// The node that stores `p`.
pub fn encode_patch(p: &Patch) -> (r: Node)
    ensures
        r@ == enc_patch(*p),
    decreases p,
{
    match p {
        Patch::Replace(v) => list2(Node::U8(TAG_REPLACE), deep_clone(v)),
        Patch::Struct(ops) => {
            let mut items: Vec<Node> = Vec::new();
            let mut i: usize = 0;
            assert(ops@.subrange(0, 0) =~= Seq::<StructOp>::empty());
            while i < ops.len()
                invariant
                    i <= ops.len(),
                    *p == Patch::Struct(*ops),
                    view_nodes(items@) == enc_sops(ops@.subrange(0, i as int)),
                decreases ops.len() - i,
            {
                let e = match &ops[i] {
                    StructOp::Add(k, v) => list3(Node::U8(TAG_ADD), Node::Hash(*k), deep_clone(v)),
                    StructOp::Remove(k) => list2(Node::U8(TAG_REMOVE), Node::Hash(*k)),
                    StructOp::Change(k, q) => {
                        proof {
                            vstd::std_specs::vec::axiom_vec_index_decreases(*ops, i as int);
                            assert(decreases_to!(*p => (*p)->Struct_0));
                            assert(decreases_to!(ops[i as int] => ops[i as int]->Change_1));
                        }
                        list3(Node::U8(TAG_CHANGE), Node::Hash(*k), encode_patch(q))
                    },
                };
                proof {
                    lemma_view_nodes_push(items@, e);
                    let t = ops@.subrange(0, i + 1);
                    assert(t.subrange(0, t.len() - 1) =~= ops@.subrange(0, i as int));
                    assert(t[t.len() - 1] == ops@[i as int]);
                    assert(e@ == enc_sop(ops@[i as int]));
                }
                items.push(e);
                i = i + 1;
            }
            assert(ops@.subrange(0, ops.len() as int) =~= ops@);
            list2(Node::U8(TAG_STRUCT), Node::List(items))
        },
        Patch::List(ops) => {
            let mut items: Vec<Node> = Vec::new();
            let mut i: usize = 0;
            assert(ops@.subrange(0, 0) =~= Seq::<ListOp>::empty());
            while i < ops.len()
                invariant
                    i <= ops.len(),
                    *p == Patch::List(*ops),
                    view_nodes(items@) == enc_lops(ops@.subrange(0, i as int)),
                decreases ops.len() - i,
            {
                let e = match &ops[i] {
                    ListOp::Add(j, v) => list3(Node::U8(TAG_ADD), Node::U32(*j), deep_clone(v)),
                    ListOp::Remove(j) => list2(Node::U8(TAG_REMOVE), Node::U32(*j)),
                    ListOp::Change(j, q) => {
                        proof {
                            vstd::std_specs::vec::axiom_vec_index_decreases(*ops, i as int);
                            assert(decreases_to!(*p => (*p)->List_0));
                            assert(decreases_to!(ops[i as int] => ops[i as int]->Change_1));
                        }
                        list3(Node::U8(TAG_CHANGE), Node::U32(*j), encode_patch(q))
                    },
                };
                proof {
                    lemma_view_nodes_push(items@, e);
                    let t = ops@.subrange(0, i + 1);
                    assert(t.subrange(0, t.len() - 1) =~= ops@.subrange(0, i as int));
                    assert(t[t.len() - 1] == ops@[i as int]);
                    assert(e@ == enc_lop(ops@[i as int]));
                }
                items.push(e);
                i = i + 1;
            }
            assert(ops@.subrange(0, ops.len() as int) =~= ops@);
            list2(Node::U8(TAG_LIST), Node::List(items))
        },
    }
}

fn decode_sop(e: &Node) -> (r: Option<StructOp>)
    ensures
        match r {
            Some(op) => enc_sop(op) == e@,
            None => forall|op: StructOp| enc_sop(op) != e@,
        },
    decreases e,
{
    let parts = match e {
        Node::List(parts) => parts,
        _ => {
            return None;
        },
    };
    proof {
        lemma_view_nodes(parts@);
    }
    if parts.len() < 2 || parts.len() > 3 {
        return None;
    }
    assert(view_nodes(parts@)[0] == view_node(parts@[0]));
    assert(view_nodes(parts@)[1] == view_node(parts@[1]));
    let t: u8 = match &parts[0] {
        Node::U8(t) => *t,
        _ => {
            return None;
        },
    };
    let k: u64 = match &parts[1] {
        Node::Hash(k) => *k,
        _ => {
            return None;
        },
    };
    if parts.len() == 2 {
        if t == TAG_REMOVE {
            assert(view_nodes(parts@) =~= seq![Val::U8(TAG_REMOVE), Val::Hash(k)]);
            return Some(StructOp::Remove(k));
        }
        proof {
            assert forall|op: StructOp| enc_sop(op) != e@ by {
                if enc_sop(op) == e@ {
                    assert(enc_sop(op)->List_0[0] == view_nodes(parts@)[0]);
                }
            }
        }
        return None;
    }
    assert(view_nodes(parts@)[2] == view_node(parts@[2]));
    if t == TAG_ADD {
        let v = deep_clone(&parts[2]);
        assert(view_nodes(parts@) =~= seq![Val::U8(TAG_ADD), Val::Hash(k), v@]);
        Some(StructOp::Add(k, v))
    } else if t == TAG_CHANGE {
        proof {
            vstd::std_specs::vec::axiom_vec_index_decreases(*parts, 2);
            assert(decreases_to!(*e => (*e)->List_0));
        }
        match decode_patch(&parts[2]) {
            Some(q) => {
                assert(view_nodes(parts@) =~= seq![Val::U8(TAG_CHANGE), Val::Hash(k), enc_patch(q)]);
                Some(StructOp::Change(k, q))
            },
            None => {
                proof {
                    assert forall|op: StructOp| enc_sop(op) != e@ by {
                        if enc_sop(op) == e@ {
                            assert(enc_sop(op)->List_0[0] == view_nodes(parts@)[0]);
                            assert(enc_sop(op)->List_0[2] == view_nodes(parts@)[2]);
                            assert(op is Change);
                            assert(enc_patch(op->Change_1) == parts@[2]@);
                        }
                    }
                }
                None
            },
        }
    } else {
        proof {
                assert forall|op: StructOp| enc_sop(op) != e@ by {
                    if enc_sop(op) == e@ {
                        assert(enc_sop(op)->List_0[0] == view_nodes(parts@)[0]);
                        assert(enc_sop(op)->List_0[2] == view_nodes(parts@)[2]);
                    }
                }
            }
            None
    }
}

fn decode_lop(e: &Node) -> (r: Option<ListOp>)
    ensures
        match r {
            Some(op) => enc_lop(op) == e@,
            None => forall|op: ListOp| enc_lop(op) != e@,
        },
    decreases e,
{
    let parts = match e {
        Node::List(parts) => parts,
        _ => {
            return None;
        },
    };
    proof {
        lemma_view_nodes(parts@);
    }
    if parts.len() < 2 || parts.len() > 3 {
        return None;
    }
    assert(view_nodes(parts@)[0] == view_node(parts@[0]));
    assert(view_nodes(parts@)[1] == view_node(parts@[1]));
    let t: u8 = match &parts[0] {
        Node::U8(t) => *t,
        _ => {
            return None;
        },
    };
    let k: u32 = match &parts[1] {
        Node::U32(k) => *k,
        _ => {
            return None;
        },
    };
    if parts.len() == 2 {
        if t == TAG_REMOVE {
            assert(view_nodes(parts@) =~= seq![Val::U8(TAG_REMOVE), Val::U32(k)]);
            return Some(ListOp::Remove(k));
        }
        proof {
            assert forall|op: ListOp| enc_lop(op) != e@ by {
                if enc_lop(op) == e@ {
                    assert(enc_lop(op)->List_0[0] == view_nodes(parts@)[0]);
                }
            }
        }
        return None;
    }
    assert(view_nodes(parts@)[2] == view_node(parts@[2]));
    if t == TAG_ADD {
        let v = deep_clone(&parts[2]);
        assert(view_nodes(parts@) =~= seq![Val::U8(TAG_ADD), Val::U32(k), v@]);
        Some(ListOp::Add(k, v))
    } else if t == TAG_CHANGE {
        proof {
            vstd::std_specs::vec::axiom_vec_index_decreases(*parts, 2);
            assert(decreases_to!(*e => (*e)->List_0));
        }
        match decode_patch(&parts[2]) {
            Some(q) => {
                assert(view_nodes(parts@) =~= seq![Val::U8(TAG_CHANGE), Val::U32(k), enc_patch(q)]);
                Some(ListOp::Change(k, q))
            },
            None => {
                proof {
                    assert forall|op: ListOp| enc_lop(op) != e@ by {
                        if enc_lop(op) == e@ {
                            assert(enc_lop(op)->List_0[0] == view_nodes(parts@)[0]);
                            assert(enc_lop(op)->List_0[2] == view_nodes(parts@)[2]);
                            assert(op is Change);
                            assert(enc_patch(op->Change_1) == parts@[2]@);
                        }
                    }
                }
                None
            },
        }
    } else {
        proof {
                assert forall|op: ListOp| enc_lop(op) != e@ by {
                    if enc_lop(op) == e@ {
                        assert(enc_lop(op)->List_0[0] == view_nodes(parts@)[0]);
                        assert(enc_lop(op)->List_0[2] == view_nodes(parts@)[2]);
                    }
                }
            }
            None
    }
}

/// The patch that `n` stores, or `None` when `n` is the encoding of no patch.
pub fn decode_patch(n: &Node) -> (r: Option<Patch>)
    ensures
        match r {
            Some(q) => enc_patch(q) == n@,
            None => forall|q: Patch| enc_patch(q) != n@,
        },
    decreases n,
{
    if let Node::List(parts) = n {
        proof {
            lemma_view_nodes(parts@);
        }
        if parts.len() == 2 {
            if let Node::U8(t) = &parts[0] {
                if *t == TAG_REPLACE {
                    let v = deep_clone(&parts[1]);
                    assert(view_nodes(parts@) =~= seq![Val::U8(TAG_REPLACE), v@]);
                    return Some(Patch::Replace(v));
                } else if *t == TAG_STRUCT {
                    if let Node::List(items) = &parts[1] {
                        let mut ops: Vec<StructOp> = Vec::new();
                        let mut i: usize = 0;
                        assert(enc_sops(ops@) =~= view_nodes(items@.subrange(0, 0)));
                        while i < items.len()
                            invariant
                                i <= items.len(),
                                *n == Node::List(*parts),
                                parts.len() == 2,
                                parts@[0] == Node::U8(TAG_STRUCT),
                                parts@[1] == Node::List(*items),
                                enc_sops(ops@) == view_nodes(items@.subrange(0, i as int)),
                            decreases items.len() - i,
                        {
                            proof {
                                vstd::std_specs::vec::axiom_vec_index_decreases(*parts, 1);
                                vstd::std_specs::vec::axiom_vec_index_decreases(*items, i as int);
                                assert(decreases_to!(*n => (*n)->List_0));
                                assert(decreases_to!(parts[1] => parts[1]->List_0));
                            }
                            match decode_sop(&items[i]) {
                                Some(op) => {
                                    proof {
                                        let t = ops@.push(op);
                                        assert(t.subrange(0, t.len() - 1) =~= ops@);
                                        lemma_view_nodes_push(items@.subrange(0, i as int), items@[i as int]);
                                        assert(items@.subrange(0, i as int).push(items@[i as int]) =~= items@.subrange(0, i + 1));
                                    }
                                    ops.push(op);
                                },
                                None => {
                                    proof {
                                        lemma_view_nodes(parts@);
                                        lemma_view_nodes(items@);
                                        assert(view_nodes(parts@)[0] == view_node(parts@[0]));
                                        assert(view_nodes(parts@)[1] == view_node(parts@[1]));
                                        assert(view_nodes(items@)[i as int] == view_node(items@[i as int]));
                                        assert forall|q: Patch| enc_patch(q) != n@ by {
                                            if enc_patch(q) == n@ {
                                                assert(q is Struct);
                                                let sq = q->Struct_0@;
                                                lemma_enc_sops(sq);
                                                assert(enc_sops(sq) == view_nodes(items@));
                                                assert(enc_sops(sq)[i as int] == view_nodes(items@)[i as int]);
                                            }
                                        }
                                    }
                                    return None;
                                },
                            }
                            i = i + 1;
                        }
                        proof {
                            assert(items@.subrange(0, items.len() as int) =~= items@);
                            assert(view_nodes(parts@) =~= seq![Val::U8(TAG_STRUCT), Val::List(enc_sops(ops@))]);
                        }
                        return Some(Patch::Struct(ops));
                    }
                } else if *t == TAG_LIST {
                    if let Node::List(items) = &parts[1] {
                        let mut ops: Vec<ListOp> = Vec::new();
                        let mut i: usize = 0;
                        assert(enc_lops(ops@) =~= view_nodes(items@.subrange(0, 0)));
                        while i < items.len()
                            invariant
                                i <= items.len(),
                                *n == Node::List(*parts),
                                parts.len() == 2,
                                parts@[0] == Node::U8(TAG_LIST),
                                parts@[1] == Node::List(*items),
                                enc_lops(ops@) == view_nodes(items@.subrange(0, i as int)),
                            decreases items.len() - i,
                        {
                            proof {
                                vstd::std_specs::vec::axiom_vec_index_decreases(*parts, 1);
                                vstd::std_specs::vec::axiom_vec_index_decreases(*items, i as int);
                                assert(decreases_to!(*n => (*n)->List_0));
                                assert(decreases_to!(parts[1] => parts[1]->List_0));
                            }
                            match decode_lop(&items[i]) {
                                Some(op) => {
                                    proof {
                                        let t = ops@.push(op);
                                        assert(t.subrange(0, t.len() - 1) =~= ops@);
                                        lemma_view_nodes_push(items@.subrange(0, i as int), items@[i as int]);
                                        assert(items@.subrange(0, i as int).push(items@[i as int]) =~= items@.subrange(0, i + 1));
                                    }
                                    ops.push(op);
                                },
                                None => {
                                    proof {
                                        lemma_view_nodes(parts@);
                                        lemma_view_nodes(items@);
                                        assert(view_nodes(parts@)[0] == view_node(parts@[0]));
                                        assert(view_nodes(parts@)[1] == view_node(parts@[1]));
                                        assert(view_nodes(items@)[i as int] == view_node(items@[i as int]));
                                        assert forall|q: Patch| enc_patch(q) != n@ by {
                                            if enc_patch(q) == n@ {
                                                assert(q is List);
                                                let sq = q->List_0@;
                                                lemma_enc_lops(sq);
                                                assert(enc_lops(sq) == view_nodes(items@));
                                                assert(enc_lops(sq)[i as int] == view_nodes(items@)[i as int]);
                                            }
                                        }
                                    }
                                    return None;
                                },
                            }
                            i = i + 1;
                        }
                        proof {
                            assert(items@.subrange(0, items.len() as int) =~= items@);
                            assert(view_nodes(parts@) =~= seq![Val::U8(TAG_LIST), Val::List(enc_lops(ops@))]);
                        }
                        return Some(Patch::List(ops));
                    }
                }
            }
        }
    }
    None
}

/// The document that stores a patch: a root struct whose one entry holds the
/// patch's node under `PATCH_KEY`.
pub open spec fn patch_doc(p: Patch) -> Val {
    Val::Struct(seq![(PATCH_KEY, enc_patch(p))])
}

/// The document, ready for either codec, that stores `p`.
pub fn patch_to_document(p: &Patch) -> (r: Node)
    ensures
        r@ == patch_doc(*p),
{
    let e = Entry { key: PATCH_KEY, value: encode_patch(p) };
    let v = vec![e];
    proof {
        lemma_view_entries(v@);
        assert(view_entries(v@) =~= seq![(PATCH_KEY, enc_patch(*p))]);
    }
    Node::Struct(v)
}

/// The patch that a document stores, or `None` when `doc` stores no patch.
pub fn patch_from_document(doc: &Node) -> (r: Option<Patch>)
    ensures
        match r {
            Some(q) => patch_doc(q) == doc@,
            None => forall|q: Patch| patch_doc(q) != doc@,
        },
{
    if let Node::Struct(es) = doc {
        proof {
            lemma_view_entries(es@);
        }
        if es.len() == 1 && es[0].key == PATCH_KEY {
            match decode_patch(&es[0].value) {
                Some(q) => {
                    assert(view_entries(es@) =~= seq![(PATCH_KEY, enc_patch(q))]);
                    return Some(q);
                },
                None => {
                    proof {
                        assert forall|q: Patch| patch_doc(q) != doc@ by {
                            if patch_doc(q) == doc@ {
                                assert(patch_doc(q)->Struct_0[0] == view_entries(es@)[0]);
                            }
                        }
                    }
                    return None;
                },
            }
        }
        proof {
            assert forall|q: Patch| patch_doc(q) != doc@ by {
                if patch_doc(q) == doc@ {
                    assert(patch_doc(q)->Struct_0[0] == view_entries(es@)[0]);
                }
            }
        }
    }
    None
}

proof fn lemma_enc_patch_injective(p: Patch, q: Patch)
    requires
        enc_patch(p) == enc_patch(q),
    ensures
        p@ == q@,
    decreases p,
{
    let ep = enc_patch(p)->List_0;
    assert(ep[0] == enc_patch(q)->List_0[0]);
    assert(ep[1] == enc_patch(q)->List_0[1]);
    match p {
        Patch::Replace(_) => {},
        Patch::Struct(ops) => {
            lemma_enc_sops_injective(ops@, q->Struct_0@);
        },
        Patch::List(ops) => {
            lemma_enc_lops_injective(ops@, q->List_0@);
        },
    }
}

proof fn lemma_enc_sops_injective(a: Seq<StructOp>, b: Seq<StructOp>)
    requires
        enc_sops(a) == enc_sops(b),
    ensures
        sops_view(a) == sops_view(b),
    decreases a,
{
    lemma_enc_sops(a);
    lemma_enc_sops(b);
    if a.len() > 0 {
        let a1 = a.subrange(0, a.len() - 1);
        let b1 = b.subrange(0, b.len() - 1);
        let ea = enc_sops(a);
        assert(ea.subrange(0, ea.len() - 1) =~= enc_sops(a1));
        assert(enc_sops(b).subrange(0, ea.len() - 1) =~= enc_sops(b1));
        lemma_enc_sops_injective(a1, b1);
        assert(ea[ea.len() - 1] == enc_sop(a[a.len() - 1]));
        assert(enc_sops(b)[ea.len() - 1] == enc_sop(b[b.len() - 1]));
        lemma_enc_sop_injective(a[a.len() - 1], b[b.len() - 1]);
    }
}

proof fn lemma_enc_sop_injective(x: StructOp, y: StructOp)
    requires
        enc_sop(x) == enc_sop(y),
    ensures
        sop_view(x) == sop_view(y),
    decreases x,
{
    let ex = enc_sop(x)->List_0;
    let ey = enc_sop(y)->List_0;
    assert(ex.len() == ey.len());
    assert(ex[0] == ey[0]);
    assert(ex[1] == ey[1]);
    if ex.len() == 3 {
        assert(ex[2] == ey[2]);
    }
    if let StructOp::Change(_, q) = x {
        lemma_enc_patch_injective(q, y->Change_1);
    }
}

proof fn lemma_enc_lops_injective(a: Seq<ListOp>, b: Seq<ListOp>)
    requires
        enc_lops(a) == enc_lops(b),
    ensures
        lops_view(a) == lops_view(b),
    decreases a,
{
    lemma_enc_lops(a);
    lemma_enc_lops(b);
    if a.len() > 0 {
        let a1 = a.subrange(0, a.len() - 1);
        let b1 = b.subrange(0, b.len() - 1);
        let ea = enc_lops(a);
        assert(ea.subrange(0, ea.len() - 1) =~= enc_lops(a1));
        assert(enc_lops(b).subrange(0, ea.len() - 1) =~= enc_lops(b1));
        lemma_enc_lops_injective(a1, b1);
        assert(ea[ea.len() - 1] == enc_lop(a[a.len() - 1]));
        assert(enc_lops(b)[ea.len() - 1] == enc_lop(b[b.len() - 1]));
        lemma_enc_lop_injective(a[a.len() - 1], b[b.len() - 1]);
    }
}

proof fn lemma_enc_lop_injective(x: ListOp, y: ListOp)
    requires
        enc_lop(x) == enc_lop(y),
    ensures
        lop_view(x) == lop_view(y),
    decreases x,
{
    let ex = enc_lop(x)->List_0;
    let ey = enc_lop(y)->List_0;
    assert(ex.len() == ey.len());
    assert(ex[0] == ey[0]);
    assert(ex[1] == ey[1]);
    if ex.len() == 3 {
        assert(ex[2] == ey[2]);
    }
    if let ListOp::Change(_, q) = x {
        lemma_enc_patch_injective(q, y->Change_1);
    }
}

/// Two patches stored as the same document have the same value, so they
/// apply alike to every node: reading back what `patch_to_document` stored
/// gives a patch that does what the stored one did.
pub proof fn lemma_stored_patch_applies_alike(p: Patch, q: Patch, n: Val)
    requires
        patch_doc(p) == patch_doc(q),
    ensures
        p@ == q@,
        apply_spec(p, n) == apply_spec(q, n),
{
    assert(patch_doc(p)->Struct_0[0] == patch_doc(q)->Struct_0[0]);
    lemma_enc_patch_injective(p, q);
    lemma_apply_value(p, n);
    lemma_apply_value(q, n);
}

} // verus!
