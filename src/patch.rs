use vstd::prelude::*;
use crate::model::{
    deep_clone, lemma_view_entries, lemma_view_entries_push, lemma_view_entries_remove,
    lemma_view_entries_update, lemma_view_nodes_prefix, lemma_view_nodes_push, lemma_view_nodes_update,
    view_entries, view_node, Entry, Node, Val,
};

verus! {

/// The change that turns one node into another.
#[derive(Debug, PartialEq, Eq)]
pub enum Patch {
    /// The node is replaced outright by this value.
    Replace(Node),
    /// Keyed operations on the entries of a struct, applied in order.
    Struct(Vec<StructOp>),
    /// Positional operations on the items of a list, applied in order.
    List(Vec<ListOp>),
}

/// One operation on a struct's entries.
#[derive(Debug, PartialEq, Eq)]
pub enum StructOp {
    /// Appends an entry with a key that the struct does not have yet.
    Add(u64, Node),
    /// Removes the entry with this key.
    Remove(u64),
    /// Patches the value of the entry with this key.
    Change(u64, Patch),
}

/// One operation on a list's items.
#[derive(Debug, PartialEq, Eq)]
pub enum ListOp {
    /// Appends an item that stands at this index in the target. A list that
    /// already holds the index refuses it; a shorter one is extended by it.
    Add(u32, Node),
    /// Truncates the list to this length; the index must hold an item.
    Remove(u32),
    /// Patches the item at this index.
    Change(u32, Patch),
}

/// Why a patch could not be applied.
#[derive(Clone, Copy, Debug, PartialEq, Eq, Structural)]
pub enum ApplyError {
    /// The patch addresses a key or an index that the document lacks, or a
    /// struct or list operation meets a node of another kind.
    StructuralMismatch,
    /// The patch adds a key that the struct already holds.
    DuplicateKey,
}

/// The mathematical value of a patch: its nodes as values.
pub ghost enum PatchV {
    Replace(Val),
    Struct(Seq<StructOpV>),
    List(Seq<ListOpV>),
}

/// The value of a struct operation.
pub ghost enum StructOpV {
    Add(u64, Val),
    Remove(u64),
    Change(u64, PatchV),
}

/// The value of a list operation.
pub ghost enum ListOpV {
    Add(u32, Val),
    Remove(u32),
    Change(u32, PatchV),
}

pub open spec fn patch_view(p: Patch) -> PatchV
    decreases p,
{
    match p {
        Patch::Replace(v) => PatchV::Replace(view_node(v)),
        Patch::Struct(ops) => PatchV::Struct(sops_view(ops@)),
        Patch::List(ops) => PatchV::List(lops_view(ops@)),
    }
}

pub open spec fn sops_view(s: Seq<StructOp>) -> Seq<StructOpV>
    decreases s,
{
    if s.len() == 0 {
        Seq::empty()
    } else {
        sops_view(s.subrange(0, s.len() - 1)).push(sop_view(s[s.len() - 1]))
    }
}

pub open spec fn sop_view(op: StructOp) -> StructOpV
    decreases op,
{
    match op {
        StructOp::Add(k, v) => StructOpV::Add(k, view_node(v)),
        StructOp::Remove(k) => StructOpV::Remove(k),
        StructOp::Change(k, q) => StructOpV::Change(k, patch_view(q)),
    }
}

pub open spec fn lops_view(s: Seq<ListOp>) -> Seq<ListOpV>
    decreases s,
{
    if s.len() == 0 {
        Seq::empty()
    } else {
        lops_view(s.subrange(0, s.len() - 1)).push(lop_view(s[s.len() - 1]))
    }
}

pub open spec fn lop_view(op: ListOp) -> ListOpV
    decreases op,
{
    match op {
        ListOp::Add(i, v) => ListOpV::Add(i, view_node(v)),
        ListOp::Remove(i) => ListOpV::Remove(i),
        ListOp::Change(i, q) => ListOpV::Change(i, patch_view(q)),
    }
}

impl View for Patch {
    type V = PatchV;

    open spec fn view(&self) -> PatchV {
        patch_view(*self)
    }
}

pub proof fn lemma_sops_view_push(s: Seq<StructOp>, x: StructOp)
    ensures
        sops_view(s.push(x)) == sops_view(s).push(sop_view(x)),
{
    assert(s.push(x).subrange(0, s.len() as int) =~= s);
}

pub proof fn lemma_lops_view_push(s: Seq<ListOp>, x: ListOp)
    ensures
        lops_view(s.push(x)) == lops_view(s).push(lop_view(x)),
{
    assert(s.push(x).subrange(0, s.len() as int) =~= s);
}

/// Index of the first entry with key `k`, or -1.
pub open spec fn find_key(es: Seq<(u64, Val)>, k: u64) -> int
    decreases es.len(),
{
    if es.len() == 0 {
        -1
    } else if es[0].0 == k {
        0
    } else {
        let r = find_key(es.subrange(1, es.len() as int), k);
        if r < 0 {
            -1
        } else {
            r + 1
        }
    }
}

pub open spec fn apply_spec(p: Patch, n: Val) -> Result<Val, ApplyError>
    decreases p,
{
    match p {
        Patch::Replace(v) => Ok(view_node(v)),
        Patch::Struct(ops) => match n {
            Val::Struct(es) => match apply_struct_ops(ops@, es) {
                Ok(r) => Ok(Val::Struct(r)),
                Err(e) => Err(e),
            },
            _ => Err(ApplyError::StructuralMismatch),
        },
        Patch::List(ops) => match n {
            Val::List(xs) => match apply_list_ops(ops@, xs) {
                Ok(r) => Ok(Val::List(r)),
                Err(e) => Err(e),
            },
            _ => Err(ApplyError::StructuralMismatch),
        },
    }
}

pub open spec fn apply_struct_ops(ops: Seq<StructOp>, es: Seq<(u64, Val)>) -> Result<
    Seq<(u64, Val)>,
    ApplyError,
>
    decreases ops,
{
    if ops.len() == 0 {
        Ok(es)
    } else {
        match apply_struct_ops(ops.subrange(0, ops.len() - 1), es) {
            Ok(cur) => struct_step(ops[ops.len() - 1], cur),
            Err(e) => Err(e),
        }
    }
}

pub open spec fn struct_step(op: StructOp, cur: Seq<(u64, Val)>) -> Result<
    Seq<(u64, Val)>,
    ApplyError,
>
    decreases op,
{
    match op {
        StructOp::Add(k, v) => if find_key(cur, k) >= 0 {
            Err(ApplyError::DuplicateKey)
        } else {
            Ok(cur.push((k, view_node(v))))
        },
        StructOp::Remove(k) => {
            let i = find_key(cur, k);
            if i < 0 {
                Err(ApplyError::StructuralMismatch)
            } else {
                Ok(cur.remove(i))
            }
        },
        StructOp::Change(k, q) => {
            let i = find_key(cur, k);
            if i < 0 {
                Err(ApplyError::StructuralMismatch)
            } else {
                match apply_spec(q, cur[i].1) {
                    Ok(v) => Ok(cur.update(i, (k, v))),
                    Err(e) => Err(e),
                }
            }
        },
    }
}

pub open spec fn apply_list_ops(ops: Seq<ListOp>, xs: Seq<Val>) -> Result<Seq<Val>, ApplyError>
    decreases ops,
{
    if ops.len() == 0 {
        Ok(xs)
    } else {
        match apply_list_ops(ops.subrange(0, ops.len() - 1), xs) {
            Ok(cur) => list_step(ops[ops.len() - 1], cur),
            Err(e) => Err(e),
        }
    }
}

pub open spec fn list_step(op: ListOp, cur: Seq<Val>) -> Result<Seq<Val>, ApplyError>
    decreases op,
{
    match op {
        ListOp::Add(i, v) => if i >= cur.len() {
            Ok(cur.push(view_node(v)))
        } else {
            Err(ApplyError::StructuralMismatch)
        },
        ListOp::Remove(i) => if i < cur.len() {
            Ok(cur.subrange(0, i as int))
        } else {
            Err(ApplyError::StructuralMismatch)
        },
        ListOp::Change(i, q) => if i < cur.len() {
            match apply_spec(q, cur[i as int]) {
                Ok(v) => Ok(cur.update(i as int, v)),
                Err(e) => Err(e),
            }
        } else {
            Err(ApplyError::StructuralMismatch)
        },
    }
}

/// What applying a patch's value gives; the same as applying the patch.
pub open spec fn apply_v(p: PatchV, n: Val) -> Result<Val, ApplyError>
    decreases p,
{
    match p {
        PatchV::Replace(v) => Ok(v),
        PatchV::Struct(ops) => match n {
            Val::Struct(es) => match apply_struct_ops_v(ops, es) {
                Ok(r) => Ok(Val::Struct(r)),
                Err(e) => Err(e),
            },
            _ => Err(ApplyError::StructuralMismatch),
        },
        PatchV::List(ops) => match n {
            Val::List(xs) => match apply_list_ops_v(ops, xs) {
                Ok(r) => Ok(Val::List(r)),
                Err(e) => Err(e),
            },
            _ => Err(ApplyError::StructuralMismatch),
        },
    }
}

pub open spec fn apply_struct_ops_v(ops: Seq<StructOpV>, es: Seq<(u64, Val)>) -> Result<
    Seq<(u64, Val)>,
    ApplyError,
>
    decreases ops,
{
    if ops.len() == 0 {
        Ok(es)
    } else {
        match apply_struct_ops_v(ops.subrange(0, ops.len() - 1), es) {
            Ok(cur) => struct_step_v(ops[ops.len() - 1], cur),
            Err(e) => Err(e),
        }
    }
}

pub open spec fn struct_step_v(op: StructOpV, cur: Seq<(u64, Val)>) -> Result<
    Seq<(u64, Val)>,
    ApplyError,
>
    decreases op,
{
    match op {
        StructOpV::Add(k, v) => if find_key(cur, k) >= 0 {
            Err(ApplyError::DuplicateKey)
        } else {
            Ok(cur.push((k, v)))
        },
        StructOpV::Remove(k) => {
            let i = find_key(cur, k);
            if i < 0 {
                Err(ApplyError::StructuralMismatch)
            } else {
                Ok(cur.remove(i))
            }
        },
        StructOpV::Change(k, q) => {
            let i = find_key(cur, k);
            if i < 0 {
                Err(ApplyError::StructuralMismatch)
            } else {
                match apply_v(q, cur[i].1) {
                    Ok(v) => Ok(cur.update(i, (k, v))),
                    Err(e) => Err(e),
                }
            }
        },
    }
}

pub open spec fn apply_list_ops_v(ops: Seq<ListOpV>, xs: Seq<Val>) -> Result<Seq<Val>, ApplyError>
    decreases ops,
{
    if ops.len() == 0 {
        Ok(xs)
    } else {
        match apply_list_ops_v(ops.subrange(0, ops.len() - 1), xs) {
            Ok(cur) => list_step_v(ops[ops.len() - 1], cur),
            Err(e) => Err(e),
        }
    }
}

pub open spec fn list_step_v(op: ListOpV, cur: Seq<Val>) -> Result<Seq<Val>, ApplyError>
    decreases op,
{
    match op {
        ListOpV::Add(i, v) => if i >= cur.len() {
            Ok(cur.push(v))
        } else {
            Err(ApplyError::StructuralMismatch)
        },
        ListOpV::Remove(i) => if i < cur.len() {
            Ok(cur.subrange(0, i as int))
        } else {
            Err(ApplyError::StructuralMismatch)
        },
        ListOpV::Change(i, q) => if i < cur.len() {
            match apply_v(q, cur[i as int]) {
                Ok(v) => Ok(cur.update(i as int, v)),
                Err(e) => Err(e),
            }
        } else {
            Err(ApplyError::StructuralMismatch)
        },
    }
}

/// Applying a patch is applying its value.
pub proof fn lemma_apply_value(p: Patch, n: Val)
    ensures
        apply_spec(p, n) == apply_v(p@, n),
    decreases p,
{
    match p {
        Patch::Replace(_) => {},
        Patch::Struct(ops) => {
            if let Val::Struct(es) = n {
                lemma_struct_ops_value(ops@, es);
            }
        },
        Patch::List(ops) => {
            if let Val::List(xs) = n {
                lemma_list_ops_value(ops@, xs);
            }
        },
    }
}

proof fn lemma_struct_ops_value(ops: Seq<StructOp>, es: Seq<(u64, Val)>)
    ensures
        apply_struct_ops(ops, es) == apply_struct_ops_v(sops_view(ops), es),
    decreases ops,
{
    if ops.len() > 0 {
        let o1 = ops.subrange(0, ops.len() - 1);
        let v = sops_view(ops);
        assert(v.subrange(0, v.len() - 1) =~= sops_view(o1));
        assert(v[v.len() - 1] == sop_view(ops[ops.len() - 1]));
        lemma_struct_ops_value(o1, es);
        if let Ok(cur) = apply_struct_ops(o1, es) {
            lemma_struct_step_value(ops[ops.len() - 1], cur);
        }
    }
}

proof fn lemma_struct_step_value(op: StructOp, cur: Seq<(u64, Val)>)
    ensures
        struct_step(op, cur) == struct_step_v(sop_view(op), cur),
    decreases op,
{
    if let StructOp::Change(k, q) = op {
        let i = find_key(cur, k);
        if i >= 0 {
            lemma_apply_value(q, cur[i].1);
        }
    }
}

proof fn lemma_list_ops_value(ops: Seq<ListOp>, xs: Seq<Val>)
    ensures
        apply_list_ops(ops, xs) == apply_list_ops_v(lops_view(ops), xs),
    decreases ops,
{
    if ops.len() > 0 {
        let o1 = ops.subrange(0, ops.len() - 1);
        let v = lops_view(ops);
        assert(v.subrange(0, v.len() - 1) =~= lops_view(o1));
        assert(v[v.len() - 1] == lop_view(ops[ops.len() - 1]));
        lemma_list_ops_value(o1, xs);
        if let Ok(cur) = apply_list_ops(o1, xs) {
            lemma_list_step_value(ops[ops.len() - 1], cur);
        }
    }
}

proof fn lemma_list_step_value(op: ListOp, cur: Seq<Val>)
    ensures
        list_step(op, cur) == list_step_v(lop_view(op), cur),
    decreases op,
{
    if let ListOp::Change(i, q) = op {
        if i < cur.len() {
            lemma_apply_value(q, cur[i as int]);
        }
    }
}

pub proof fn lemma_find_key(es: Seq<(u64, Val)>, k: u64)
    ensures
        -1 <= find_key(es, k) < es.len(),
        find_key(es, k) >= 0 ==> es[find_key(es, k)].0 == k,
        forall|j: int| 0 <= j < find_key(es, k) ==> #[trigger] es[j].0 != k,
        find_key(es, k) < 0 ==> forall|j: int| 0 <= j < es.len() ==> #[trigger] es[j].0 != k,
    decreases es.len(),
{
    if es.len() > 0 && es[0].0 != k {
        let t = es.subrange(1, es.len() as int);
        lemma_find_key(t, k);
        assert forall|j: int| 1 <= j < es.len() implies es[j].0 == t[j - 1].0 by {}
    }
}

/// Position of the first entry with key `k`.
pub(crate) fn find_entry(es: &Vec<Entry>, k: u64) -> (r: Option<usize>)
    ensures
        match r {
            Some(i) => i < es.len() && find_key(view_entries(es@), k) == i,
            None => find_key(view_entries(es@), k) == -1,
        },
{
    proof {
        lemma_view_entries(es@);
        lemma_find_key(view_entries(es@), k);
    }
    let mut i: usize = 0;
    while i < es.len()
        invariant
            i <= es.len(),
            forall|j: int| 0 <= j < i ==> (#[trigger] es@[j]).key != k,
        decreases es.len() - i,
    {
        if es[i].key == k {
            proof {
                lemma_view_entries(es@);
                lemma_find_key(view_entries(es@), k);
                let f = find_key(view_entries(es@), k);
                assert(view_entries(es@)[i as int].0 == k);
                if f >= 0 && f < i {
                    assert(view_entries(es@)[f].0 == k);
                    assert(es@[f].key != k);
                }
                if f > i || f < 0 {
                    assert(view_entries(es@)[i as int].0 != k);
                }
            }
            return Some(i);
        }
        i = i + 1;
    }
    proof {
        lemma_view_entries(es@);
        lemma_find_key(view_entries(es@), k);
        let f = find_key(view_entries(es@), k);
        if f >= 0 {
            assert(view_entries(es@)[f].0 == k);
            assert(es@[f].key != k);
        }
    }
    None
}

proof fn lemma_struct_err_stays(ops: Seq<StructOp>, es: Seq<(u64, Val)>, i: int, m: int)
    requires
        0 <= i <= m <= ops.len(),
        apply_struct_ops(ops.subrange(0, i), es) is Err,
    ensures
        apply_struct_ops(ops.subrange(0, m), es) == apply_struct_ops(ops.subrange(0, i), es),
    decreases m - i,
{
    if m > i {
        lemma_struct_err_stays(ops, es, i, m - 1);
        assert(ops.subrange(0, m).subrange(0, m - 1) =~= ops.subrange(0, m - 1));
    }
}

proof fn lemma_list_err_stays(ops: Seq<ListOp>, xs: Seq<Val>, i: int, m: int)
    requires
        0 <= i <= m <= ops.len(),
        apply_list_ops(ops.subrange(0, i), xs) is Err,
    ensures
        apply_list_ops(ops.subrange(0, m), xs) == apply_list_ops(ops.subrange(0, i), xs),
    decreases m - i,
{
    if m > i {
        lemma_list_err_stays(ops, xs, i, m - 1);
        assert(ops.subrange(0, m).subrange(0, m - 1) =~= ops.subrange(0, m - 1));
    }
}

/// Applies `p` to `n` and returns the patched copy; `n` is left as it is.
#[verifier::rlimit(50)]
pub fn apply_node(p: &Patch, n: &Node) -> (r: Result<Node, ApplyError>)
    ensures
        match r {
            Ok(x) => apply_spec(*p, n@) == Ok::<Val, ApplyError>(x@),
            Err(e) => apply_spec(*p, n@) == Err::<Val, ApplyError>(e),
        },
    decreases p,
{
    match p {
        Patch::Replace(v) => Ok(deep_clone(v)),
        Patch::Struct(ops) => {
            let mut cur: Vec<Entry> = match deep_clone(n) {
                Node::Struct(v) => v,
                _ => {
                    return Err(ApplyError::StructuralMismatch);
                },
            };
            let ghost es = view_entries(cur@);
            assert(ops@.subrange(0, 0) =~= Seq::<StructOp>::empty());
            let mut i: usize = 0;
            while i < ops.len()
                invariant
                    i <= ops.len(),
                    *p == Patch::Struct(*ops),
                    n@ == Val::Struct(es),
                    apply_struct_ops(ops@.subrange(0, i as int), es) == Ok::<
                        Seq<(u64, Val)>,
                        ApplyError,
                    >(view_entries(cur@)),
                decreases ops.len() - i,
            {
                let ghost before = view_entries(cur@);
                assert(ops@.subrange(0, i + 1).subrange(0, i as int) =~= ops@.subrange(0, i as int));
                assert(ops@.subrange(0, i + 1)[i as int] == ops@[i as int]);
                proof {
                    lemma_view_entries(cur@);
                }
                match &ops[i] {
                    StructOp::Add(k, v) => {
                        match find_entry(&cur, *k) {
                            Some(_) => {
                                proof {
                                    lemma_struct_err_stays(ops@, es, i + 1, ops.len() as int);
                                    assert(ops@.subrange(0, ops.len() as int) =~= ops@);
                                }
                                return Err(ApplyError::DuplicateKey);
                            },
                            None => {
                                let e = Entry { key: *k, value: deep_clone(v) };
                                proof {
                                    lemma_view_entries_push(cur@, e);
                                }
                                cur.push(e);
                            },
                        }
                    },
                    StructOp::Remove(k) => {
                        match find_entry(&cur, *k) {
                            Some(j) => {
                                proof {
                                    lemma_view_entries_remove(cur@, j as int);
                                }
                                cur.remove(j);
                            },
                            None => {
                                proof {
                                    lemma_struct_err_stays(ops@, es, i + 1, ops.len() as int);
                                    assert(ops@.subrange(0, ops.len() as int) =~= ops@);
                                }
                                return Err(ApplyError::StructuralMismatch);
                            },
                        }
                    },
                    StructOp::Change(k, q) => {
                        match find_entry(&cur, *k) {
                            Some(j) => {
                                proof {
                                    vstd::std_specs::vec::axiom_vec_index_decreases(*ops, i as int);
                                    assert(decreases_to!(*p => (*p)->Struct_0));
                                    assert(decreases_to!(ops[i as int] => ops[i as int]->Change_1));
                                }
                                match apply_node(q, &cur[j].value) {
                                    Ok(nv) => {
                                        let e = Entry { key: *k, value: nv };
                                        proof {
                                            lemma_view_entries_update(cur@, j as int, e);
                                        }
                                        cur.set(j, e);
                                    },
                                    Err(err) => {
                                        proof {
                                            lemma_struct_err_stays(ops@, es, i + 1, ops.len() as int);
                                            assert(ops@.subrange(0, ops.len() as int) =~= ops@);
                                        }
                                        return Err(err);
                                    },
                                }
                            },
                            None => {
                                proof {
                                    lemma_struct_err_stays(ops@, es, i + 1, ops.len() as int);
                                    assert(ops@.subrange(0, ops.len() as int) =~= ops@);
                                }
                                return Err(ApplyError::StructuralMismatch);
                            },
                        }
                    },
                }
                i = i + 1;
            }
            assert(ops@.subrange(0, ops.len() as int) =~= ops@);
            Ok(Node::Struct(cur))
        },
        Patch::List(ops) => {
            let mut cur: Vec<Node> = match deep_clone(n) {
                Node::List(v) => v,
                _ => {
                    return Err(ApplyError::StructuralMismatch);
                },
            };
            let ghost xs = crate::model::view_nodes(cur@);
            assert(ops@.subrange(0, 0) =~= Seq::<ListOp>::empty());
            let mut i: usize = 0;
            while i < ops.len()
                invariant
                    i <= ops.len(),
                    *p == Patch::List(*ops),
                    n@ == Val::List(xs),
                    apply_list_ops(ops@.subrange(0, i as int), xs) == Ok::<Seq<Val>, ApplyError>(
                        crate::model::view_nodes(cur@),
                    ),
                decreases ops.len() - i,
            {
                assert(ops@.subrange(0, i + 1).subrange(0, i as int) =~= ops@.subrange(0, i as int));
                assert(ops@.subrange(0, i + 1)[i as int] == ops@[i as int]);
                proof {
                    crate::model::lemma_view_nodes(cur@);
                    assert(apply_list_ops(ops@.subrange(0, i + 1), xs) == list_step(
                        ops@[i as int],
                        crate::model::view_nodes(cur@),
                    ));
                }
                match &ops[i] {
                    ListOp::Add(j, v) => {
                        if *j as usize >= cur.len() {
                            let c = deep_clone(v);
                            proof {
                                lemma_view_nodes_push(cur@, c);
                            }
                            cur.push(c);
                        } else {
                            proof {
                                lemma_list_err_stays(ops@, xs, i + 1, ops.len() as int);
                                assert(ops@.subrange(0, ops.len() as int) =~= ops@);
                            }
                            return Err(ApplyError::StructuralMismatch);
                        }
                    },
                    ListOp::Remove(j) => {
                        if (*j as usize) < cur.len() {
                            proof {
                                lemma_view_nodes_prefix(cur@, *j as int);
                            }
                            cur.truncate(*j as usize);
                        } else {
                            proof {
                                lemma_list_err_stays(ops@, xs, i + 1, ops.len() as int);
                                assert(ops@.subrange(0, ops.len() as int) =~= ops@);
                            }
                            return Err(ApplyError::StructuralMismatch);
                        }
                    },
                    ListOp::Change(j, q) => {
                        if (*j as usize) < cur.len() {
                            proof {
                                vstd::std_specs::vec::axiom_vec_index_decreases(*ops, i as int);
                                assert(decreases_to!(*p => (*p)->List_0));
                                assert(decreases_to!(ops[i as int] => ops[i as int]->Change_1));
                            }
                            match apply_node(q, &cur[*j as usize]) {
                                Ok(nv) => {
                                    proof {
                                        lemma_view_nodes_update(cur@, *j as int, nv);
                                    }
                                    cur.set(*j as usize, nv);
                                },
                                Err(err) => {
                                    proof {
                                        lemma_list_err_stays(ops@, xs, i + 1, ops.len() as int);
                                        assert(ops@.subrange(0, ops.len() as int) =~= ops@);
                                    }
                                    return Err(err);
                                },
                            }
                        } else {
                            proof {
                                lemma_list_err_stays(ops@, xs, i + 1, ops.len() as int);
                                assert(ops@.subrange(0, ops.len() as int) =~= ops@);
                            }
                            return Err(ApplyError::StructuralMismatch);
                        }
                    },
                }
                i = i + 1;
            }
            assert(ops@.subrange(0, ops.len() as int) =~= ops@);
            Ok(Node::List(cur))
        },
    }
}

/// Only an add brings a key into a struct: removals and changes leave every
/// key that the entries lacked absent.
proof fn lemma_no_add_keeps_absent(ops: Seq<StructOp>, es: Seq<(u64, Val)>, k: u64)
    requires
        forall|j: int| 0 <= j < ops.len() ==> !(#[trigger] ops[j] is Add),
        forall|j: int| 0 <= j < es.len() ==> (#[trigger] es[j]).0 != k,
        apply_struct_ops(ops, es) is Ok,
    ensures
        forall|j: int|
            0 <= j < apply_struct_ops(ops, es)->Ok_0.len() ==> (#[trigger] apply_struct_ops(
                ops,
                es,
            )->Ok_0[j]).0 != k,
    decreases ops.len(),
{
    if ops.len() > 0 {
        let o1 = ops.subrange(0, ops.len() - 1);
        assert forall|j: int| 0 <= j < o1.len() implies !(#[trigger] o1[j] is Add) by {
            assert(o1[j] == ops[j]);
        }
        lemma_no_add_keeps_absent(o1, es, k);
        let cur = apply_struct_ops(o1, es)->Ok_0;
        let op = ops[ops.len() - 1];
        assert(!(op is Add));
        let r = apply_struct_ops(ops, es)->Ok_0;
        assert(apply_struct_ops(ops, es) == struct_step(op, cur));
        match op {
            StructOp::Remove(key) => {
                let i = find_key(cur, key);
                lemma_find_key(cur, key);
                assert(r == cur.remove(i));
                assert forall|j: int| 0 <= j < r.len() implies (#[trigger] r[j]).0 != k by {
                    if j < i {
                        assert(r[j] == cur[j]);
                    } else {
                        assert(r[j] == cur[j + 1]);
                    }
                }
            },
            StructOp::Change(key, q) => {
                let i = find_key(cur, key);
                lemma_find_key(cur, key);
                assert forall|j: int| 0 <= j < r.len() implies (#[trigger] r[j]).0 != k by {
                    if j != i {
                        assert(r[j] == cur[j]);
                    } else {
                        assert(r[j].0 == key);
                        assert(cur[i].0 == key);
                    }
                }
            },
            StructOp::Add(_, _) => {},
        }
    }
}

/// A struct patch whose operations up to a removal or change of a key that
/// the entries lack are removals and changes only (as those of a diff are,
/// since its additions come last) fails on those entries.
pub proof fn lemma_missing_key_fails(p: Patch, es: Seq<(u64, Val)>, i: int, k: u64)
    requires
        p is Struct,
        0 <= i < p->Struct_0@.len(),
        forall|j: int| 0 <= j < i ==> !(#[trigger] p->Struct_0@[j] is Add),
        p->Struct_0@[i] == StructOp::Remove(k) || p->Struct_0@[i] is Change
            && p->Struct_0@[i]->Change_0 == k,
        find_key(es, k) < 0,
    ensures
        apply_spec(p, Val::Struct(es)) is Err,
{
    let ops = p->Struct_0@;
    let pre = ops.subrange(0, i);
    lemma_find_key(es, k);
    if apply_struct_ops(pre, es) is Ok {
        assert forall|j: int| 0 <= j < pre.len() implies !(#[trigger] pre[j] is Add) by {
            assert(pre[j] == ops[j]);
        }
        lemma_no_add_keeps_absent(pre, es, k);
        let cur = apply_struct_ops(pre, es)->Ok_0;
        lemma_find_key(cur, k);
        if find_key(cur, k) >= 0 {
            assert(cur[find_key(cur, k)].0 != k);
        }
        lemma_absent_key_mismatch(p, es, i, k);
    } else {
        lemma_struct_err_stays(ops, es, i, ops.len() as int);
        assert(ops.subrange(0, ops.len() as int) =~= ops);
    }
}

/// Applies `patch` to `doc` in place. All or nothing: when the patch does not
/// fit, the error is returned and `doc` keeps its old value.
pub fn apply_patch(patch: &Patch, doc: &mut Node) -> (r: Result<(), ApplyError>)
    ensures
        match r {
            Ok(()) => apply_spec(*patch, old(doc)@) == Ok::<Val, ApplyError>(final(doc)@),
            Err(e) => apply_spec(*patch, old(doc)@) == Err::<Val, ApplyError>(e) && *final(doc)
                == *old(doc),
        },
{
    match apply_node(patch, doc) {
        Ok(x) => {
            *doc = x;
            Ok(())
        },
        Err(e) => Err(e),
    }
}

/// A struct patch that reaches a removal or a change of a key that the entries
/// lack at that point fails with a structural mismatch, whatever follows it.
pub proof fn lemma_absent_key_mismatch(p: Patch, es: Seq<(u64, Val)>, i: int, k: u64)
    requires
        p is Struct,
        0 <= i < p->Struct_0@.len(),
        p->Struct_0@[i] == StructOp::Remove(k) || p->Struct_0@[i] is Change
            && p->Struct_0@[i]->Change_0 == k,
        apply_struct_ops(p->Struct_0@.subrange(0, i), es) is Ok,
        find_key(apply_struct_ops(p->Struct_0@.subrange(0, i), es)->Ok_0, k) < 0,
    ensures
        apply_spec(p, Val::Struct(es)) == Err::<Val, ApplyError>(ApplyError::StructuralMismatch),
{
    let ops = p->Struct_0@;
    let p1 = ops.subrange(0, i + 1);
    assert(p1.subrange(0, p1.len() - 1) =~= ops.subrange(0, i));
    assert(p1[p1.len() - 1] == ops[i]);
    assert(apply_struct_ops(p1, es) == struct_step(
        ops[i],
        apply_struct_ops(ops.subrange(0, i), es)->Ok_0,
    ));
    lemma_struct_err_stays(ops, es, i + 1, ops.len() as int);
    assert(ops.subrange(0, ops.len() as int) =~= ops);
}

} // verus!
