use vstd::prelude::*;
use crate::model::{
    deep_clone, lemma_view_entries, lemma_view_nodes, node_eq, view_entries, view_nodes, Entry, Node,
    Val,
};
use crate::patch::{
    find_entry, find_key, lemma_lops_view_push,
    lemma_sops_view_push, lops_view, sops_view, ApplyError, ListOp, ListOpV, Patch, PatchV,
    StructOp, StructOpV,
};

verus! {

/// The operations for the source entries `xs`, in their order: `Remove(k)`
/// when the target `ys` lacks `k`, `Change(k, d)` when the diff `d` of the two
/// values (the target's is its first entry with `k`) is a patch, and nothing
/// when the values do not differ.
pub open spec fn entry_ops(xs: Seq<(u64, Val)>, ys: Seq<(u64, Val)>) -> Seq<StructOpV>
    decreases xs, 0nat,
{
    if xs.len() == 0 {
        Seq::empty()
    } else {
        let rest = entry_ops(xs.subrange(0, xs.len() - 1), ys);
        let k = xs[xs.len() - 1].0;
        let j = find_key(ys, k);
        if j < 0 {
            rest.push(StructOpV::Remove(k))
        } else {
            match diff_v(xs[xs.len() - 1].1, ys[j].1) {
                Some(d) => rest.push(StructOpV::Change(k, d)),
                None => rest,
            }
        }
    }
}

/// `Add(k, v)` for each target entry whose key the source `xs` lacks, in the
/// target's order.
pub open spec fn added_ops(xs: Seq<(u64, Val)>, ys: Seq<(u64, Val)>) -> Seq<StructOpV>
    decreases ys.len(),
{
    if ys.len() == 0 {
        Seq::empty()
    } else {
        let rest = added_ops(xs, ys.subrange(0, ys.len() - 1));
        if find_key(xs, ys[ys.len() - 1].0) < 0 {
            rest.push(StructOpV::Add(ys[ys.len() - 1].0, ys[ys.len() - 1].1))
        } else {
            rest
        }
    }
}

/// `Change(i, d)` for each index `i < n` where the diff `d` of the two items
/// is a patch, in index order.
pub open spec fn changed_items(xs: Seq<Val>, ys: Seq<Val>, n: int) -> Seq<ListOpV>
    decreases xs, n,
{
    if n <= 0 || n > xs.len() || n > ys.len() {
        Seq::empty()
    } else {
        let rest = changed_items(xs, ys, n - 1);
        match diff_v(xs[n - 1], ys[n - 1]) {
            Some(d) => rest.push(ListOpV::Change((n - 1) as u32, d)),
            None => rest,
        }
    }
}

/// `Add(i, ys[i])` for each index `i` from the source's length up to `n`.
pub open spec fn appended_items(xs: Seq<Val>, ys: Seq<Val>, n: int) -> Seq<ListOpV>
    decreases n,
{
    if n <= xs.len() || n > ys.len() {
        Seq::empty()
    } else {
        appended_items(xs, ys, n - 1).push(ListOpV::Add((n - 1) as u32, ys[n - 1]))
    }
}

/// The positional operations from list `xs` to list `ys`: changes at shared
/// indices, then `Remove(|ys|)` when the target is shorter, then additions.
pub open spec fn list_ops_v(xs: Seq<Val>, ys: Seq<Val>) -> Seq<ListOpV>
    decreases xs, xs.len() + 1,
{
    let shared = if xs.len() < ys.len() {
        xs.len() as int
    } else {
        ys.len() as int
    };
    changed_items(xs, ys, shared) + (if ys.len() < xs.len() {
        seq![ListOpV::Remove(ys.len() as u32)]
    } else {
        Seq::empty()
    }) + appended_items(xs, ys, ys.len() as int)
}

/// The keyed patch from `a` to `b` where both are structs, or both are lists
/// of at most `u32::MAX` items; `None` otherwise.
pub open spec fn keyed_patch(a: Val, b: Val) -> Option<PatchV>
    decreases a, 1nat,
{
    match (a, b) {
        (Val::Struct(xs), Val::Struct(ys)) => Some(
            PatchV::Struct(entry_ops(xs, ys) + added_ops(xs, ys)),
        ),
        (Val::List(xs), Val::List(ys)) => if xs.len() <= u32::MAX && ys.len() <= u32::MAX {
            Some(PatchV::List(list_ops_v(xs, ys)))
        } else {
            None
        },
        _ => None,
    }
}

/// The patch from `a` to `b`. None when they are equal. When both are
/// structs (keys compared as a set, whatever their order) or both are lists of
/// at most `u32::MAX` items (compared by index), the keyed patch, or none when
/// it holds no operation (structs that differ only in entry order). Otherwise
/// `b` replaces `a` outright, as for nodes of different kinds and for scalars
/// that differ.
pub open spec fn diff_v(a: Val, b: Val) -> Option<PatchV>
    decreases a, 2nat,
{
    if a == b {
        None
    } else {
        match keyed_patch(a, b) {
            Some(PatchV::Struct(ops)) => if ops.len() == 0 {
                None
            } else {
                Some(PatchV::Struct(ops))
            },
            Some(PatchV::List(ops)) => if ops.len() == 0 {
                None
            } else {
                Some(PatchV::List(ops))
            },
            Some(c) => Some(c),
            None => Some(PatchV::Replace(b)),
        }
    }
}

/// The keyed operations that take struct entries `x` to `y`.
fn struct_ops(x: &Vec<Entry>, y: &Vec<Entry>, Ghost(whole): Ghost<Node>) -> (r: Vec<StructOp>)
    requires
        whole == Node::Struct(*x),
    ensures
        sops_view(r@) == entry_ops(view_entries(x@), view_entries(y@)) + added_ops(
            view_entries(x@),
            view_entries(y@),
        ),
    decreases whole, 0nat,
{
    let ghost xv = view_entries(x@);
    let ghost yv = view_entries(y@);
    let mut ops: Vec<StructOp> = Vec::new();
    let mut i: usize = 0;
    assert(xv.subrange(0, 0) =~= Seq::<(u64, Val)>::empty());
    while i < x.len()
        invariant
            i <= x.len(),
            whole == Node::Struct(*x),
            xv == view_entries(x@),
            yv == view_entries(y@),
            sops_view(ops@) == entry_ops(xv.subrange(0, i as int), yv),
        decreases x.len() - i,
    {
        proof {
            lemma_view_entries(x@);
            lemma_view_entries(y@);
            let t = xv.subrange(0, i + 1);
            assert(t.subrange(0, t.len() - 1) =~= xv.subrange(0, i as int));
            assert(t[t.len() - 1] == xv[i as int]);
            assert(xv[i as int] == (x@[i as int].key, x@[i as int].value@));
        }
        match find_entry(y, x[i].key) {
            None => {
                let op = StructOp::Remove(x[i].key);
                proof {
                    lemma_sops_view_push(ops@, op);
                }
                ops.push(op);
            },
            Some(j) => {
                assert(yv[j as int] == (y@[j as int].key, y@[j as int].value@));
                if !node_eq(&x[i].value, &y[j].value) {
                    proof {
                        vstd::std_specs::vec::axiom_vec_index_decreases(*x, i as int);
                        assert(decreases_to!(whole => whole->Struct_0));
                        assert(decreases_to!(x[i as int] => x[i as int].value));
                    }
                    match diff(&x[i].value, &y[j].value) {
                        Some(q) => {
                            let op = StructOp::Change(x[i].key, q);
                            proof {
                                lemma_sops_view_push(ops@, op);
                            }
                            ops.push(op);
                        },
                        None => {},
                    }
                }
            },
        }
        i = i + 1;
    }
    proof {
        lemma_view_entries(x@);
        lemma_view_entries(y@);
    }
    assert(xv.subrange(0, x.len() as int) =~= xv);
    let ghost eo = sops_view(ops@);
    let mut j: usize = 0;
    assert(yv.subrange(0, 0) =~= Seq::<(u64, Val)>::empty());
    assert(eo + Seq::<StructOpV>::empty() =~= eo);
    while j < y.len()
        invariant
            j <= y.len(),
            yv.len() == y.len(),
            xv == view_entries(x@),
            yv == view_entries(y@),
            sops_view(ops@) == eo + added_ops(xv, yv.subrange(0, j as int)),
        decreases y.len() - j,
    {
        proof {
            lemma_view_entries(y@);
            let t = yv.subrange(0, j + 1);
            assert(t.subrange(0, t.len() - 1) =~= yv.subrange(0, j as int));
            assert(t[t.len() - 1] == yv[j as int]);
            assert(yv[j as int] == (y@[j as int].key, y@[j as int].value@));
        }
        if find_entry(x, y[j].key).is_none() {
            let v = deep_clone(&y[j].value);
            let op = StructOp::Add(y[j].key, v);
            proof {
                lemma_sops_view_push(ops@, op);
                assert((eo + added_ops(xv, yv.subrange(0, j as int))).push(
                    StructOpV::Add(yv[j as int].0, yv[j as int].1),
                ) =~= eo + added_ops(xv, yv.subrange(0, j as int)).push(
                    StructOpV::Add(yv[j as int].0, yv[j as int].1),
                ));
            }
            ops.push(op);
        }
        j = j + 1;
    }
    proof {
        lemma_view_entries(y@);
    }
    assert(yv.subrange(0, y.len() as int) =~= yv);
    ops
}

/// The positional operations that take list `x` to `y`. Indices are 32-bit,
/// as item counts are in the binary format.
fn list_ops(x: &Vec<Node>, y: &Vec<Node>, Ghost(whole): Ghost<Node>) -> (r: Vec<ListOp>)
    requires
        whole == Node::List(*x),
        x.len() <= u32::MAX,
        y.len() <= u32::MAX,
    ensures
        lops_view(r@) == list_ops_v(view_nodes(x@), view_nodes(y@)),
    decreases whole, 0nat,
{
    let ghost xv = view_nodes(x@);
    let ghost yv = view_nodes(y@);
    proof {
        lemma_view_nodes(x@);
        lemma_view_nodes(y@);
    }
    let mut ops: Vec<ListOp> = Vec::new();
    let shared: usize = if x.len() < y.len() {
        x.len()
    } else {
        y.len()
    };
    let mut i: usize = 0;
    while i < shared
        invariant
            i <= shared,
            shared <= x.len(),
            shared <= y.len(),
            x.len() <= u32::MAX,
            whole == Node::List(*x),
            xv == view_nodes(x@),
            yv == view_nodes(y@),
            xv.len() == x.len(),
            yv.len() == y.len(),
            lops_view(ops@) == changed_items(xv, yv, i as int),
        decreases shared - i,
    {
        proof {
            lemma_view_nodes(x@);
            lemma_view_nodes(y@);
            assert(xv[i as int] == x@[i as int]@);
            assert(yv[i as int] == y@[i as int]@);
        }
        if !node_eq(&x[i], &y[i]) {
            proof {
                vstd::std_specs::vec::axiom_vec_index_decreases(*x, i as int);
                assert(decreases_to!(whole => whole->List_0));
            }
            match diff(&x[i], &y[i]) {
                Some(q) => {
                    let op = ListOp::Change(i as u32, q);
                    proof {
                        lemma_lops_view_push(ops@, op);
                    }
                    ops.push(op);
                },
                None => {},
            }
        }
        i = i + 1;
    }
    let ghost ci = lops_view(ops@);
    let ghost rem = if yv.len() < xv.len() {
        seq![ListOpV::Remove(yv.len() as u32)]
    } else {
        Seq::<ListOpV>::empty()
    };
    if y.len() < x.len() {
        let op = ListOp::Remove(y.len() as u32);
        proof {
            lemma_lops_view_push(ops@, op);
            assert(ci.push(ListOpV::Remove(yv.len() as u32)) =~= ci + rem);
        }
        ops.push(op);
    } else {
        assert(ci =~= ci + rem);
    }
    let mut j: usize = x.len();
    assert(ci + rem =~= ci + rem + appended_items(xv, yv, j as int));
    while j < y.len()
        invariant
            x.len() <= j,
            j <= y.len() || j == x.len(),
            y.len() <= u32::MAX,
            xv.len() == x.len(),
            yv.len() == y.len(),
            yv == view_nodes(y@),
            lops_view(ops@) == ci + rem + appended_items(xv, yv, j as int),
        decreases y.len() - j,
    {
        proof {
            lemma_view_nodes(y@);
            assert(yv[j as int] == y@[j as int]@);
        }
        let v = deep_clone(&y[j]);
        let op = ListOp::Add(j as u32, v);
        proof {
            lemma_lops_view_push(ops@, op);
            assert((ci + rem + appended_items(xv, yv, j as int)).push(
                ListOpV::Add(j as u32, yv[j as int]),
            ) =~= ci + rem + appended_items(xv, yv, j + 1));
        }
        ops.push(op);
        j = j + 1;
    }
    assert(appended_items(xv, yv, j as int) == appended_items(xv, yv, yv.len() as int));
    ops
}

/// The patch that takes `a` to `b`, or `None` when the two are equal; its
/// value is `diff_v(a@, b@)`.
pub fn diff(a: &Node, b: &Node) -> (r: Option<Patch>)
    ensures
        a@ == b@ ==> r is None,
        match r {
            Some(p) => diff_v(a@, b@) == Some(p@),
            None => diff_v(a@, b@) is None,
        },
    decreases a, 1nat,
{
    if node_eq(a, b) {
        return None;
    }
    match (a, b) {
        (Node::Struct(x), Node::Struct(y)) => {
            let ops = struct_ops(x, y, Ghost(*a));
            if ops.len() == 0 {
                return None;
            }
            return Some(Patch::Struct(ops));
        },
        (Node::List(x), Node::List(y)) => {
            proof {
                lemma_view_nodes(x@);
                lemma_view_nodes(y@);
            }
            if x.len() <= u32::MAX as usize && y.len() <= u32::MAX as usize {
                let ops = list_ops(x, y, Ghost(*a));
                if ops.len() == 0 {
                    return None;
                }
                return Some(Patch::List(ops));
            }
        },
        _ => {},
    }
    Some(Patch::Replace(deep_clone(b)))
}

} // verus!
