use vstd::prelude::*;
use crate::model::{
    lemma_view_entries, lemma_view_entries_push, lemma_view_entries_remove, lemma_view_nodes,
    lemma_view_nodes_prefix, lemma_view_nodes_push, lemma_view_nodes_update, Entry, Node, Val,
};
use crate::patch::{find_entry, find_key, ApplyError};

verus! {

impl Node {
    /// The value under `key` in a struct; `None` when the struct lacks the
    /// key or the node is not a struct.
    pub fn struct_get(&self, key: u64) -> (r: Option<&Node>)
        ensures
            match self@ {
                Val::Struct(es) => match r {
                    Some(v) => find_key(es, key) >= 0 && v@ == es[find_key(es, key)].1,
                    None => find_key(es, key) < 0,
                },
                _ => r is None,
            },
    {
        match self {
            Node::Struct(v) => match find_entry(v, key) {
                Some(i) => {
                    proof {
                        lemma_view_entries(v@);
                    }
                    Some(&v[i].value)
                },
                None => None,
            },
            _ => None,
        }
    }

    /// Adds `value` under `key` at the end of a struct. A key that the struct
    /// already holds is refused, and so is a node that is not a struct; either
    /// way the node is left as it was.
    pub fn struct_insert(&mut self, key: u64, value: Node) -> (r: Result<(), ApplyError>)
        ensures
            match old(self)@ {
                Val::Struct(es) => if find_key(es, key) >= 0 {
                    r == Err::<(), ApplyError>(ApplyError::DuplicateKey) && final(self)@ == old(
                        self,
                    )@
                } else {
                    r is Ok && final(self)@ == Val::Struct(es.push((key, value@)))
                },
                _ => r == Err::<(), ApplyError>(ApplyError::StructuralMismatch) && final(self)@
                    == old(self)@,
            },
    {
        match self {
            Node::Struct(v) => {
                if find_entry(v, key).is_some() {
                    return Err(ApplyError::DuplicateKey);
                }
                let e = Entry { key, value };
                proof {
                    lemma_view_entries_push(v@, e);
                }
                v.push(e);
                Ok(())
            },
            _ => Err(ApplyError::StructuralMismatch),
        }
    }

    /// Takes the entry under `key` out of a struct and returns its value;
    /// `None`, with the node unchanged, when there is no such entry.
    pub fn struct_remove(&mut self, key: u64) -> (r: Option<Node>)
        ensures
            match old(self)@ {
                Val::Struct(es) => match r {
                    Some(v) => find_key(es, key) >= 0 && v@ == es[find_key(es, key)].1
                        && final(self)@ == Val::Struct(es.remove(find_key(es, key))),
                    None => find_key(es, key) < 0 && final(self)@ == old(self)@,
                },
                _ => r is None && final(self)@ == old(self)@,
            },
    {
        match self {
            Node::Struct(v) => match find_entry(v, key) {
                Some(i) => {
                    proof {
                        lemma_view_entries(v@);
                        lemma_view_entries_remove(v@, i as int);
                    }
                    let e = v.remove(i);
                    Some(e.value)
                },
                None => None,
            },
            _ => None,
        }
    }

    /// The item at `index` of a list; `None` past its end or when the node
    /// is not a list.
    pub fn list_get(&self, index: usize) -> (r: Option<&Node>)
        ensures
            match self@ {
                Val::List(xs) => match r {
                    Some(v) => index < xs.len() && v@ == xs[index as int],
                    None => index >= xs.len(),
                },
                _ => r is None,
            },
    {
        match self {
            Node::List(v) => {
                proof {
                    lemma_view_nodes(v@);
                }
                if index < v.len() {
                    Some(&v[index])
                } else {
                    None
                }
            },
            _ => None,
        }
    }

    /// Replaces the item at `index` of a list. An index past the end, or a
    /// node that is not a list, is a structural mismatch and changes nothing.
    pub fn list_set(&mut self, index: usize, value: Node) -> (r: Result<(), ApplyError>)
        ensures
            match old(self)@ {
                Val::List(xs) => if index < xs.len() {
                    r is Ok && final(self)@ == Val::List(xs.update(index as int, value@))
                } else {
                    r == Err::<(), ApplyError>(ApplyError::StructuralMismatch) && final(self)@
                        == old(self)@
                },
                _ => r == Err::<(), ApplyError>(ApplyError::StructuralMismatch) && final(self)@
                    == old(self)@,
            },
    {
        match self {
            Node::List(v) => {
                proof {
                    lemma_view_nodes(v@);
                }
                if index < v.len() {
                    proof {
                        lemma_view_nodes_update(v@, index as int, value);
                    }
                    v.set(index, value);
                    Ok(())
                } else {
                    Err(ApplyError::StructuralMismatch)
                }
            },
            _ => Err(ApplyError::StructuralMismatch),
        }
    }

    /// Appends `value` to a list; a node that is not a list is a structural
    /// mismatch and changes nothing.
    pub fn list_push(&mut self, value: Node) -> (r: Result<(), ApplyError>)
        ensures
            match old(self)@ {
                Val::List(xs) => r is Ok && final(self)@ == Val::List(xs.push(value@)),
                _ => r == Err::<(), ApplyError>(ApplyError::StructuralMismatch) && final(self)@
                    == old(self)@,
            },
    {
        match self {
            Node::List(v) => {
                proof {
                    lemma_view_nodes_push(v@, value);
                }
                v.push(value);
                Ok(())
            },
            _ => Err(ApplyError::StructuralMismatch),
        }
    }

    /// Shortens a list to `len` items; a list that is not longer is kept. A
    /// node that is not a list is a structural mismatch and changes nothing.
    pub fn list_truncate(&mut self, len: usize) -> (r: Result<(), ApplyError>)
        ensures
            match old(self)@ {
                Val::List(xs) => r is Ok && final(self)@ == Val::List(
                    if len < xs.len() {
                        xs.subrange(0, len as int)
                    } else {
                        xs
                    },
                ),
                _ => r == Err::<(), ApplyError>(ApplyError::StructuralMismatch) && final(self)@
                    == old(self)@,
            },
    {
        match self {
            Node::List(v) => {
                proof {
                    lemma_view_nodes(v@);
                }
                if len < v.len() {
                    proof {
                        lemma_view_nodes_prefix(v@, len as int);
                    }
                    v.truncate(len);
                }
                Ok(())
            },
            _ => Err(ApplyError::StructuralMismatch),
        }
    }
}

} // verus!
