//! Trusted declarations for the insertion-ordered sets and maps of the
//! `indexmap` crate, which carry an operator's declared node sets and the
//! node remappings used when cloning a subgraph onto different nodes.
//!
//! The contents of a set are named by [`id_set_seq`] — the values in
//! insertion order — and of a map by [`id_map_v`]; each wrapper states over
//! those names what the crate's source shows of one method.
use vstd::prelude::*;

verus! {

#[verifier::external_type_specification]
#[verifier::external_body]
#[verifier::reject_recursive_types(T)]
#[verifier::reject_recursive_types(S)]
pub struct ExIndexSet<T, S>(indexmap::IndexSet<T, S>);

#[verifier::external_type_specification]
#[verifier::external_body]
#[verifier::reject_recursive_types(K)]
#[verifier::reject_recursive_types(V)]
#[verifier::reject_recursive_types(S)]
pub struct ExIndexMap<K, V, S>(indexmap::IndexMap<K, V, S>);

/// The values a node-identity set holds, in insertion order.
pub uninterp spec fn id_set_seq(
    s: indexmap::IndexSet<usize, std::collections::hash_map::RandomState>,
) -> Seq<usize>;

/// The key-value pairs a node-identity map holds.
pub uninterp spec fn id_map_v(
    m: indexmap::IndexMap<usize, usize, std::collections::hash_map::RandomState>,
) -> Map<usize, usize>;

/// Relies on indexmap::IndexSet::with_hasher: a fresh set holds nothing.
#[verifier::external_body]
pub(crate) fn id_set_new() -> (r: indexmap::IndexSet<usize>)
    ensures
        id_set_seq(r) == Seq::<usize>::empty(),
{
    indexmap::IndexSet::with_hasher(std::collections::hash_map::RandomState::new())
}

/// Relies on indexmap::IndexSet::insert: a new value is appended at the
/// end; a value already present leaves the set unchanged.
#[verifier::external_body]
pub(crate) fn id_set_insert(s: &mut indexmap::IndexSet<usize>, x: usize) -> (r: bool)
    ensures
        id_set_seq(*final(s)) == if id_set_seq(*old(s)).contains(x) {
            id_set_seq(*old(s))
        } else {
            id_set_seq(*old(s)).push(x)
        },
        r == !id_set_seq(*old(s)).contains(x),
{
    s.insert(x)
}

/// Relies on indexmap::IndexSet::contains: membership.
#[verifier::external_body]
pub(crate) fn id_set_contains(s: &indexmap::IndexSet<usize>, x: usize) -> (r: bool)
    ensures
        r == id_set_seq(*s).contains(x),
{
    s.contains(&x)
}

/// Relies on indexmap::IndexSet::len: the number of values held.
#[verifier::external_body]
pub(crate) fn id_set_len(s: &indexmap::IndexSet<usize>) -> (r: usize)
    ensures
        r == id_set_seq(*s).len(),
{
    s.len()
}

/// Relies on indexmap::IndexSet::get_index: the value at one position of
/// the insertion order.
#[verifier::external_body]
pub(crate) fn id_set_get_index(s: &indexmap::IndexSet<usize>, i: usize) -> (r: Option<usize>)
    ensures
        i < id_set_seq(*s).len() ==> r == Some(id_set_seq(*s)[i as int]),
        i >= id_set_seq(*s).len() ==> r is None,
{
    s.get_index(i).copied()
}

/// Relies on String::push_str: appends the slice onto the end of the
/// string.
#[verifier::external_body]
pub(crate) fn append_str(s: &mut String, t: &str)
    ensures
        (*final(s))@ == old(s)@ + t@,
{
    s.push_str(t)
}

/// Relies on indexmap::IndexMap::with_hasher: a fresh map holds nothing.
#[verifier::external_body]
pub(crate) fn id_map_new() -> (r: indexmap::IndexMap<usize, usize>)
    ensures
        forall|k: usize| !id_map_v(r).contains_key(k),
{
    indexmap::IndexMap::with_hasher(std::collections::hash_map::RandomState::new())
}

/// Relies on indexmap::IndexMap::insert: the key now maps to the value.
#[verifier::external_body]
pub(crate) fn id_map_insert(m: &mut indexmap::IndexMap<usize, usize>, k: usize, v: usize)
    ensures
        id_map_v(*final(m)) == id_map_v(*old(m)).insert(k, v),
{
    m.insert(k, v);
}

/// Relies on indexmap::IndexMap::get: the value under a key, if any.
#[verifier::external_body]
pub(crate) fn id_map_get(m: &indexmap::IndexMap<usize, usize>, k: usize) -> (r: Option<usize>)
    ensures
        id_map_v(*m).contains_key(k) ==> r == Some(id_map_v(*m)[k]),
        !id_map_v(*m).contains_key(k) ==> r is None,
{
    m.get(&k).copied()
}

} // verus!
