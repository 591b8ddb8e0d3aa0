use multimap::MultiMap;
use vstd::prelude::*;

verus! {

#[verifier::external_type_specification]
#[verifier::external_body]
#[verifier::reject_recursive_types(K)]
#[verifier::reject_recursive_types(V)]
#[verifier::reject_recursive_types(S)]
pub struct ExMultiMap<K, V, S>(MultiMap<K, V, S>);

/// Symbol indices of an object, by name.
pub type SymbolIndex = MultiMap<Vec<u8>, usize>;

/// What a symbol index holds: for each name, the list of the values
/// inserted under it, in insertion order.
pub uninterp spec fn index_lists(m: SymbolIndex) -> Map<Seq<u8>, Seq<usize>>;

/// Relies on `MultiMap::new`: a new multimap holds no key.
#[verifier::external_body]
pub(crate) fn index_new() -> (r: SymbolIndex)
    ensures
        forall|k: Seq<u8>| !index_lists(r).contains_key(k),
{
    MultiMap::new()
}

/// Relies on `MultiMap::insert`: the value is pushed to the key's list, or
/// starts a new list when the key is absent.
#[verifier::external_body]
pub(crate) fn index_insert(m: &mut SymbolIndex, k: Vec<u8>, v: usize)
    ensures
        index_lists(*final(m)) == index_lists(*old(m)).insert(
            k@,
            if index_lists(*old(m)).contains_key(k@) {
                index_lists(*old(m))[k@].push(v)
            } else {
                seq![v]
            },
        ),
{
    m.insert(k, v)
}

/// Relies on `MultiMap::get_vec`: the list of values of a key, if the key
/// is present.
#[verifier::external_body]
pub(crate) fn index_get<'a>(m: &'a SymbolIndex, k: &[u8]) -> (r: Option<&'a Vec<usize>>)
    ensures
        match r {
            Some(list) => index_lists(*m).contains_key(k@) && list@ == index_lists(*m)[k@],
            None => !index_lists(*m).contains_key(k@),
        },
{
    m.get_vec(k)
}

} // verus!
