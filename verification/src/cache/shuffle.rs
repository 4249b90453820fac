//! The numbered folders from which a random one is picked.

use dashmap::DashMap;
use vstd::prelude::*;

verus! {

/// A concurrent map.
#[verifier::external_type_specification]
#[verifier::external_body]
#[verifier::reject_recursive_types(K)]
#[verifier::reject_recursive_types(V)]
#[verifier::reject_recursive_types(S)]
pub struct ExDashMap<K, V, S>(DashMap<K, V, S>);

/// What a map from numbers to texts holds.
pub uninterp spec fn numbered_texts(m: DashMap<usize, String>) -> Map<usize, Seq<char>>;

/// `DashMap::insert`: the value is put under the key, and the one that was there comes back.
#[verifier::external_body]
pub(crate) fn insert_numbered(m: &mut DashMap<usize, String>, k: usize, v: String) -> (r: Option<
    String,
>)
    ensures
        numbered_texts(*final(m)) == numbered_texts(*old(m)).insert(k, v@),
        match r {
            Some(w) => numbered_texts(*old(m)).contains_key(k) && numbered_texts(*old(m))[k] == w@,
            None => !numbered_texts(*old(m)).contains_key(k),
        },
{
    m.insert(k, v)
}

/// `DashMap::get`: the value under the key, copied, if there is one.
#[verifier::external_body]
pub(crate) fn get_numbered(m: &DashMap<usize, String>, k: usize) -> (r: Option<String>)
    ensures
        match r {
            Some(w) => numbered_texts(*m).contains_key(k) && numbered_texts(*m)[k] == w@,
            None => !numbered_texts(*m).contains_key(k),
        },
{
    m.get(&k).map(|v| v.value().clone())
}

/// `DashMap::len`: the number of keys.
#[verifier::external_body]
pub(crate) fn count_numbered(m: &DashMap<usize, String>) -> (n: usize)
    ensures
        n == numbered_texts(*m).dom().len(),
{
    m.len()
}

} // verus!
