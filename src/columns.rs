use std::sync::Arc;
use vec_map::VecMap;
use vstd::prelude::*;

use crate::value::Entry;

verus! {

#[verifier::external_type_specification]
#[verifier::external_body]
#[verifier::reject_recursive_types(V)]
pub struct ExVecMap<V>(VecMap<V>);

/// The tag-to-entry associations that a column map holds.
pub uninterp spec fn columns_of(m: VecMap<Arc<Entry>>) -> Map<usize, Arc<Entry>>;

/// The largest tag that a column map accepts.
pub const MAX_TAG: usize = 0x7fff_ffff;

/// Relies on `Arc::clone`: the new handle points at the same value.
#[verifier::external_body]
pub(crate) fn share(e: &Arc<Entry>) -> (r: Arc<Entry>)
    ensures
        r == *e,
{
    Arc::clone(e)
}

/// Relies on `VecMap::new`: the map starts empty.
#[verifier::external_body]
pub(crate) fn columns_new() -> (r: VecMap<Arc<Entry>>)
    ensures
        forall|k: usize| !#[trigger] columns_of(r).contains_key(k),
{
    VecMap::new()
}

/// Relies on `VecMap::insert`: binds `key` to `value`, replacing what it held. The map grows
/// its backing vector to `key + 1`, so the key is bounded.
#[verifier::external_body]
pub(crate) fn columns_insert(m: &mut VecMap<Arc<Entry>>, key: usize, value: Arc<Entry>)
    requires
        key <= MAX_TAG,
    ensures
        columns_of(*final(m)) == columns_of(*old(m)).insert(key, value),
{
    m.insert(key, value);
}

/// Relies on `VecMap::get`: the value bound to `key`, if any.
#[verifier::external_body]
pub(crate) fn columns_get(m: &VecMap<Arc<Entry>>, key: usize) -> (r: Option<&Arc<Entry>>)
    ensures
        r.is_some() == columns_of(*m).contains_key(key),
        r matches Some(e) ==> *e == columns_of(*m)[key],
{
    m.get(key)
}

/// Relies on `VecMap::contains_key`: whether `key` is bound.
#[verifier::external_body]
pub(crate) fn columns_contains(m: &VecMap<Arc<Entry>>, key: usize) -> (r: bool)
    ensures
        r == columns_of(*m).contains_key(key),
{
    m.contains_key(key)
}

/// Relies on `VecMap::remove`: unbinds `key` and returns what it held.
#[verifier::external_body]
pub(crate) fn columns_remove(m: &mut VecMap<Arc<Entry>>, key: usize) -> (r: Option<Arc<Entry>>)
    ensures
        columns_of(*final(m)) == columns_of(*old(m)).remove(key),
        r.is_some() == columns_of(*old(m)).contains_key(key),
        r matches Some(e) ==> e == columns_of(*old(m))[key],
{
    m.remove(key)
}

/// Whether `pairs` lists the associations of `cols` once each, in ascending order of keys.
pub open spec fn lists_in_order(pairs: Seq<(usize, Arc<Entry>)>, cols: Map<usize, Arc<Entry>>) -> bool {
    &&& forall|i: int, j: int| 0 <= i < j < pairs.len() ==> pairs[i].0 < pairs[j].0
    &&& forall|i: int|
        0 <= i < pairs.len() ==> cols.contains_key(#[trigger] pairs[i].0) && cols[pairs[i].0]
            == pairs[i].1
    &&& forall|k: usize| cols.contains_key(k) ==> exists|i: int| 0 <= i < pairs.len() && #[trigger] pairs[i].0 == k
}

/// Relies on `VecMap::drain`: empties the map, handing out its associations in ascending
/// order of keys.
#[verifier::external_body]
pub(crate) fn columns_drain(m: &mut VecMap<Arc<Entry>>) -> (r: Vec<(usize, Arc<Entry>)>)
    ensures
        forall|k: usize| !#[trigger] columns_of(*final(m)).contains_key(k),
        lists_in_order(r@, columns_of(*old(m))),
{
    m.drain().collect()
}

/// Relies on `VecMap::iter`: the associations in ascending order of keys, each handle shared.
#[verifier::external_body]
pub(crate) fn columns_list(m: &VecMap<Arc<Entry>>) -> (r: Vec<(usize, Arc<Entry>)>)
    ensures
        lists_in_order(r@, columns_of(*m)),
{
    m.iter().map(|(k, v)| (k, Arc::clone(v))).collect()
}

/// Relies on `VecMap::clone`: a map with the same associations, each handle shared.
#[verifier::external_body]
pub(crate) fn columns_clone(m: &VecMap<Arc<Entry>>) -> (r: VecMap<Arc<Entry>>)
    ensures
        columns_of(r) == columns_of(*m),
{
    m.clone()
}

} // verus!
