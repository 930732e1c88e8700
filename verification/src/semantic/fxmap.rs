//! Operations on rustc-hash's `FxHashMap`, stated over the map's contents.

use rustc_hash::{FxBuildHasher, FxHashMap};
use std::hash::Hash;
use vstd::prelude::*;

use crate::semantic::ast::Symbol;
use crate::semantic::nameres::{FnId, VarId};
use crate::semantic::node::NodeId;

verus! {

/// rustc-hash's `FxBuildHasher`, the hasher of every `FxHashMap`.
#[verifier::external_type_specification]
#[verifier::external_body]
pub struct ExFxBuildHasher(FxBuildHasher);

/// The key types of the front end's maps. Each has a derived `Eq` and a
/// derived `Hash` over plain integers, so equal keys hash alike and `==` is
/// equality of values.
pub(crate) trait PlainKey: Eq + Hash + Copy {

}

impl PlainKey for Symbol {

}

impl PlainKey for NodeId {

}

impl PlainKey for VarId {

}

impl PlainKey for FnId {

}

/// Calls `HashMap::get` on an `FxHashMap`: the value that the map holds for
/// `k`, if it holds one.
#[verifier::external_body]
pub(crate) fn fx_get<'a, K: PlainKey, V>(m: &'a FxHashMap<K, V>, k: &K) -> (r: Option<&'a V>)
    ensures
        match r {
            Some(v) => m@.contains_key(*k) && m@[*k] == *v,
            None => !m@.contains_key(*k),
        },
{
    m.get(k)
}

/// Calls `HashMap::insert` on an `FxHashMap`: afterwards the map holds `v`
/// for `k` and is otherwise unchanged; the value it held before for `k`, if
/// any, is returned.
#[verifier::external_body]
pub(crate) fn fx_insert<K: PlainKey, V>(m: &mut FxHashMap<K, V>, k: K, v: V) -> (r: Option<V>)
    ensures
        final(m)@ == old(m)@.insert(k, v),
        match r {
            Some(o) => old(m)@.contains_key(k) && o == old(m)@[k],
            None => !old(m)@.contains_key(k),
        },
{
    m.insert(k, v)
}

} // verus!
