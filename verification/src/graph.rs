//! The ordered map that an expansion fills, and what is believed of it.

use vstd::prelude::*;
use indexmap::IndexMap;
use crate::key::ComponentKey;
use crate::config::{TransformConfig, ids};

verus! {

/// One node of an expanded graph, as contracts see it.
pub struct Entry {
    pub key: Seq<char>,
    pub inputs: Seq<Seq<char>>,
    pub node: TransformConfig,
}

/// The ordered map from a key to the inputs and the node under it.
pub type ExpansionMap = IndexMap<ComponentKey, (Vec<String>, TransformConfig)>;

/// `IndexMap` of indexmap, a hash map that keeps its entries in the order
/// in which their keys first came. Nothing inside it is seen here.
#[verifier::external_type_specification]
#[verifier::external_body]
#[verifier::reject_recursive_types(K)]
#[verifier::reject_recursive_types(V)]
#[verifier::reject_recursive_types(S)]
pub struct ExIndexMap<K, V, S>(IndexMap<K, V, S>);

/// The entries that a map holds, in its order. This is a name for what
/// `IndexMap` holds: what is known of it is what `graph_new`,
/// `graph_insert` and `graph_extend` say.
pub uninterp spec fn graph_entries(m: IndexMap<ComponentKey, (Vec<String>, TransformConfig)>) -> Seq<Entry>;

/// Whether some entry of `s` stands under `key`.
pub open spec fn has_key(s: Seq<Entry>, key: Seq<char>) -> bool {
    exists|i: int| 0 <= i < s.len() && #[trigger] s[i].key == key
}

/// A position of `key` in `s`, where it has one.
pub open spec fn key_position(s: Seq<Entry>, key: Seq<char>) -> int {
    choose|i: int| 0 <= i < s.len() && #[trigger] s[i].key == key
}

/// `s` after `e` was put into it: in the place of the entry under the same
/// key if there is one, else behind all others.
pub open spec fn put(s: Seq<Entry>, e: Entry) -> Seq<Entry> {
    if has_key(s, e.key) {
        s.update(key_position(s, e.key), e)
    } else {
        s.push(e)
    }
}

/// `s` after each entry of `t` was put into it, from the first to the last.
pub open spec fn put_all(s: Seq<Entry>, t: Seq<Entry>) -> Seq<Entry>
    decreases t.len(),
{
    if t.len() == 0 {
        s
    } else {
        put(put_all(s, t.drop_last()), t.last())
    }
}

/// No two entries of `s` stand under one key.
pub open spec fn distinct_keys(s: Seq<Entry>) -> bool {
    forall|i: int, j: int| 0 <= i < j < s.len() ==> (#[trigger] s[i]).key != (#[trigger] s[j]).key
}

/// `IndexMap::new` of indexmap: a map without entries. Believed, not proved.
#[verifier::external_body]
pub(crate) fn graph_new() -> (m: ExpansionMap)
    ensures
        graph_entries(m) == Seq::<Entry>::empty(),
{
    IndexMap::new()
}

/// `IndexMap::insert` of indexmap: a key that the map holds keeps its place
/// and gets the new value; another key goes behind all entries. The map
/// takes two keys for one when their paths are equal, which is how
/// `ComponentKey` compares and hashes. Believed, not proved.
#[verifier::external_body]
pub(crate) fn graph_insert(
    m: &mut ExpansionMap,
    key: ComponentKey,
    inputs: Vec<String>,
    node: TransformConfig,
)
    ensures
        graph_entries(*final(m)) == put(
            graph_entries(*old(m)),
            (Entry { key: key@, inputs: ids(inputs@), node: node }),
        ),
{
    m.insert(key, (inputs, node));
}

/// `Extend::extend` of indexmap's `IndexMap`: inserts the entries of the
/// other map one by one, in its order. Believed, not proved.
#[verifier::external_body]
pub(crate) fn graph_extend(m: &mut ExpansionMap, other: ExpansionMap)
    ensures
        graph_entries(*final(m)) == put_all(graph_entries(*old(m)), graph_entries(other)),
{
    m.extend(other);
}

} // verus!
