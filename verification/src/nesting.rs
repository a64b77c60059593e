//! The rule that a pipelines transform does not stand inside another one.

use vstd::prelude::*;
use vstd::string::StringExecFns;
use crate::config::{TransformConfig, PipelineConfig, PipelinesConfig, ids};
use crate::names::copy_strings;

verus! {

/// Whether `t` may stand below transforms of the kinds `parents`.
pub open spec fn nestable_node(t: TransformConfig, parents: Set<Seq<char>>) -> bool
    decreases t,
{
    match t {
        TransformConfig::Pipelines(p) => nestable_pipelines(p, parents),
        _ => true,
    }
}

/// Whether the transforms of `ts` from position `i` on may all stand below
/// `parents`.
pub open spec fn nestable_nodes(ts: Seq<TransformConfig>, i: int, parents: Set<Seq<char>>) -> bool
    decreases ts, ts.len() - i,
{
    if 0 <= i < ts.len() {
        nestable_node(ts[i], parents) && nestable_nodes(ts, i + 1, parents)
    } else {
        true
    }
}

/// Whether the transforms of the pipelines of `ps` from position `i` on
/// may all stand below `parents`.
pub open spec fn nestable_items(
    ps: Seq<(String, PipelineConfig)>,
    i: int,
    parents: Set<Seq<char>>,
) -> bool
    decreases ps, ps.len() - i,
{
    if 0 <= i < ps.len() {
        nestable_nodes(ps[i].1.transforms@, 0, parents) && nestable_items(ps, i + 1, parents)
    } else {
        true
    }
}

/// Whether `p` may stand below `parents`: no pipelines transform is among
/// them, and every transform of its logs pipelines may stand below them
/// and `p`. The metrics pipelines are not looked at.
pub open spec fn nestable_pipelines(p: PipelinesConfig, parents: Set<Seq<char>>) -> bool
    decreases p,
{
    !parents.contains("pipelines"@) && nestable_items(
        p.logs.pipelines@,
        0,
        parents.insert("pipelines"@),
    )
}

/// What `nestable` says of a pipelines transform inside another one.
pub open spec fn nested_message() -> Seq<char> {
    "Pipelines transform shouldn't be nested in a pipelines transform."@
}

fn holds(names: &[String], wanted: &String) -> (r: bool)
    ensures
        r == ids(names@).to_set().contains(wanted@),
{
    let mut i: usize = 0;
    while i < names.len()
        invariant
            i <= names.len(),
            forall|j: int| 0 <= j < i ==> ids(names@)[j] != wanted@,
        decreases names.len() - i,
    {
        if names[i] == *wanted {
            assert(ids(names@)[i as int] == wanted@);
            assert(ids(names@).contains(wanted@));
            return true;
        }
        i += 1;
    }
    assert(!ids(names@).contains(wanted@));
    false
}

fn nodes_nestable(ts: &Vec<TransformConfig>, parents: &Vec<String>) -> (r: bool)
    ensures
        r == nestable_nodes(ts@, 0, ids(parents@).to_set()),
    decreases ts@,
{
    let mut i: usize = 0;
    while i < ts.len()
        invariant
            i <= ts.len(),
            nestable_nodes(ts@, i as int, ids(parents@).to_set()) == nestable_nodes(
                ts@,
                0,
                ids(parents@).to_set(),
            ),
        decreases ts.len() - i,
    {
        let here = match &ts[i] {
            TransformConfig::Pipelines(p) => p.allowed_below(parents.as_slice()),
            _ => true,
        };
        assert(here == nestable_node(ts@[i as int], ids(parents@).to_set()));
        if !here {
            return false;
        }
        i += 1;
    }
    true
}

fn items_nestable(ps: &Vec<(String, PipelineConfig)>, parents: &Vec<String>) -> (r: bool)
    ensures
        r == nestable_items(ps@, 0, ids(parents@).to_set()),
    decreases ps@,
{
    let mut i: usize = 0;
    while i < ps.len()
        invariant
            i <= ps.len(),
            nestable_items(ps@, i as int, ids(parents@).to_set()) == nestable_items(
                ps@,
                0,
                ids(parents@).to_set(),
            ),
        decreases ps.len() - i,
    {
        if !nodes_nestable(&ps[i].1.transforms, parents) {
            return false;
        }
        i += 1;
    }
    true
}

impl PipelinesConfig {
    /// Whether this transform may stand below transforms of the kinds
    /// `parents`.
    pub fn allowed_below(&self, parents: &[String]) -> (r: bool)
        ensures
            r == nestable_pipelines(*self, ids(parents@).to_set()),
        decreases self,
    {
        let kind = String::from_str("pipelines");
        if holds(parents, &kind) {
            false
        } else {
            let mut nodes = copy_strings(parents);
            nodes.push(kind);
            proof {
                let a = ids(nodes@);
                let b = ids(parents@);
                assert(a =~= b.push("pipelines"@));
                assert forall|s: Seq<char>| a.to_set().contains(s) == b.to_set().insert(
                    "pipelines"@,
                ).contains(s) by {
                    if a.contains(s) {
                        let j = choose|j: int| 0 <= j < a.len() && a[j] == s;
                        if j < b.len() {
                            assert(b[j] == s);
                            assert(b.contains(s));
                        }
                    }
                    if b.contains(s) {
                        let j = choose|j: int| 0 <= j < b.len() && b[j] == s;
                        assert(a[j] == s);
                    }
                    if s == "pipelines"@ {
                        assert(a[b.len() as int] == s);
                    }
                }
                assert(a.to_set() =~= b.to_set().insert("pipelines"@));
            }
            items_nestable(&self.logs.pipelines, &nodes)
        }
    }

    /// Fails where a pipelines transform stands inside another one.
    pub fn nestable(&self, parents: &[String]) -> (r: Result<(), String>)
        ensures
            r is Ok <==> nestable_pipelines(*self, ids(parents@).to_set()),
            r is Err ==> r->Err_0@ == nested_message(),
    {
        if self.allowed_below(parents) {
            Ok(())
        } else {
            Err(String::from_str("Pipelines transform shouldn't be nested in a pipelines transform."))
        }
    }
}

impl TransformConfig {
    /// Fails where a pipelines transform stands inside another one.
    pub fn nestable(&self, parents: &[String]) -> (r: Result<(), String>)
        ensures
            r is Ok <==> nestable_node(*self, ids(parents@).to_set()),
            r is Err ==> r->Err_0@ == nested_message(),
    {
        match self {
            TransformConfig::Pipelines(p) => p.nestable(parents),
            _ => Ok(()),
        }
    }
}

} // verus!
