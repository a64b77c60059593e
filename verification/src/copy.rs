//! Copies of configurations, and what a copy shares with what it was made
//! from.

use vstd::prelude::*;
use crate::key::{joined, decimal};
use crate::config::{
    TransformConfig, PipelineConfig, EventTypeConfig, PipelinesConfig, ids, find_name,
    pipeline_names,
};
use crate::graph::{Entry, put, put_all};
use crate::expand::{
    Chain, chain_from, pipeline_chain, pipeline_graph, walk_from, event_type_graph,
    pipelines_graph,
};
use crate::names::{walk_order, copy_strings};
use crate::nesting::{nestable_node, nestable_nodes, nestable_items, nestable_pipelines};

verus! {

/// Whether two nodes are configured alike.
pub open spec fn same_node(a: TransformConfig, b: TransformConfig) -> bool
    decreases a,
{
    match a {
        TransformConfig::Pipelines(p) => b is Pipelines && same_pipelines(p, b->Pipelines_0),
        _ => a == b,
    }
}

/// Whether two pipelines have the same name and filter and like transforms.
pub open spec fn same_pipeline(a: PipelineConfig, b: PipelineConfig) -> bool
    decreases a,
{
    &&& a.name@ == b.name@
    &&& a.filter == b.filter
    &&& a.transforms@.len() == b.transforms@.len()
    &&& forall|i: int|
        0 <= i < a.transforms@.len() ==> same_node(#[trigger] a.transforms@[i], b.transforms@[i])
}

/// Whether two orders name the same pipelines in the same order.
pub open spec fn same_order(a: Option<Vec<String>>, b: Option<Vec<String>>) -> bool {
    match a {
        Some(x) => b is Some && ids(x@) == ids(b->Some_0@),
        None => b is None,
    }
}

/// Whether two event types have the same order and like pipelines under
/// the same names.
pub open spec fn same_event_type(a: EventTypeConfig, b: EventTypeConfig) -> bool
    decreases a,
{
    &&& same_order(a.order, b.order)
    &&& a.pipelines@.len() == b.pipelines@.len()
    &&& forall|i: int|
        0 <= i < a.pipelines@.len() ==> (#[trigger] a.pipelines@[i]).0@ == b.pipelines@[i].0@
            && same_pipeline(a.pipelines@[i].1, b.pipelines@[i].1)
}

/// Whether two pipelines transforms are alike on both sides.
pub open spec fn same_pipelines(a: PipelinesConfig, b: PipelinesConfig) -> bool
    decreases a,
{
    same_event_type(a.logs, b.logs) && same_event_type(a.metrics, b.metrics)
}

fn copy_nodes(ts: &Vec<TransformConfig>) -> (out: Vec<TransformConfig>)
    ensures
        out@.len() == ts@.len(),
        forall|j: int| 0 <= j < ts@.len() ==> same_node(#[trigger] ts@[j], out@[j]),
    decreases ts@,
{
    let mut out: Vec<TransformConfig> = Vec::new();
    let mut i: usize = 0;
    while i < ts.len()
        invariant
            i <= ts.len(),
            out@.len() == i,
            forall|j: int| 0 <= j < i ==> same_node(#[trigger] ts@[j], out@[j]),
        decreases ts.len() - i,
    {
        let copy = ts[i].duplicate();
        out.push(copy);
        i += 1;
    }
    out
}

fn copy_items(ps: &Vec<(String, PipelineConfig)>) -> (out: Vec<(String, PipelineConfig)>)
    ensures
        out@.len() == ps@.len(),
        forall|j: int|
            0 <= j < ps@.len() ==> (#[trigger] ps@[j]).0@ == out@[j].0@ && same_pipeline(
                ps@[j].1,
                out@[j].1,
            ),
    decreases ps@,
{
    let mut out: Vec<(String, PipelineConfig)> = Vec::new();
    let mut i: usize = 0;
    while i < ps.len()
        invariant
            i <= ps.len(),
            out@.len() == i,
            forall|j: int|
                0 <= j < i ==> (#[trigger] ps@[j]).0@ == out@[j].0@ && same_pipeline(
                    ps@[j].1,
                    out@[j].1,
                ),
        decreases ps.len() - i,
    {
        let copy = ps[i].1.duplicate();
        out.push((ps[i].0.clone(), copy));
        i += 1;
    }
    out
}

impl TransformConfig {
    /// An independent copy of this node.
    pub fn duplicate(&self) -> (copy: Self)
        ensures
            same_node(*self, copy),
        decreases self,
    {
        match self {
            TransformConfig::Noop => TransformConfig::Noop,
            TransformConfig::EventRouter => TransformConfig::EventRouter,
            TransformConfig::PipelineFilter(c) => TransformConfig::PipelineFilter(c.clone()),
            TransformConfig::Plain(t) => TransformConfig::Plain(t.clone()),
            TransformConfig::Pipelines(p) => TransformConfig::Pipelines(p.duplicate()),
        }
    }
}

impl PipelineConfig {
    /// An independent copy of this pipeline.
    pub fn duplicate(&self) -> (copy: Self)
        ensures
            same_pipeline(*self, copy),
        decreases self,
    {
        let transforms = copy_nodes(&self.transforms);
        let filter = match &self.filter {
            Some(c) => Some(c.clone()),
            None => None,
        };
        PipelineConfig { name: self.name.clone(), filter, transforms }
    }
}

impl EventTypeConfig {
    /// An independent copy of this event type.
    pub fn duplicate(&self) -> (copy: Self)
        ensures
            same_event_type(*self, copy),
        decreases self,
    {
        let pipelines = copy_items(&self.pipelines);
        let order = match &self.order {
            Some(o) => Some(copy_strings(o.as_slice())),
            None => None,
        };
        EventTypeConfig { order, pipelines }
    }
}

impl PipelinesConfig {
    /// An independent copy of this transform.
    pub fn duplicate(&self) -> (copy: Self)
        ensures
            same_pipelines(*self, copy),
        decreases self,
    {
        PipelinesConfig { logs: self.logs.duplicate(), metrics: self.metrics.duplicate() }
    }
}

impl Clone for TransformConfig {
    fn clone(&self) -> (copy: Self)
        ensures
            same_node(*self, copy),
    {
        self.duplicate()
    }
}

impl Clone for PipelineConfig {
    fn clone(&self) -> (copy: Self)
        ensures
            same_pipeline(*self, copy),
    {
        self.duplicate()
    }
}

impl Clone for EventTypeConfig {
    fn clone(&self) -> (copy: Self)
        ensures
            same_event_type(*self, copy),
    {
        self.duplicate()
    }
}

impl Clone for PipelinesConfig {
    fn clone(&self) -> (copy: Self)
        ensures
            same_pipelines(*self, copy),
    {
        self.duplicate()
    }
}

proof fn same_names_are_found_alike(
    a: Seq<(String, PipelineConfig)>,
    b: Seq<(String, PipelineConfig)>,
    name: Seq<char>,
    from: int,
)
    requires
        a.len() == b.len(),
        forall|i: int| 0 <= i < a.len() ==> (#[trigger] a[i]).0@ == b[i].0@,
    ensures
        find_name(a, name, from) == find_name(b, name, from),
    decreases a.len() - from,
{
    if 0 <= from < a.len() {
        assert(a[from].0@ == b[from].0@);
        if a[from].0@ != name {
            same_names_are_found_alike(a, b, name, from + 1);
        }
    }
}

proof fn like_chains_are_equal(
    a: Seq<TransformConfig>,
    b: Seq<TransformConfig>,
    key: Seq<char>,
    i: int,
    acc: Chain,
)
    requires
        a.len() == b.len(),
        forall|j: int| 0 <= j < a.len() ==> same_node(#[trigger] a[j], b[j]),
    ensures
        chain_from(a, key, i, acc) == chain_from(b, key, i, acc),
    decreases a, a.len() - i,
{
    if 0 <= i < a.len() {
        let tk = joined(key, decimal(i as nat));
        assert(same_node(a[i], b[i]));
        let graph = match a[i] {
            TransformConfig::Pipelines(p) => put_all(
                acc.graph,
                pipelines_graph(p, tk, acc.previous),
            ),
            _ => put(acc.graph, (Entry { key: tk, inputs: acc.previous, node: a[i] })),
        };
        match a[i] {
            TransformConfig::Pipelines(p) => {
                like_pipelines_expand_alike(p, b[i]->Pipelines_0, tk, acc.previous);
            },
            _ => {},
        }
        like_chains_are_equal(a, b, key, i + 1, (Chain { graph: graph, previous: seq![tk] }));
    }
}

/// Pipelines that are alike expand to the same graph, with the same
/// references to their output.
pub proof fn like_pipeline_expands_alike(
    a: PipelineConfig,
    b: PipelineConfig,
    key: Seq<char>,
    inputs: Seq<Seq<char>>,
)
    requires
        same_pipeline(a, b),
    ensures
        pipeline_chain(a, key, inputs) == pipeline_chain(b, key, inputs),
        pipeline_graph(a, key, inputs) == pipeline_graph(b, key, inputs),
    decreases a,
{
    match a.filter {
        Some(condition) => {
            let first = Entry {
                key: crate::expand::filter_key(key),
                inputs: inputs,
                node: TransformConfig::PipelineFilter(condition),
            };
            let start = Chain {
                graph: put(Seq::empty(), first),
                previous: seq![joined(crate::expand::filter_key(key), "truthy"@)],
            };
            like_chains_are_equal(a.transforms@, b.transforms@, key, 0, start);
        },
        None => {
            let start = Chain { graph: Seq::empty(), previous: inputs };
            like_chains_are_equal(a.transforms@, b.transforms@, key, 0, start);
        },
    }
}

proof fn like_walks_are_equal(
    a: Seq<(String, PipelineConfig)>,
    b: Seq<(String, PipelineConfig)>,
    key: Seq<char>,
    names: Seq<Seq<char>>,
    i: int,
    acc: Chain,
)
    requires
        a.len() == b.len(),
        forall|j: int|
            0 <= j < a.len() ==> (#[trigger] a[j]).0@ == b[j].0@ && same_pipeline(a[j].1, b[j].1),
    ensures
        walk_from(a, key, names, i, acc) == walk_from(b, key, names, i, acc),
    decreases a, names.len() - i,
{
    if 0 <= i < names.len() {
        same_names_are_found_alike(a, b, names[i], 0);
        let at = find_name(a, names[i], 0);
        if 0 <= at < a.len() {
            let pk = joined(key, names[i]);
            assert(same_pipeline(a[at].1, b[at].1));
            like_pipeline_expands_alike(a[at].1, b[at].1, pk, acc.previous);
            let graph = put_all(acc.graph, pipeline_graph(a[at].1, pk, acc.previous));
            like_walks_are_equal(
                a,
                b,
                key,
                names,
                i + 1,
                (Chain { graph: graph, previous: seq![pk] }),
            );
        } else {
            like_walks_are_equal(a, b, key, names, i + 1, acc);
        }
    }
}

/// Event types that are alike expand to the same graph.
pub proof fn like_event_type_expands_alike(
    a: EventTypeConfig,
    b: EventTypeConfig,
    key: Seq<char>,
    inputs: Seq<Seq<char>>,
)
    requires
        same_event_type(a, b),
    ensures
        walk_order(a) == walk_order(b),
        event_type_graph(a, key, inputs) == event_type_graph(b, key, inputs),
    decreases a,
{
    assert(pipeline_names(a.pipelines@) =~= pipeline_names(b.pipelines@)) by {
        assert forall|i: int| 0 <= i < a.pipelines@.len() implies pipeline_names(a.pipelines@)[i]
            == pipeline_names(b.pipelines@)[i] by {
            assert(a.pipelines@[i].0@ == b.pipelines@[i].0@);
        }
    }
    let start = Chain { graph: Seq::empty(), previous: inputs };
    like_walks_are_equal(a.pipelines@, b.pipelines@, key, walk_order(a), 0, start);
}

/// Pipelines transforms that are alike expand to the same graph: a copy,
/// however it was made, stands for what it was made from.
pub proof fn like_pipelines_expand_alike(
    a: PipelinesConfig,
    b: PipelinesConfig,
    key: Seq<char>,
    inputs: Seq<Seq<char>>,
)
    requires
        same_pipelines(a, b),
    ensures
        pipelines_graph(a, key, inputs) == pipelines_graph(b, key, inputs),
    decreases a,
{
    like_event_type_expands_alike(
        a.logs,
        b.logs,
        crate::expand::logs_key(key),
        seq![joined(crate::expand::router_key(key), "logs"@)],
    );
    like_event_type_expands_alike(
        a.metrics,
        b.metrics,
        crate::expand::metrics_key(key),
        seq![joined(crate::expand::router_key(key), "metrics"@)],
    );
}

proof fn like_nodes_nest_alike(
    a: Seq<TransformConfig>,
    b: Seq<TransformConfig>,
    i: int,
    parents: Set<Seq<char>>,
)
    requires
        a.len() == b.len(),
        forall|j: int| 0 <= j < a.len() ==> same_node(#[trigger] a[j], b[j]),
    ensures
        nestable_nodes(a, i, parents) == nestable_nodes(b, i, parents),
    decreases a, a.len() - i,
{
    if 0 <= i < a.len() {
        assert(same_node(a[i], b[i]));
        match a[i] {
            TransformConfig::Pipelines(p) => {
                like_pipelines_nest_alike(p, b[i]->Pipelines_0, parents);
            },
            _ => {},
        }
        assert(nestable_node(a[i], parents) == nestable_node(b[i], parents));
        like_nodes_nest_alike(a, b, i + 1, parents);
    }
}

proof fn like_items_nest_alike(
    a: Seq<(String, PipelineConfig)>,
    b: Seq<(String, PipelineConfig)>,
    i: int,
    parents: Set<Seq<char>>,
)
    requires
        a.len() == b.len(),
        forall|j: int|
            0 <= j < a.len() ==> (#[trigger] a[j]).0@ == b[j].0@ && same_pipeline(a[j].1, b[j].1),
    ensures
        nestable_items(a, i, parents) == nestable_items(b, i, parents),
    decreases a, a.len() - i,
{
    if 0 <= i < a.len() {
        assert(same_pipeline(a[i].1, b[i].1));
        like_nodes_nest_alike(a[i].1.transforms@, b[i].1.transforms@, 0, parents);
        like_items_nest_alike(a, b, i + 1, parents);
    }
}

/// Pipelines transforms that are alike may stand below the same parents.
pub proof fn like_pipelines_nest_alike(
    a: PipelinesConfig,
    b: PipelinesConfig,
    parents: Set<Seq<char>>,
)
    requires
        same_pipelines(a, b),
    ensures
        nestable_pipelines(a, parents) == nestable_pipelines(b, parents),
    decreases a,
{
    like_items_nest_alike(a.logs.pipelines@, b.logs.pipelines@, 0, parents.insert("pipelines"@));
}

} // verus!
