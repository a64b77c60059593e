//! Expansion of pipelines, event types and the pipelines transform into an
//! ordered graph.

use vstd::prelude::*;
use vstd::string::StringExecFns;
use crate::key::{ComponentKey, joined, decimal};
use crate::config::{
    TransformConfig, PipelineConfig, EventTypeConfig, PipelinesConfig, ids, find_name,
};
use crate::graph::{
    Entry, ExpansionMap, put, put_all, distinct_keys, graph_entries, graph_new, graph_insert,
    graph_extend,
};
use crate::names::{walk_order, copy_strings};
use crate::laws::{
    ends_with, pipeline_alias_is_last, event_type_alias_is_last, pipelines_alias_is_last,
    pipeline_keys_are_distinct, event_type_keys_are_distinct, pipelines_keys_are_distinct,
};
use crate::wiring::{
    wired, tidy_pipeline, tidy_event_type, tidy_pipelines, pipeline_is_wired, event_type_is_wired,
    pipelines_is_wired,
};

verus! {

/// A graph under construction, and the references to the output of what
/// was added to it last.
pub struct Chain {
    pub graph: Seq<Entry>,
    pub previous: Seq<Seq<char>>,
}

/// `acc` after the transforms of `ts` from position `i` on were added,
/// each under `key` joined with its position and fed by the one before it.
pub open spec fn chain_from(ts: Seq<TransformConfig>, key: Seq<char>, i: int, acc: Chain) -> Chain
    decreases ts, ts.len() - i,
{
    if 0 <= i < ts.len() {
        let tk = joined(key, decimal(i as nat));
        let graph = match ts[i] {
            TransformConfig::Pipelines(p) => put_all(
                acc.graph,
                pipelines_graph(p, tk, acc.previous),
            ),
            _ => put(acc.graph, (Entry { key: tk, inputs: acc.previous, node: ts[i] })),
        };
        chain_from(ts, key, i + 1, (Chain { graph: graph, previous: seq![tk] }))
    } else {
        acc
    }
}

/// The key of the filter of the pipeline under `key`.
pub open spec fn filter_key(key: Seq<char>) -> Seq<char> {
    joined(key, "filter"@)
}

/// The graph of one pipeline under `key` fed by `inputs`, with the
/// references that carry its output: behind a filter, the end of the chain
/// and the filter's `falsy` output; else what feeds the alias under `key`.
pub open spec fn pipeline_chain(p: PipelineConfig, key: Seq<char>, inputs: Seq<Seq<char>>) -> Chain
    decreases p, 0int,
{
    match p.filter {
        Some(condition) => {
            let first = Entry {
                key: filter_key(key),
                inputs: inputs,
                node: TransformConfig::PipelineFilter(condition),
            };
            let start = Chain {
                graph: put(Seq::empty(), first),
                previous: seq![joined(filter_key(key), "truthy"@)],
            };
            let body = chain_from(p.transforms@, key, 0, start);
            Chain {
                graph: body.graph,
                previous: body.previous.push(joined(filter_key(key), "falsy"@)),
            }
        },
        None => {
            let start = Chain { graph: Seq::empty(), previous: inputs };
            let body = chain_from(p.transforms@, key, 0, start);
            Chain {
                graph: put(
                    body.graph,
                    (Entry { key: key, inputs: body.previous, node: TransformConfig::Noop }),
                ),
                previous: body.previous,
            }
        },
    }
}

/// The graph of one pipeline under `key` fed by `inputs`.
pub open spec fn pipeline_graph(p: PipelineConfig, key: Seq<char>, inputs: Seq<Seq<char>>) -> Seq<Entry>
    decreases p, 1int,
{
    pipeline_chain(p, key, inputs).graph
}

/// `acc` after the pipelines called `names[i]`, `names[i + 1]`, ... were
/// added, each fed by the one before it; a name without a pipeline adds
/// nothing.
pub open spec fn walk_from(
    ps: Seq<(String, PipelineConfig)>,
    key: Seq<char>,
    names: Seq<Seq<char>>,
    i: int,
    acc: Chain,
) -> Chain
    decreases ps, names.len() - i,
{
    if 0 <= i < names.len() {
        let at = find_name(ps, names[i], 0);
        if 0 <= at < ps.len() {
            let pk = joined(key, names[i]);
            let graph = put_all(acc.graph, pipeline_graph(ps[at].1, pk, acc.previous));
            walk_from(ps, key, names, i + 1, (Chain { graph: graph, previous: seq![pk] }))
        } else {
            walk_from(ps, key, names, i + 1, acc)
        }
    } else {
        acc
    }
}

/// The graph of one event type under `key` fed by `inputs`: its pipelines
/// in a row, then an alias under `key`.
pub open spec fn event_type_graph(e: EventTypeConfig, key: Seq<char>, inputs: Seq<Seq<char>>) -> Seq<Entry>
    decreases e,
{
    let start = Chain { graph: Seq::empty(), previous: inputs };
    let body = walk_from(e.pipelines@, key, walk_order(e), 0, start);
    put(body.graph, (Entry { key: key, inputs: body.previous, node: TransformConfig::Noop }))
}

/// The key of the router of the pipelines transform under `key`.
pub open spec fn router_key(key: Seq<char>) -> Seq<char> {
    joined(key, "router"@)
}

/// The key of the logs side of the pipelines transform under `key`.
pub open spec fn logs_key(key: Seq<char>) -> Seq<char> {
    joined(key, "logs"@)
}

/// The key of the metrics side of the pipelines transform under `key`.
pub open spec fn metrics_key(key: Seq<char>) -> Seq<char> {
    joined(key, "metrics"@)
}

/// The graph of the pipelines transform under `key` fed by `inputs`: a
/// router, the logs side, the metrics side, and an alias under `key` that
/// joins the two sides.
pub open spec fn pipelines_graph(p: PipelinesConfig, key: Seq<char>, inputs: Seq<Seq<char>>) -> Seq<Entry>
    decreases p,
{
    let router = Entry { key: router_key(key), inputs: inputs, node: TransformConfig::EventRouter };
    let m0 = put(Seq::empty(), router);
    let m1 = put_all(
        m0,
        event_type_graph(p.logs, logs_key(key), seq![joined(router_key(key), "logs"@)]),
    );
    let m2 = put_all(
        m1,
        event_type_graph(p.metrics, metrics_key(key), seq![joined(router_key(key), "metrics"@)]),
    );
    put(
        m2,
        (Entry {
            key: key,
            inputs: seq![logs_key(key), metrics_key(key)],
            node: TransformConfig::Noop,
        }),
    )
}

/// The list that holds the path of `key` and nothing else.
fn reference(key: &ComponentKey) -> (r: Vec<String>)
    ensures
        ids(r@) == seq![key@],
{
    let mut r: Vec<String> = Vec::new();
    r.push(key.id().to_owned());
    assert(ids(r@) =~= seq![key@]);
    r
}

fn expand_transforms(
    ts: &Vec<TransformConfig>,
    key: &ComponentKey,
    map: &mut ExpansionMap,
    feed: Vec<String>,
) -> (last: Vec<String>)
    ensures
        (Chain { graph: graph_entries(*final(map)), previous: ids(last@) }) == chain_from(
            ts@,
            key@,
            0,
            (Chain { graph: graph_entries(*old(map)), previous: ids(feed@) }),
        ),
    decreases ts@,
{
    let ghost start = Chain { graph: graph_entries(*map), previous: ids(feed@) };
    let mut previous = feed;
    let mut i: usize = 0;
    while i < ts.len()
        invariant
            i <= ts.len(),
            chain_from(
                ts@,
                key@,
                i as int,
                (Chain { graph: graph_entries(*map), previous: ids(previous@) }),
            ) == chain_from(ts@, key@, 0, start),
        decreases ts.len() - i,
    {
        let tk = key.join_index(i);
        let next = reference(&tk);
        match &ts[i] {
            TransformConfig::Pipelines(p) => {
                let sub = p.expand_graph(&tk, previous.as_slice());
                graph_extend(map, sub);
            },
            TransformConfig::Noop => {
                graph_insert(map, tk, previous, TransformConfig::Noop);
            },
            TransformConfig::EventRouter => {
                graph_insert(map, tk, previous, TransformConfig::EventRouter);
            },
            TransformConfig::PipelineFilter(c) => {
                graph_insert(map, tk, previous, TransformConfig::PipelineFilter(c.clone()));
            },
            TransformConfig::Plain(t) => {
                graph_insert(map, tk, previous, TransformConfig::Plain(t.clone()));
            },
        }
        previous = next;
        i += 1;
    }
    previous
}

fn expand_walk(
    e: &EventTypeConfig,
    key: &ComponentKey,
    names: &Vec<String>,
    map: &mut ExpansionMap,
    feed: Vec<String>,
) -> (last: Vec<String>)
    ensures
        (Chain { graph: graph_entries(*final(map)), previous: ids(last@) }) == walk_from(
            e.pipelines@,
            key@,
            ids(names@),
            0,
            (Chain { graph: graph_entries(*old(map)), previous: ids(feed@) }),
        ),
    decreases e.pipelines@,
{
    let ghost start = Chain { graph: graph_entries(*map), previous: ids(feed@) };
    let mut previous = feed;
    let mut i: usize = 0;
    while i < names.len()
        invariant
            i <= names.len(),
            walk_from(
                e.pipelines@,
                key@,
                ids(names@),
                i as int,
                (Chain { graph: graph_entries(*map), previous: ids(previous@) }),
            ) == walk_from(e.pipelines@, key@, ids(names@), 0, start),
        decreases names.len() - i,
    {
        match e.position(names[i].as_str()) {
            Some(at) => {
                let pk = key.join(names[i].as_str());
                let next = reference(&pk);
                let sub = e.pipelines[at].1.expand(&pk, previous.as_slice());
                graph_extend(map, sub);
                previous = next;
            },
            None => {},
        }
        i += 1;
    }
    previous
}

impl PipelineConfig {
    /// Expands this pipeline under `component_key`, fed by `inputs`. Gives
    /// the graph and the references that carry the pipeline's output.
    pub fn expand_with_tail(&self, component_key: &ComponentKey, inputs: &[String]) -> (r: (
        ExpansionMap,
        Vec<String>,
    ))
        ensures
            (Chain { graph: graph_entries(r.0), previous: ids(r.1@) }) == pipeline_chain(
                *self,
                component_key@,
                ids(inputs@),
            ),
        decreases self, 0int,
    {
        let mut map = graph_new();
        let previous = copy_strings(inputs);
        match &self.filter {
            Some(condition) => {
                let fk = component_key.join("filter");
                let truthy = fk.join("truthy");
                let falsy = fk.join("falsy");
                graph_insert(
                    &mut map,
                    fk,
                    previous,
                    TransformConfig::PipelineFilter(condition.clone()),
                );
                let mut tail = expand_transforms(
                    &self.transforms,
                    component_key,
                    &mut map,
                    reference(&truthy),
                );
                let ghost before = tail@;
                tail.push(falsy.id().to_owned());
                assert(ids(tail@) =~= ids(before).push(falsy@));
                (map, tail)
            },
            None => {
                let tail = expand_transforms(&self.transforms, component_key, &mut map, previous);
                let wired = copy_strings(tail.as_slice());
                graph_insert(&mut map, component_key.clone(), wired, TransformConfig::Noop);
                (map, tail)
            },
        }
    }

    /// Expands this pipeline under `component_key`, fed by `inputs`. No
    /// two nodes share a key; without a filter the last node is the alias
    /// under `component_key`, and the graph is wired where the pipeline is
    /// tidy.
    pub fn expand(&self, component_key: &ComponentKey, inputs: &[String]) -> (map: ExpansionMap)
        ensures
            graph_entries(map) == pipeline_graph(*self, component_key@, ids(inputs@)),
            distinct_keys(graph_entries(map)),
            self.filter is None ==> ends_with(graph_entries(map), component_key@),
            tidy_pipeline(*self) ==> wired(graph_entries(map), ids(inputs@)),
        decreases self, 1int,
    {
        proof {
            pipeline_keys_are_distinct(*self, component_key@, ids(inputs@));
            pipeline_alias_is_last(*self, component_key@, ids(inputs@));
            if tidy_pipeline(*self) {
                pipeline_is_wired(*self, component_key@, ids(inputs@));
            }
        }
        self.expand_with_tail(component_key, inputs).0
    }
}

impl EventTypeConfig {
    /// Expands the pipelines of this event type under `component_key`, fed
    /// by `inputs`. No two nodes share a key, the last node is the alias
    /// under `component_key`, and the graph is wired where the event type
    /// is tidy.
    pub fn expand(&self, component_key: &ComponentKey, inputs: &[String]) -> (map: ExpansionMap)
        ensures
            graph_entries(map) == event_type_graph(*self, component_key@, ids(inputs@)),
            distinct_keys(graph_entries(map)),
            ends_with(graph_entries(map), component_key@),
            tidy_event_type(*self) ==> wired(graph_entries(map), ids(inputs@)),
        decreases self,
    {
        proof {
            event_type_keys_are_distinct(*self, component_key@, ids(inputs@));
            event_type_alias_is_last(*self, component_key@, ids(inputs@));
            if tidy_event_type(*self) {
                event_type_is_wired(*self, component_key@, ids(inputs@));
            }
        }
        let mut map = graph_new();
        let names = self.names();
        let previous = expand_walk(self, component_key, &names, &mut map, copy_strings(inputs));
        graph_insert(&mut map, component_key.clone(), previous, TransformConfig::Noop);
        map
    }
}

impl PipelinesConfig {
    /// Expands the pipelines transform under `component_key`, fed by
    /// `inputs`, into its graph. No two nodes share a key, the last node is
    /// the alias under `component_key`, and the graph is wired where the
    /// transform is tidy.
    pub fn expand_graph(&self, component_key: &ComponentKey, inputs: &[String]) -> (map: ExpansionMap)
        ensures
            graph_entries(map) == pipelines_graph(*self, component_key@, ids(inputs@)),
            distinct_keys(graph_entries(map)),
            ends_with(graph_entries(map), component_key@),
            tidy_pipelines(*self) ==> wired(graph_entries(map), ids(inputs@)),
        decreases self,
    {
        proof {
            pipelines_keys_are_distinct(*self, component_key@, ids(inputs@));
            pipelines_alias_is_last(*self, component_key@, ids(inputs@));
            if tidy_pipelines(*self) {
                pipelines_is_wired(*self, component_key@, ids(inputs@));
            }
        }
        let mut map = graph_new();
        let router = component_key.join("router");
        let logs_inputs = reference(&router.join("logs"));
        let metrics_inputs = reference(&router.join("metrics"));
        graph_insert(&mut map, router, copy_strings(inputs), TransformConfig::EventRouter);
        let mut outputs: Vec<String> = Vec::new();

        let logs = component_key.join("logs");
        let expanded = self.logs.expand(&logs, logs_inputs.as_slice());
        graph_extend(&mut map, expanded);
        outputs.push(logs.id().to_owned());

        let metrics = component_key.join("metrics");
        let expanded = self.metrics.expand(&metrics, metrics_inputs.as_slice());
        graph_extend(&mut map, expanded);
        outputs.push(metrics.id().to_owned());

        assert(ids(outputs@) =~= seq![logs@, metrics@]);
        graph_insert(&mut map, component_key.clone(), outputs, TransformConfig::Noop);
        map
    }

    /// Expands the pipelines transform under `component_key`, fed by
    /// `inputs`. There is always a graph, and nothing fails.
    pub fn expand(&self, component_key: &ComponentKey, inputs: &[String]) -> (r: Result<
        Option<ExpansionMap>,
        String,
    >)
        ensures
            r is Ok,
            r->Ok_0 is Some,
            graph_entries(r->Ok_0->Some_0) == pipelines_graph(
                *self,
                component_key@,
                ids(inputs@),
            ),
            distinct_keys(graph_entries(r->Ok_0->Some_0)),
            ends_with(graph_entries(r->Ok_0->Some_0), component_key@),
            tidy_pipelines(*self) ==> wired(graph_entries(r->Ok_0->Some_0), ids(inputs@)),
    {
        Ok(Some(self.expand_graph(component_key, inputs)))
    }

    /// A pipelines transform is never built: it has to be expanded.
    pub fn build(&self) -> (r: Result<(), String>)
        ensures
            r is Err,
            r->Err_0@ == "this transform must be expanded"@,
    {
        Err(String::from_str("this transform must be expanded"))
    }
}

impl TransformConfig {
    /// The graph that stands for this node under `component_key`, where it
    /// has one; a node without expansion stands for itself.
    pub fn expand(&self, component_key: &ComponentKey, inputs: &[String]) -> (r: Result<
        Option<ExpansionMap>,
        String,
    >)
        ensures
            r is Ok,
            match *self {
                TransformConfig::Pipelines(p) => r->Ok_0 is Some && graph_entries(r->Ok_0->Some_0)
                    == pipelines_graph(p, component_key@, ids(inputs@)),
                _ => r->Ok_0 is None,
            },
    {
        match self {
            TransformConfig::Pipelines(p) => p.expand(component_key, inputs),
            _ => Ok(None),
        }
    }
}

} // verus!
