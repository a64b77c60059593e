//! The configuration tree that expansion reads.

use vstd::prelude::*;

verus! {

/// A predicate on events, kept as configured.
#[derive(Debug, PartialEq, Eq)]
pub struct Condition {
    pub kind: String,
    pub source: String,
}

impl Clone for Condition {
    fn clone(&self) -> (copy: Self)
        ensures
            copy == *self,
    {
        Condition { kind: self.kind.clone(), source: self.source.clone() }
    }
}

/// A transform that stands for itself in the graph: it has no expansion.
#[derive(Debug, PartialEq, Eq)]
pub struct PlainTransform {
    pub kind: String,
    pub settings: String,
}

impl Clone for PlainTransform {
    fn clone(&self) -> (copy: Self)
        ensures
            copy == *self,
    {
        PlainTransform { kind: self.kind.clone(), settings: self.settings.clone() }
    }
}

/// The kind of event a transform takes or gives.
#[derive(Clone, Copy, Debug, PartialEq, Eq, Structural)]
pub enum DataType {
    Any,
    Log,
    Metric,
}

/// Any node that may stand in a pipeline or in an expanded graph.
#[derive(Debug, PartialEq, Eq)]
pub enum TransformConfig {
    /// Passes events on unchanged; serves as an alias.
    Noop,
    /// Sends logs to its output `logs` and metrics to its output `metrics`.
    EventRouter,
    /// Sends events that meet the condition to `truthy`, the others to `falsy`.
    PipelineFilter(Condition),
    /// A transform without expansion.
    Plain(PlainTransform),
    /// A nested pipelines transform.
    Pipelines(PipelinesConfig),
}

/// One pipeline: an ordered list of transforms behind an optional filter.
#[derive(Debug, PartialEq, Eq)]
pub struct PipelineConfig {
    pub name: String,
    pub filter: Option<Condition>,
    pub transforms: Vec<TransformConfig>,
}

/// The pipelines of one event type, in insertion order, with an optional
/// order of expansion.
#[derive(Debug, PartialEq, Eq)]
pub struct EventTypeConfig {
    pub order: Option<Vec<String>>,
    pub pipelines: Vec<(String, PipelineConfig)>,
}

/// The pipelines transform itself.
#[derive(Debug, PartialEq, Eq)]
pub struct PipelinesConfig {
    pub logs: EventTypeConfig,
    pub metrics: EventTypeConfig,
}

/// The views of the strings of `v`, in order.
pub open spec fn ids(v: Seq<String>) -> Seq<Seq<char>> {
    Seq::new(v.len(), |i: int| v[i]@)
}

/// The first position at or after `from` of a pipeline called `name`, or -1.
pub open spec fn find_name(ps: Seq<(String, PipelineConfig)>, name: Seq<char>, from: int) -> int
    decreases ps.len() - from,
{
    if from < 0 || from >= ps.len() {
        -1
    } else if ps[from].0@ == name {
        from
    } else {
        find_name(ps, name, from + 1)
    }
}

/// What `find_name` finds is the first pipeline of that name at or after
/// `from`; it finds none only where there is none.
pub proof fn find_name_is_first(ps: Seq<(String, PipelineConfig)>, name: Seq<char>, from: int)
    requires
        0 <= from,
    ensures
        find_name(ps, name, from) == -1 || from <= find_name(ps, name, from) < ps.len(),
        find_name(ps, name, from) != -1 ==> ps[find_name(ps, name, from)].0@ == name,
        forall|j: int|
            from <= j < ps.len() && (find_name(ps, name, from) == -1 || j < find_name(
                ps,
                name,
                from,
            )) ==> (#[trigger] ps[j]).0@ != name,
    decreases ps.len() - from,
{
    if from < ps.len() && ps[from].0@ != name {
        find_name_is_first(ps, name, from + 1);
    }
}

/// No two pipelines of `ps` have one name.
pub open spec fn distinct_names(ps: Seq<(String, PipelineConfig)>) -> bool {
    forall|i: int, j: int| 0 <= i < j < ps.len() ==> (#[trigger] ps[i]).0@ != (#[trigger] ps[j]).0@
}

/// The names of the pipelines, in insertion order.
pub open spec fn pipeline_names(ps: Seq<(String, PipelineConfig)>) -> Seq<Seq<char>> {
    Seq::new(ps.len(), |i: int| ps[i].0@)
}

impl PipelineConfig {
    pub fn new(name: String, filter: Option<Condition>, transforms: Vec<TransformConfig>) -> (p: Self)
        ensures
            p.name == name,
            p.filter == filter,
            p.transforms == transforms,
    {
        PipelineConfig { name, filter, transforms }
    }

    /// The transforms of this pipeline, in order.
    pub fn transforms(&self) -> (ts: &Vec<TransformConfig>)
        ensures
            *ts == self.transforms,
    {
        &self.transforms
    }
}

impl EventTypeConfig {
    /// Whether this is a map: no two pipelines have one name.
    pub open spec fn well_formed(&self) -> bool {
        distinct_names(self.pipelines@)
    }

    /// No pipelines and no order.
    pub fn empty() -> (e: Self)
        ensures
            e.order is None,
            e.pipelines@.len() == 0,
            e.well_formed(),
    {
        EventTypeConfig { order: None, pipelines: Vec::new() }
    }

    /// The position of the pipeline called `name`, if there is one.
    pub fn position(&self, name: &str) -> (at: Option<usize>)
        ensures
            match at {
                Some(i) => i < self.pipelines@.len() && i as int == find_name(
                    self.pipelines@,
                    name@,
                    0,
                ),
                None => find_name(self.pipelines@, name@, 0) == -1,
            },
    {
        let wanted = name.to_owned();
        let mut i: usize = 0;
        while i < self.pipelines.len()
            invariant
                i <= self.pipelines.len(),
                wanted@ == name@,
                find_name(self.pipelines@, name@, 0) == find_name(self.pipelines@, name@, i as int),
            decreases self.pipelines.len() - i,
        {
            if self.pipelines[i].0 == wanted {
                return Some(i);
            }
            i += 1;
        }
        None
    }

    /// Puts `pipeline` under `name`: in the place of the pipeline of that
    /// name if there is one, else behind the others.
    pub fn insert(&mut self, name: String, pipeline: PipelineConfig)
        ensures
            final(self).order == old(self).order,
            find_name(old(self).pipelines@, name@, 0) == -1 ==> final(self).pipelines@
                == old(self).pipelines@.push((name, pipeline)),
            find_name(old(self).pipelines@, name@, 0) != -1 ==> final(self).pipelines@
                == old(self).pipelines@.update(
                find_name(old(self).pipelines@, name@, 0),
                (name, pipeline),
            ),
            old(self).well_formed() ==> final(self).well_formed(),
    {
        proof {
            find_name_is_first(self.pipelines@, name@, 0);
        }
        match self.position(name.as_str()) {
            Some(i) => {
                self.pipelines[i] = (name, pipeline);
                assert forall|a: int, b: int|
                    old(self).well_formed() && 0 <= a < b < self.pipelines@.len() implies (
                #[trigger] self.pipelines@[a]).0@ != (#[trigger] self.pipelines@[b]).0@ by {
                    assert(self.pipelines@[a].0@ == old(self).pipelines@[a].0@);
                    assert(self.pipelines@[b].0@ == old(self).pipelines@[b].0@);
                }
            },
            None => {
                self.pipelines.push((name, pipeline));
            },
        }
    }

    /// The order of expansion, where one is given.
    pub fn order(&self) -> (o: &Option<Vec<String>>)
        ensures
            *o == self.order,
    {
        &self.order
    }

    /// The pipelines with their names, in insertion order.
    pub fn pipelines(&self) -> (ps: &Vec<(String, PipelineConfig)>)
        ensures
            *ps == self.pipelines,
    {
        &self.pipelines
    }
}

impl Default for EventTypeConfig {
    fn default() -> (e: Self)
        ensures
            e.order is None,
            e.pipelines@.len() == 0,
            e.well_formed(),
    {
        EventTypeConfig::empty()
    }
}

impl PipelinesConfig {
    pub fn new(logs: EventTypeConfig, metrics: EventTypeConfig) -> (p: Self)
        ensures
            p.logs == logs,
            p.metrics == metrics,
    {
        PipelinesConfig { logs, metrics }
    }

    /// The pipelines that take logs.
    pub fn logs(&self) -> (e: &EventTypeConfig)
        ensures
            *e == self.logs,
    {
        &self.logs
    }

    /// The pipelines that take metrics.
    pub fn metrics(&self) -> (e: &EventTypeConfig)
        ensures
            *e == self.metrics,
    {
        &self.metrics
    }

    /// Takes and gives events of any kind.
    pub fn input_type(&self) -> (t: DataType)
        ensures
            t == DataType::Any,
    {
        DataType::Any
    }

    /// Takes and gives events of any kind.
    pub fn output_type(&self) -> (t: DataType)
        ensures
            t == DataType::Any,
    {
        DataType::Any
    }

    /// The name of this kind of transform.
    pub fn transform_type(&self) -> (t: &'static str)
        ensures
            t@ == "pipelines"@,
    {
        "pipelines"
    }
}

impl Default for PipelinesConfig {
    fn default() -> (p: Self)
        ensures
            p.logs.order is None,
            p.logs.pipelines@.len() == 0,
            p.metrics.order is None,
            p.metrics.pipelines@.len() == 0,
    {
        PipelinesConfig { logs: EventTypeConfig::empty(), metrics: EventTypeConfig::empty() }
    }
}

} // verus!
