//! What holds of every expansion.

use vstd::prelude::*;
use crate::key::joined;
use crate::config::{TransformConfig, PipelineConfig, EventTypeConfig, PipelinesConfig, find_name};
use crate::graph::{Entry, put, put_all, has_key, key_position, distinct_keys};
use crate::expand::{
    Chain, chain_from, pipeline_chain, pipeline_graph, walk_from, event_type_graph,
    pipelines_graph, filter_key, router_key, logs_key, metrics_key,
};
use crate::names::walk_order;

verus! {

/// Whether the path `k` lies strictly below the path `base`: it is `base`,
/// a dot, and something more or nothing.
pub open spec fn below(k: Seq<char>, base: Seq<char>) -> bool {
    &&& k.len() > base.len()
    &&& k[base.len() as int] == '.'
    &&& forall|i: int| 0 <= i < base.len() ==> k[i] == base[i]
}

/// Every key of `s` lies strictly below `base`.
pub open spec fn all_below(s: Seq<Entry>, base: Seq<char>) -> bool {
    forall|i: int| 0 <= i < s.len() ==> below((#[trigger] s[i]).key, base)
}

/// Every key of `s` is `base` or lies strictly below it.
pub open spec fn within(s: Seq<Entry>, base: Seq<char>) -> bool {
    forall|i: int| 0 <= i < s.len() ==> (#[trigger] s[i]).key == base || below(s[i].key, base)
}

/// `s` ends with an entry under `key`.
pub open spec fn ends_with(s: Seq<Entry>, key: Seq<char>) -> bool {
    s.len() > 0 && s.last().key == key
}

/// A joined path lies strictly below its base.
pub proof fn joined_is_below(base: Seq<char>, segment: Seq<char>)
    ensures
        below(joined(base, segment), base),
{
}

/// What lies below a path that lies below `base` lies below `base`.
pub proof fn below_is_transitive(k: Seq<char>, mid: Seq<char>, base: Seq<char>)
    requires
        below(k, mid),
        below(mid, base),
    ensures
        below(k, base),
{
}

proof fn put_keeps_distinct(s: Seq<Entry>, e: Entry)
    requires
        distinct_keys(s),
    ensures
        distinct_keys(put(s, e)),
{
    if has_key(s, e.key) {
        let at = key_position(s, e.key);
        let r = s.update(at, e);
        assert forall|i: int, j: int| 0 <= i < j < r.len() implies (#[trigger] r[i]).key != (
        #[trigger] r[j]).key by {
            assert(r[i].key == s[i].key);
            assert(r[j].key == s[j].key);
        }
    } else {
        let r = s.push(e);
        assert forall|i: int, j: int| 0 <= i < j < r.len() implies (#[trigger] r[i]).key != (
        #[trigger] r[j]).key by {
            if j < s.len() {
                assert(r[i] == s[i] && r[j] == s[j]);
            } else {
                assert(r[i] == s[i]);
            }
        }
    }
}

proof fn put_all_keeps_distinct(s: Seq<Entry>, t: Seq<Entry>)
    requires
        distinct_keys(s),
    ensures
        distinct_keys(put_all(s, t)),
    decreases t.len(),
{
    if t.len() > 0 {
        put_all_keeps_distinct(s, t.drop_last());
        put_keeps_distinct(put_all(s, t.drop_last()), t.last());
    }
}

proof fn chain_keeps_distinct(ts: Seq<TransformConfig>, key: Seq<char>, i: int, acc: Chain)
    requires
        distinct_keys(acc.graph),
    ensures
        distinct_keys(chain_from(ts, key, i, acc).graph),
    decreases ts.len() - i,
{
    if 0 <= i < ts.len() {
        let tk = joined(key, crate::key::decimal(i as nat));
        let graph = match ts[i] {
            TransformConfig::Pipelines(p) => put_all(
                acc.graph,
                pipelines_graph(p, tk, acc.previous),
            ),
            _ => put(acc.graph, (Entry { key: tk, inputs: acc.previous, node: ts[i] })),
        };
        match ts[i] {
            TransformConfig::Pipelines(p) => {
                put_all_keeps_distinct(acc.graph, pipelines_graph(p, tk, acc.previous));
            },
            _ => {
                put_keeps_distinct(
                    acc.graph,
                    (Entry { key: tk, inputs: acc.previous, node: ts[i] }),
                );
            },
        }
        chain_keeps_distinct(ts, key, i + 1, (Chain { graph: graph, previous: seq![tk] }));
    }
}

proof fn walk_keeps_distinct(
    ps: Seq<(String, PipelineConfig)>,
    key: Seq<char>,
    names: Seq<Seq<char>>,
    i: int,
    acc: Chain,
)
    requires
        distinct_keys(acc.graph),
    ensures
        distinct_keys(walk_from(ps, key, names, i, acc).graph),
    decreases names.len() - i,
{
    if 0 <= i < names.len() {
        let at = find_name(ps, names[i], 0);
        if 0 <= at < ps.len() {
            let pk = joined(key, names[i]);
            let sub = pipeline_graph(ps[at].1, pk, acc.previous);
            put_all_keeps_distinct(acc.graph, sub);
            walk_keeps_distinct(
                ps,
                key,
                names,
                i + 1,
                (Chain { graph: put_all(acc.graph, sub), previous: seq![pk] }),
            );
        } else {
            walk_keeps_distinct(ps, key, names, i + 1, acc);
        }
    }
}

/// No two nodes of an expanded pipeline share a key.
pub proof fn pipeline_keys_are_distinct(p: PipelineConfig, key: Seq<char>, inputs: Seq<Seq<char>>)
    ensures
        distinct_keys(pipeline_graph(p, key, inputs)),
{
    match p.filter {
        Some(condition) => {
            let first = Entry {
                key: filter_key(key),
                inputs: inputs,
                node: TransformConfig::PipelineFilter(condition),
            };
            put_keeps_distinct(Seq::empty(), first);
            let start = Chain {
                graph: put(Seq::empty(), first),
                previous: seq![joined(filter_key(key), "truthy"@)],
            };
            chain_keeps_distinct(p.transforms@, key, 0, start);
        },
        None => {
            let start = Chain { graph: Seq::empty(), previous: inputs };
            chain_keeps_distinct(p.transforms@, key, 0, start);
            let body = chain_from(p.transforms@, key, 0, start);
            put_keeps_distinct(
                body.graph,
                (Entry { key: key, inputs: body.previous, node: TransformConfig::Noop }),
            );
        },
    }
}

/// No two nodes of an expanded event type share a key.
pub proof fn event_type_keys_are_distinct(
    e: EventTypeConfig,
    key: Seq<char>,
    inputs: Seq<Seq<char>>,
)
    ensures
        distinct_keys(event_type_graph(e, key, inputs)),
{
    let start = Chain { graph: Seq::empty(), previous: inputs };
    walk_keeps_distinct(e.pipelines@, key, walk_order(e), 0, start);
    let body = walk_from(e.pipelines@, key, walk_order(e), 0, start);
    put_keeps_distinct(
        body.graph,
        (Entry { key: key, inputs: body.previous, node: TransformConfig::Noop }),
    );
}

/// No two nodes of an expanded pipelines transform share a key.
pub proof fn pipelines_keys_are_distinct(
    p: PipelinesConfig,
    key: Seq<char>,
    inputs: Seq<Seq<char>>,
)
    ensures
        distinct_keys(pipelines_graph(p, key, inputs)),
{
    let router = Entry { key: router_key(key), inputs: inputs, node: TransformConfig::EventRouter };
    let m0 = put(Seq::empty(), router);
    put_keeps_distinct(Seq::empty(), router);
    let logs = event_type_graph(p.logs, logs_key(key), seq![joined(router_key(key), "logs"@)]);
    let m1 = put_all(m0, logs);
    put_all_keeps_distinct(m0, logs);
    let metrics = event_type_graph(
        p.metrics,
        metrics_key(key),
        seq![joined(router_key(key), "metrics"@)],
    );
    let m2 = put_all(m1, metrics);
    put_all_keeps_distinct(m1, metrics);
    put_keeps_distinct(
        m2,
        (Entry {
            key: key,
            inputs: seq![logs_key(key), metrics_key(key)],
            node: TransformConfig::Noop,
        }),
    );
}

pub(crate) proof fn put_keeps_below(s: Seq<Entry>, e: Entry, base: Seq<char>)
    requires
        all_below(s, base),
        below(e.key, base),
    ensures
        all_below(put(s, e), base),
{
    let r = put(s, e);
    assert forall|i: int| 0 <= i < r.len() implies below((#[trigger] r[i]).key, base) by {
        if has_key(s, e.key) {
            let at = key_position(s, e.key);
            if i != at {
                assert(r[i] == s[i]);
            }
        } else {
            if i < s.len() {
                assert(r[i] == s[i]);
            }
        }
    }
}

pub(crate) proof fn put_all_keeps_below(s: Seq<Entry>, t: Seq<Entry>, base: Seq<char>)
    requires
        all_below(s, base),
        all_below(t, base),
    ensures
        all_below(put_all(s, t), base),
    decreases t.len(),
{
    if t.len() > 0 {
        assert forall|i: int| 0 <= i < t.drop_last().len() implies below(
            (#[trigger] t.drop_last()[i]).key,
            base,
        ) by {
            assert(t.drop_last()[i] == t[i]);
        }
        put_all_keeps_below(s, t.drop_last(), base);
        put_keeps_below(put_all(s, t.drop_last()), t.last(), base);
    }
}

pub(crate) proof fn within_goes_below(t: Seq<Entry>, mid: Seq<char>, base: Seq<char>)
    requires
        within(t, mid),
        below(mid, base),
    ensures
        all_below(t, base),
{
    assert forall|i: int| 0 <= i < t.len() implies below((#[trigger] t[i]).key, base) by {
        if t[i].key != mid {
            below_is_transitive(t[i].key, mid, base);
        }
    }
}

pub(crate) proof fn alias_comes_last(s: Seq<Entry>, e: Entry)
    requires
        all_below(s, e.key),
    ensures
        put(s, e) == s.push(e),
        within(put(s, e), e.key),
        ends_with(put(s, e), e.key),
{
    if has_key(s, e.key) {
        let at = key_position(s, e.key);
        assert(below(s[at].key, e.key));
    }
    let r = s.push(e);
    assert forall|i: int| 0 <= i < r.len() implies (#[trigger] r[i]).key == e.key || below(
        r[i].key,
        e.key,
    ) by {
        if i < s.len() {
            assert(r[i] == s[i]);
        }
    }
}

pub(crate) proof fn chain_stays_below(ts: Seq<TransformConfig>, key: Seq<char>, i: int, acc: Chain)
    requires
        all_below(acc.graph, key),
    ensures
        all_below(chain_from(ts, key, i, acc).graph, key),
    decreases ts, ts.len() - i,
{
    if 0 <= i < ts.len() {
        let tk = joined(key, crate::key::decimal(i as nat));
        joined_is_below(key, crate::key::decimal(i as nat));
        let graph = match ts[i] {
            TransformConfig::Pipelines(p) => put_all(
                acc.graph,
                pipelines_graph(p, tk, acc.previous),
            ),
            _ => put(acc.graph, (Entry { key: tk, inputs: acc.previous, node: ts[i] })),
        };
        match ts[i] {
            TransformConfig::Pipelines(p) => {
                let sub = pipelines_graph(p, tk, acc.previous);
                pipelines_alias_is_last(p, tk, acc.previous);
                within_goes_below(sub, tk, key);
                put_all_keeps_below(acc.graph, sub, key);
            },
            _ => {
                put_keeps_below(
                    acc.graph,
                    (Entry { key: tk, inputs: acc.previous, node: ts[i] }),
                    key,
                );
            },
        }
        chain_stays_below(ts, key, i + 1, (Chain { graph: graph, previous: seq![tk] }));
    }
}

/// The keys of an expanded pipeline are its own key or lie below it. A
/// pipeline without a filter ends with the alias under its own key; one
/// with a filter has no node under its own key.
pub proof fn pipeline_alias_is_last(p: PipelineConfig, key: Seq<char>, inputs: Seq<Seq<char>>)
    ensures
        within(pipeline_graph(p, key, inputs), key),
        p.filter is None ==> ends_with(pipeline_graph(p, key, inputs), key),
        p.filter is Some ==> all_below(pipeline_graph(p, key, inputs), key),
    decreases p,
{
    match p.filter {
        Some(condition) => {
            let first = Entry {
                key: filter_key(key),
                inputs: inputs,
                node: TransformConfig::PipelineFilter(condition),
            };
            joined_is_below(key, "filter"@);
            put_keeps_below(Seq::empty(), first, key);
            let start = Chain {
                graph: put(Seq::empty(), first),
                previous: seq![joined(filter_key(key), "truthy"@)],
            };
            chain_stays_below(p.transforms@, key, 0, start);
        },
        None => {
            let start = Chain { graph: Seq::empty(), previous: inputs };
            chain_stays_below(p.transforms@, key, 0, start);
            let body = chain_from(p.transforms@, key, 0, start);
            alias_comes_last(
                body.graph,
                (Entry { key: key, inputs: body.previous, node: TransformConfig::Noop }),
            );
        },
    }
}

pub(crate) proof fn walk_stays_below(
    ps: Seq<(String, PipelineConfig)>,
    key: Seq<char>,
    names: Seq<Seq<char>>,
    i: int,
    acc: Chain,
)
    requires
        all_below(acc.graph, key),
    ensures
        all_below(walk_from(ps, key, names, i, acc).graph, key),
    decreases ps, names.len() - i,
{
    if 0 <= i < names.len() {
        let at = find_name(ps, names[i], 0);
        if 0 <= at < ps.len() {
            let pk = joined(key, names[i]);
            joined_is_below(key, names[i]);
            let sub = pipeline_graph(ps[at].1, pk, acc.previous);
            pipeline_alias_is_last(ps[at].1, pk, acc.previous);
            within_goes_below(sub, pk, key);
            put_all_keeps_below(acc.graph, sub, key);
            walk_stays_below(
                ps,
                key,
                names,
                i + 1,
                (Chain { graph: put_all(acc.graph, sub), previous: seq![pk] }),
            );
        } else {
            walk_stays_below(ps, key, names, i + 1, acc);
        }
    }
}

/// An expanded event type ends with the alias under its own key, and all
/// its other keys lie below that key.
pub proof fn event_type_alias_is_last(e: EventTypeConfig, key: Seq<char>, inputs: Seq<Seq<char>>)
    ensures
        within(event_type_graph(e, key, inputs), key),
        ends_with(event_type_graph(e, key, inputs), key),
    decreases e,
{
    let start = Chain { graph: Seq::empty(), previous: inputs };
    walk_stays_below(e.pipelines@, key, walk_order(e), 0, start);
    let body = walk_from(e.pipelines@, key, walk_order(e), 0, start);
    alias_comes_last(
        body.graph,
        (Entry { key: key, inputs: body.previous, node: TransformConfig::Noop }),
    );
}

/// An expanded pipelines transform ends with the alias under its own key,
/// and all its other keys lie below that key.
pub proof fn pipelines_alias_is_last(p: PipelinesConfig, key: Seq<char>, inputs: Seq<Seq<char>>)
    ensures
        within(pipelines_graph(p, key, inputs), key),
        ends_with(pipelines_graph(p, key, inputs), key),
    decreases p,
{
    let router = Entry { key: router_key(key), inputs: inputs, node: TransformConfig::EventRouter };
    joined_is_below(key, "router"@);
    joined_is_below(key, "logs"@);
    joined_is_below(key, "metrics"@);
    put_keeps_below(Seq::empty(), router, key);
    let m0 = put(Seq::empty(), router);
    let logs = event_type_graph(p.logs, logs_key(key), seq![joined(router_key(key), "logs"@)]);
    event_type_alias_is_last(p.logs, logs_key(key), seq![joined(router_key(key), "logs"@)]);
    within_goes_below(logs, logs_key(key), key);
    put_all_keeps_below(m0, logs, key);
    let m1 = put_all(m0, logs);
    let metrics = event_type_graph(
        p.metrics,
        metrics_key(key),
        seq![joined(router_key(key), "metrics"@)],
    );
    event_type_alias_is_last(p.metrics, metrics_key(key), seq![joined(router_key(key), "metrics"@)]);
    within_goes_below(metrics, metrics_key(key), key);
    put_all_keeps_below(m1, metrics, key);
    let m2 = put_all(m1, metrics);
    alias_comes_last(
        m2,
        (Entry {
            key: key,
            inputs: seq![logs_key(key), metrics_key(key)],
            node: TransformConfig::Noop,
        }),
    );
}

/// An event type without pipelines expands to its alias alone, fed by what
/// feeds the event type.
pub proof fn empty_event_type_is_alias(e: EventTypeConfig, key: Seq<char>, inputs: Seq<Seq<char>>)
    requires
        e.pipelines@.len() == 0,
    ensures
        event_type_graph(e, key, inputs) == seq![
            (Entry { key: key, inputs: inputs, node: TransformConfig::Noop }),
        ],
{
    let start = Chain { graph: Seq::empty(), previous: inputs };
    walk_of_absent_names(e.pipelines@, key, walk_order(e), 0, start);
    let alias = Entry { key: key, inputs: inputs, node: TransformConfig::Noop };
    assert(!has_key(Seq::<Entry>::empty(), key));
    assert(Seq::<Entry>::empty().push(alias) =~= seq![alias]);
}

/// A name without a pipeline adds nothing to the walk.
pub proof fn absent_name_is_skipped(
    ps: Seq<(String, PipelineConfig)>,
    key: Seq<char>,
    names: Seq<Seq<char>>,
    i: int,
    acc: Chain,
)
    requires
        0 <= i < names.len(),
        find_name(ps, names[i], 0) == -1,
    ensures
        walk_from(ps, key, names, i, acc) == walk_from(ps, key, names, i + 1, acc),
{
}

/// The names of `names` from position `i` on that have a pipeline in `ps`.
pub open spec fn walked_names(
    ps: Seq<(String, PipelineConfig)>,
    names: Seq<Seq<char>>,
    i: int,
) -> Seq<Seq<char>>
    decreases names.len() - i,
{
    if 0 <= i < names.len() {
        let at = find_name(ps, names[i], 0);
        if 0 <= at < ps.len() {
            seq![names[i]] + walked_names(ps, names, i + 1)
        } else {
            walked_names(ps, names, i + 1)
        }
    } else {
        Seq::empty()
    }
}

proof fn walk_behind_prefix(
    ps: Seq<(String, PipelineConfig)>,
    key: Seq<char>,
    front: Seq<Seq<char>>,
    rest: Seq<Seq<char>>,
    j: int,
    acc: Chain,
)
    requires
        0 <= j,
    ensures
        walk_from(ps, key, front + rest, front.len() + j, acc) == walk_from(ps, key, rest, j, acc),
    decreases rest.len() - j,
{
    if j < rest.len() {
        assert((front + rest)[front.len() + j] == rest[j]);
        let at = find_name(ps, rest[j], 0);
        if 0 <= at < ps.len() {
            let pk = joined(key, rest[j]);
            let graph = put_all(acc.graph, pipeline_graph(ps[at].1, pk, acc.previous));
            walk_behind_prefix(
                ps,
                key,
                front,
                rest,
                j + 1,
                (Chain { graph: graph, previous: seq![pk] }),
            );
        } else {
            walk_behind_prefix(ps, key, front, rest, j + 1, acc);
        }
    }
}

/// Names without a pipeline are skipped: a walk along `names` is the walk
/// along those of them that have a pipeline.
pub proof fn absent_names_add_nothing(
    ps: Seq<(String, PipelineConfig)>,
    key: Seq<char>,
    names: Seq<Seq<char>>,
    i: int,
    acc: Chain,
)
    requires
        0 <= i,
    ensures
        walk_from(ps, key, names, i, acc) == walk_from(
            ps,
            key,
            walked_names(ps, names, i),
            0,
            acc,
        ),
    decreases names.len() - i,
{
    if i < names.len() {
        let rest = walked_names(ps, names, i + 1);
        let at = find_name(ps, names[i], 0);
        if 0 <= at < ps.len() {
            let pk = joined(key, names[i]);
            let graph = put_all(acc.graph, pipeline_graph(ps[at].1, pk, acc.previous));
            let next = Chain { graph: graph, previous: seq![pk] };
            let front = seq![names[i]];
            assert((front + rest)[0] == names[i]);
            walk_behind_prefix(ps, key, front, rest, 0, next);
            absent_names_add_nothing(ps, key, names, i + 1, next);
        } else {
            absent_names_add_nothing(ps, key, names, i + 1, acc);
        }
    }
}

/// A walk along names none of which has a pipeline adds nothing.
pub proof fn walk_of_absent_names(
    ps: Seq<(String, PipelineConfig)>,
    key: Seq<char>,
    names: Seq<Seq<char>>,
    i: int,
    acc: Chain,
)
    requires
        forall|j: int| i <= j < names.len() ==> find_name(ps, #[trigger] names[j], 0) == -1,
    ensures
        walk_from(ps, key, names, i, acc) == acc,
    decreases names.len() - i,
{
    if 0 <= i < names.len() {
        walk_of_absent_names(ps, key, names, i + 1, acc);
    }
}

/// A pipeline without filter and without transforms expands to its alias
/// alone, fed by what feeds the pipeline.
pub proof fn bare_pipeline_is_alias(p: PipelineConfig, key: Seq<char>, inputs: Seq<Seq<char>>)
    requires
        p.filter is None,
        p.transforms@.len() == 0,
    ensures
        pipeline_graph(p, key, inputs) == seq![
            (Entry { key: key, inputs: inputs, node: TransformConfig::Noop }),
        ],
{
    let alias = Entry { key: key, inputs: inputs, node: TransformConfig::Noop };
    assert(!has_key(Seq::<Entry>::empty(), key));
    assert(Seq::<Entry>::empty().push(alias) =~= seq![alias]);
}

/// A pipeline with a filter and without transforms expands to the filter
/// alone; its output is carried by the two outputs of the filter.
pub proof fn filter_only_pipeline_is_filter(
    p: PipelineConfig,
    key: Seq<char>,
    inputs: Seq<Seq<char>>,
)
    requires
        p.filter is Some,
        p.transforms@.len() == 0,
    ensures
        pipeline_chain(p, key, inputs).graph == seq![
            (Entry {
                key: filter_key(key),
                inputs: inputs,
                node: TransformConfig::PipelineFilter(p.filter->Some_0),
            }),
        ],
        pipeline_chain(p, key, inputs).previous == seq![
            joined(filter_key(key), "truthy"@),
            joined(filter_key(key), "falsy"@),
        ],
{
    let first = Entry {
        key: filter_key(key),
        inputs: inputs,
        node: TransformConfig::PipelineFilter(p.filter->Some_0),
    };
    assert(!has_key(Seq::<Entry>::empty(), filter_key(key)));
    assert(Seq::<Entry>::empty().push(first) =~= seq![first]);
    assert(seq![joined(filter_key(key), "truthy"@)].push(joined(filter_key(key), "falsy"@))
        =~= seq![joined(filter_key(key), "truthy"@), joined(filter_key(key), "falsy"@)]);
}

} // verus!
