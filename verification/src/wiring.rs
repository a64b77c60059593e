//! The wiring of an expanded graph: every input of a node names a node
//! that stands before it, or comes from outside.

use vstd::prelude::*;
use crate::key::{joined, decimal, digit};
use crate::config::{TransformConfig, PipelineConfig, EventTypeConfig, PipelinesConfig, find_name};
use crate::graph::{Entry, put, put_all, has_key, key_position, distinct_keys};
use crate::expand::{
    Chain, chain_from, pipeline_graph, walk_from, event_type_graph, pipelines_graph, router_key,
    logs_key, metrics_key,
};
use crate::names::walk_order;
use crate::laws::{
    below, all_below, within, ends_with, joined_is_below, put_keeps_below, put_all_keeps_below,
    within_goes_below, alias_comes_last, chain_stays_below, walk_stays_below,
    pipeline_alias_is_last, event_type_alias_is_last, pipelines_alias_is_last,
    pipeline_keys_are_distinct, event_type_keys_are_distinct, pipelines_keys_are_distinct,
};

verus! {

/// Whether the reference `r` names the node `e`: by its key, or by its key
/// and one of the outputs that a router or a filter has.
pub open spec fn refers_to(r: Seq<char>, e: Entry) -> bool {
    ||| r == e.key
    ||| (e.node is EventRouter && (r == joined(e.key, "logs"@) || r == joined(e.key, "metrics"@)))
    ||| (e.node is PipelineFilter && (r == joined(e.key, "truthy"@) || r == joined(
        e.key,
        "falsy"@,
    )))
}

/// Whether `r` comes from outside or names one of the first `upto` nodes
/// of `s`.
pub open spec fn resolved(r: Seq<char>, s: Seq<Entry>, upto: int, external: Seq<Seq<char>>) -> bool {
    external.contains(r) || exists|j: int| 0 <= j < upto && j < s.len() && refers_to(r, #[trigger] s[j])
}

/// Every input of every node of `s` comes from outside or names a node
/// that stands before it: the order of `s` is a topological order.
pub open spec fn wired(s: Seq<Entry>, external: Seq<Seq<char>>) -> bool {
    forall|i: int, k: int|
        0 <= i < s.len() && 0 <= k < s[i].inputs.len() ==> resolved(
            #[trigger] s[i].inputs[k],
            s,
            i,
            external,
        )
}

/// Every reference of `refs` comes from outside or names a node of `s`.
pub open spec fn all_resolved(refs: Seq<Seq<char>>, s: Seq<Entry>, external: Seq<Seq<char>>) -> bool {
    forall|k: int| 0 <= k < refs.len() ==> resolved(#[trigger] refs[k], s, s.len() as int, external)
}

/// `k` is `base` or lies below it.
pub open spec fn inside(k: Seq<char>, base: Seq<char>) -> bool {
    k == base || below(k, base)
}

/// Two segments that are different and of which neither continues the
/// other behind a dot.
pub open spec fn independent(a: Seq<char>, b: Seq<char>) -> bool {
    a != b && !below(a, b) && !below(b, a)
}

/// The walked names that have a pipeline are independent of each other.
pub open spec fn independent_names(names: Seq<Seq<char>>, ps: Seq<(String, PipelineConfig)>) -> bool {
    forall|a: int, b: int|
        0 <= a < b < names.len() && find_name(ps, #[trigger] names[a], 0) >= 0 && find_name(
            ps,
            #[trigger] names[b],
            0,
        ) >= 0 ==> independent(names[a], names[b])
}

/// A node whose expansion is wired whatever feeds it.
pub open spec fn tidy_node(t: TransformConfig) -> bool
    decreases t,
{
    match t {
        TransformConfig::Pipelines(p) => tidy_pipelines(p),
        _ => true,
    }
}

/// The transforms of `ts` from position `i` on are tidy.
pub open spec fn tidy_nodes(ts: Seq<TransformConfig>, i: int) -> bool
    decreases ts, ts.len() - i,
{
    if 0 <= i < ts.len() {
        tidy_node(ts[i]) && tidy_nodes(ts, i + 1)
    } else {
        true
    }
}

/// A pipeline without a filter whose transforms are tidy. Behind a filter
/// a pipeline has no alias, and the reference to it names no node.
pub open spec fn tidy_pipeline(p: PipelineConfig) -> bool
    decreases p,
{
    p.filter is None && tidy_nodes(p.transforms@, 0)
}

/// The pipelines walked from position `i` of `names` on are tidy.
pub open spec fn tidy_walk(ps: Seq<(String, PipelineConfig)>, names: Seq<Seq<char>>, i: int) -> bool
    decreases ps, names.len() - i,
{
    if 0 <= i < names.len() {
        let at = find_name(ps, names[i], 0);
        if 0 <= at < ps.len() {
            tidy_pipeline(ps[at].1) && tidy_walk(ps, names, i + 1)
        } else {
            tidy_walk(ps, names, i + 1)
        }
    } else {
        true
    }
}

/// The walked pipelines are tidy and their names independent.
pub open spec fn tidy_event_type(e: EventTypeConfig) -> bool
    decreases e,
{
    independent_names(walk_order(e), e.pipelines@) && tidy_walk(e.pipelines@, walk_order(e), 0)
}

/// Both sides are tidy.
pub open spec fn tidy_pipelines(p: PipelinesConfig) -> bool
    decreases p,
{
    tidy_event_type(p.logs) && tidy_event_type(p.metrics)
}

/// A path that is inside two paths joined to one base: their segments are
/// not independent.
pub proof fn subtrees_are_apart(k: Seq<char>, base: Seq<char>, s: Seq<char>, t: Seq<char>)
    requires
        inside(k, joined(base, s)),
        inside(k, joined(base, t)),
    ensures
        !independent(s, t),
{
    let a = joined(base, s);
    let b = joined(base, t);
    let n = base.len() as int;
    assert(a.len() == n + 1 + s.len());
    assert(b.len() == n + 1 + t.len());
    assert forall|i: int| 0 <= i < s.len() implies a[n + 1 + i] == s[i] by {}
    assert forall|i: int| 0 <= i < t.len() implies b[n + 1 + i] == t[i] by {}
    assert forall|i: int| 0 <= i < a.len() implies k[i] == a[i] by {}
    assert forall|i: int| 0 <= i < b.len() implies k[i] == b[i] by {}
    if s.len() == t.len() {
        assert forall|i: int| 0 <= i < s.len() implies s[i] == t[i] by {
            assert(a[n + 1 + i] == k[n + 1 + i]);
            assert(b[n + 1 + i] == k[n + 1 + i]);
        }
        assert(s =~= t);
    } else if s.len() < t.len() {
        assert forall|i: int| 0 <= i < s.len() implies t[i] == s[i] by {
            assert(a[n + 1 + i] == k[n + 1 + i]);
            assert(b[n + 1 + i] == k[n + 1 + i]);
        }
        assert(k.len() > a.len());
        assert(k[a.len() as int] == '.');
        assert(b[n + 1 + s.len()] == t[s.len() as int]);
        assert(below(t, s));
    } else {
        assert forall|i: int| 0 <= i < t.len() implies s[i] == t[i] by {
            assert(a[n + 1 + i] == k[n + 1 + i]);
            assert(b[n + 1 + i] == k[n + 1 + i]);
        }
        assert(k.len() > b.len());
        assert(k[b.len() as int] == '.');
        assert(a[n + 1 + t.len()] == s[t.len() as int]);
        assert(below(s, t));
    }
}

/// A decimal notation is not empty and holds no dot.
pub proof fn decimal_has_no_dot(n: nat)
    ensures
        decimal(n).len() > 0,
        forall|i: int| 0 <= i < decimal(n).len() ==> decimal(n)[i] != '.',
    decreases n,
{
    if n >= 10 {
        decimal_has_no_dot(n / 10);
    }
}

/// Different numbers have different decimal notations.
pub proof fn decimal_is_injective(a: nat, b: nat)
    requires
        decimal(a) == decimal(b),
    ensures
        a == b,
    decreases a,
{
    decimal_has_no_dot(a / 10);
    decimal_has_no_dot(b / 10);
    if a < 10 && b < 10 {
        assert(decimal(a)[0] == digit(a));
        assert(decimal(b)[0] == digit(b));
    } else if a >= 10 && b >= 10 {
        let x = decimal(a / 10);
        let y = decimal(b / 10);
        assert(x.push(digit(a % 10)).drop_last() =~= x);
        assert(y.push(digit(b % 10)).drop_last() =~= y);
        assert(x.push(digit(a % 10)).last() == digit(a % 10));
        assert(y.push(digit(b % 10)).last() == digit(b % 10));
        decimal_is_injective(a / 10, b / 10);
    } else if a < 10 {
        assert(decimal(a).len() == 1);
        assert(decimal(b) == decimal(b / 10).push(digit(b % 10)));
    } else {
        assert(decimal(b).len() == 1);
        assert(decimal(a) == decimal(a / 10).push(digit(a % 10)));
    }
}

/// The notations of different positions are independent segments.
pub proof fn positions_are_independent(a: nat, b: nat)
    requires
        a != b,
    ensures
        independent(decimal(a), decimal(b)),
{
    decimal_has_no_dot(a);
    decimal_has_no_dot(b);
    if decimal(a) == decimal(b) {
        decimal_is_injective(a, b);
    }
}

proof fn fixed_segments_are_independent()
    ensures
        independent("router"@, "logs"@),
        independent("router"@, "metrics"@),
        independent("logs"@, "metrics"@),
{
    reveal_strlit("router");
    reveal_strlit("logs");
    reveal_strlit("metrics");
    assert("router"@[0] == 'r');
    assert("logs"@[0] == 'l');
    assert("metrics"@[0] == 'm');
}

proof fn put_all_of_fresh(s: Seq<Entry>, t: Seq<Entry>)
    requires
        distinct_keys(t),
        forall|i: int, j: int|
            0 <= i < s.len() && 0 <= j < t.len() ==> (#[trigger] s[i]).key != (#[trigger] t[j]).key,
    ensures
        put_all(s, t) == s + t,
    decreases t.len(),
{
    if t.len() == 0 {
        assert(s + t =~= s);
    } else {
        let front = t.drop_last();
        assert forall|i: int, j: int| 0 <= i < j < front.len() implies (#[trigger] front[i]).key != (
        #[trigger] front[j]).key by {
            assert(front[i] == t[i] && front[j] == t[j]);
        }
        assert forall|i: int, j: int| 0 <= i < s.len() && 0 <= j < front.len() implies (
        #[trigger] s[i]).key != (#[trigger] front[j]).key by {
            assert(front[j] == t[j]);
        }
        put_all_of_fresh(s, front);
        let mid = s + front;
        let e = t.last();
        if has_key(mid, e.key) {
            let at = key_position(mid, e.key);
            if at < s.len() {
                assert(mid[at] == s[at]);
                assert(s[at].key != t[t.len() - 1].key);
            } else {
                assert(mid[at] == t[at - s.len()]);
                assert(t[at - s.len()].key != t[t.len() - 1].key);
            }
        }
        assert(mid.push(e) =~= s + t);
    }
}

proof fn append_keeps_wired(
    a: Seq<Entry>,
    b: Seq<Entry>,
    feed: Seq<Seq<char>>,
    external: Seq<Seq<char>>,
)
    requires
        wired(a, external),
        wired(b, feed),
        all_resolved(feed, a, external),
    ensures
        wired(a + b, external),
{
    let r = a + b;
    assert forall|i: int, k: int| 0 <= i < r.len() && 0 <= k < r[i].inputs.len() implies resolved(
        #[trigger] r[i].inputs[k],
        r,
        i,
        external,
    ) by {
        if i < a.len() {
            assert(r[i] == a[i]);
            let x = a[i].inputs[k];
            assert(resolved(x, a, i, external));
            if !external.contains(x) {
                let j = choose|j: int| 0 <= j < i && j < a.len() && refers_to(x, #[trigger] a[j]);
                assert(r[j] == a[j]);
            }
        } else {
            let h = i - a.len();
            assert(r[i] == b[h]);
            let x = b[h].inputs[k];
            assert(resolved(x, b, h, feed));
            if feed.contains(x) {
                let f = choose|f: int| 0 <= f < feed.len() && feed[f] == x;
                assert(resolved(feed[f], a, a.len() as int, external));
                if !external.contains(x) {
                    let j = choose|j: int|
                        0 <= j < a.len() && j < a.len() && refers_to(x, #[trigger] a[j]);
                    assert(r[j] == a[j]);
                }
            } else {
                let j = choose|j: int| 0 <= j < h && j < b.len() && refers_to(x, #[trigger] b[j]);
                assert(r[a.len() + j] == b[j]);
            }
        }
    }
}

proof fn push_keeps_wired(a: Seq<Entry>, e: Entry, external: Seq<Seq<char>>)
    requires
        wired(a, external),
        all_resolved(e.inputs, a, external),
    ensures
        wired(a.push(e), external),
{
    let b = seq![e];
    assert forall|i: int, k: int| 0 <= i < b.len() && 0 <= k < b[i].inputs.len() implies resolved(
        #[trigger] b[i].inputs[k],
        b,
        i,
        e.inputs,
    ) by {
        assert(e.inputs[k] == b[i].inputs[k]);
    }
    append_keeps_wired(a, b, e.inputs, external);
    assert(a + b =~= a.push(e));
}

proof fn last_key_is_resolved(s: Seq<Entry>, key: Seq<char>, external: Seq<Seq<char>>)
    requires
        ends_with(s, key),
    ensures
        all_resolved(seq![key], s, external),
{
    assert(refers_to(key, s[s.len() - 1]));
}

/// No key of `s` is inside a path that a transform from position `i` on
/// gets below `key`.
pub open spec fn clear_from(s: Seq<Entry>, key: Seq<char>, i: int) -> bool {
    forall|x: int, m: nat|
        0 <= x < s.len() && m >= i ==> !inside((#[trigger] s[x]).key, joined(key, #[trigger] decimal(m)))
}

/// No key of `s` is inside a path that a pipeline walked from position `i`
/// on gets below `key`.
pub open spec fn clear_of(
    s: Seq<Entry>,
    key: Seq<char>,
    names: Seq<Seq<char>>,
    ps: Seq<(String, PipelineConfig)>,
    i: int,
) -> bool {
    forall|x: int, j: int|
        0 <= x < s.len() && i <= j < names.len() && find_name(ps, #[trigger] names[j], 0) >= 0
            ==> !inside((#[trigger] s[x]).key, joined(key, names[j]))
}

proof fn chain_is_wired(
    ts: Seq<TransformConfig>,
    key: Seq<char>,
    i: int,
    acc: Chain,
    external: Seq<Seq<char>>,
)
    requires
        0 <= i,
        tidy_nodes(ts, i),
        wired(acc.graph, external),
        all_resolved(acc.previous, acc.graph, external),
        clear_from(acc.graph, key, i),
    ensures
        wired(chain_from(ts, key, i, acc).graph, external),
        all_resolved(
            chain_from(ts, key, i, acc).previous,
            chain_from(ts, key, i, acc).graph,
            external,
        ),
    decreases ts, ts.len() - i,
{
    if 0 <= i < ts.len() {
        let tk = joined(key, decimal(i as nat));
        let a = acc.graph;
        let sub = match ts[i] {
            TransformConfig::Pipelines(p) => pipelines_graph(p, tk, acc.previous),
            _ => seq![(Entry { key: tk, inputs: acc.previous, node: ts[i] })],
        };
        match ts[i] {
            TransformConfig::Pipelines(p) => {
                assert(tidy_node(ts[i]));
                pipelines_is_wired(p, tk, acc.previous);
                pipelines_alias_is_last(p, tk, acc.previous);
                pipelines_keys_are_distinct(p, tk, acc.previous);
            },
            _ => {
                let e = Entry { key: tk, inputs: acc.previous, node: ts[i] };
                assert(sub[0] == e);
                assert forall|x: int, k: int|
                    0 <= x < sub.len() && 0 <= k < sub[x].inputs.len() implies resolved(
                    #[trigger] sub[x].inputs[k],
                    sub,
                    x,
                    acc.previous,
                ) by {
                    assert(acc.previous[k] == sub[x].inputs[k]);
                }
            },
        }
        assert(within(sub, tk));
        assert(ends_with(sub, tk));
        assert(distinct_keys(sub));
        assert(wired(sub, acc.previous));
        assert forall|x: int, j: int| 0 <= x < a.len() && 0 <= j < sub.len() implies (
        #[trigger] a[x]).key != (#[trigger] sub[j]).key by {
            assert(!inside(a[x].key, joined(key, decimal(i as nat))));
        }
        put_all_of_fresh(a, sub);
        let graph = a + sub;
        match ts[i] {
            TransformConfig::Pipelines(p) => {},
            _ => {
                let e = Entry { key: tk, inputs: acc.previous, node: ts[i] };
                assert(put_all(a, sub.drop_last()) == a);
                assert(sub.last() == e);
                assert(put_all(a, sub) == put(a, e));
            },
        }
        append_keeps_wired(a, sub, acc.previous, external);
        assert(graph[graph.len() - 1] == sub[sub.len() - 1]);
        last_key_is_resolved(graph, tk, external);
        assert forall|x: int, m: nat| 0 <= x < graph.len() && m >= i + 1 implies !inside(
            (#[trigger] graph[x]).key,
            joined(key, #[trigger] decimal(m)),
        ) by {
            if x < a.len() {
                assert(graph[x] == a[x]);
            } else {
                assert(graph[x] == sub[x - a.len()]);
                assert(inside(sub[x - a.len()].key, tk));
                if inside(graph[x].key, joined(key, decimal(m))) {
                    subtrees_are_apart(graph[x].key, key, decimal(i as nat), decimal(m));
                    positions_are_independent(i as nat, m);
                }
            }
        }
        chain_is_wired(ts, key, i + 1, (Chain { graph: graph, previous: seq![tk] }), external);
    }
}

/// The expansion of a tidy pipeline is wired: each input names an earlier
/// node or comes from what feeds the pipeline.
pub proof fn pipeline_is_wired(p: PipelineConfig, key: Seq<char>, inputs: Seq<Seq<char>>)
    requires
        tidy_pipeline(p),
    ensures
        wired(pipeline_graph(p, key, inputs), inputs),
    decreases p,
{
    let start = Chain { graph: Seq::empty(), previous: inputs };
    assert forall|k: int| 0 <= k < inputs.len() implies resolved(
        #[trigger] inputs[k],
        start.graph,
        0,
        inputs,
    ) by {}
    chain_is_wired(p.transforms@, key, 0, start, inputs);
    chain_stays_below(p.transforms@, key, 0, start);
    let body = chain_from(p.transforms@, key, 0, start);
    let alias = Entry { key: key, inputs: body.previous, node: TransformConfig::Noop };
    alias_comes_last(body.graph, alias);
    push_keeps_wired(body.graph, alias, inputs);
}

proof fn walk_is_wired(
    ps: Seq<(String, PipelineConfig)>,
    key: Seq<char>,
    names: Seq<Seq<char>>,
    i: int,
    acc: Chain,
    external: Seq<Seq<char>>,
)
    requires
        0 <= i,
        tidy_walk(ps, names, i),
        independent_names(names, ps),
        wired(acc.graph, external),
        all_resolved(acc.previous, acc.graph, external),
        clear_of(acc.graph, key, names, ps, i),
    ensures
        wired(walk_from(ps, key, names, i, acc).graph, external),
        all_resolved(
            walk_from(ps, key, names, i, acc).previous,
            walk_from(ps, key, names, i, acc).graph,
            external,
        ),
    decreases ps, names.len() - i,
{
    if 0 <= i < names.len() {
        let at = find_name(ps, names[i], 0);
        if 0 <= at < ps.len() {
            let pk = joined(key, names[i]);
            let a = acc.graph;
            let sub = pipeline_graph(ps[at].1, pk, acc.previous);
            assert(tidy_pipeline(ps[at].1));
            assert(ps[at].1.filter is None);
            pipeline_is_wired(ps[at].1, pk, acc.previous);
            pipeline_alias_is_last(ps[at].1, pk, acc.previous);
            pipeline_keys_are_distinct(ps[at].1, pk, acc.previous);
            assert forall|x: int, j: int| 0 <= x < a.len() && 0 <= j < sub.len() implies (
            #[trigger] a[x]).key != (#[trigger] sub[j]).key by {
                assert(!inside(a[x].key, joined(key, names[i])));
            }
            put_all_of_fresh(a, sub);
            let graph = a + sub;
            append_keeps_wired(a, sub, acc.previous, external);
            assert(graph[graph.len() - 1] == sub[sub.len() - 1]);
            last_key_is_resolved(graph, pk, external);
            assert forall|x: int, j: int|
                0 <= x < graph.len() && i + 1 <= j < names.len() && find_name(
                    ps,
                    #[trigger] names[j],
                    0,
                ) >= 0 implies !inside((#[trigger] graph[x]).key, joined(key, names[j])) by {
                if x < a.len() {
                    assert(graph[x] == a[x]);
                } else {
                    assert(graph[x] == sub[x - a.len()]);
                    assert(inside(sub[x - a.len()].key, pk));
                    if inside(graph[x].key, joined(key, names[j])) {
                        subtrees_are_apart(graph[x].key, key, names[i], names[j]);
                        assert(independent(names[i], names[j]));
                    }
                }
            }
            walk_is_wired(
                ps,
                key,
                names,
                i + 1,
                (Chain { graph: graph, previous: seq![pk] }),
                external,
            );
        } else {
            walk_is_wired(ps, key, names, i + 1, acc, external);
        }
    }
}

/// The expansion of a tidy event type is wired: each input names an
/// earlier node or comes from what feeds the event type.
pub proof fn event_type_is_wired(e: EventTypeConfig, key: Seq<char>, inputs: Seq<Seq<char>>)
    requires
        tidy_event_type(e),
    ensures
        wired(event_type_graph(e, key, inputs), inputs),
    decreases e,
{
    let start = Chain { graph: Seq::empty(), previous: inputs };
    assert forall|k: int| 0 <= k < inputs.len() implies resolved(
        #[trigger] inputs[k],
        start.graph,
        0,
        inputs,
    ) by {}
    walk_is_wired(e.pipelines@, key, walk_order(e), 0, start, inputs);
    walk_stays_below(e.pipelines@, key, walk_order(e), 0, start);
    let body = walk_from(e.pipelines@, key, walk_order(e), 0, start);
    let alias = Entry { key: key, inputs: body.previous, node: TransformConfig::Noop };
    alias_comes_last(body.graph, alias);
    push_keeps_wired(body.graph, alias, inputs);
}

/// The expansion of a tidy pipelines transform is wired: each input names
/// an earlier node, by its key or by one of its outputs, or comes from
/// what feeds the transform.
pub proof fn pipelines_is_wired(p: PipelinesConfig, key: Seq<char>, inputs: Seq<Seq<char>>)
    requires
        tidy_pipelines(p),
    ensures
        wired(pipelines_graph(p, key, inputs), inputs),
    decreases p,
{
    fixed_segments_are_independent();
    let router = Entry { key: router_key(key), inputs: inputs, node: TransformConfig::EventRouter };
    joined_is_below(key, "router"@);
    joined_is_below(key, "logs"@);
    joined_is_below(key, "metrics"@);
    let m0 = put(Seq::empty(), router);
    assert(!has_key(Seq::<Entry>::empty(), router.key));
    assert(m0 =~= seq![router]);
    assert(m0[0] == router);
    assert forall|i: int, k: int| 0 <= i < m0.len() && 0 <= k < m0[i].inputs.len() implies resolved(
        #[trigger] m0[i].inputs[k],
        m0,
        i,
        inputs,
    ) by {
        assert(inputs[k] == m0[i].inputs[k]);
    }
    put_keeps_below(Seq::empty(), router, key);

    let logs_feed = seq![joined(router_key(key), "logs"@)];
    let logs = event_type_graph(p.logs, logs_key(key), logs_feed);
    event_type_is_wired(p.logs, logs_key(key), logs_feed);
    event_type_alias_is_last(p.logs, logs_key(key), logs_feed);
    event_type_keys_are_distinct(p.logs, logs_key(key), logs_feed);
    assert(refers_to(logs_feed[0], m0[0]));
    assert(all_resolved(logs_feed, m0, inputs));
    assert forall|x: int, j: int| 0 <= x < m0.len() && 0 <= j < logs.len() implies (
    #[trigger] m0[x]).key != (#[trigger] logs[j]).key by {
        if m0[x].key == logs[j].key {
            subtrees_are_apart(m0[x].key, key, "router"@, "logs"@);
        }
    }
    put_all_of_fresh(m0, logs);
    let m1 = m0 + logs;
    append_keeps_wired(m0, logs, logs_feed, inputs);
    within_goes_below(logs, logs_key(key), key);
    put_all_keeps_below(m0, logs, key);

    let metrics_feed = seq![joined(router_key(key), "metrics"@)];
    let metrics = event_type_graph(p.metrics, metrics_key(key), metrics_feed);
    event_type_is_wired(p.metrics, metrics_key(key), metrics_feed);
    event_type_alias_is_last(p.metrics, metrics_key(key), metrics_feed);
    event_type_keys_are_distinct(p.metrics, metrics_key(key), metrics_feed);
    assert(m1[0] == router);
    assert(refers_to(metrics_feed[0], m1[0]));
    assert(all_resolved(metrics_feed, m1, inputs));
    assert forall|x: int, j: int| 0 <= x < m1.len() && 0 <= j < metrics.len() implies (
    #[trigger] m1[x]).key != (#[trigger] metrics[j]).key by {
        if m1[x].key == metrics[j].key {
            if x < m0.len() {
                subtrees_are_apart(m1[x].key, key, "router"@, "metrics"@);
            } else {
                assert(m1[x] == logs[x - m0.len()]);
                subtrees_are_apart(m1[x].key, key, "logs"@, "metrics"@);
            }
        }
    }
    put_all_of_fresh(m1, metrics);
    let m2 = m1 + metrics;
    append_keeps_wired(m1, metrics, metrics_feed, inputs);
    within_goes_below(metrics, metrics_key(key), key);
    put_all_keeps_below(m1, metrics, key);

    let alias = Entry {
        key: key,
        inputs: seq![logs_key(key), metrics_key(key)],
        node: TransformConfig::Noop,
    };
    alias_comes_last(m2, alias);
    assert(m2[m1.len() - 1] == logs[logs.len() - 1]);
    assert(refers_to(alias.inputs[0], m2[m1.len() - 1]));
    assert(m2[m2.len() - 1] == metrics[metrics.len() - 1]);
    assert(refers_to(alias.inputs[1], m2[m2.len() - 1]));
    assert(all_resolved(alias.inputs, m2, inputs));
    push_keeps_wired(m2, alias, inputs);
}

} // verus!
