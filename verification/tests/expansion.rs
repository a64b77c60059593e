use pipelines::config::{
    Condition, DataType, EventTypeConfig, PipelineConfig, PipelinesConfig, PlainTransform,
    TransformConfig,
};
use pipelines::graph::ExpansionMap;
use pipelines::key::ComponentKey;

fn plain() -> TransformConfig {
    TransformConfig::Plain(PlainTransform { kind: "filter".to_owned(), settings: String::new() })
}

fn condition() -> Condition {
    Condition { kind: "datadog_search".to_owned(), source: "source:s3".to_owned() }
}

fn foo_pipeline() -> PipelineConfig {
    PipelineConfig::new("foo pipeline".to_owned(), Some(condition()), vec![plain(), plain()])
}

fn bar_pipeline() -> PipelineConfig {
    PipelineConfig::new("bar pipeline".to_owned(), None, vec![plain()])
}

fn logs_group(order: Option<Vec<String>>) -> EventTypeConfig {
    let mut logs = EventTypeConfig::empty();
    logs.order = order;
    logs.insert("foo".to_owned(), foo_pipeline());
    logs.insert("bar".to_owned(), bar_pipeline());
    logs
}

fn sample_config() -> PipelinesConfig {
    PipelinesConfig::new(
        logs_group(Some(vec!["foo".to_owned(), "bar".to_owned()])),
        EventTypeConfig::empty(),
    )
}

fn keys_of(map: &ExpansionMap) -> Vec<String> {
    map.keys().map(|key| key.id().to_owned()).collect::<Vec<String>>()
}

fn inputs_of(map: &ExpansionMap, key: &str) -> Vec<String> {
    map.get(&ComponentKey::from(key)).unwrap().0.clone()
}

fn node_of<'a>(map: &'a ExpansionMap, key: &str) -> &'a TransformConfig {
    &map.get(&ComponentKey::from(key)).unwrap().1
}

#[test]
fn expanding() {
    let config = sample_config();
    let inputs = vec!["syslog".to_owned()];
    let name = ComponentKey::from("foo");
    let expanded = config.expand(&name, &inputs).unwrap().unwrap();
    assert_eq!(
        expanded
            .keys()
            .map(|key| key.id().to_string())
            .collect::<Vec<String>>(),
        vec![
            "foo.router",
            "foo.logs.foo.filter",
            "foo.logs.foo.0",
            "foo.logs.foo.1",
            "foo.logs.bar.0",
            "foo.logs.bar",
            "foo.logs",
            "foo.metrics",
            "foo"
        ],
    );
}

#[test]
fn sample_has_two_log_pipelines() {
    let config = sample_config();
    assert_eq!(config.logs().pipelines().len(), 2);
    let foo = &config.logs().pipelines()[config.logs().position("foo").unwrap()].1;
    assert_eq!(foo.transforms().len(), 2);
    let bar = &config.logs().pipelines()[config.logs().position("bar").unwrap()].1;
    assert_eq!(bar.transforms().len(), 1);
    assert_eq!(config.logs().position("baz"), None);
    assert_eq!(config.metrics().pipelines().len(), 0);
    assert_eq!(config.logs().order(), &Some(vec!["foo".to_owned(), "bar".to_owned()]));
}

#[test]
fn sorted_names_without_order() {
    let config = PipelinesConfig::new(logs_group(None), EventTypeConfig::empty());
    assert_eq!(config.logs().names(), vec!["bar".to_owned(), "foo".to_owned()]);
    let expanded = config
        .expand(&ComponentKey::from("root"), &["syslog".to_owned()])
        .unwrap()
        .unwrap();
    assert_eq!(
        keys_of(&expanded),
        vec![
            "root.router",
            "root.logs.bar.0",
            "root.logs.bar",
            "root.logs.foo.filter",
            "root.logs.foo.0",
            "root.logs.foo.1",
            "root.logs",
            "root.metrics",
            "root"
        ],
    );
}

#[test]
fn names_sort_by_characters() {
    let mut group = EventTypeConfig::empty();
    for name in ["b", "ab", "a", "B", "10", "9", ""] {
        group.insert(name.to_owned(), PipelineConfig::new(String::new(), None, vec![]));
    }
    assert_eq!(group.names(), vec!["", "10", "9", "B", "a", "ab", "b"]);
}

#[test]
fn explicit_order_is_followed() {
    let config = sample_config();
    let expanded = config
        .expand(&ComponentKey::from("root"), &["syslog".to_owned()])
        .unwrap()
        .unwrap();
    assert_eq!(
        keys_of(&expanded),
        vec![
            "root.router",
            "root.logs.foo.filter",
            "root.logs.foo.0",
            "root.logs.foo.1",
            "root.logs.bar.0",
            "root.logs.bar",
            "root.logs",
            "root.metrics",
            "root"
        ],
    );
}

#[test]
fn wiring_of_the_sample() {
    let config = sample_config();
    let m = config
        .expand(&ComponentKey::from("root"), &["syslog".to_owned()])
        .unwrap()
        .unwrap();
    assert_eq!(inputs_of(&m, "root.router"), vec!["syslog"]);
    assert_eq!(node_of(&m, "root.router"), &TransformConfig::EventRouter);
    assert_eq!(inputs_of(&m, "root.logs.foo.filter"), vec!["root.router.logs"]);
    assert_eq!(node_of(&m, "root.logs.foo.filter"), &TransformConfig::PipelineFilter(condition()));
    assert_eq!(inputs_of(&m, "root.logs.foo.0"), vec!["root.logs.foo.filter.truthy"]);
    assert_eq!(node_of(&m, "root.logs.foo.0"), &plain());
    assert_eq!(inputs_of(&m, "root.logs.foo.1"), vec!["root.logs.foo.0"]);
    assert_eq!(inputs_of(&m, "root.logs.bar.0"), vec!["root.logs.foo"]);
    assert_eq!(inputs_of(&m, "root.logs.bar"), vec!["root.logs.bar.0"]);
    assert_eq!(node_of(&m, "root.logs.bar"), &TransformConfig::Noop);
    assert_eq!(inputs_of(&m, "root.logs"), vec!["root.logs.bar"]);
    assert_eq!(inputs_of(&m, "root.metrics"), vec!["root.router.metrics"]);
    assert_eq!(inputs_of(&m, "root"), vec!["root.logs", "root.metrics"]);
    assert_eq!(node_of(&m, "root"), &TransformConfig::Noop);
}

#[test]
fn logs_and_metrics_are_joined() {
    let mut metrics = EventTypeConfig::empty();
    metrics.insert("hello".to_owned(), bar_pipeline());
    let config = PipelinesConfig::new(logs_group(None), metrics);
    let m = config
        .expand(&ComponentKey::from("root"), &["syslog".to_owned()])
        .unwrap()
        .unwrap();
    assert_eq!(
        keys_of(&m),
        vec![
            "root.router",
            "root.logs.bar.0",
            "root.logs.bar",
            "root.logs.foo.filter",
            "root.logs.foo.0",
            "root.logs.foo.1",
            "root.logs",
            "root.metrics.hello.0",
            "root.metrics.hello",
            "root.metrics",
            "root"
        ],
    );
    assert_eq!(inputs_of(&m, "root"), vec!["root.logs", "root.metrics"]);
    assert_eq!(inputs_of(&m, "root.metrics.hello.0"), vec!["root.router.metrics"]);
}

#[test]
fn default_config_has_router_and_aliases() {
    let config = PipelinesConfig::default();
    let m = config.expand(&ComponentKey::from("root"), &[]).unwrap().unwrap();
    assert_eq!(keys_of(&m), vec!["root.router", "root.logs", "root.metrics", "root"]);
    assert_eq!(inputs_of(&m, "root.router"), Vec::<String>::new());
    assert_eq!(inputs_of(&m, "root.logs"), vec!["root.router.logs"]);
    assert_eq!(inputs_of(&m, "root"), vec!["root.logs", "root.metrics"]);
}

#[test]
fn empty_event_type_is_one_alias() {
    let group = EventTypeConfig::default();
    let m = group.expand(&ComponentKey::from("k"), &["a".to_owned(), "b".to_owned()]);
    assert_eq!(keys_of(&m), vec!["k"]);
    assert_eq!(inputs_of(&m, "k"), vec!["a", "b"]);
    assert_eq!(node_of(&m, "k"), &TransformConfig::Noop);
}

#[test]
fn absent_names_in_order_are_skipped() {
    let group = logs_group(Some(vec![
        "nope".to_owned(),
        "bar".to_owned(),
        "missing".to_owned(),
    ]));
    let m = group.expand(&ComponentKey::from("k"), &["in".to_owned()]);
    assert_eq!(keys_of(&m), vec!["k.bar.0", "k.bar", "k"]);
    assert_eq!(inputs_of(&m, "k.bar.0"), vec!["in"]);
    assert_eq!(inputs_of(&m, "k"), vec!["k.bar"]);
}

#[test]
fn bare_pipeline_is_one_alias() {
    let p = PipelineConfig::new("p".to_owned(), None, vec![]);
    let (m, tail) = p.expand_with_tail(&ComponentKey::from("k"), &["in".to_owned()]);
    assert_eq!(keys_of(&m), vec!["k"]);
    assert_eq!(inputs_of(&m, "k"), vec!["in"]);
    assert_eq!(node_of(&m, "k"), &TransformConfig::Noop);
    assert_eq!(tail, vec!["in"]);
}

#[test]
fn filter_only_pipeline() {
    let p = PipelineConfig::new("only".to_owned(), Some(condition()), vec![]);
    let (m, tail) = p.expand_with_tail(&ComponentKey::from("only"), &["in".to_owned()]);
    assert_eq!(keys_of(&m), vec!["only.filter"]);
    assert_eq!(inputs_of(&m, "only.filter"), vec!["in"]);
    assert_eq!(tail, vec!["only.filter.truthy", "only.filter.falsy"]);
    let m = p.expand(&ComponentKey::from("only"), &["in".to_owned()]);
    assert_eq!(keys_of(&m), vec!["only.filter"]);
}

#[test]
fn filter_with_transforms_has_no_alias() {
    let (m, tail) = foo_pipeline().expand_with_tail(&ComponentKey::from("k"), &["in".to_owned()]);
    assert_eq!(keys_of(&m), vec!["k.filter", "k.0", "k.1"]);
    assert_eq!(tail, vec!["k.1", "k.filter.falsy"]);
}

#[test]
fn nested_pipelines_expand_in_place() {
    let inner = PipelinesConfig::new(logs_group(None), EventTypeConfig::empty());
    let p = PipelineConfig::new(
        "outer".to_owned(),
        None,
        vec![plain(), TransformConfig::Pipelines(inner), plain()],
    );
    let m = p.expand(&ComponentKey::from("k"), &["in".to_owned()]);
    assert_eq!(
        keys_of(&m),
        vec![
            "k.0",
            "k.1.router",
            "k.1.logs.bar.0",
            "k.1.logs.bar",
            "k.1.logs.foo.filter",
            "k.1.logs.foo.0",
            "k.1.logs.foo.1",
            "k.1.logs",
            "k.1.metrics",
            "k.1",
            "k.2",
            "k"
        ],
    );
    assert_eq!(inputs_of(&m, "k.1.router"), vec!["k.0"]);
    assert_eq!(inputs_of(&m, "k.2"), vec!["k.1"]);
    assert_eq!(inputs_of(&m, "k"), vec!["k.2"]);
}

#[test]
fn repeated_name_keeps_first_place() {
    let group = logs_group(Some(vec!["bar".to_owned(), "bar".to_owned()]));
    let m = group.expand(&ComponentKey::from("k"), &["in".to_owned()]);
    assert_eq!(keys_of(&m), vec!["k.bar.0", "k.bar", "k"]);
    assert_eq!(inputs_of(&m, "k.bar.0"), vec!["k.bar"]);
}

#[test]
fn many_transforms_use_decimal_positions() {
    let mut ts = Vec::new();
    for _ in 0..12 {
        ts.push(plain());
    }
    let p = PipelineConfig::new("p".to_owned(), None, ts);
    let m = p.expand(&ComponentKey::from("k"), &[]);
    let keys = keys_of(&m);
    assert_eq!(keys.len(), 13);
    assert_eq!(keys[9], "k.9");
    assert_eq!(keys[10], "k.10");
    assert_eq!(keys[11], "k.11");
    assert_eq!(inputs_of(&m, "k.10"), vec!["k.9"]);
    assert_eq!(keys[12], "k");
}

#[test]
fn expansion_is_repeatable() {
    let config = sample_config();
    let key = ComponentKey::from("root");
    let a = config.expand(&key, &["syslog".to_owned()]).unwrap().unwrap();
    let b = config.expand(&key, &["syslog".to_owned()]).unwrap().unwrap();
    assert_eq!(a, b);
    assert_eq!(keys_of(&a), keys_of(&b));
}

#[test]
fn leaves_have_no_expansion() {
    let key = ComponentKey::from("k");
    assert!(plain().expand(&key, &[]).unwrap().is_none());
    assert!(TransformConfig::Noop.expand(&key, &[]).unwrap().is_none());
    assert!(TransformConfig::EventRouter.expand(&key, &[]).unwrap().is_none());
    let nested = TransformConfig::Pipelines(PipelinesConfig::default());
    let m = nested.expand(&key, &[]).unwrap().unwrap();
    assert_eq!(keys_of(&m), vec!["k.router", "k.logs", "k.metrics", "k"]);
}

#[test]
fn key_algebra() {
    let root = ComponentKey::from("root");
    assert_eq!(root.id(), "root");
    assert_eq!(root.join("logs").id(), "root.logs");
    assert_eq!(root.join("logs").join("a b").id(), "root.logs.a b");
    assert_eq!(root.join_index(0).id(), "root.0");
    assert_eq!(root.join_index(1234567890).id(), "root.1234567890");
    assert_eq!(root.join("x"), ComponentKey::from("root.x"));
    assert_ne!(root.join("x"), root);
    assert_eq!(root.clone(), root);
}

#[test]
fn self_nesting_is_refused() {
    let inner = PipelinesConfig::default();
    let mut logs = EventTypeConfig::empty();
    logs.insert(
        "x".to_owned(),
        PipelineConfig::new("x".to_owned(), None, vec![TransformConfig::Pipelines(inner)]),
    );
    let config = PipelinesConfig::new(logs, EventTypeConfig::empty());
    let err = config.nestable(&[]).unwrap_err();
    assert!(err.contains("nested in a pipelines"));
    assert_eq!(err, "Pipelines transform shouldn't be nested in a pipelines transform.");
    assert!(TransformConfig::Pipelines(config).nestable(&[]).is_err());
}

#[test]
fn nesting_rules() {
    assert_eq!(sample_config().nestable(&[]), Ok(()));
    assert_eq!(sample_config().nestable(&["route".to_owned()]), Ok(()));
    assert!(sample_config().nestable(&["route".to_owned(), "pipelines".to_owned()]).is_err());
    assert_eq!(plain().nestable(&["pipelines".to_owned()]), Ok(()));
    assert!(PipelinesConfig::default().allowed_below(&[]));
}

#[test]
fn nesting_under_metrics_is_not_looked_at() {
    let mut metrics = EventTypeConfig::empty();
    metrics.insert(
        "x".to_owned(),
        PipelineConfig::new(
            "x".to_owned(),
            None,
            vec![TransformConfig::Pipelines(PipelinesConfig::default())],
        ),
    );
    let config = PipelinesConfig::new(EventTypeConfig::empty(), metrics);
    assert_eq!(config.nestable(&[]), Ok(()));
}

#[test]
fn type_tags() {
    let config = PipelinesConfig::default();
    assert_eq!(config.input_type(), DataType::Any);
    assert_eq!(config.output_type(), DataType::Any);
    assert_eq!(config.transform_type(), "pipelines");
}

#[test]
fn insert_replaces_in_place() {
    let mut group = logs_group(None);
    group.insert("foo".to_owned(), bar_pipeline());
    assert_eq!(group.pipelines().len(), 2);
    assert_eq!(group.pipelines()[0].0, "foo");
    assert_eq!(group.pipelines()[0].1.transforms().len(), 1);
    assert_eq!(group.position("bar"), Some(1));
}

fn names_earlier_node(reference: &str, key: &str, node: &TransformConfig) -> bool {
    reference == key
        || (node == &TransformConfig::EventRouter
            && (reference == format!("{}.logs", key) || reference == format!("{}.metrics", key)))
        || (matches!(node, TransformConfig::PipelineFilter(_))
            && (reference == format!("{}.truthy", key) || reference == format!("{}.falsy", key)))
}

#[test]
fn filterless_config_is_wired_in_order() {
    let inner = PipelinesConfig::new(EventTypeConfig::empty(), {
        let mut metrics = EventTypeConfig::empty();
        metrics.insert("m".to_owned(), bar_pipeline());
        metrics
    });
    let mut logs = EventTypeConfig::empty();
    logs.insert("b".to_owned(), bar_pipeline());
    logs.insert(
        "a".to_owned(),
        PipelineConfig::new(
            "a".to_owned(),
            None,
            vec![plain(), TransformConfig::Pipelines(inner), plain()],
        ),
    );
    let config = PipelinesConfig::new(logs, EventTypeConfig::empty());
    let external = vec!["syslog".to_owned()];
    let m = config.expand(&ComponentKey::from("root"), &external).unwrap().unwrap();
    let entries: Vec<(String, Vec<String>, &TransformConfig)> =
        m.iter().map(|(k, v)| (k.id().to_owned(), v.0.clone(), &v.1)).collect();
    assert_eq!(entries.len(), 15);
    assert_eq!(entries.last().unwrap().0, "root");
    for (i, (key, inputs, _)) in entries.iter().enumerate() {
        for (other, _, _) in &entries[..i] {
            assert_ne!(other, key);
        }
        for reference in inputs {
            let found = external.contains(reference)
                || entries[..i].iter().any(|(k, _, n)| names_earlier_node(reference, k, n));
            assert!(found, "{} feeds {} from nowhere", reference, key);
        }
    }
}

#[test]
fn reference_behind_a_filter_names_no_node() {
    let config = sample_config();
    let m = config
        .expand(&ComponentKey::from("root"), &["syslog".to_owned()])
        .unwrap()
        .unwrap();
    assert_eq!(inputs_of(&m, "root.logs.bar.0"), vec!["root.logs.foo"]);
    assert!(m.get(&ComponentKey::from("root.logs.foo")).is_none());
}

#[test]
fn build_always_fails() {
    assert_eq!(
        PipelinesConfig::default().build(),
        Err("this transform must be expanded".to_owned())
    );
}

#[test]
fn copies_are_equal_and_expand_alike() {
    let inner = PipelinesConfig::new(logs_group(None), EventTypeConfig::empty());
    let mut logs = logs_group(Some(vec!["foo".to_owned(), "bar".to_owned()]));
    logs.insert(
        "deep".to_owned(),
        PipelineConfig::new("deep".to_owned(), None, vec![TransformConfig::Pipelines(inner)]),
    );
    let config = PipelinesConfig::new(logs, logs_group(None));
    let copy = config.clone();
    assert_eq!(copy, config);
    assert_eq!(config.duplicate(), config);
    assert_eq!(foo_pipeline().clone(), foo_pipeline());
    assert_eq!(plain().clone(), plain());
    assert_eq!(config.logs().clone(), *config.logs());
    let key = ComponentKey::from("root");
    let inputs = vec!["syslog".to_owned()];
    assert_eq!(
        copy.expand(&key, &inputs).unwrap().unwrap(),
        config.expand(&key, &inputs).unwrap().unwrap()
    );
    assert_eq!(copy.nestable(&[]), config.nestable(&[]));
    assert!(config.nestable(&[]).is_err());
}

#[test]
fn names_sort_by_code_point() {
    let mut group = EventTypeConfig::empty();
    for name in ["\u{10000}", "z", "\u{e9}", "\u{ffff}", "zz", "Z"] {
        group.insert(name.to_owned(), PipelineConfig::new(String::new(), None, vec![]));
    }
    assert_eq!(group.names(), vec!["Z", "z", "zz", "\u{e9}", "\u{ffff}", "\u{10000}"]);
}
