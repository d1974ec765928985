use metric_calculator::balancer::{observation_seconds, plan_replica_scoring};
use metric_calculator::containers::{get_container_id, listing_is_well_formed, pod_label, NodeListing};
use metric_calculator::index::TextMap;
use metric_calculator::json::JsonValue;

fn s(x: &str) -> String {
    x.to_string()
}

fn text(x: &str) -> JsonValue {
    JsonValue::Str(s(x))
}

fn obj(members: Vec<(&str, JsonValue)>) -> JsonValue {
    JsonValue::Object(members.into_iter().map(|(k, v)| (k.to_string(), v)).collect())
}

fn container(id: &str, pod: Option<&str>, namespace: Option<&str>) -> JsonValue {
    let mut labels = vec![];
    if let Some(p) = pod {
        labels.push(("io.kubernetes.pod.name", text(p)));
    }
    if let Some(n) = namespace {
        labels.push(("io.kubernetes.pod.namespace", text(n)));
    }
    obj(vec![("name", text(id)), ("spec", obj(vec![("labels", obj(labels))]))])
}

fn pods(names: &[&str]) -> JsonValue {
    JsonValue::Array(names.iter().map(|n| text(n)).collect())
}

#[test]
fn pod_label_reads_nested_labels() {
    let c = container("/kubepods/abc", Some("web-1"), Some("default"));
    assert_eq!(pod_label(&c, "io.kubernetes.pod.name"), Some(&s("web-1")));
    assert_eq!(pod_label(&c, "io.kubernetes.pod.namespace"), Some(&s("default")));
    assert_eq!(pod_label(&c, "other"), None);
    assert_eq!(pod_label(&JsonValue::Null, "io.kubernetes.pod.name"), None);
}

#[test]
fn containers_are_matched_to_their_pods() {
    let listing = NodeListing {
        containers: JsonValue::Array(vec![
            container("/kubepods/aaa", Some("web-1"), Some("default")),
            container("/system.slice", None, None),
            container("/kubepods/bbb", Some("db-0"), Some("data")),
            container("/kubepods/ccc", Some("web-1"), Some("other")),
        ]),
        pods: pods(&["default.web-1", "data.db-0", "default.cache-2"]),
    };
    assert!(listing_is_well_formed(&listing));
    let index = get_container_id(&vec![Some(listing)]);
    assert_eq!(index.get(&s("default.web-1")), Some(&s("/kubepods/aaa")));
    assert_eq!(index.get(&s("data.db-0")), Some(&s("/kubepods/bbb")));
    assert_eq!(index.get(&s("default.cache-2")), None);
}

#[test]
fn later_nodes_override_earlier_ones_and_silent_nodes_count_for_nothing() {
    let first = NodeListing {
        containers: JsonValue::Array(vec![container("/old", Some("web-1"), Some("default"))]),
        pods: pods(&["default.web-1"]),
    };
    let second = NodeListing {
        containers: JsonValue::Array(vec![container("/new", Some("web-1"), Some("default"))]),
        pods: pods(&["default.web-1"]),
    };
    let index = get_container_id(&vec![Some(first), None, Some(second)]);
    assert_eq!(index.get(&s("default.web-1")), Some(&s("/new")));
    let none = get_container_id(&vec![None]);
    assert_eq!(none.get(&s("default.web-1")), None);
}

#[test]
fn listing_without_dot_in_pod_is_not_well_formed() {
    let listing = NodeListing {
        containers: JsonValue::Array(vec![container("/c", Some("web-1"), Some("default"))]),
        pods: pods(&["web-1"]),
    };
    assert!(!listing_is_well_formed(&listing));
}

#[test]
fn listing_with_pod_but_no_namespace_label_is_not_well_formed() {
    let listing = NodeListing {
        containers: JsonValue::Array(vec![container("/c", Some("web-1"), None)]),
        pods: pods(&["default.web-1"]),
    };
    assert!(!listing_is_well_formed(&listing));
}

#[test]
fn listing_without_pods_array_is_well_formed_only_without_containers() {
    let empty = NodeListing { containers: JsonValue::Array(vec![]), pods: JsonValue::Null };
    assert!(listing_is_well_formed(&empty));
    let some = NodeListing {
        containers: JsonValue::Array(vec![container("/c", None, None)]),
        pods: JsonValue::Null,
    };
    assert!(!listing_is_well_formed(&some));
    let not_array = NodeListing { containers: JsonValue::Null, pods: pods(&[]) };
    assert!(!listing_is_well_formed(&not_array));
}

#[test]
fn unlabelled_containers_need_no_dot_in_pods() {
    let listing = NodeListing {
        containers: JsonValue::Array(vec![container("/c", None, None)]),
        pods: pods(&["nodot"]),
    };
    assert!(listing_is_well_formed(&listing));
    let index = get_container_id(&vec![Some(listing)]);
    assert_eq!(index.get(&s("nodot")), None);
}

#[test]
fn matching_container_without_id_is_not_well_formed() {
    let c = obj(vec![(
        "spec",
        obj(vec![(
            "labels",
            obj(vec![
                ("io.kubernetes.pod.name", text("web-1")),
                ("io.kubernetes.pod.namespace", text("default")),
            ]),
        )]),
    )]);
    let listing = NodeListing { containers: JsonValue::Array(vec![c]), pods: pods(&["default.web-1"]) };
    assert!(!listing_is_well_formed(&listing));
}

fn stats(times: Vec<Option<&str>>) -> JsonValue {
    obj(vec![(
        "stats",
        JsonValue::Array(
            times
                .into_iter()
                .map(|t| match t {
                    Some(t) => obj(vec![("timestamp", text(t))]),
                    None => obj(vec![]),
                })
                .collect(),
        ),
    )])
}

#[test]
fn observation_spans_first_to_last_sample() {
    let c = stats(vec![
        Some("2024-05-01T10:00:00Z"),
        Some("2024-05-01T10:00:04Z"),
        Some("2024-05-01T10:00:10.5Z"),
    ]);
    assert_eq!(observation_seconds(&c), Some(10));
}

#[test]
fn observation_honours_time_zones() {
    let c = stats(vec![Some("2024-05-01T10:00:00+02:00"), Some("2024-05-01T09:00:00Z")]);
    assert_eq!(observation_seconds(&c), Some(3600));
}

#[test]
fn observation_without_samples_is_zero() {
    assert_eq!(observation_seconds(&stats(vec![])), Some(0));
    assert_eq!(observation_seconds(&JsonValue::Null), Some(0));
    assert_eq!(observation_seconds(&obj(vec![("stats", text("none"))])), Some(0));
}

#[test]
fn observation_of_one_sample_is_zero() {
    assert_eq!(observation_seconds(&stats(vec![Some("2024-05-01T10:00:00Z")])), Some(0));
}

#[test]
fn observation_with_unreadable_time_is_none() {
    assert_eq!(observation_seconds(&stats(vec![Some("yesterday"), Some("2024-05-01T10:00:00Z")])), None);
    assert_eq!(observation_seconds(&stats(vec![Some("2024-05-01T10:00:00Z"), None])), None);
}

#[test]
fn replica_is_scored_from_each_node() {
    let mut index = TextMap::new();
    index.insert(s("default.web-1"), s("/kubepods/aaa"));
    let record = obj(vec![("name", text("default.web-1")), ("ip", text("10.244.1.7"))]);
    let nodes = vec![s("10.0.0.1"), s("10.0.0.2")];
    let plan = plan_replica_scoring(&record, &nodes, "8080", &index).unwrap();
    assert_eq!(plan.metrics_key, "default.web-1-metrics");
    assert_eq!(plan.ip, Some(s("10.244.1.7")));
    assert_eq!(plan.sources.len(), 2);
    assert_eq!(plan.sources[1].node, "10.0.0.2");
    assert_eq!(plan.sources[1].metrics_url, "http://10.0.0.2:8080/api/v1.3/containers//kubepods/aaa");
    assert_eq!(plan.sources[0].machine_url, "http://10.0.0.1:8080/api/v1.3/machine");
}

#[test]
fn replica_without_name_or_container_is_not_scored() {
    let mut index = TextMap::new();
    index.insert(s("default.web-1"), s("/kubepods/aaa"));
    let nodes = vec![s("10.0.0.1")];
    let unnamed = obj(vec![("ip", text("10.244.1.7"))]);
    assert!(plan_replica_scoring(&unnamed, &nodes, "8080", &index).is_none());
    let unknown = obj(vec![("name", text("default.db-0"))]);
    assert!(plan_replica_scoring(&unknown, &nodes, "8080", &index).is_none());
}

#[test]
fn replica_without_ip_is_scored_without_address() {
    let mut index = TextMap::new();
    index.insert(s("p"), s("c"));
    let record = obj(vec![("name", text("p"))]);
    let plan = plan_replica_scoring(&record, &vec![], "8080", &index).unwrap();
    assert_eq!(plan.ip, None);
    assert!(plan.sources.is_empty());
}
