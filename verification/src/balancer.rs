//! The parts of the load balancer that decide what to measure: which
//! replicas of a deployment are scored, from which nodes their metrics are
//! fetched, and over how many seconds their network traffic was observed.
use vstd::prelude::*;

use crate::db::{metrics_key, metrics_key_spec};
use crate::endpoints::{machine_url, machine_url_spec, metrics_url, metrics_url_spec};
use crate::index::TextMap;
use crate::json::{json_index, json_items, json_text, text_member, JsonValue};

verus! {

/// The seconds since the Unix epoch that an RFC 3339 date and time stands
/// for, or `None` where the text is no such date.
pub uninterp spec fn rfc3339_seconds(text: Seq<char>) -> Option<int>;

/// Parses an RFC 3339 date and time with chrono's
/// `DateTime::parse_from_rfc3339` and takes its `timestamp()`. The contract
/// claims only that the result, or the failure, is the one that
/// `rfc3339_seconds` gives for the text; what the grammar accepts is left to
/// chrono.
#[verifier::external_body]
fn parse_rfc3339_seconds(text: &str) -> (r: Option<i64>)
    ensures
        match r {
            Some(t) => rfc3339_seconds(text@) == Some(t as int),
            None => rfc3339_seconds(text@) is None,
        },
{
    match chrono::DateTime::parse_from_rfc3339(text) {
        Ok(t) => Some(t.timestamp()),
        Err(_) => None,
    }
}

/// The time of one sample of a container's statistics, `"0"` where it has
/// none.
pub open spec fn sample_time_spec(sample: JsonValue) -> Seq<char> {
    match json_text(json_index(sample, "timestamp"@)) {
        Some(t) => t,
        None => "0"@,
    }
}

/// The seconds between the first and the last sample of a container's
/// statistics (`container["stats"]`); zero where there is no sample, and
/// `None` where the time of the first or of the last sample is no RFC 3339
/// date.
pub open spec fn observation_seconds_spec(container: JsonValue) -> Option<int> {
    match json_items(json_index(container, "stats"@)) {
        Some(samples) => if samples.len() > 0 {
            match (
                rfc3339_seconds(sample_time_spec(samples[0])),
                rfc3339_seconds(sample_time_spec(samples.last())),
            ) {
                (Some(first), Some(last)) => Some(last - first),
                _ => None,
            }
        } else {
            Some(0)
        },
        None => Some(0),
    }
}

/// The samples of a container's statistics, `container["stats"]`, and none
/// where they form no array.
pub open spec fn stats_samples(container: JsonValue) -> Seq<JsonValue> {
    match json_items(json_index(container, "stats"@)) {
        Some(samples) => samples,
        None => Seq::empty(),
    }
}

/// The observation runs from the first sample to the last one, whatever the
/// number of samples: where both times can be read, it lasts the seconds
/// from the first to the last; with no sample it lasts nothing.
pub proof fn lemma_observation_spans_first_to_last(container: JsonValue)
    ensures
        stats_samples(container).len() == 0 ==> observation_seconds_spec(container) == Some(0int),
        ({
            let samples = stats_samples(container);
            let first = rfc3339_seconds(sample_time_spec(samples[0]));
            let last = rfc3339_seconds(sample_time_spec(samples[samples.len() - 1]));
            &&& samples.len() >= 1 && first is Some && last is Some ==> observation_seconds_spec(container) == Some(
                last->0 - first->0,
            )
            &&& samples.len() >= 1 && (first is None || last is None) ==> observation_seconds_spec(container) is None
        }),
{
}

/// Adding a sample at the end of the statistics moves the end of the
/// observation to that sample, and leaves its start where it was.
pub proof fn lemma_observation_ends_at_appended_sample(before: JsonValue, after: JsonValue, sample: JsonValue)
    requires
        stats_samples(before).len() >= 1,
        stats_samples(after) == stats_samples(before).push(sample),
        json_items(json_index(after, "stats"@)) is Some,
        rfc3339_seconds(sample_time_spec(stats_samples(before)[0])) is Some,
        rfc3339_seconds(sample_time_spec(sample)) is Some,
    ensures
        observation_seconds_spec(after) == Some(
            rfc3339_seconds(sample_time_spec(sample))->0 - rfc3339_seconds(sample_time_spec(stats_samples(before)[0]))->0,
        ),
{
    let s = stats_samples(after);
    assert(s[0] == stats_samples(before)[0]);
    assert(s[s.len() - 1] == sample);
    lemma_observation_spans_first_to_last(after);
    assert(rfc3339_seconds(sample_time_spec(s[0])) == Some(rfc3339_seconds(sample_time_spec(stats_samples(before)[0]))->0));
    assert(rfc3339_seconds(sample_time_spec(s[s.len() - 1])) == Some(rfc3339_seconds(sample_time_spec(sample))->0));
}

/// The seconds since the Unix epoch of the time of one sample.
fn sample_seconds(sample: &JsonValue) -> (r: Option<i64>)
    ensures
        match r {
            Some(t) => rfc3339_seconds(sample_time_spec(*sample)) == Some(t as int),
            None => rfc3339_seconds(sample_time_spec(*sample)) is None,
        },
{
    match text_member(sample, "timestamp") {
        Some(t) => parse_rfc3339_seconds(t.as_str()),
        None => parse_rfc3339_seconds("0"),
    }
}

/// The seconds over which the bandwidth of a container is measured: from
/// its first to its last sample; zero where there is no sample; `None`
/// where the time of the first or last sample cannot be read.
pub fn observation_seconds(container: &JsonValue) -> (r: Option<i128>)
    ensures
        match r {
            Some(d) => observation_seconds_spec(*container) == Some(d as int),
            None => observation_seconds_spec(*container) is None,
        },
        ({
            let samples = stats_samples(*container);
            let first = rfc3339_seconds(sample_time_spec(samples[0]));
            let last = rfc3339_seconds(sample_time_spec(samples[samples.len() - 1]));
            samples.len() >= 1 && first is Some && last is Some ==> r == Some((last->0 - first->0) as i128)
        }),
{
    proof {
        lemma_observation_spans_first_to_last(*container);
    }
    let samples = match container.get("stats") {
        Some(stats) => stats.as_array(),
        None => None,
    };
    match samples {
        Some(s) => {
            if s.len() == 0 {
                return Some(0);
            }
            let first = sample_seconds(&s[0]);
            let last = sample_seconds(&s[s.len() - 1]);
            match (first, last) {
                (Some(f), Some(l)) => Some(l as i128 - f as i128),
                _ => None,
            }
        },
        None => Some(0),
    }
}

/// Where the metrics of a replica are fetched from: one node of the
/// cluster.
pub struct MetricsSource {
    /// The node asked.
    pub node: String,
    /// The address of the replica's container metrics on that node.
    pub metrics_url: String,
    /// The address of that node's machine description.
    pub machine_url: String,
}

/// How one replica is scored: its metrics are fetched from each node, each
/// answer gives a score for the replica's address, and the ratios are stored
/// under `metrics_key`.
pub struct ScoringPlan {
    pub metrics_key: String,
    /// The address of the replica, where its record has one.
    pub ip: Option<String>,
    pub sources: Vec<MetricsSource>,
}

/// The name of a replica in its record, `record["name"]`.
pub open spec fn replica_name_spec(record: JsonValue) -> Option<Seq<char>> {
    json_text(json_index(record, "name"@))
}

/// The address of a replica in its record, `record["ip"]`.
pub open spec fn replica_ip_spec(record: JsonValue) -> Option<Seq<char>> {
    json_text(json_index(record, "ip"@))
}

/// The sources of the metrics of the container `container` on each node.
pub open spec fn sources_spec(
    nodes: Seq<String>,
    port: Seq<char>,
    container: Seq<char>,
    sources: Seq<MetricsSource>,
) -> bool {
    &&& sources.len() == nodes.len()
    &&& forall|i: int|
        0 <= i < nodes.len() ==> {
            &&& (#[trigger] sources[i]).node@ == nodes[i]@
            &&& sources[i].metrics_url@ == metrics_url_spec(nodes[i]@, port, container)
            &&& sources[i].machine_url@ == machine_url_spec(nodes[i]@, port)
        }
}

/// Each source asks one node for both things: the metrics of the container
/// and the machine description (the memory capacity the ram ratio is taken
/// against) come from the node of that same source, the i-th node given.
pub proof fn lemma_sources_ask_their_own_node(
    nodes: Seq<String>,
    port: Seq<char>,
    container: Seq<char>,
    sources: Seq<MetricsSource>,
)
    requires
        sources_spec(nodes, port, container, sources),
    ensures
        sources.len() == nodes.len(),
        forall|i: int|
            0 <= i < sources.len() ==> {
                &&& (#[trigger] sources[i]).node@ == nodes[i]@
                &&& sources[i].machine_url@ == "http://"@ + sources[i].node@ + ":"@ + port + "/api/v1.3/"@ + "machine"@
                &&& sources[i].metrics_url@ == "http://"@ + sources[i].node@ + ":"@ + port + "/api/v1.3/"@ + (
                "containers/"@ + container)
            },
{
    assert forall|i: int| 0 <= i < sources.len() implies {
        &&& (#[trigger] sources[i]).node@ == nodes[i]@
        &&& sources[i].machine_url@ == "http://"@ + sources[i].node@ + ":"@ + port + "/api/v1.3/"@ + "machine"@
        &&& sources[i].metrics_url@ == "http://"@ + sources[i].node@ + ":"@ + port + "/api/v1.3/"@ + (
        "containers/"@ + container)
    } by {
        assert(sources[i].node@ == nodes[i]@);
    }
}

/// How the replica described by `record` is scored: not at all where the
/// record has no name or no container is known for that name; else from each
/// of `nodes`, listening on `node_port`, as the container that `index` maps
/// the name to.
pub fn plan_replica_scoring(record: &JsonValue, nodes: &Vec<String>, node_port: &str, index: &TextMap) -> (r: Option<ScoringPlan>)
    ensures
        r is Some <==> (replica_name_spec(*record) matches Some(name) && index@.contains_key(name)),
        r matches Some(plan) ==> {
            let name = replica_name_spec(*record)->0;
            &&& plan.metrics_key@ == metrics_key_spec(name)
            &&& (plan.ip matches Some(ip) ==> replica_ip_spec(*record) == Some(ip@))
            &&& (plan.ip is None ==> replica_ip_spec(*record) is None)
            &&& sources_spec(nodes@, node_port@, index@[name], plan.sources@)
        },
        r matches Some(plan) ==> plan.sources@.len() == nodes@.len() && forall|i: int|
            0 <= i < plan.sources@.len() ==> {
                &&& (#[trigger] plan.sources@[i]).node@ == nodes@[i]@
                &&& plan.sources@[i].machine_url@ == "http://"@ + plan.sources@[i].node@ + ":"@ + node_port@
                    + "/api/v1.3/"@ + "machine"@
                &&& plan.sources@[i].metrics_url@ == "http://"@ + plan.sources@[i].node@ + ":"@ + node_port@
                    + "/api/v1.3/"@ + ("containers/"@ + index@[replica_name_spec(*record)->0])
            },
{
    let name = match text_member(record, "name") {
        Some(n) => n,
        None => return None,
    };
    let container = match index.get(&name) {
        Some(c) => c,
        None => return None,
    };
    let mut sources: Vec<MetricsSource> = Vec::new();
    let mut i: usize = 0;
    while i < nodes.len()
        invariant
            i <= nodes.len(),
            sources@.len() == i,
            forall|k: int|
                0 <= k < i ==> {
                    &&& (#[trigger] sources@[k]).node@ == nodes@[k]@
                    &&& sources@[k].metrics_url@ == metrics_url_spec(nodes@[k]@, node_port@, container@)
                    &&& sources@[k].machine_url@ == machine_url_spec(nodes@[k]@, node_port@)
                },
        decreases nodes.len() - i,
    {
        let node = nodes[i].as_str();
        let source = MetricsSource {
            node: node.to_owned(),
            metrics_url: metrics_url(node, node_port, container.as_str()),
            machine_url: machine_url(node, node_port),
        };
        sources.push(source);
        i = i + 1;
    }
    proof {
        lemma_sources_ask_their_own_node(nodes@, node_port@, container@, sources@);
    }
    Some(ScoringPlan { metrics_key: metrics_key(name.as_str()), ip: text_member(record, "ip"), sources })
}

} // verus!
