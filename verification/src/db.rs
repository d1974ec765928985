//! What the agent reads from and writes to Redis: the address of the
//! server, the names of the keys, and the metrics record of a pod.
use vstd::prelude::*;

verus! {

/// `redis://host`.
pub open spec fn redis_url_spec(host: Seq<char>) -> Seq<char> {
    "redis://"@ + host
}

/// The key of the balancing algorithm chosen for an application.
pub open spec fn algo_key_spec(app: Seq<char>) -> Seq<char> {
    app + "-algo"@
}

/// The key of the port that an application listens on.
pub open spec fn port_key_spec(app: Seq<char>) -> Seq<char> {
    app + "-port"@
}

/// The key under which the metrics of a pod are stored.
pub open spec fn metrics_key_spec(pod: Seq<char>) -> Seq<char> {
    pod + "-metrics"@
}

/// The JSON record of the metrics of a pod; the three ratios are given in
/// their decimal form.
pub open spec fn metrics_record_spec(
    pod: Seq<char>,
    cpu: Seq<char>,
    ram: Seq<char>,
    bandwidth: Seq<char>,
) -> Seq<char> {
    "{\n        \"pod\":\""@ + pod + "\",\"cpu\":"@ + cpu + ", \"ram\":"@ + ram + ", \"bandwidth\":"@
        + bandwidth + "\n    }"@
}

/// The address of the Redis server on `host`.
pub fn redis_url(host: &str) -> (r: String)
    ensures
        r@ == redis_url_spec(host@),
{
    let mut r = "redis://".to_owned();
    r.append(host);
    r
}

/// The key of the balancing algorithm chosen for `app`.
pub fn algo_key(app: &str) -> (r: String)
    ensures
        r@ == algo_key_spec(app@),
{
    let mut r = app.to_owned();
    r.append("-algo");
    r
}

/// The key of the port that `app` listens on.
pub fn port_key(app: &str) -> (r: String)
    ensures
        r@ == port_key_spec(app@),
{
    let mut r = app.to_owned();
    r.append("-port");
    r
}

/// The key under which the metrics of `pod` are stored.
pub fn metrics_key(pod: &str) -> (r: String)
    ensures
        r@ == metrics_key_spec(pod@),
{
    let mut r = pod.to_owned();
    r.append("-metrics");
    r
}

/// The JSON record of the metrics of `pod`, stored in Redis; `cpu`, `ram` and
/// `bandwidth` are the ratios in their decimal form.
pub fn serialize_metrics(pod: &str, cpu: &str, ram: &str, bandwidth: &str) -> (r: String)
    ensures
        r@ == metrics_record_spec(pod@, cpu@, ram@, bandwidth@),
{
    let mut r = "{\n        \"pod\":\"".to_owned();
    r.append(pod);
    r.append("\",\"cpu\":");
    r.append(cpu);
    r.append(", \"ram\":");
    r.append(ram);
    r.append(", \"bandwidth\":");
    r.append(bandwidth);
    r.append("\n    }");
    r
}

} // verus!
