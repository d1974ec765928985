//! The addresses the agent talks to: the container metrics service of each
//! node, and the small server beside nginx that reloads its configuration
//! when it receives the reload request.
use vstd::prelude::*;

verus! {

/// `host:port`.
pub open spec fn host_port_spec(host: Seq<char>, port: Seq<char>) -> Seq<char> {
    host + ":"@ + port
}

/// `http://node:port/api/v1.3/` followed by `path`.
pub open spec fn api_url_spec(node: Seq<char>, port: Seq<char>, path: Seq<char>) -> Seq<char> {
    "http://"@ + node + ":"@ + port + "/api/v1.3/"@ + path
}

/// The address of the metrics of one container.
pub open spec fn metrics_url_spec(node: Seq<char>, port: Seq<char>, container: Seq<char>) -> Seq<char> {
    api_url_spec(node, port, "containers/"@ + container)
}

/// The address of the list of a node's containers.
pub open spec fn subcontainers_url_spec(node: Seq<char>, port: Seq<char>) -> Seq<char> {
    api_url_spec(node, port, "subcontainers"@)
}

/// The address of a node's machine description (its memory capacity).
pub open spec fn machine_url_spec(node: Seq<char>, port: Seq<char>) -> Seq<char> {
    api_url_spec(node, port, "machine"@)
}

/// The bytes of the reload request, `Hello!`.
pub open spec fn reload_request_spec() -> Seq<u8> {
    seq![72u8, 101u8, 108u8, 108u8, 111u8, 33u8]
}

/// `host:port`, the address of the reload server.
pub fn host_port(host: &str, port: &str) -> (r: String)
    ensures
        r@ == host_port_spec(host@, port@),
{
    let mut r = host.to_owned();
    r.append(":");
    r.append(port);
    r
}

/// `0.0.0.0:port`, the address the reload server listens on.
pub fn listen_address(port: &str) -> (r: String)
    ensures
        r@ == host_port_spec("0.0.0.0"@, port@),
{
    host_port("0.0.0.0", port)
}

/// An address of the metrics service of `node`.
fn api_url(node: &str, port: &str, path: &str) -> (r: String)
    ensures
        r@ == api_url_spec(node@, port@, path@),
{
    let mut r = "http://".to_owned();
    r.append(node);
    r.append(":");
    r.append(port);
    r.append("/api/v1.3/");
    r.append(path);
    r
}

/// The address of the metrics of `container` on `node`.
pub fn metrics_url(node: &str, port: &str, container: &str) -> (r: String)
    ensures
        r@ == metrics_url_spec(node@, port@, container@),
{
    let mut path = "containers/".to_owned();
    path.append(container);
    api_url(node, port, path.as_str())
}

/// The address of the list of the containers of `node`.
pub fn subcontainers_url(node: &str, port: &str) -> (r: String)
    ensures
        r@ == subcontainers_url_spec(node@, port@),
{
    api_url(node, port, "subcontainers")
}

/// The address of the machine description of `node`.
pub fn machine_url(node: &str, port: &str) -> (r: String)
    ensures
        r@ == machine_url_spec(node@, port@),
{
    api_url(node, port, "machine")
}

/// The bytes that the agent sends to have nginx reload its configuration.
pub fn reload_request() -> (r: Vec<u8>)
    ensures
        r@ == reload_request_spec(),
{
    let mut r: Vec<u8> = Vec::new();
    r.push(72u8);
    r.push(101u8);
    r.push(108u8);
    r.push(108u8);
    r.push(111u8);
    r.push(33u8);
    r
}

/// Whether bytes received by the reload server are the reload request; the
/// server reloads nginx and reads on when they are, and closes the
/// connection when they are not.
pub fn is_reload_request(received: &[u8]) -> (r: bool)
    ensures
        r == (received@ == reload_request_spec()),
{
    let expected = reload_request();
    if received.len() != expected.len() {
        return false;
    }
    let mut i: usize = 0;
    while i < received.len()
        invariant
            i <= received.len(),
            received@.len() == expected@.len(),
            expected@ == reload_request_spec(),
            forall|j: int| 0 <= j < i ==> received@[j] == expected@[j],
        decreases received.len() - i,
    {
        if received[i] != expected[i] {
            return false;
        }
        i = i + 1;
    }
    assert(received@ =~= expected@);
    true
}

} // verus!
