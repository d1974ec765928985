//! The settings of the agent, read from its environment, and the values
//! that stand in for those left empty.
use vstd::prelude::*;

verus! {

/// The settings of the agent, each as text.
pub struct AgentSettings {
    /// Host of the Redis server (`REDIS_HOST`).
    pub redis_host: String,
    /// Host of the nginx reload server (`SERVER_TRIGGER_HOST`).
    pub server_host: String,
    /// Port of the nginx reload server (`SERVER_TRIGGER_PORT`).
    pub server_port: String,
    /// Addresses of the nodes, separated by commas (`NODE_IP`).
    pub node_ip: String,
    /// Port of the metrics service on the nodes (`NODE_PORT`).
    pub node_port: String,
    /// Weight of the cpu ratio in a score (`A1`).
    pub a1: String,
    /// Weight of the ram ratio in a score (`A2`).
    pub a2: String,
    /// Weight of the bandwidth ratio in a score (`A3`).
    pub a3: String,
}

/// The settings as texts.
pub struct SettingsView {
    pub redis_host: Seq<char>,
    pub server_host: Seq<char>,
    pub server_port: Seq<char>,
    pub node_ip: Seq<char>,
    pub node_port: Seq<char>,
    pub a1: Seq<char>,
    pub a2: Seq<char>,
    pub a3: Seq<char>,
}

impl View for AgentSettings {
    type V = SettingsView;

    open spec fn view(&self) -> SettingsView {
        SettingsView {
            redis_host: self.redis_host@,
            server_host: self.server_host@,
            server_port: self.server_port@,
            node_ip: self.node_ip@,
            node_port: self.node_port@,
            a1: self.a1@,
            a2: self.a2@,
            a3: self.a3@,
        }
    }
}

/// `value`, or `default` where it is empty.
pub open spec fn or_default(value: Seq<char>, default: Seq<char>) -> Seq<char> {
    if value.len() == 0 {
        default
    } else {
        value
    }
}

/// The settings with each empty one replaced by its default; the three
/// weights are replaced together, and only where all three are empty.
pub open spec fn with_defaults_spec(s: SettingsView) -> SettingsView {
    let no_weights = s.a1.len() == 0 && s.a2.len() == 0 && s.a3.len() == 0;
    SettingsView {
        redis_host: or_default(s.redis_host, "localhost"@),
        server_host: or_default(s.server_host, "127.0.0.1"@),
        server_port: or_default(s.server_port, "3333"@),
        node_ip: or_default(s.node_ip, "localhost"@),
        node_port: or_default(s.node_port, "8080"@),
        a1: if no_weights { "0.33"@ } else { s.a1 },
        a2: if no_weights { "0.33"@ } else { s.a2 },
        a3: if no_weights { "0.33"@ } else { s.a3 },
    }
}

/// `value`, or `default` where it is empty.
fn or_default_text(value: String, default: &str) -> (r: String)
    ensures
        r@ == or_default(value@, default@),
{
    if value.as_str().unicode_len() == 0 {
        default.to_owned()
    } else {
        value
    }
}

/// The settings with each empty one replaced by its default: Redis and the
/// nodes on `localhost`, the reload server on `127.0.0.1:3333`, the metrics
/// service on port `8080`, and weights of `0.33` each where none is given.
pub fn with_defaults(s: AgentSettings) -> (r: AgentSettings)
    ensures
        r@ == with_defaults_spec(s@),
        s.redis_host@.len() > 0 ==> r.redis_host@ == s.redis_host@,
        s.server_host@.len() > 0 ==> r.server_host@ == s.server_host@,
        s.server_port@.len() > 0 ==> r.server_port@ == s.server_port@,
        s.node_ip@.len() > 0 ==> r.node_ip@ == s.node_ip@,
        s.node_port@.len() > 0 ==> r.node_port@ == s.node_port@,
        (s.a1@.len() > 0 || s.a2@.len() > 0 || s.a3@.len() > 0) ==> (r.a1@ == s.a1@ && r.a2@ == s.a2@ && r.a3@
            == s.a3@),
{
    proof {
        lemma_given_settings_are_kept(s@);
    }
    let no_weights = s.a1.as_str().unicode_len() == 0 && s.a2.as_str().unicode_len() == 0
        && s.a3.as_str().unicode_len() == 0;
    let (a1, a2, a3) = if no_weights {
        ("0.33".to_owned(), "0.33".to_owned(), "0.33".to_owned())
    } else {
        (s.a1, s.a2, s.a3)
    };
    AgentSettings {
        redis_host: or_default_text(s.redis_host, "localhost"),
        server_host: or_default_text(s.server_host, "127.0.0.1"),
        server_port: or_default_text(s.server_port, "3333"),
        node_ip: or_default_text(s.node_ip, "localhost"),
        node_port: or_default_text(s.node_port, "8080"),
        a1,
        a2,
        a3,
    }
}

/// The port the reload server listens on (`TRIGGER_PORT`), `3333` where it
/// is empty.
pub fn trigger_port(value: String) -> (r: String)
    ensures
        r@ == or_default(value@, "3333"@),
{
    or_default_text(value, "3333")
}

/// Filling in the defaults a second time changes nothing.
pub proof fn lemma_with_defaults_idempotent(s: SettingsView)
    ensures
        with_defaults_spec(with_defaults_spec(s)) == with_defaults_spec(s),
{
    reveal_strlit("localhost");
    reveal_strlit("127.0.0.1");
    reveal_strlit("3333");
    reveal_strlit("8080");
    reveal_strlit("0.33");
}

/// After the defaults are filled in, every setting but the weights has a
/// value, and the weights are either all as given or all `0.33`.
pub proof fn lemma_with_defaults_complete(s: SettingsView)
    ensures
        with_defaults_spec(s).redis_host.len() > 0,
        with_defaults_spec(s).server_host.len() > 0,
        with_defaults_spec(s).server_port.len() > 0,
        with_defaults_spec(s).node_ip.len() > 0,
        with_defaults_spec(s).node_port.len() > 0,
        ({
            let d = with_defaults_spec(s);
            (d.a1 == s.a1 && d.a2 == s.a2 && d.a3 == s.a3) || (d.a1 == "0.33"@ && d.a2 == "0.33"@ && d.a3
                == "0.33"@)
        }),
{
    reveal_strlit("localhost");
    reveal_strlit("127.0.0.1");
    reveal_strlit("3333");
    reveal_strlit("8080");
}

/// A setting that is given is kept: only empty settings are replaced, and
/// the weights are kept all three as soon as one of them is given.
pub proof fn lemma_given_settings_are_kept(s: SettingsView)
    ensures
        s.redis_host.len() > 0 ==> with_defaults_spec(s).redis_host == s.redis_host,
        s.server_host.len() > 0 ==> with_defaults_spec(s).server_host == s.server_host,
        s.server_port.len() > 0 ==> with_defaults_spec(s).server_port == s.server_port,
        s.node_ip.len() > 0 ==> with_defaults_spec(s).node_ip == s.node_ip,
        s.node_port.len() > 0 ==> with_defaults_spec(s).node_port == s.node_port,
        (s.a1.len() > 0 || s.a2.len() > 0 || s.a3.len() > 0) ==> {
            let d = with_defaults_spec(s);
            d.a1 == s.a1 && d.a2 == s.a2 && d.a3 == s.a3
        },
        s.redis_host.len() == 0 ==> with_defaults_spec(s).redis_host == "localhost"@,
        s.server_host.len() == 0 ==> with_defaults_spec(s).server_host == "127.0.0.1"@,
        s.server_port.len() == 0 ==> with_defaults_spec(s).server_port == "3333"@,
        s.node_ip.len() == 0 ==> with_defaults_spec(s).node_ip == "localhost"@,
        s.node_port.len() == 0 ==> with_defaults_spec(s).node_port == "8080"@,
{
}

} // verus!
