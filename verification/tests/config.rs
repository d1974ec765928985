use metric_calculator::db::{algo_key, metrics_key, port_key, redis_url, serialize_metrics};
use metric_calculator::endpoints::{
    host_port, is_reload_request, listen_address, machine_url, metrics_url, reload_request, subcontainers_url,
};
use metric_calculator::nginx::{
    add_location, generate_upstream, is_custom, nginx_template_generator, upstream_name, NginxRoutes,
};
use metric_calculator::settings::{trigger_port, with_defaults, AgentSettings};

fn s(x: &str) -> String {
    x.to_string()
}

#[test]
fn addresses_of_the_metrics_service() {
    assert_eq!(metrics_url("10.0.0.1", "8080", "/kubepods/x"), "http://10.0.0.1:8080/api/v1.3/containers//kubepods/x");
    assert_eq!(subcontainers_url("node-a", "4194"), "http://node-a:4194/api/v1.3/subcontainers");
    assert_eq!(machine_url("node-a", "4194"), "http://node-a:4194/api/v1.3/machine");
}

#[test]
fn addresses_of_the_reload_server() {
    assert_eq!(host_port("127.0.0.1", "3333"), "127.0.0.1:3333");
    assert_eq!(listen_address("3333"), "0.0.0.0:3333");
}

#[test]
fn reload_request_is_hello() {
    assert_eq!(reload_request(), b"Hello!".to_vec());
}

#[test]
fn reload_server_accepts_exactly_the_reload_request() {
    assert!(is_reload_request(&reload_request()));
    assert!(is_reload_request(b"Hello!"));
    assert!(!is_reload_request(b"Hello"));
    assert!(!is_reload_request(b"Hello!!"));
    assert!(!is_reload_request(b"hello!"));
    assert!(!is_reload_request(b""));
}

#[test]
fn redis_names() {
    assert_eq!(redis_url("redis-svc"), "redis://redis-svc");
    assert_eq!(algo_key("shop"), "shop-algo");
    assert_eq!(port_key("shop"), "shop-port");
    assert_eq!(metrics_key("default.web-1"), "default.web-1-metrics");
}

#[test]
fn metrics_record_layout() {
    let expected = format!(
        r#"{{
        "pod":"{}","cpu":{}, "ram":{}, "bandwidth":{}
    }}"#,
        "web-metrics", 0.5, 0.25, 1.0
    );
    let got = serialize_metrics("web-metrics", &0.5f64.to_string(), &0.25f64.to_string(), &1.0f64.to_string());
    assert_eq!(got, expected);
}

#[test]
fn direct_location_proxies_to_replica() {
    let expected = format!(
        r#"
                location /{}/ {{
                    proxy_pass http://{}:{}/;
                }}
            "#,
        "shop", "10.244.1.7", "8000"
    );
    assert_eq!(add_location("10.244.1.7", "shop", "", "8000"), expected);
}

#[test]
fn direct_location_without_port_is_empty() {
    assert_eq!(add_location("10.244.1.7", "shop", "", ""), "");
}

#[test]
fn upstream_location_proxies_to_block() {
    let expected = format!(
        r#"
            location /{}/ {{
                proxy_pass http://{}/;
            }}
        "#,
        "shop", "shopstream"
    );
    assert_eq!(add_location("shopstream", "shop", "upstream", ""), expected);
}

#[test]
fn upstream_block_lists_method_and_replicas() {
    let expected = format!(
        r#"
                upstream {}stream{{
                    {}
                }}
            "#,
        "shop",
        ["least_conn;", "server 10.244.1.7:8000;", "server 10.244.2.3:8000;"].join("\n")
    );
    let ips = vec![s("10.244.1.7"), s("10.244.2.3")];
    assert_eq!(generate_upstream("shop", "least_conn", "8000", &ips), expected);
}

#[test]
fn round_robin_upstream_has_no_method_line() {
    let ips = vec![s("10.244.1.7")];
    let expected = "\n                upstream shopstream{\n                    server 10.244.1.7:8000;\n                }\n            ";
    assert_eq!(generate_upstream("shop", "rr", "8000", &ips), expected);
}

#[test]
fn upstream_without_port_is_empty() {
    assert_eq!(generate_upstream("shop", "rr", "", &vec![s("10.244.1.7")]), "");
}

#[test]
fn upstream_name_appends_stream() {
    assert_eq!(upstream_name("shop"), "shopstream");
}

#[test]
fn template_holds_upstreams_then_locations() {
    let locations = vec![s("L1"), s("L2")];
    let upstreams = vec![s("U1")];
    let expected = format!(
        r#"
        {}
        server {{
            listen       443 ssl;
            listen  [::]:443 ssl;
            server_name  localhost;

            {}

            location / {{
                root   /usr/share/nginx/html;
                index  index.html index.htm;
            }}

            error_page   500 502 503 504  /50x.html;
            location = /50x.html {{
                root   /usr/share/nginx/html;
            }}

        }}
    "#,
        upstreams.join("\n"),
        locations.join("\n")
    );
    assert_eq!(nginx_template_generator(&locations, &upstreams), expected);
}

#[test]
fn custom_algorithms() {
    assert!(is_custom(""));
    assert!(is_custom("custom"));
    assert!(!is_custom("rr"));
    assert!(!is_custom("least_conn"));
}

#[test]
fn routes_of_an_application_routed_by_the_agent() {
    let mut routes = NginxRoutes::new();
    routes.add_application("shop", "10.244.1.7", "", "8000", &vec![]);
    assert_eq!(routes.locations, vec![add_location("10.244.1.7", "shop", "", "8000")]);
    assert!(routes.upstreams.is_empty());
}

#[test]
fn routes_of_an_application_balanced_by_nginx() {
    let mut routes = NginxRoutes::new();
    let ips = vec![s("10.244.1.7"), s("10.244.2.3")];
    routes.add_application("shop", "10.244.1.7", "ip_hash", "8000", &ips);
    assert_eq!(routes.upstreams, vec![generate_upstream("shop", "ip_hash", "8000", &ips)]);
    assert_eq!(routes.locations, vec![add_location("shopstream", "shop", "upstream", "8000")]);
}

#[test]
fn applications_without_best_replica_or_port_get_no_route() {
    let mut routes = NginxRoutes::new();
    routes.add_application("shop", "", "", "8000", &vec![]);
    routes.add_application("shop", "10.244.1.7", "custom", "", &vec![]);
    routes.add_application("shop", "10.244.1.7", "rr", "", &vec![s("10.244.1.7")]);
    assert!(routes.locations.is_empty());
    assert!(routes.upstreams.is_empty());
}

fn settings(values: [&str; 8]) -> AgentSettings {
    AgentSettings {
        redis_host: s(values[0]),
        server_host: s(values[1]),
        server_port: s(values[2]),
        node_ip: s(values[3]),
        node_port: s(values[4]),
        a1: s(values[5]),
        a2: s(values[6]),
        a3: s(values[7]),
    }
}

#[test]
fn empty_settings_get_their_defaults() {
    let d = with_defaults(settings([""; 8]));
    assert_eq!(d.redis_host, "localhost");
    assert_eq!(d.server_host, "127.0.0.1");
    assert_eq!(d.server_port, "3333");
    assert_eq!(d.node_ip, "localhost");
    assert_eq!(d.node_port, "8080");
    assert_eq!((d.a1.as_str(), d.a2.as_str(), d.a3.as_str()), ("0.33", "0.33", "0.33"));
}

#[test]
fn given_settings_are_kept() {
    let d = with_defaults(settings(["r", "h", "1", "n1,n2", "2", "0.5", "", ""]));
    assert_eq!(d.redis_host, "r");
    assert_eq!(d.node_ip, "n1,n2");
    assert_eq!((d.a1.as_str(), d.a2.as_str(), d.a3.as_str()), ("0.5", "", ""));
}

#[test]
fn filling_defaults_twice_changes_nothing() {
    let once = with_defaults(settings(["", "h", "", "", "9", "", "", ""]));
    let twice = with_defaults(settings([
        &once.redis_host,
        &once.server_host,
        &once.server_port,
        &once.node_ip,
        &once.node_port,
        &once.a1,
        &once.a2,
        &once.a3,
    ]));
    assert_eq!(
        (once.redis_host, once.server_host, once.server_port, once.node_ip, once.node_port, once.a1),
        (twice.redis_host, twice.server_host, twice.server_port, twice.node_ip, twice.node_port, twice.a1)
    );
}

#[test]
fn trigger_port_defaults_to_3333() {
    assert_eq!(trigger_port(s("")), "3333");
    assert_eq!(trigger_port(s("4000")), "4000");
}
