//! The nginx configuration that routes each application to its replicas:
//! one `location` per application, and an `upstream` block for those that
//! nginx itself balances.
use vstd::prelude::*;

use crate::text::{join, join_spec, lemma_join_holds_every_piece, lemma_occurs_in_concat, occurs_in, strings_view, text_eq};

verus! {

/// A location that proxies `/app/` straight to `ip:port`.
pub open spec fn direct_location_spec(app: Seq<char>, ip: Seq<char>, port: Seq<char>) -> Seq<char> {
    "\n                location /"@ + app + "/ {\n                    proxy_pass http://"@ + ip + ":"@ + port
        + "/;\n                }\n            "@
}

/// A location that proxies `/app/` to the upstream block named `target`.
pub open spec fn upstream_location_spec(app: Seq<char>, target: Seq<char>) -> Seq<char> {
    "\n            location /"@ + app + "/ {\n                proxy_pass http://"@ + target + "/;\n            }\n        "@
}

/// The location of `app`: through an upstream block where `from_where` is
/// `upstream`, else straight to `ip` on the port of the application, and
/// nothing where that port is unknown (empty).
pub open spec fn add_location_spec(ip: Seq<char>, app: Seq<char>, from_where: Seq<char>, port: Seq<char>) -> Seq<char> {
    if from_where != "upstream"@ {
        if port.len() > 0 {
            direct_location_spec(app, ip, port)
        } else {
            Seq::<char>::empty()
        }
    } else {
        upstream_location_spec(app, ip)
    }
}

/// The name of the upstream block of `app`.
pub open spec fn upstream_name_spec(app: Seq<char>) -> Seq<char> {
    app + "stream"@
}

/// `server ip:port;`, one replica in an upstream block.
pub open spec fn server_line_spec(ip: Seq<char>, port: Seq<char>) -> Seq<char> {
    "server "@ + ip + ":"@ + port + ";"@
}

/// The lines of an upstream block: the balancing method unless it is
/// round robin (`rr`, nginx's default), then one line per replica.
pub open spec fn upstream_lines_spec(algo: Seq<char>, port: Seq<char>, ips: Seq<Seq<char>>) -> Seq<Seq<char>> {
    let method = if algo != "rr"@ {
        seq![algo + ";"@]
    } else {
        Seq::<Seq<char>>::empty()
    };
    method + Seq::new(ips.len(), |i: int| server_line_spec(ips[i], port))
}

/// The upstream block of `app` over the replicas at `ips`, or nothing where
/// the port of the application is unknown (empty).
pub open spec fn upstream_spec(app: Seq<char>, algo: Seq<char>, port: Seq<char>, ips: Seq<Seq<char>>) -> Seq<char> {
    if port.len() > 0 {
        "\n                upstream "@ + upstream_name_spec(app) + "{\n                    "@ + join_spec(
            upstream_lines_spec(algo, port, ips),
            "\n"@,
        ) + "\n                }\n            "@
    } else {
        Seq::<char>::empty()
    }
}

/// The whole configuration file: the upstream blocks, then a TLS server
/// holding the locations.
pub open spec fn template_spec(locations: Seq<Seq<char>>, upstreams: Seq<Seq<char>>) -> Seq<char> {
    "\n        "@ + join_spec(upstreams, "\n"@)
        + "\n        server {\n            listen       443 ssl;\n            listen  [::]:443 ssl;\n            server_name  localhost;\n\n            "@
        + join_spec(locations, "\n"@)
        + "\n\n            location / {\n                root   /usr/share/nginx/html;\n                index  index.html index.htm;\n            }\n\n            error_page   500 502 503 504  /50x.html;\n            location = /50x.html {\n                root   /usr/share/nginx/html;\n            }\n\n        }\n    "@
}

/// Whether the agent itself routes an application (no algorithm, or
/// `custom`), rather than leaving the balancing to nginx.
pub open spec fn is_custom_spec(algo: Seq<char>) -> bool {
    algo.len() == 0 || algo == "custom"@
}

/// The locations and upstream blocks after adding an application whose best
/// replica is at `best_ip`: nothing where there is no best replica; where the
/// agent routes it, its location when there is one; else its upstream block
/// and the location through it, when both are there.
pub open spec fn routes_after(
    locations: Seq<Seq<char>>,
    upstreams: Seq<Seq<char>>,
    app: Seq<char>,
    best_ip: Seq<char>,
    algo: Seq<char>,
    port: Seq<char>,
    ips: Seq<Seq<char>>,
) -> (Seq<Seq<char>>, Seq<Seq<char>>) {
    if best_ip.len() == 0 {
        (locations, upstreams)
    } else if is_custom_spec(algo) {
        let s = add_location_spec(best_ip, app, Seq::<char>::empty(), port);
        if s.len() > 0 {
            (locations.push(s), upstreams)
        } else {
            (locations, upstreams)
        }
    } else {
        let u = upstream_spec(app, algo, port, ips);
        let s = add_location_spec(upstream_name_spec(app), app, "upstream"@, port);
        if u.len() > 0 && s.len() > 0 {
            (locations.push(s), upstreams.push(u))
        } else {
            (locations, upstreams)
        }
    }
}

/// The location of `app` for nginx: through the upstream block named `ip`
/// where `from_where` is `upstream`, else straight to the replica at `ip` on
/// `port`, the port of the application; empty where that port is empty.
pub fn add_location(ip: &str, app: &str, from_where: &str, port: &str) -> (r: String)
    ensures
        r@ == add_location_spec(ip@, app@, from_where@, port@),
{
    if !text_eq(from_where, "upstream") {
        if port.unicode_len() > 0 {
            let mut r = "\n                location /".to_owned();
            r.append(app);
            r.append("/ {\n                    proxy_pass http://");
            r.append(ip);
            r.append(":");
            r.append(port);
            r.append("/;\n                }\n            ");
            r
        } else {
            String::new()
        }
    } else {
        let mut r = "\n            location /".to_owned();
        r.append(app);
        r.append("/ {\n                proxy_pass http://");
        r.append(ip);
        r.append("/;\n            }\n        ");
        r
    }
}

/// The name of the upstream block of `app`.
pub fn upstream_name(app: &str) -> (r: String)
    ensures
        r@ == upstream_name_spec(app@),
{
    let mut r = app.to_owned();
    r.append("stream");
    r
}

/// The lines of the upstream block: the balancing method unless it is `rr`,
/// then `server ip:port;` for each replica.
fn upstream_lines(algo: &str, port: &str, ips: &Vec<String>) -> (lines: Vec<String>)
    ensures
        strings_view(lines@) == upstream_lines_spec(algo@, port@, strings_view(ips@)),
{
    let mut lines: Vec<String> = Vec::new();
    if !text_eq(algo, "rr") {
        let mut method = algo.to_owned();
        method.append(";");
        lines.push(method);
    }
    let ghost method_lines = strings_view(lines@);
    let ghost ip_views = strings_view(ips@);
    let mut i: usize = 0;
    while i < ips.len()
        invariant
            i <= ips.len(),
            ip_views == strings_view(ips@),
            method_lines == (if algo@ != "rr"@ {
                seq![algo@ + ";"@]
            } else {
                Seq::<Seq<char>>::empty()
            }),
            strings_view(lines@) =~= method_lines + Seq::new(i as nat, |k: int| server_line_spec(ip_views[k], port@)),
        decreases ips.len() - i,
    {
        let mut line = "server ".to_owned();
        line.append(ips[i].as_str());
        line.append(":");
        line.append(port);
        line.append(";");
        let ghost before = lines@;
        lines.push(line);
        assert(lines@ == before.push(line));
        assert(strings_view(lines@) =~= strings_view(before).push(line@));
        i = i + 1;
    }
    lines
}

/// The upstream block of `app` for nginx, balancing with `algo` over the
/// replicas at `server_ips`, each on `port`, the port of the application;
/// empty where that port is empty.
pub fn generate_upstream(app: &str, algo: &str, port: &str, server_ips: &Vec<String>) -> (r: String)
    ensures
        r@ == upstream_spec(app@, algo@, port@, strings_view(server_ips@)),
        port@.len() > 0 ==> forall|i: int|
            0 <= i < server_ips@.len() ==> occurs_in("server "@ + (#[trigger] server_ips@[i])@ + ":"@ + port@ + ";"@, r@),
{
    proof {
        lemma_upstream_lists_every_replica(app@, algo@, port@, strings_view(server_ips@));
        assert forall|i: int| 0 <= i < server_ips@.len() implies strings_view(server_ips@)[i] == (#[trigger] server_ips@[i])@ by {}
    }
    if port.unicode_len() > 0 {
        let lines = upstream_lines(algo, port, server_ips);
        let body = join(&lines, "\n");
        let name = upstream_name(app);
        let mut r = "\n                upstream ".to_owned();
        r.append(name.as_str());
        r.append("{\n                    ");
        r.append(body.as_str());
        r.append("\n                }\n            ");
        r
    } else {
        String::new()
    }
}

/// The content of the nginx configuration file, with the upstream blocks
/// and then the locations, each list joined by new lines.
pub fn nginx_template_generator(locations: &Vec<String>, upstreams: &Vec<String>) -> (r: String)
    ensures
        r@ == template_spec(strings_view(locations@), strings_view(upstreams@)),
        r@.subrange(0, ("\n        "@.len() + join_spec(strings_view(upstreams@), "\n"@).len()) as int) == "\n        "@
            + join_spec(strings_view(upstreams@), "\n"@),
        forall|i: int| 0 <= i < upstreams@.len() ==> occurs_in(#[trigger] upstreams@[i]@, r@),
        forall|i: int| 0 <= i < locations@.len() ==> occurs_in(#[trigger] locations@[i]@, r@),
{
    proof {
        lemma_template_holds_every_block(strings_view(locations@), strings_view(upstreams@));
        assert forall|i: int| 0 <= i < upstreams@.len() implies occurs_in(#[trigger] upstreams@[i]@, template_spec(strings_view(locations@), strings_view(upstreams@))) by {
            assert(strings_view(upstreams@)[i] == upstreams@[i]@);
        }
        assert forall|i: int| 0 <= i < locations@.len() implies occurs_in(#[trigger] locations@[i]@, template_spec(strings_view(locations@), strings_view(upstreams@))) by {
            assert(strings_view(locations@)[i] == locations@[i]@);
        }
    }
    let l = join(locations, "\n");
    let u = join(upstreams, "\n");
    let mut r = "\n        ".to_owned();
    r.append(u.as_str());
    r.append(
        "\n        server {\n            listen       443 ssl;\n            listen  [::]:443 ssl;\n            server_name  localhost;\n\n            ",
    );
    r.append(l.as_str());
    r.append(
        "\n\n            location / {\n                root   /usr/share/nginx/html;\n                index  index.html index.htm;\n            }\n\n            error_page   500 502 503 504  /50x.html;\n            location = /50x.html {\n                root   /usr/share/nginx/html;\n            }\n\n        }\n    ",
    );
    r
}

/// Whether the agent itself routes an application with the balancing
/// algorithm `algo`: where none is set, or it is `custom`.
pub fn is_custom(algo: &str) -> (r: bool)
    ensures
        r == is_custom_spec(algo@),
{
    algo.unicode_len() == 0 || text_eq(algo, "custom")
}

/// The locations and upstream blocks of the configuration, gathered one
/// application at a time.
pub struct NginxRoutes {
    pub locations: Vec<String>,
    pub upstreams: Vec<String>,
}

impl NginxRoutes {
    /// No location and no upstream block.
    pub fn new() -> (r: NginxRoutes)
        ensures
            r.locations@.len() == 0,
            r.upstreams@.len() == 0,
    {
        NginxRoutes { locations: Vec::new(), upstreams: Vec::new() }
    }

    /// Adds the routes of `app`, whose best replica is at `best_ip` (empty
    /// where it has none), balanced with `algo`, listening on `port`, with
    /// its replicas at `server_ips` (read only where nginx balances it).
    pub fn add_application(&mut self, app: &str, best_ip: &str, algo: &str, port: &str, server_ips: &Vec<String>)
        ensures
            (strings_view(final(self).locations@), strings_view(final(self).upstreams@)) == routes_after(
                strings_view(old(self).locations@),
                strings_view(old(self).upstreams@),
                app@,
                best_ip@,
                algo@,
                port@,
                strings_view(server_ips@),
            ),
    {
        if best_ip.unicode_len() == 0 {
            return;
        }
        if is_custom(algo) {
            let s = add_location(best_ip, app, "", port);
            proof {
                reveal_strlit("");
                assert(""@ =~= Seq::<char>::empty());
            }
            if s.unicode_len() > 0 {
                let ghost before = self.locations@;
                self.locations.push(s);
                assert(self.locations@ == before.push(s));
                assert(strings_view(self.locations@) =~= strings_view(before).push(s@));
            }
        } else {
            let u = generate_upstream(app, algo, port, server_ips);
            let name = upstream_name(app);
            let s = add_location(name.as_str(), app, "upstream", port);
            if u.unicode_len() > 0 && s.unicode_len() > 0 {
                let ghost before_u = self.upstreams@;
                let ghost before_l = self.locations@;
                self.upstreams.push(u);
                self.locations.push(s);
                assert(self.upstreams@ == before_u.push(u));
                assert(self.locations@ == before_l.push(s));
                assert(strings_view(self.locations@) =~= strings_view(before_l).push(s@));
                assert(strings_view(self.upstreams@) =~= strings_view(before_u).push(u@));
            }
        }
    }
}

/// The configuration file opens with the upstream blocks joined by new
/// lines, and every upstream block and every location given stands in it.
pub proof fn lemma_template_holds_every_block(locations: Seq<Seq<char>>, upstreams: Seq<Seq<char>>)
    ensures
        template_spec(locations, upstreams).subrange(0, ("\n        "@.len() + join_spec(upstreams, "\n"@).len()) as int)
            == "\n        "@ + join_spec(upstreams, "\n"@),
        forall|i: int| 0 <= i < upstreams.len() ==> occurs_in(#[trigger] upstreams[i], template_spec(locations, upstreams)),
        forall|i: int| 0 <= i < locations.len() ==> occurs_in(#[trigger] locations[i], template_spec(locations, upstreams)),
{
    let lead = "\n        "@;
    let ju = join_spec(upstreams, "\n"@);
    let jl = join_spec(locations, "\n"@);
    let mid = "\n        server {\n            listen       443 ssl;\n            listen  [::]:443 ssl;\n            server_name  localhost;\n\n            "@;
    let tail = "\n\n            location / {\n                root   /usr/share/nginx/html;\n                index  index.html index.htm;\n            }\n\n            error_page   500 502 503 504  /50x.html;\n            location = /50x.html {\n                root   /usr/share/nginx/html;\n            }\n\n        }\n    "@;
    let t = template_spec(locations, upstreams);
    assert(t == lead + ju + mid + jl + tail);
    assert(t.subrange(0, (lead.len() + ju.len()) as int) =~= lead + ju);
    lemma_join_holds_every_piece(upstreams, "\n"@);
    lemma_join_holds_every_piece(locations, "\n"@);
    assert forall|i: int| 0 <= i < upstreams.len() implies occurs_in(#[trigger] upstreams[i], t) by {
        lemma_occurs_in_concat(upstreams[i], ju, lead);
        lemma_occurs_in_concat(upstreams[i], lead + ju, mid);
        lemma_occurs_in_concat(upstreams[i], lead + ju + mid, jl);
        lemma_occurs_in_concat(upstreams[i], lead + ju + mid + jl, tail);
    }
    assert forall|i: int| 0 <= i < locations.len() implies occurs_in(#[trigger] locations[i], t) by {
        lemma_occurs_in_concat(locations[i], jl, lead + ju + mid);
        lemma_occurs_in_concat(locations[i], lead + ju + mid + jl, tail);
    }
}

/// An application that the agent routes itself, with no balancing algorithm
/// or with `custom`, gets no upstream block: only the location that proxies
/// straight to its best replica on the application's port, where that port
/// is known.
pub proof fn lemma_agent_routed_application(
    locations: Seq<Seq<char>>,
    upstreams: Seq<Seq<char>>,
    app: Seq<char>,
    best_ip: Seq<char>,
    algo: Seq<char>,
    port: Seq<char>,
    ips: Seq<Seq<char>>,
)
    requires
        best_ip.len() > 0,
        algo.len() == 0 || algo == "custom"@,
    ensures
        routes_after(locations, upstreams, app, best_ip, algo, port, ips).1 == upstreams,
        port.len() > 0 ==> routes_after(locations, upstreams, app, best_ip, algo, port, ips).0 == locations.push(
            "\n                location /"@ + app + "/ {\n                    proxy_pass http://"@ + best_ip + ":"@ + port
                + "/;\n                }\n            "@,
        ),
        port.len() == 0 ==> routes_after(locations, upstreams, app, best_ip, algo, port, ips).0 == locations,
{
    reveal_strlit("upstream");
    reveal_strlit("custom");
    assert(Seq::<char>::empty() != "upstream"@) by {
        assert("upstream"@.len() > 0);
    }
}

/// An application that nginx balances, with any other algorithm, gets its
/// upstream block, named after it, and one location that proxies to that
/// block, where its port is known.
pub proof fn lemma_nginx_balanced_application(
    locations: Seq<Seq<char>>,
    upstreams: Seq<Seq<char>>,
    app: Seq<char>,
    best_ip: Seq<char>,
    algo: Seq<char>,
    port: Seq<char>,
    ips: Seq<Seq<char>>,
)
    requires
        best_ip.len() > 0,
        algo.len() > 0,
        algo != "custom"@,
        port.len() > 0,
    ensures
        routes_after(locations, upstreams, app, best_ip, algo, port, ips) == (
            locations.push(
                "\n            location /"@ + app + "/ {\n                proxy_pass http://"@ + (app + "stream"@)
                    + "/;\n            }\n        "@,
            ),
            upstreams.push(upstream_spec(app, algo, port, ips)),
        ),
{
    reveal_strlit("upstream");
    reveal_strlit("\n                upstream ");
    reveal_strlit("\n            location /");
    let u = upstream_spec(app, algo, port, ips);
    assert(u.len() > 0);
    let l = add_location_spec(upstream_name_spec(app), app, "upstream"@, port);
    assert(l == upstream_location_spec(app, upstream_name_spec(app)));
    assert(l.len() > 0);
}

/// The upstream block of an application is named after it and holds a line
/// `server ip:port;` for every replica given, and the balancing method unless
/// it is round robin; where the port is unknown there is no block.
pub proof fn lemma_upstream_lists_every_replica(app: Seq<char>, algo: Seq<char>, port: Seq<char>, ips: Seq<Seq<char>>)
    ensures
        port.len() == 0 ==> upstream_spec(app, algo, port, ips).len() == 0,
        port.len() > 0 ==> upstream_spec(app, algo, port, ips).subrange(
            0,
            ("\n                upstream "@ + app + "stream"@ + "{"@).len() as int,
        ) == "\n                upstream "@ + app + "stream"@ + "{"@,
        port.len() > 0 ==> forall|i: int|
            0 <= i < ips.len() ==> occurs_in(
                "server "@ + #[trigger] ips[i] + ":"@ + port + ";"@,
                upstream_spec(app, algo, port, ips),
            ),
        port.len() > 0 && algo != "rr"@ ==> occurs_in(algo + ";"@, upstream_spec(app, algo, port, ips)),
{
    if port.len() > 0 {
        let lines = upstream_lines_spec(algo, port, ips);
        let body = join_spec(lines, "\n"@);
        let head = "\n                upstream "@ + upstream_name_spec(app);
        let open = "{\n                    "@;
        let close = "\n                }\n            "@;
        let u = upstream_spec(app, algo, port, ips);
        assert(u == head + open + body + close);
        reveal_strlit("{\n                    ");
        reveal_strlit("{");
        assert(open == "{"@ + open.subrange(1, open.len() as int));
        let h = "\n                upstream "@ + app + "stream"@ + "{"@;
        assert(h =~= head + "{"@);
        assert(u.subrange(0, h.len() as int) =~= h);
        lemma_join_holds_every_piece(lines, "\n"@);
        let method_len: int = if algo != "rr"@ { 1 } else { 0 };
        assert forall|i: int| 0 <= i < ips.len() implies occurs_in(
            "server "@ + #[trigger] ips[i] + ":"@ + port + ";"@,
            u,
        ) by {
            assert(lines[method_len + i] == server_line_spec(ips[i], port));
            lemma_occurs_in_concat(lines[method_len + i], body, head + open);
            lemma_occurs_in_concat(lines[method_len + i], head + open + body, close);
        }
        if algo != "rr"@ {
            assert(lines[0] == algo + ";"@);
            lemma_occurs_in_concat(lines[0], body, head + open);
            lemma_occurs_in_concat(lines[0], head + open + body, close);
        }
    }
}

} // verus!
