use flb::model::{
    new_id, ConfigData, HeaderRewrite, Host, MatchType, Route, Upstream, UpstreamProtocol,
    UpstreamServer,
};
use flb::router::{
    backend_socket, find_host, host_matches, host_specificity, match_route, pick_backend,
    pick_backend_with, resolve_sni, strip_host_port,
};
use flb::template::{expand_headers, expand_template, request_header_vars, response_header_vars, VarMap};

fn sample_host() -> Host {
    Host {
        id: new_id(),
        hostname: "*.example.com".to_string(),
        protocol: "http".to_string(),
        https_enabled: false,
        cert_id: None,
        force_https: false,
        default_upstream_id: "up-default".to_string(),
        routes: vec![
            Route {
                id: new_id(),
                pattern: r"^/user/(\d+)$".to_string(),
                match_type: MatchType::Regex,
                rewrite_uri: Some("/v2/user/$1".to_string()),
                methods: vec!["GET".to_string()],
                request_headers: vec![HeaderRewrite {
                    name: "X-Orig-Host".to_string(),
                    value: "$http_host".to_string(),
                }],
                response_headers: vec![],
                upstream_id: "up-regex".to_string(),
            },
            Route {
                id: new_id(),
                pattern: "/api".to_string(),
                match_type: MatchType::Prefix,
                rewrite_uri: Some("/svc".to_string()),
                methods: vec![],
                request_headers: vec![],
                response_headers: vec![],
                upstream_id: "up-api".to_string(),
            },
        ],
    }
}

fn server(address: &str, port: Option<u16>, weight: u32, protocol: Option<UpstreamProtocol>) -> UpstreamServer {
    UpstreamServer { address: address.to_string(), port, weight, protocol, verify_tls: None }
}

#[test]
fn wildcard_host_match() {
    assert!(host_matches("*.example.com", "a.example.com"));
    assert!(!host_matches("*.example.com", "example.com"));
    assert!(host_matches("app.example.com", "app.example.com:8443"));
    assert!(host_matches("", "anything.example.com"));
    assert!(host_matches("  ", "missing-host"));
}

#[test]
fn empty_hostname_is_default_fallback() {
    let specific = sample_host();
    let default_host = Host {
        id: new_id(),
        hostname: "".to_string(),
        protocol: "http".to_string(),
        https_enabled: false,
        cert_id: None,
        force_https: false,
        default_upstream_id: "up-catch-all".to_string(),
        routes: vec![],
    };
    let data = ConfigData { hosts: vec![default_host.clone(), specific.clone()], ..ConfigData::default() };
    assert_eq!(
        find_host(&data, "a.example.com").map(|h| h.default_upstream_id.as_str()),
        Some("up-default")
    );
    assert_eq!(
        find_host(&data, "other.com").map(|h| h.default_upstream_id.as_str()),
        Some("up-catch-all")
    );
}

#[test]
fn multiple_hostnames_on_one_host() {
    let host = Host {
        id: new_id(),
        hostname: "a.example.com, *.app.test".to_string(),
        protocol: "http".to_string(),
        https_enabled: false,
        cert_id: None,
        force_https: false,
        default_upstream_id: "up-multi".to_string(),
        routes: vec![],
    };
    let data = ConfigData { hosts: vec![host], ..ConfigData::default() };
    assert_eq!(
        find_host(&data, "a.example.com").map(|h| h.default_upstream_id.as_str()),
        Some("up-multi")
    );
    assert_eq!(
        find_host(&data, "x.app.test").map(|h| h.default_upstream_id.as_str()),
        Some("up-multi")
    );
    assert!(find_host(&data, "other.com").is_none());
}

#[test]
fn prefix_and_regex_routes() {
    let host = sample_host();
    let regex = match_route(&host, "GET", "/user/42");
    assert_eq!(regex.upstream_id, "up-regex");
    assert_eq!(regex.uri, "/v2/user/42");

    let prefix = match_route(&host, "POST", "/api/v1");
    assert_eq!(prefix.upstream_id, "up-api");
    assert_eq!(prefix.uri, "/svc/v1");

    let fallback = match_route(&host, "GET", "/other");
    assert_eq!(fallback.upstream_id, "up-default");
}

#[test]
fn header_var_expand() {
    let vars = request_header_vars(
        "app.example.com",
        "GET",
        "/x",
        &[("Host".to_string(), "app.example.com".to_string())],
    );
    let out = expand_template("$http_host|$uri", "/x", &[], &vars);
    assert_eq!(out, "app.example.com|/x");
}

#[test]
fn weighted_backend() {
    let servers = vec![server("10.0.0.1", Some(80), 1, None)];
    let picked = pick_backend(&servers).unwrap();
    assert_eq!(picked.address, "10.0.0.1");
}

#[test]
fn empty_sni_uses_backend_address() {
    let upstream = Upstream {
        id: new_id(),
        name: "u".to_string(),
        protocol: UpstreamProtocol::Https,
        verify_tls: false,
        sni: None,
        servers: vec![UpstreamServer {
            address: "10.0.0.8".to_string(),
            port: Some(443),
            weight: 1,
            protocol: Some(UpstreamProtocol::Https),
            verify_tls: Some(false),
        }],
    };
    let sni = resolve_sni(&upstream, &upstream.servers[0]);
    assert_eq!(sni, "10.0.0.8");
}

#[test]
fn explicit_sni_wins() {
    let upstream = Upstream {
        id: new_id(),
        name: "u".to_string(),
        protocol: UpstreamProtocol::Https,
        verify_tls: false,
        sni: Some("app.example.com".to_string()),
        servers: vec![UpstreamServer {
            address: "10.0.0.8".to_string(),
            port: Some(443),
            weight: 1,
            protocol: Some(UpstreamProtocol::Https),
            verify_tls: Some(false),
        }],
    };
    let sni = resolve_sni(&upstream, &upstream.servers[0]);
    assert_eq!(sni, "app.example.com");
}

#[test]
fn empty_port_defaults_by_protocol() {
    let http = server("10.0.0.1", None, 1, Some(UpstreamProtocol::Http));
    let https = server("10.0.0.1", None, 1, Some(UpstreamProtocol::Https));
    assert_eq!(backend_socket(&http, UpstreamProtocol::Http), "10.0.0.1:80");
    assert_eq!(backend_socket(&https, UpstreamProtocol::Http), "10.0.0.1:443");
}

#[test]
fn ipv6_backend_is_bracketed() {
    let v6 = server("::1", Some(8080), 1, None);
    assert_eq!(backend_socket(&v6, UpstreamProtocol::Http), "[::1]:8080");
    let bracketed = server("[::1]", None, 1, None);
    assert_eq!(backend_socket(&bracketed, UpstreamProtocol::Https), "[::1]:443");
    let zero_port = server("10.0.0.2", Some(0), 1, None);
    assert_eq!(backend_socket(&zero_port, UpstreamProtocol::Https), "10.0.0.2:443");
}

#[test]
fn strip_port_and_brackets() {
    assert_eq!(strip_host_port("app.example.com:8443"), "app.example.com");
    assert_eq!(strip_host_port("[::1]:443"), "::1");
    assert_eq!(strip_host_port("plain"), "plain");
}

#[test]
fn specificity_orders_exact_over_wildcard_over_catch_all() {
    assert_eq!(host_specificity(""), 1);
    assert_eq!(host_specificity("*.example.com"), 113);
    assert_eq!(host_specificity("a.example.com"), 10013);
    assert_eq!(host_specificity("  a.b  "), 10003);
}

#[test]
fn more_specific_host_wins_whatever_the_order() {
    let wild = Host { default_upstream_id: "wild".to_string(), ..sample_host() };
    let exact = Host { hostname: "a.example.com".to_string(), default_upstream_id: "exact".to_string(), routes: vec![], ..sample_host() };
    let data = ConfigData { hosts: vec![wild.clone(), exact.clone()], ..ConfigData::default() };
    assert_eq!(find_host(&data, "a.example.com").map(|h| h.default_upstream_id.as_str()), Some("exact"));
    let data = ConfigData { hosts: vec![exact, wild], ..ConfigData::default() };
    assert_eq!(find_host(&data, "A.EXAMPLE.COM:80").map(|h| h.default_upstream_id.as_str()), Some("exact"));
    assert_eq!(find_host(&data, "b.example.com").map(|h| h.default_upstream_id.as_str()), Some("wild"));
}

#[test]
fn ticket_blocks_follow_weights() {
    let servers = vec![
        server("a", None, 2, None),
        server("b", None, 0, None),
        server("c", None, 3, None),
    ];
    let owners: Vec<&str> = (0..6).map(|t| pick_backend_with(&servers, t).unwrap().address.as_str()).collect();
    assert_eq!(owners, vec!["a", "a", "b", "c", "c", "c"]);
    assert_eq!(pick_backend_with(&servers, 100).unwrap().address, "c");
    assert!(pick_backend_with(&[], 0).is_none());
    for _ in 0..20 {
        let picked = pick_backend(&servers).unwrap();
        assert!(["a", "b", "c"].contains(&picked.address.as_str()));
    }
}

#[test]
fn methods_restrict_routes() {
    let host = sample_host();
    let post = match_route(&host, "POST", "/user/42");
    assert_eq!(post.upstream_id, "up-default");
    assert_eq!(post.uri, "/user/42");
}

#[test]
fn route_headers_expand_with_captures() {
    let host = sample_host();
    let sel = match_route(&host, "GET", "/user/7");
    assert_eq!(sel.captures, vec!["7".to_string()]);
    let vars = request_header_vars("h.example.com:81", "GET", "/user/7", &[("Host".to_string(), "h.example.com".to_string())]);
    let out = expand_headers(&sel.request_headers, "/user/7", &sel.captures, &vars);
    assert_eq!(out.len(), 1);
    assert_eq!(out[0].name, "X-Orig-Host");
    assert_eq!(out[0].value, "h.example.com");
}

#[test]
fn template_variables() {
    let vars = request_header_vars("h.test:8080", "PUT", "/a?b=1", &[("X-Token".to_string(), "t1".to_string())]);
    let caps = vec!["one".to_string(), "two".to_string()];
    assert_eq!(expand_template("$host $request_method $uri", "/a?b=1", &caps, &vars), "h.test PUT /a?b=1");
    assert_eq!(expand_template("${http_x_token}-$2-$1-$9", "/a", &caps, &vars), "t1-two-one-");
    assert_eq!(expand_template("$unknown|$", "/a", &caps, &vars), "|$");
    let resp = response_header_vars(&[("Content-Type".to_string(), "text/html".to_string())]);
    assert_eq!(expand_template("$upstream_http_content_type", "", &[], &resp), "text/html");
    let empty = VarMap::new();
    assert_eq!(expand_template("plain", "/", &[], &empty), "plain");
}
