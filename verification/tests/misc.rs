use flb::auth::{bearer_or_cookie, login_check, login_cookie, logout_cookie, session_check, LoginInput};
use flb::log::{archive_name, current_name, line_bytes, rotation, writer_step, QueueEvent, Rotation, WriterStep};
use flb::model::{
    join_hostnames, parse_hostnames, Certificate, ConfigData, Domain, HeaderRewrite, Host, StreamConfig,
    StreamProtocol, Upstream, UpstreamProtocol, UpstreamServer,
};
use flb::plugin::{Plugin, PluginRegistry};
use flb::proxy::{
    access_line, acme_token, forwarded_for, forwarded_proto, front_decision, is_removal, request_host,
    response_rewrites, route_plan, worker_threads, Front, Routed,
};
use flb::schedule::{renewal_delay, renewal_tick, RenewalTick};
use flb::stream::{listen_address, needs_reload, target_address, UdpSessions};
use flb::tls::{build_cert_index, needs_refresh, pick_cert};
use std::sync::Arc;

fn host(id: &str, names: &str, up: &str, https: bool, cert: Option<&str>, force: bool) -> Host {
    Host {
        id: id.to_string(),
        hostname: names.to_string(),
        protocol: "http".to_string(),
        https_enabled: https,
        cert_id: cert.map(|c| c.to_string()),
        force_https: force,
        default_upstream_id: up.to_string(),
        routes: vec![],
    }
}

fn cert(id: &str) -> Certificate {
    Certificate {
        id: id.to_string(),
        name: id.to_string(),
        cert_pem: String::new(),
        key_pem: String::new(),
        not_after: None,
        auto_issued: false,
        created_at: String::new(),
    }
}

#[test]
fn sessions_and_cookies() {
    let ok = LoginInput { username: "admin".to_string(), password: "pw".to_string() };
    assert!(login_check(&ok, "admin", "pw").is_ok());
    let e = login_check(&ok, "admin", "other").unwrap_err();
    assert_eq!((e.status, e.message.as_str()), (401, "用户名或密码错误"));
    assert_eq!(login_cookie("T"), "flb_token=T; Path=/; HttpOnly; SameSite=Lax; Max-Age=604800");
    assert_eq!(logout_cookie(), "flb_token=; Path=/; HttpOnly; SameSite=Lax; Max-Age=0");
    assert_eq!(bearer_or_cookie(Some("Bearer  abc "), None), Some("abc".to_string()));
    assert_eq!(bearer_or_cookie(Some("Bearer   "), Some("a=1; flb_token= t2 ")), Some("t2".to_string()));
    assert_eq!(bearer_or_cookie(Some("Basic x"), Some("flb_token=; x=y")), None);
    assert_eq!(bearer_or_cookie(None, None), None);
    assert_eq!(session_check(false).unwrap_err().message, "未登录");
}

#[test]
fn log_files() {
    assert_eq!(line_bytes("abc"), b"abc\n".to_vec());
    assert_eq!(line_bytes("abc\n"), b"abc\n".to_vec());
    assert_eq!(line_bytes(""), b"\n".to_vec());
    assert_eq!(current_name("access"), "access.log");
    let none: Vec<String> = vec![];
    assert_eq!(archive_name(&none, "access", "2026-09-16"), "access.2026-09-16.log");
    let taken = vec!["access.2026-09-16.log".to_string()];
    assert_eq!(archive_name(&taken, "access", "2026-09-16"), "access.2026-09-16.1.log");
    let more = vec!["access.2026-09-16.log".to_string(), "access.2026-09-16.1.log".to_string()];
    assert_eq!(archive_name(&more, "access", "2026-09-16"), "access.2026-09-16.2.log");
    assert_eq!(rotation(2, 1, 10, 5), Rotation::Rotate);
    assert_eq!(rotation(2, 1, 0, 5), Rotation::NewDay(2));
    assert_eq!(rotation(1, 1, 104857590, 10), Rotation::Rotate);
    assert_eq!(rotation(1, 1, 104857590, 9), Rotation::Keep);
    assert_eq!(rotation(1, 1, 0, 104857600), Rotation::Keep);
    assert_eq!(writer_step(QueueEvent::Timeout), WriterStep::FlushAndCheck);
}

#[test]
fn hostnames_roundtrip() {
    let names = parse_hostnames(" A.com;b.com\n a.com ,, *.C.com ");
    assert_eq!(names, vec!["a.com".to_string(), "b.com".to_string(), "*.c.com".to_string()]);
    assert_eq!(join_hostnames(&names), "a.com, b.com, *.c.com");
    assert_eq!(parse_hostnames(&join_hostnames(&names)), names);
    assert_eq!(parse_hostnames("  "), vec![String::new()]);
    assert_eq!(join_hostnames(&[String::new()]), "");
}

#[test]
fn proxy_front() {
    let data = ConfigData {
        hosts: vec![host("h1", "secure.test", "u1", true, Some("c1"), true), host("h2", "plain.test", "u1", false, None, false)],
        ..ConfigData::default()
    };
    assert!(matches!(front_decision(&data, Some("KA".to_string()), "", false, "/"), Front::Respond(200, b) if b == "KA"));
    assert!(matches!(front_decision(&data, None, "", false, "/"), Front::Respond(400, m) if m == "missing Host header"));
    assert!(matches!(front_decision(&data, None, "x.test", false, "/"), Front::Respond(404, m) if m == "no host matched"));
    assert!(matches!(front_decision(&data, None, "secure.test:80", false, "/a?b"), Front::Redirect(l) if l == "https://secure.test/a?b"));
    assert!(matches!(front_decision(&data, None, "secure.test", true, "/"), Front::Route(h) if h.id == "h1"));
    assert_eq!(acme_token("/.well-known/acme-challenge/tok"), Some("tok".to_string()));
    assert_eq!(acme_token("/other"), None);
    assert_eq!(request_host(Some(""), Some("u.test")), "u.test");
    assert_eq!(request_host(Some("h.test"), Some("u.test")), "h.test");
    assert_eq!(request_host(None, None), "");
}

#[test]
fn proxy_plans() {
    let up = Upstream {
        id: "u1".to_string(),
        name: "u".to_string(),
        protocol: UpstreamProtocol::Https,
        verify_tls: true,
        sni: None,
        servers: vec![
            UpstreamServer { address: "10.0.0.1".to_string(), port: None, weight: 1, protocol: None, verify_tls: None },
            UpstreamServer { address: "10.0.0.2".to_string(), port: Some(8080), weight: 1, protocol: Some(UpstreamProtocol::Http), verify_tls: None },
        ],
    };
    let empty = Upstream { id: "u2".to_string(), servers: vec![], ..up.clone() };
    let data = ConfigData { upstreams: vec![up, empty], ..ConfigData::default() };
    let h = host("h", "a.test", "u1", false, None, false);
    match route_plan(&data, &h, "a.test", "GET", "/x", &[], 0) {
        Routed::Proxy(p) => {
            assert_eq!(p.socket, "10.0.0.1:443");
            assert!(p.tls);
            assert_eq!(p.sni, "10.0.0.1");
            assert!(p.verify);
            assert_eq!(p.rewrite, None);
        }
        _ => panic!("not proxied"),
    }
    match route_plan(&data, &h, "a.test", "GET", "/x", &[], 1) {
        Routed::Proxy(p) => {
            assert_eq!(p.socket, "10.0.0.2:8080");
            assert!(!p.tls);
            assert_eq!(p.sni, "");
        }
        _ => panic!("not proxied"),
    }
    let h2 = host("h", "a.test", "u2", false, None, false);
    assert!(matches!(route_plan(&data, &h2, "a.test", "GET", "/", &[], 0), Routed::Respond(502, m) if m == "no upstream server"));
    let h3 = host("h", "a.test", "nope", false, None, false);
    assert!(matches!(route_plan(&data, &h3, "a.test", "GET", "/", &[], 0), Routed::Respond(502, m) if m == "upstream not found"));
    let rw = response_rewrites(
        &[HeaderRewrite { name: "X-Type".to_string(), value: "t=$upstream_http_content_type".to_string() }],
        &[("Content-Type".to_string(), "text/plain".to_string())],
    );
    assert_eq!(rw[0].value, "t=text/plain");
    assert!(is_removal(&HeaderRewrite { name: "Server".to_string(), value: String::new() }));
    assert_eq!(forwarded_for(Some("1.1.1.1"), "2.2.2.2"), "1.1.1.1, 2.2.2.2");
    assert_eq!(forwarded_for(None, "2.2.2.2"), "2.2.2.2");
    assert_eq!(forwarded_proto(true), "https");
    assert_eq!(access_line("c", "h", "GET", "/", 200, 12, 3, "ua"), "c h \"GET /\" 200 12 3ms \"ua\"");
    assert_eq!(worker_threads(3, Some(8)), 3);
    assert_eq!(worker_threads(0, Some(8)), 8);
    assert_eq!(worker_threads(0, None), 4);
}

#[test]
fn certificate_choice() {
    let data = ConfigData {
        certificates: vec![cert("c1"), cert("c2"), cert("c3"), cert("bad")],
        hosts: vec![
            host("h1", "a.test, *.wild.test", "u", true, Some("c1"), false),
            host("h2", "", "u", true, Some("c2"), false),
            host("h3", "b.test", "u", false, Some("c3"), false),
            host("h4", "bad.test", "u", true, Some("bad"), false),
        ],
        domains: vec![Domain {
            id: "d".to_string(),
            name: "*.deep.wild.test".to_string(),
            mode: flb::model::CertMode::Manual,
            cert_id: Some("c3".to_string()),
            challenge: None,
            dns_provider_id: None,
            status: "manual".to_string(),
            last_error: None,
            expires_at: None,
            created_at: String::new(),
        }],
        ..ConfigData::default()
    };
    let usable = [true, true, true, false];
    let index = build_cert_index(&data, &usable);
    assert_eq!(pick_cert(&index, Some("A.TEST")), Some(0));
    assert_eq!(pick_cert(&index, Some("x.wild.test")), Some(0));
    assert_eq!(pick_cert(&index, Some("x.deep.wild.test")), Some(2));
    assert_eq!(pick_cert(&index, Some("wild.test")), Some(1));
    assert_eq!(pick_cert(&index, Some("b.test")), Some(1));
    assert_eq!(pick_cert(&index, Some("bad.test")), Some(1));
    assert_eq!(pick_cert(&index, None), Some(1));
    let lone = ConfigData { certificates: vec![cert("c1")], ..ConfigData::default() };
    let none_index = build_cert_index(&lone, &[true]);
    assert_eq!(pick_cert(&none_index, Some("x")), Some(0));
    let nothing = build_cert_index(&ConfigData::default(), &[]);
    assert_eq!(pick_cert(&nothing, Some("x")), None);
    assert!(needs_refresh(0, 0));
    assert!(!needs_refresh(3, 3));
    assert!(needs_refresh(3, 4));
}

#[test]
fn streams_and_sessions() {
    let s = StreamConfig {
        id: "s".to_string(),
        name: "dns".to_string(),
        listen_port: 5353,
        protocol: StreamProtocol::Udp,
        target_ip: "10.0.0.53".to_string(),
        target_port: 53,
    };
    assert_eq!(listen_address(&s), "0.0.0.0:5353");
    assert_eq!(target_address(&s), "10.0.0.53:53");
    assert!(needs_reload(0, 1));
    let mut sessions = UdpSessions::new();
    assert!(sessions.touch("1.1.1.1:5", 1000));
    assert!(sessions.touch("2.2.2.2:6", 50000));
    assert!(!sessions.touch("1.1.1.1:5", 2000));
    assert_eq!(sessions.clients(), 2);
    let gone = sessions.expire(62001);
    assert_eq!(gone, vec!["1.1.1.1:5".to_string()]);
    assert_eq!(sessions.clients(), 1);
    assert!(sessions.touch("1.1.1.1:5", 62002));
}

#[test]
fn renewal_window() {
    assert_eq!(renewal_tick(1, 0, 0, 10, None), RenewalTick::Wait);
    assert_eq!(renewal_tick(0, 0, 0, 10, Some(10)), RenewalTick::Wait);
    assert_eq!(renewal_tick(0, 10, 30, 10, Some(9)), RenewalTick::Run(2970));
    assert_eq!(renewal_tick(0, 59, 60, 10, None), RenewalTick::Run(0));
    assert_eq!(renewal_delay(0), 0);
    for _ in 0..20 {
        assert!(renewal_delay(5) < 5);
    }
}

struct Named(&'static str);

impl Plugin for Named {
    fn name(&self) -> &str {
        self.0
    }
}

#[test]
fn plugin_registry() {
    let mut reg: PluginRegistry<dyn Plugin> = PluginRegistry::new();
    assert!(reg.is_empty());
    reg.register(Arc::new(Named("a")));
    reg.register(Arc::new(Named("b")));
    let names: Vec<&str> = reg.iter().iter().map(|p| p.name()).collect();
    assert_eq!(names, vec!["a", "b"]);
    assert!(!reg.is_empty());
}
