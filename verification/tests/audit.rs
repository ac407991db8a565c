use flb::audit::{
    audit_event, audit_user, classify, client_addr, get, is_secret, redact, redact_parsed,
    request_username, resource_name, skip, slim_result, AuditFacts, HttpMethod, Json,
};

fn s(v: &str) -> Json {
    Json::Str(v.to_string())
}

fn obj(members: Vec<(&str, Json)>) -> Json {
    Json::Object(members.into_iter().map(|(k, v)| (k.to_string(), v)).collect())
}

fn text(j: Option<&Json>) -> Option<&str> {
    match j {
        Some(Json::Str(t)) => Some(t.as_str()),
        _ => None,
    }
}

#[test]
fn skip_reads_and_health() {
    assert!(skip(HttpMethod::Get, "/api/hosts"));
    assert!(skip(HttpMethod::Post, "/api/health"));
    assert!(!skip(HttpMethod::Post, "/api/login"));
    assert!(!skip(HttpMethod::Delete, "/api/certs/1"));
}

#[test]
fn classify_admin_routes() {
    assert_eq!(classify(HttpMethod::Post, "/api/login"), ("登录", "会话", None));
    assert_eq!(classify(HttpMethod::Put, "/api/hosts/abc"), ("更新", "主机", Some("abc".to_string())));
    assert_eq!(
        classify(HttpMethod::Post, "/api/domains/d1/renew"),
        ("续签", "域名证书", Some("d1".to_string()))
    );
}

#[test]
fn redact_secrets_keep_names() {
    let value = obj(vec![
        ("name", s("web")),
        ("password", s("secret")),
        ("keyPem", s("-----BEGIN")),
        ("accessSecret", s("ak")),
        ("servers", Json::Array(vec![obj(vec![("address", s("10.0.0.1"))])])),
    ]);
    let value = redact(value);
    assert_eq!(text(get(&value, "name")), Some("web"));
    assert_eq!(text(get(&value, "password")), Some("***"));
    assert_eq!(text(get(&value, "keyPem")), Some("***"));
    assert_eq!(text(get(&value, "accessSecret")), Some("***"));
    match get(&value, "servers") {
        Some(Json::Array(items)) => assert_eq!(text(get(&items[0], "address")), Some("10.0.0.1")),
        _ => panic!("servers lost"),
    }
}

#[test]
fn more_classification() {
    assert_eq!(classify(HttpMethod::Post, "/api/hosts"), ("创建", "主机", None));
    assert_eq!(classify(HttpMethod::Delete, "/api/dns-providers/p1"), ("删除", "DNS提供商", Some("p1".to_string())));
    assert_eq!(classify(HttpMethod::Post, "/api/logout"), ("退出", "会话", None));
    assert_eq!(classify(HttpMethod::Patch, "/api//streams//s1/"), ("更新", "数据流", Some("s1".to_string())));
    assert_eq!(classify(HttpMethod::Post, "/api/upstreams/u1"), ("操作", "服务组", Some("u1".to_string())));
    assert_eq!(classify(HttpMethod::Other, "/other"), ("操作", "管理接口", None));
    assert_eq!(resource_name("certs"), "证书");
    assert_eq!(resource_name(""), "管理接口");
    assert!(skip(HttpMethod::Options, "/api/hosts"));
    assert!(skip(HttpMethod::Post, "/health"));
}

#[test]
fn secrets_and_users() {
    assert!(is_secret("JWT_Secret"));
    assert!(is_secret("cert_pem"));
    assert!(is_secret("Authorization"));
    assert!(!is_secret("name"));
    assert!(!is_secret("secretive"));
    assert_eq!(audit_user("/api/login", 200, Some("bob".to_string()), "admin"), "bob");
    assert_eq!(audit_user("/api/login", 401, Some(String::new()), "admin"), "-");
    assert_eq!(audit_user("/api/hosts", 401, None, "admin"), "-");
    assert_eq!(audit_user("/api/hosts", 200, None, "admin"), "admin");
    let login = obj(vec![("username", s("carol")), ("password", s("x"))]);
    assert_eq!(request_username(&login), Some("carol".to_string()));
    assert_eq!(request_username(&Json::Null), None);
    assert_eq!(client_addr(Some(" 1.2.3.4 , 5.6.7.8"), Some("9.9.9.9".to_string())), "1.2.3.4");
    assert_eq!(client_addr(Some(" , x"), Some("9.9.9.9".to_string())), "9.9.9.9");
    assert_eq!(client_addr(None, None), "-");
}

#[test]
fn results_and_events() {
    let result = obj(vec![("id", s("c1")), ("certPem", s("C")), ("token", s("t")), ("name", s("n"))]);
    match slim_result(result) {
        Json::Object(ms) => {
            let keys: Vec<&str> = ms.iter().map(|(k, _)| k.as_str()).collect();
            assert_eq!(keys, vec!["id", "name"]);
        }
        _ => panic!("not an object"),
    }
    assert!(matches!(redact_parsed(None), Json::Null));
    let facts = AuditFacts {
        ts: "t".to_string(),
        user: "admin".to_string(),
        ip: "1.2.3.4".to_string(),
        action: "删除".to_string(),
        resource: "证书".to_string(),
        method: "DELETE".to_string(),
        path: "/api/certs/1".to_string(),
        status: 400,
        id: Some("1".to_string()),
    };
    let ev = audit_event(facts, Json::Null, obj(vec![("message", s("证书仍被域名或主机引用"))]));
    assert_eq!(text(get(&ev, "error")), Some("证书仍被域名或主机引用"));
    assert_eq!(text(get(&ev, "id")), Some("1"));
    assert!(matches!(get(&ev, "ok"), Some(Json::Bool(false))));
    assert!(matches!(get(&ev, "status"), Some(Json::Number(n)) if n == "400"));
    assert!(get(&ev, "request").is_none());
    let ok_facts = AuditFacts {
        ts: "t".to_string(),
        user: "admin".to_string(),
        ip: "-".to_string(),
        action: "创建".to_string(),
        resource: "主机".to_string(),
        method: "POST".to_string(),
        path: "/api/hosts".to_string(),
        status: 200,
        id: None,
    };
    let ev = audit_event(ok_facts, obj(vec![("hostname", s("a"))]), obj(vec![("id", s("h1")), ("token", s("x"))]));
    assert!(matches!(get(&ev, "ok"), Some(Json::Bool(true))));
    assert!(get(&ev, "request").is_some());
    match get(&ev, "result") {
        Some(r) => {
            assert_eq!(text(get(r, "id")), Some("h1"));
            assert!(get(r, "token").is_none());
        }
        None => panic!("result missing"),
    }
}
