use flb::model::{
    AcmeChallenge, CertMode, Certificate, ConfigData, Domain, Host, StreamConfig, StreamProtocol, Upstream,
    UpstreamProtocol,
};
use flb::store::{Store, StoreError};

fn cert(id: &str) -> Certificate {
    Certificate {
        id: id.to_string(),
        name: "demo".to_string(),
        cert_pem: "CERT".to_string(),
        key_pem: "KEY".to_string(),
        not_after: None,
        auto_issued: false,
        created_at: flb::model::now_rfc3339(),
    }
}

fn refusal(r: Result<(), StoreError>) -> String {
    match r {
        Err(StoreError::Message(m)) => m,
        Ok(()) => panic!("expected a refusal"),
    }
}

fn stream(id: &str, port: u16) -> StreamConfig {
    StreamConfig {
        id: id.to_string(),
        name: "s".to_string(),
        listen_port: port,
        protocol: StreamProtocol::Udp,
        target_ip: "10.0.0.1".to_string(),
        target_port: 53,
    }
}

#[test]
fn roundtrip_certificate() {
    let mut store = Store::new(ConfigData::default());
    let c = cert("c1");
    store.upsert_certificate(c.clone());
    assert_eq!(store.snapshot().certificates.len(), 1);
    store.delete_certificate("c1").unwrap();
    assert!(store.snapshot().certificates.is_empty());
}

#[test]
fn snapshot_is_a_copy() {
    let mut store = Store::new(ConfigData::default());
    store.upsert_certificate(cert("c1"));
    let before = store.snapshot();
    store.upsert_certificate(cert("c2"));
    assert_eq!(before.certificates.len(), 1);
    assert_eq!(before.certificates[0].id, "c1");
    assert_eq!(store.snapshot().certificates.len(), 2);
}

#[test]
fn upsert_replaces_by_id_and_counts_generations() {
    let mut store = Store::new(ConfigData::default());
    assert_eq!(store.generation(), 1);
    store.upsert_certificate(cert("a"));
    store.upsert_certificate(cert("b"));
    let mut renamed = cert("a");
    renamed.name = "renamed".to_string();
    store.upsert_certificate(renamed);
    assert_eq!(store.data().certificates.len(), 2);
    assert_eq!(store.data().certificates[0].name, "renamed");
    assert_eq!(store.generation(), 4);
}

#[test]
fn references_block_deletes() {
    let mut store = Store::new(ConfigData::default());
    store.upsert_certificate(cert("c1"));
    store.upsert_domain(Domain {
        id: "d1".to_string(),
        name: "a.test".to_string(),
        mode: CertMode::Manual,
        cert_id: Some("c1".to_string()),
        challenge: Some(AcmeChallenge::Http01),
        dns_provider_id: None,
        status: "manual".to_string(),
        last_error: None,
        expires_at: None,
        created_at: "t".to_string(),
    });
    assert_eq!(refusal(store.delete_certificate("c1")), "证书仍被域名或主机引用");
    assert_eq!(refusal(store.delete_certificate("zz")), "证书不存在");
    store.upsert_upstream(Upstream {
        id: "u1".to_string(),
        name: "u".to_string(),
        protocol: UpstreamProtocol::Http,
        verify_tls: false,
        sni: None,
        servers: vec![],
    });
    store.upsert_host(Host {
        id: "h1".to_string(),
        hostname: "a.test".to_string(),
        protocol: "http".to_string(),
        https_enabled: false,
        cert_id: None,
        force_https: false,
        default_upstream_id: "u1".to_string(),
        routes: vec![],
    });
    assert_eq!(refusal(store.delete_upstream("u1")), "服务组仍被主机或路由引用");
    store.delete_host("h1").unwrap();
    store.delete_upstream("u1").unwrap();
    assert_eq!(refusal(store.delete_host("h1")), "主机不存在");
    store.delete_domain("d1").unwrap();
    store.delete_certificate("c1").unwrap();
    assert_eq!(refusal(store.delete_domain("d1")), "域名不存在");
}

#[test]
fn stream_ports_stay_distinct() {
    let mut store = Store::new(ConfigData::default());
    store.upsert_stream(stream("s1", 5353)).unwrap();
    match store.upsert_stream(stream("s2", 5353)) {
        Err(StoreError::Message(m)) => assert_eq!(m, "监听端口 5353 已被占用"),
        Ok(_) => panic!("port reused"),
    }
    store.upsert_stream(stream("s1", 5354)).unwrap();
    store.upsert_stream(stream("s2", 5353)).unwrap();
    assert_eq!(store.data().streams.len(), 2);
    assert_eq!(refusal(store.delete_stream("s9")), "数据流不存在");
}
