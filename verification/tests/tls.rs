use flb::model::{Certificate, ConfigData, Host};
use flb::tls::{load_certs, parse_cert, pick_cert};

fn self_signed(name: &str) -> (String, String) {
    let mut params = rcgen::CertificateParams::new(vec![name.to_string()]).unwrap();
    params.distinguished_name = rcgen::DistinguishedName::new();
    let key_pair = rcgen::KeyPair::generate().unwrap();
    let cert = params.self_signed(&key_pair).unwrap();
    (cert.pem(), key_pair.serialize_pem())
}

#[test]
fn parses_self_signed_pem() {
    let mut params = rcgen::CertificateParams::new(vec!["example.test".into()]).unwrap();
    params.distinguished_name = rcgen::DistinguishedName::new();
    let key_pair = rcgen::KeyPair::generate().unwrap();
    let cert = params.self_signed(&key_pair).unwrap();
    let parsed = parse_cert(&cert.pem(), &key_pair.serialize_pem()).unwrap();
    assert_eq!(parsed.cert.len(), 1);
}

#[test]
fn pem_refusals() {
    let (cert, key) = self_signed("a.test");
    assert_eq!(parse_cert("", &key).err(), Some("certificate pem is empty".to_string()));
    assert_eq!(parse_cert("not pem at all", &key).err(), Some("certificate pem is empty".to_string()));
    assert_eq!(parse_cert(&cert, "").err(), Some("private key pem is empty".to_string()));
    assert_eq!(parse_cert(&cert, &cert).err(), Some("private key pem is empty".to_string()));
    let (_, other_key) = self_signed("b.test");
    assert!(parse_cert(&cert, &other_key).is_err());
}

fn record(id: &str, pem: (String, String)) -> Certificate {
    Certificate {
        id: id.to_string(),
        name: id.to_string(),
        cert_pem: pem.0,
        key_pem: pem.1,
        not_after: None,
        auto_issued: false,
        created_at: String::new(),
    }
}

#[test]
fn load_certs_skips_broken_ones() {
    let host = Host {
        id: "h".to_string(),
        hostname: "a.test".to_string(),
        protocol: "http".to_string(),
        https_enabled: true,
        cert_id: Some("bad".to_string()),
        force_https: false,
        default_upstream_id: "u".to_string(),
        routes: vec![],
    };
    let data = ConfigData {
        certificates: vec![record("bad", ("x".to_string(), "y".to_string())), record("good", self_signed("a.test"))],
        hosts: vec![host],
        ..ConfigData::default()
    };
    let (index, keys) = load_certs(&data);
    assert_eq!(keys.len(), 2);
    assert!(keys[0].is_none());
    assert!(keys[1].is_some());
    // the host's certificate did not load: the fallback is the one that did
    assert_eq!(pick_cert(&index, Some("a.test")), Some(1));
}
