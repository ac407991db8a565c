use flb::dns::{
    aliyun_record_id, cloudflare_auth, cloudflare_record_id, cloudflare_zone_id, ensure_ok, extract_id,
    full_name, godaddy_auth, godaddy_url, hex_encode, parse_zones, percent_encode, record_name,
    route53_change_body, route53_change_result, route53_response, select_hosted_zone, split_zone_and_rr,
    tencent_check, tencent_record_id, txt_target, xinnet_domain, xinnet_record_id, xinnet_status,
    xml_escape, xml_text, CloudflareAuth, DnsCredentials, DnsError, DnsService, IdField,
};
use flb::model::DnsProviderKind;

fn msg<T: std::fmt::Debug>(r: Result<T, DnsError>) -> String {
    match r {
        Err(DnsError::Message(m)) => m,
        Ok(v) => panic!("expected an error, got {v:?}"),
    }
}

fn creds(key: &str, secret: &str) -> DnsCredentials {
    DnsCredentials { access_key: key.to_string(), access_secret: secret.to_string() }
}

#[test]
fn zone_and_record_split() {
    assert_eq!(split_zone_and_rr("_acme-challenge.example.com"), ("example.com".to_string(), "_acme-challenge".to_string()));
    assert_eq!(split_zone_and_rr("_acme-challenge.a.b.Example.COM."), ("example.com".to_string(), "_acme-challenge.a.b".to_string()));
    assert_eq!(split_zone_and_rr("_acme-challenge.shop.com.cn"), ("shop.com.cn".to_string(), "_acme-challenge".to_string()));
    assert_eq!(split_zone_and_rr("example.com"), ("example.com".to_string(), "@".to_string()));
    assert_eq!(split_zone_and_rr("co.uk"), ("co.uk".to_string(), "@".to_string()));
    assert_eq!(split_zone_and_rr("localhost"), ("localhost".to_string(), "@".to_string()));
}

#[test]
fn provider_dispatch() {
    let (svc, zone, rr) = txt_target(DnsProviderKind::Wanwang, "_acme-challenge.x.example.org");
    assert_eq!(svc, DnsService::Aliyun);
    assert_eq!(zone, "example.org");
    assert_eq!(rr, "_acme-challenge.x");
    assert_eq!(txt_target(DnsProviderKind::Amazon, "a.b").0, DnsService::Amazon);
}

#[test]
fn encodings() {
    assert_eq!(percent_encode("a b/c~d-e_f.g"), "a%20b%2Fc~d-e_f.g");
    assert_eq!(percent_encode("é"), "%C3%A9");
    assert_eq!(hex_encode(&[0, 15, 16, 255]), "000f10ff");
    assert_eq!(xml_escape("a<b>&\"c\""), "a&lt;b&gt;&amp;&quot;c&quot;");
}

#[test]
fn names() {
    assert_eq!(full_name("example.com", "@"), "example.com");
    assert_eq!(full_name("example.com", "_acme"), "_acme.example.com");
    assert_eq!(record_name("example.com", "@"), "example.com.");
    assert_eq!(record_name("example.com", "_acme"), "_acme.example.com.");
    assert_eq!(godaddy_url("example.com", "_acme"), "https://api.godaddy.com/v1/domains/example.com/records/TXT/_acme");
    assert_eq!(godaddy_auth(&creds("k", "s")), "sso-key k:s");
}

const ZONES: &str = "<ListHostedZonesResponse><HostedZones>\
<HostedZone><Id>/hostedzone/Z1</Id><Name>example.com.</Name></HostedZone>\
<HostedZone><Id>/hostedzone/Z2</Id><Name>Sub.Example.com.</Name></HostedZone>\
<HostedZone><Name>noid.com.</Name></HostedZone>\
<HostedZone><Id>Z3</Id><Name> other.org. </Name></HostedZone>\
</HostedZones></ListHostedZonesResponse>";

#[test]
fn route53_zones() {
    let zones = parse_zones(ZONES);
    assert_eq!(
        zones,
        vec![
            ("Z1".to_string(), "example.com.".to_string()),
            ("Z2".to_string(), "Sub.Example.com.".to_string()),
            ("Z3".to_string(), "other.org.".to_string()),
        ]
    );
    assert_eq!(xml_text("<a><Id> x </Id></a>", "Id"), Some("x".to_string()));
    assert_eq!(xml_text("<a><Id>x</a>", "Id"), None);
    assert_eq!(select_hosted_zone(ZONES, "www.sub.example.com").unwrap(), "Z2");
    assert_eq!(select_hosted_zone(ZONES, "example.com.").unwrap(), "Z1");
    assert_eq!(select_hosted_zone(ZONES, "a.example.com").unwrap(), "Z1");
    assert_eq!(msg(select_hosted_zone(ZONES, "nowhere.net")), "Route53 未找到托管区 nowhere.net");
    assert_eq!(msg(select_hosted_zone(ZONES, "xexample.com")), "Route53 未找到托管区 xexample.com");
}

#[test]
fn route53_answers() {
    assert!(route53_change_result("<ChangeInfo><Status>PENDING</Status></ChangeInfo>").is_ok());
    assert_eq!(msg(route53_change_result("<ErrorResponse><Error><Message>bad</Message></Error></ErrorResponse>")), "bad");
    assert_eq!(msg(route53_change_result("<Code>Error</Code>")), "Route53 接口调用失败");
    assert_eq!(route53_response(true, "body".to_string()).unwrap(), "body");
    assert_eq!(msg(route53_response(false, "<Message>denied</Message>".to_string())), "denied");
    assert_eq!(msg(route53_response(false, "plain".to_string())), "plain");
    let body = route53_change_body("UPSERT", "_acme.example.com.", "v<1>");
    assert!(body.contains("<Action>UPSERT</Action>"));
    assert!(body.contains("<Name>_acme.example.com.</Name>"));
    assert!(body.contains("<Value>\"v&lt;1&gt;\"</Value>"));
    assert!(body.starts_with("<?xml version=\"1.0\" encoding=\"UTF-8\"?>\n<ChangeResourceRecordSetsRequest"));
}

#[test]
fn provider_answers() {
    assert!(ensure_ok(true, &None).is_ok());
    assert_eq!(msg(ensure_ok(false, &Some(vec![Some("denied".to_string())]))), "denied");
    assert_eq!(msg(ensure_ok(false, &Some(vec![None]))), "Cloudflare 接口调用失败");
    assert_eq!(msg(ensure_ok(false, &None)), "Cloudflare 接口调用失败");
    assert_eq!(cloudflare_zone_id(Some(vec!["z1".to_string(), "z2".to_string()]), "a.com").unwrap(), "z1");
    assert_eq!(msg(cloudflare_zone_id(Some(vec![]), "a.com")), "Cloudflare 未找到域名 a.com");
    assert_eq!(msg(cloudflare_record_id(None)), "Cloudflare 未返回记录 ID");
    assert!(matches!(cloudflare_auth(&creds("tok", "  ")), CloudflareAuth::Bearer(t) if t == "tok"));
    assert!(matches!(cloudflare_auth(&creds("me@x", "key")), CloudflareAuth::Key { email, key } if email == "me@x" && key == "key"));
    assert_eq!(aliyun_record_id(Some("r1".to_string()), None, None).unwrap(), "r1");
    assert_eq!(msg(aliyun_record_id(None, None, Some("Code1".to_string()))), "Code1");
    assert_eq!(msg(aliyun_record_id(None, Some("m".to_string()), Some("c".to_string()))), "m");
    assert_eq!(msg(aliyun_record_id(None, None, None)), "阿里云/万网添加解析失败");
    assert_eq!(msg(tencent_check(Some(("AuthFailure".to_string(), "bad sig".to_string())))), "腾讯云 AuthFailure bad sig");
    assert_eq!(tencent_record_id(None, Some(7)).unwrap(), 7);
    assert_eq!(msg(tencent_record_id(None, None)), "腾讯云未返回记录 ID");
    assert_eq!(extract_id(Some(IdField::Text("a".to_string())), Some(IdField::Number("2".to_string()))), Some("a".to_string()));
    assert_eq!(extract_id(None, Some(IdField::Number("42".to_string()))), Some("42".to_string()));
    assert_eq!(extract_id(Some(IdField::Text(String::new())), Some(IdField::Number("2".to_string()))), None);
    assert_eq!(extract_id(Some(IdField::Other), None), None);
    assert!(xinnet_status(&None, &None).is_ok());
    assert!(xinnet_status(&Some("200".to_string()), &None).is_ok());
    assert_eq!(msg(xinnet_status(&Some("500".to_string()), &None)), "新网接口调用失败");
    assert_eq!(msg(xinnet_status(&Some("1".to_string()), &Some("no".to_string()))), "no");
    assert_eq!(xinnet_domain(None, "z.com"), "z.com");
    assert_eq!(xinnet_domain(Some("Z.com".to_string()), "z.com"), "Z.com");
    assert_eq!(msg(xinnet_record_id(None, None)), "新网添加解析失败");
}
