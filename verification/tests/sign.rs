use flb::dns::DnsCredentials;
use flb::query::{str_lt, ParamMap};
use flb::sign::{aliyun_url, aws_sign, tencent_authorization, xinnet_authorization};

fn creds() -> DnsCredentials {
    DnsCredentials { access_key: "AK".to_string(), access_secret: "SK".to_string() }
}

#[test]
fn xinnet_signature() {
    assert_eq!(
        xinnet_authorization(&creds(), "/api/dns/create", "{}", "20240101T000000Z"),
        "HMAC-SHA256 Access=AK, Signature=fcf973d6c851fcce027fc8209db5e827a809a1cfec7577d157b0b7823edb6431"
    );
}

#[test]
fn tencent_signature() {
    assert_eq!(
        tencent_authorization(&creds(), "CreateRecord", "{}", "1700000000", "2023-11-14"),
        "TC3-HMAC-SHA256 Credential=AK/2023-11-14/dnspod/tc3_request, SignedHeaders=content-type;host;x-tc-action, Signature=7b5d4448f0ce4b9851df42a5fcf9bfb585759ac305448777922ffd9cc2ec12ba"
    );
}

#[test]
fn aws_signature() {
    let s = aws_sign(&creds(), "GET", "/2013-04-01/hostedzone", "", b"", "application/xml", "20240101T000000Z", "20240101");
    assert_eq!(s.payload_hash, "e3b0c44298fc1c149afbf4c8996fb92427ae41e4649b934ca495991b7852b855");
    assert_eq!(
        s.authorization,
        "AWS4-HMAC-SHA256 Credential=AK/20240101/us-east-1/route53/aws4_request, SignedHeaders=host;x-amz-content-sha256;x-amz-date, Signature=08a94f43ecc9e90c3e7138f6793c3b5855dce8e26e1b7dec7051118167c82ecf"
    );
    assert_eq!(s.url, "https://route53.amazonaws.com/2013-04-01/hostedzone");
    assert!(!s.post);
    let p = aws_sign(&creds(), "POST", "/x", "a=1", b"<x/>", "application/xml", "20240101T000000Z", "20240101");
    assert!(p.post);
    assert_eq!(p.url, "https://route53.amazonaws.com/x?a=1");
    assert!(p.authorization.contains("SignedHeaders=content-type;host;x-amz-content-sha256;x-amz-date"));
}

#[test]
fn aliyun_signed_url() {
    let mut params = ParamMap::new();
    params.insert("Action", "DeleteDomainRecord".to_string());
    params.insert("RecordId", "123".to_string());
    assert_eq!(
        aliyun_url(&creds(), params, "2024-01-01T00:00:00Z", "n1"),
        "https://alidns.aliyuncs.com/?AccessKeyId=AK&Action=DeleteDomainRecord&Format=JSON&RecordId=123&SignatureMethod=HMAC-SHA1&SignatureNonce=n1&SignatureVersion=1.0&Timestamp=2024-01-01T00%3A00%3A00Z&Version=2015-01-09&Signature=iJx3X5tLZkSPcRFmW3OOGxhihcQ%3D"
    );
}

#[test]
fn params_stay_sorted_and_unique() {
    let mut p = ParamMap::new();
    p.insert("b", "1".to_string());
    p.insert("a", "2".to_string());
    p.insert("c", "3".to_string());
    p.insert("b", "4".to_string());
    let keys: Vec<(String, String)> = p.entries().clone();
    assert_eq!(
        keys,
        vec![("a".to_string(), "2".to_string()), ("b".to_string(), "4".to_string()), ("c".to_string(), "3".to_string())]
    );
    assert!(str_lt("Format", "RR"));
    assert!(str_lt("RR", "RecordId"));
    assert!(str_lt("a", "ab"));
    assert!(!str_lt("ab", "ab"));
}
