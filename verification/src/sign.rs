//! Request signatures of the DNS services: Aliyun's HMAC-SHA1 query
//! signature, Tencent Cloud's TC3, Route53's AWS Signature V4 and Xinnet's
//! HMAC-SHA256. The digests come from the `sha1`, `sha2`, `hmac` and
//! `base64` crates; what is built around them is stated exactly.
use vstd::prelude::*;

use base64::Engine;
use hmac::{Hmac, Mac};
use sha1::Sha1;
use sha2::{Digest, Sha256};

use crate::dns::{hex_encode, hex_spec, percent_encode, percent_spec, DnsCredentials};
use crate::query::{entry_views, insert_sorted, ParamMap};
use crate::text::{lower_seq, owned, push_str, seq_join, str_eq, to_lower};
use vstd::utf8::encode_utf8;

verus! {

/// The SHA-256 digest of `data`.
pub uninterp spec fn sha256_of(data: Seq<u8>) -> Seq<u8>;

/// The HMAC-SHA256 tag of `message` under `key`.
pub uninterp spec fn hmac_sha256_of(key: Seq<u8>, message: Seq<u8>) -> Seq<u8>;

/// The HMAC-SHA1 tag of `message` under `key`.
pub uninterp spec fn hmac_sha1_of(key: Seq<u8>, message: Seq<u8>) -> Seq<u8>;

/// The standard, padded base64 text of `data`.
pub uninterp spec fn base64_of(data: Seq<u8>) -> Seq<char>;

/// `sha2::Sha256::digest`: the digest, which is named `sha256_of` and is
/// 32 bytes long.
#[verifier::external_body]
pub(crate) fn sha256(data: &[u8]) -> (r: Vec<u8>)
    ensures
        r@ == sha256_of(data@),
        r@.len() == 32,
{
    Sha256::digest(data).to_vec()
}

/// `hmac::Hmac<Sha256>`: the tag of `message` under `key`, named
/// `hmac_sha256_of`. `new_from_slice` accepts keys of every length (the
/// crate's `KeyInit` for `HmacCore` always returns `Ok`).
#[verifier::external_body]
fn hmac_sha256(key: &[u8], message: &[u8]) -> (r: Vec<u8>)
    ensures
        r@ == hmac_sha256_of(key@, message@),
{
    let mut mac = <Hmac<Sha256> as Mac>::new_from_slice(key).expect("HMAC takes keys of any length");
    mac.update(message);
    mac.finalize().into_bytes().to_vec()
}

/// `hmac::Hmac<Sha1>`: the tag of `message` under `key`, named
/// `hmac_sha1_of`, as long as a SHA-1 digest (20 bytes); as for SHA-256,
/// every key length is accepted.
#[verifier::external_body]
fn hmac_sha1(key: &[u8], message: &[u8]) -> (r: Vec<u8>)
    ensures
        r@ == hmac_sha1_of(key@, message@),
        r@.len() == 20,
{
    let mut mac = <Hmac<Sha1> as Mac>::new_from_slice(key).expect("HMAC takes keys of any length");
    mac.update(message);
    mac.finalize().into_bytes().to_vec()
}

/// `base64::engine::general_purpose::STANDARD.encode`: the text named
/// `base64_of`. The crate panics only when the encoded length overflows
/// `usize`, which the bound on the input rules out.
#[verifier::external_body]
fn base64_standard(data: &[u8]) -> (r: String)
    requires
        data@.len() <= usize::MAX / 2,
    ensures
        r@ == base64_of(data@),
{
    base64::engine::general_purpose::STANDARD.encode(data)
}

/// The UTF-8 bytes of a text.
pub open spec fn utf8(s: Seq<char>) -> Seq<u8> {
    encode_utf8(s)
}

/// Lower-case hex SHA-256 of a text's bytes.
pub open spec fn sha256_hex(s: Seq<char>) -> Seq<char> {
    hex_spec(sha256_of(utf8(s)))
}

// ---------------------------------------------------------------- Tencent

/// The TC3 canonical request of a DNSPod call.
pub open spec fn tc3_canonical_request(action: Seq<char>, payload: Seq<char>) -> Seq<char> {
    "POST\n/\n\ncontent-type:application/json; charset=utf-8\nhost:dnspod.tencentcloudapi.com\nx-tc-action:"@
        + lower_seq(action) + "\n\ncontent-type;host;x-tc-action\n"@ + sha256_hex(payload)
}

/// The TC3 credential scope of a day.
pub open spec fn tc3_scope(date: Seq<char>) -> Seq<char> {
    date + "/dnspod/tc3_request"@
}

/// The TC3 string to sign.
pub open spec fn tc3_string_to_sign(action: Seq<char>, payload: Seq<char>, timestamp: Seq<char>, date: Seq<char>) -> Seq<char> {
    "TC3-HMAC-SHA256\n"@ + timestamp + "\n"@ + tc3_scope(date) + "\n"@ + sha256_hex(
        tc3_canonical_request(action, payload),
    )
}

/// The TC3 signing key, derived from the secret through the day, the
/// service and `tc3_request`.
pub open spec fn tc3_signing_key(secret: Seq<char>, date: Seq<char>) -> Seq<u8> {
    hmac_sha256_of(
        hmac_sha256_of(hmac_sha256_of(utf8("TC3"@ + secret), utf8(date)), utf8("dnspod"@)),
        utf8("tc3_request"@),
    )
}

/// The `Authorization` header of a TC3-signed DNSPod call.
pub open spec fn tc3_authorization(
    key: Seq<char>,
    secret: Seq<char>,
    action: Seq<char>,
    payload: Seq<char>,
    timestamp: Seq<char>,
    date: Seq<char>,
) -> Seq<char> {
    "TC3-HMAC-SHA256 Credential="@ + key + "/"@ + tc3_scope(date)
        + ", SignedHeaders=content-type;host;x-tc-action, Signature="@ + hex_spec(
        hmac_sha256_of(
            tc3_signing_key(secret, date),
            utf8(tc3_string_to_sign(action, payload, timestamp, date)),
        ),
    )
}

/// Signs a DNSPod call: `payload` is the JSON body, `timestamp` the Unix
/// time in decimal and `date` the UTC day (`YYYY-MM-DD`) of the request.
pub fn tencent_authorization(
    creds: &DnsCredentials,
    action: &str,
    payload: &str,
    timestamp: &str,
    date: &str,
) -> (r: String)
    ensures
        r@ == tc3_authorization(
            creds.access_key@,
            creds.access_secret@,
            action@,
            payload@,
            timestamp@,
            date@,
        ),
{
    let hashed_payload = hex_encode(&sha256(payload.as_bytes()));
    let mut canonical = owned(
        "POST\n/\n\ncontent-type:application/json; charset=utf-8\nhost:dnspod.tencentcloudapi.com\nx-tc-action:",
    );
    let lower_action = to_lower(action);
    push_str(&mut canonical, lower_action.as_str());
    push_str(&mut canonical, "\n\ncontent-type;host;x-tc-action\n");
    push_str(&mut canonical, hashed_payload.as_str());
    let mut scope = owned(date);
    push_str(&mut scope, "/dnspod/tc3_request");
    let mut to_sign = owned("TC3-HMAC-SHA256\n");
    push_str(&mut to_sign, timestamp);
    push_str(&mut to_sign, "\n");
    push_str(&mut to_sign, scope.as_str());
    push_str(&mut to_sign, "\n");
    let hashed_request = hex_encode(&sha256(canonical.as_str().as_bytes()));
    push_str(&mut to_sign, hashed_request.as_str());
    let mut first_key = owned("TC3");
    push_str(&mut first_key, creds.access_secret.as_str());
    let secret_date = hmac_sha256(first_key.as_str().as_bytes(), date.as_bytes());
    let secret_service = hmac_sha256(secret_date.as_slice(), "dnspod".as_bytes());
    let secret_signing = hmac_sha256(secret_service.as_slice(), "tc3_request".as_bytes());
    let signature = hex_encode(&hmac_sha256(secret_signing.as_slice(), to_sign.as_str().as_bytes()));
    let mut auth = owned("TC3-HMAC-SHA256 Credential=");
    push_str(&mut auth, creds.access_key.as_str());
    push_str(&mut auth, "/");
    push_str(&mut auth, scope.as_str());
    push_str(&mut auth, ", SignedHeaders=content-type;host;x-tc-action, Signature=");
    push_str(&mut auth, signature.as_str());
    auth
}


// ---------------------------------------------------------------- Route53

/// The signed headers of a Route53 request: `content-type` is signed on
/// POST only.
pub open spec fn aws_signed_headers(post: bool) -> Seq<char> {
    if post {
        "content-type;host;x-amz-content-sha256;x-amz-date"@
    } else {
        "host;x-amz-content-sha256;x-amz-date"@
    }
}

/// The canonical headers of a Route53 request.
pub open spec fn aws_canonical_headers(post: bool, content_type: Seq<char>, payload_hash: Seq<char>, amz_date: Seq<char>) -> Seq<char> {
    (if post {
        "content-type:"@ + content_type + "\n"@
    } else {
        Seq::<char>::empty()
    }) + "host:route53.amazonaws.com\nx-amz-content-sha256:"@ + payload_hash + "\nx-amz-date:"@
        + amz_date + "\n"@
}

/// Every header that a Route53 signature lists as signed has its line in the
/// canonical headers, in the same order: a POST signs `content-type` first
/// and its canonical headers open with `content-type:` and the content
/// type; the other headers (`host`, `x-amz-content-sha256`, `x-amz-date`)
/// follow alike for every method.
pub proof fn aws_signed_headers_have_lines(
    content_type: Seq<char>,
    payload_hash: Seq<char>,
    amz_date: Seq<char>,
)
    ensures
        "content-type;"@.is_prefix_of(aws_signed_headers(true)),
        ("content-type:"@ + content_type + "\n"@).is_prefix_of(
            aws_canonical_headers(true, content_type, payload_hash, amz_date),
        ),
        "host;"@.is_prefix_of(aws_signed_headers(false)),
        "host:"@.is_prefix_of(aws_canonical_headers(false, content_type, payload_hash, amz_date)),
        aws_signed_headers(true) == "content-type;"@ + aws_signed_headers(false),
        aws_canonical_headers(true, content_type, payload_hash, amz_date) == "content-type:"@
            + content_type + "\n"@ + aws_canonical_headers(false, content_type, payload_hash, amz_date),
{
    reveal_strlit("content-type;host;x-amz-content-sha256;x-amz-date");
    reveal_strlit("host;x-amz-content-sha256;x-amz-date");
    reveal_strlit("content-type;");
    reveal_strlit("host;");
    reveal_strlit("host:");
    reveal_strlit("host:route53.amazonaws.com\nx-amz-content-sha256:");
    let head = "content-type:"@ + content_type + "\n"@;
    let tail = "host:route53.amazonaws.com\nx-amz-content-sha256:"@ + payload_hash + "\nx-amz-date:"@
        + amz_date + "\n"@;
    assert(aws_canonical_headers(true, content_type, payload_hash, amz_date) =~= head + tail);
    assert(aws_canonical_headers(false, content_type, payload_hash, amz_date) =~= tail);
    assert((head + tail).subrange(0, head.len() as int) =~= head);
    assert(tail.subrange(0, 5) =~= "host:"@);
    assert("content-type;"@ + aws_signed_headers(false) =~= aws_signed_headers(true));
    assert(aws_signed_headers(true).subrange(0, 13) =~= "content-type;"@);
    assert(aws_signed_headers(false).subrange(0, 5) =~= "host;"@);
}

/// The canonical request of a Route53 call.
pub open spec fn aws_canonical_request(
    method: Seq<char>,
    path: Seq<char>,
    query: Seq<char>,
    content_type: Seq<char>,
    payload: Seq<u8>,
    amz_date: Seq<char>,
) -> Seq<char> {
    let post = method == "POST"@;
    let ph = hex_spec(sha256_of(payload));
    method + "\n"@ + path + "\n"@ + query + "\n"@ + aws_canonical_headers(post, content_type, ph, amz_date)
        + "\n"@ + aws_signed_headers(post) + "\n"@ + ph
}

/// The AWS credential scope of a day.
pub open spec fn aws_scope(date: Seq<char>) -> Seq<char> {
    date + "/us-east-1/route53/aws4_request"@
}

/// The AWS signing key, derived from the secret through the day, the
/// region, the service and `aws4_request`.
pub open spec fn aws_signing_key(secret: Seq<char>, date: Seq<char>) -> Seq<u8> {
    hmac_sha256_of(
        hmac_sha256_of(
            hmac_sha256_of(hmac_sha256_of(utf8("AWS4"@ + secret), utf8(date)), utf8("us-east-1"@)),
            utf8("route53"@),
        ),
        utf8("aws4_request"@),
    )
}

/// The `Authorization` header of a Signature V4 Route53 call.
pub open spec fn aws_authorization(
    key: Seq<char>,
    secret: Seq<char>,
    method: Seq<char>,
    path: Seq<char>,
    query: Seq<char>,
    content_type: Seq<char>,
    payload: Seq<u8>,
    amz_date: Seq<char>,
    date: Seq<char>,
) -> Seq<char> {
    let to_sign = "AWS4-HMAC-SHA256\n"@ + amz_date + "\n"@ + aws_scope(date) + "\n"@ + sha256_hex(
        aws_canonical_request(method, path, query, content_type, payload, amz_date),
    );
    "AWS4-HMAC-SHA256 Credential="@ + key + "/"@ + aws_scope(date) + ", SignedHeaders="@
        + aws_signed_headers(method == "POST"@) + ", Signature="@ + hex_spec(
        hmac_sha256_of(aws_signing_key(secret, date), utf8(to_sign)),
    )
}

/// The parts of a signed Route53 request that go into its headers and
/// address.
#[derive(Debug)]
pub struct AwsSigned {
    /// Hex SHA-256 of the body (`X-Amz-Content-Sha256`).
    pub payload_hash: String,
    /// The `Authorization` header.
    pub authorization: String,
    /// The request address.
    pub url: String,
    /// Whether the request is a POST with a body.
    pub post: bool,
}

/// Signs a Route53 call: `amz_date` is the UTC time as `YYYYMMDDTHHMMSSZ`
/// and `date` its day as `YYYYMMDD`.
pub fn aws_sign(
    creds: &DnsCredentials,
    method: &str,
    path: &str,
    query: &str,
    payload: &[u8],
    content_type: &str,
    amz_date: &str,
    date: &str,
) -> (r: AwsSigned)
    ensures
        r.payload_hash@ == hex_spec(sha256_of(payload@)),
        r.authorization@ == aws_authorization(
            creds.access_key@,
            creds.access_secret@,
            method@,
            path@,
            query@,
            content_type@,
            payload@,
            amz_date@,
            date@,
        ),
        r.url@ == "https://route53.amazonaws.com"@ + path@ + (if query@.len() == 0 {
            Seq::<char>::empty()
        } else {
            "?"@ + query@
        }),
        r.post == (method@ == "POST"@),
{
    let post = str_eq(method, "POST");
    let payload_hash = hex_encode(&sha256(payload));
    let mut headers = if post {
        let mut h = owned("content-type:");
        push_str(&mut h, content_type);
        push_str(&mut h, "\n");
        h
    } else {
        String::new()
    };
    push_str(&mut headers, "host:route53.amazonaws.com\nx-amz-content-sha256:");
    push_str(&mut headers, payload_hash.as_str());
    push_str(&mut headers, "\nx-amz-date:");
    push_str(&mut headers, amz_date);
    push_str(&mut headers, "\n");
    let signed_headers = if post {
        "content-type;host;x-amz-content-sha256;x-amz-date"
    } else {
        "host;x-amz-content-sha256;x-amz-date"
    };
    let mut canonical = owned(method);
    push_str(&mut canonical, "\n");
    push_str(&mut canonical, path);
    push_str(&mut canonical, "\n");
    push_str(&mut canonical, query);
    push_str(&mut canonical, "\n");
    push_str(&mut canonical, headers.as_str());
    push_str(&mut canonical, "\n");
    push_str(&mut canonical, signed_headers);
    push_str(&mut canonical, "\n");
    push_str(&mut canonical, payload_hash.as_str());
    let mut scope = owned(date);
    push_str(&mut scope, "/us-east-1/route53/aws4_request");
    let mut to_sign = owned("AWS4-HMAC-SHA256\n");
    push_str(&mut to_sign, amz_date);
    push_str(&mut to_sign, "\n");
    push_str(&mut to_sign, scope.as_str());
    push_str(&mut to_sign, "\n");
    let hashed = hex_encode(&sha256(canonical.as_str().as_bytes()));
    push_str(&mut to_sign, hashed.as_str());
    let mut first_key = owned("AWS4");
    push_str(&mut first_key, creds.access_secret.as_str());
    let k_date = hmac_sha256(first_key.as_str().as_bytes(), date.as_bytes());
    let k_region = hmac_sha256(k_date.as_slice(), "us-east-1".as_bytes());
    let k_service = hmac_sha256(k_region.as_slice(), "route53".as_bytes());
    let k_signing = hmac_sha256(k_service.as_slice(), "aws4_request".as_bytes());
    let signature = hex_encode(&hmac_sha256(k_signing.as_slice(), to_sign.as_str().as_bytes()));
    let mut auth = owned("AWS4-HMAC-SHA256 Credential=");
    push_str(&mut auth, creds.access_key.as_str());
    push_str(&mut auth, "/");
    push_str(&mut auth, scope.as_str());
    push_str(&mut auth, ", SignedHeaders=");
    push_str(&mut auth, signed_headers);
    push_str(&mut auth, ", Signature=");
    push_str(&mut auth, signature.as_str());
    let mut url = owned("https://route53.amazonaws.com");
    push_str(&mut url, path);
    if query.as_bytes().len() > 0 {
        push_str(&mut url, "?");
        push_str(&mut url, query);
    }
    AwsSigned { payload_hash, authorization: auth, url, post }
}

// ---------------------------------------------------------------- Xinnet

/// The `Authorization` header of a Xinnet call to `path` with `body`, at
/// `timestamp` (`YYYYMMDDTHHMMSSZ`).
pub open spec fn xinnet_authorization_spec(key: Seq<char>, secret: Seq<char>, path: Seq<char>, body: Seq<char>, timestamp: Seq<char>) -> Seq<char> {
    let to_sign = "HMAC-SHA256\n"@ + timestamp + "\nPOST\n"@ + path + "/\n"@ + body;
    "HMAC-SHA256 Access="@ + key + ", Signature="@ + hex_spec(hmac_sha256_of(utf8(secret), utf8(to_sign)))
}

/// See [`xinnet_authorization_spec`].
pub fn xinnet_authorization(creds: &DnsCredentials, path: &str, body: &str, timestamp: &str) -> (r: String)
    ensures
        r@ == xinnet_authorization_spec(creds.access_key@, creds.access_secret@, path@, body@, timestamp@),
{
    let mut to_sign = owned("HMAC-SHA256\n");
    push_str(&mut to_sign, timestamp);
    push_str(&mut to_sign, "\nPOST\n");
    push_str(&mut to_sign, path);
    push_str(&mut to_sign, "/\n");
    push_str(&mut to_sign, body);
    let signature = hex_encode(
        &hmac_sha256(creds.access_secret.as_str().as_bytes(), to_sign.as_str().as_bytes()),
    );
    let mut auth = owned("HMAC-SHA256 Access=");
    push_str(&mut auth, creds.access_key.as_str());
    push_str(&mut auth, ", Signature=");
    push_str(&mut auth, signature.as_str());
    auth
}

// ---------------------------------------------------------------- Aliyun

/// `key=value` pairs, both percent-encoded.
pub open spec fn encoded_pairs(s: Seq<(Seq<char>, Seq<char>)>) -> Seq<Seq<char>> {
    s.map_values(|p: (Seq<char>, Seq<char>)| percent_spec(utf8(p.0)) + "="@ + percent_spec(utf8(p.1)))
}

/// The canonical query of parameters in key order.
pub open spec fn canonical_query(s: Seq<(Seq<char>, Seq<char>)>) -> Seq<char> {
    seq_join(encoded_pairs(s), "&"@)
}

/// The parameters of an Aliyun call after the common ones are added.
pub open spec fn aliyun_params(
    s: Seq<(Seq<char>, Seq<char>)>,
    key: Seq<char>,
    timestamp: Seq<char>,
    nonce: Seq<char>,
) -> Seq<(Seq<char>, Seq<char>)> {
    insert_sorted(
        insert_sorted(
            insert_sorted(
                insert_sorted(
                    insert_sorted(
                        insert_sorted(insert_sorted(s, "Format"@, "JSON"@), "Version"@, "2015-01-09"@),
                        "AccessKeyId"@,
                        key,
                    ),
                    "SignatureMethod"@,
                    "HMAC-SHA1"@,
                ),
                "Timestamp"@,
                timestamp,
            ),
            "SignatureVersion"@,
            "1.0"@,
        ),
        "SignatureNonce"@,
        nonce,
    )
}

/// The signature of an Aliyun canonical query: base64 of the HMAC-SHA1 of
/// `GET&%2F&` and the encoded query, under the secret and `&`.
pub open spec fn aliyun_signature(secret: Seq<char>, canonical: Seq<char>) -> Seq<char> {
    base64_of(hmac_sha1_of(utf8(secret + "&"@), utf8("GET&%2F&"@ + percent_spec(utf8(canonical)))))
}

/// The signed address of an Aliyun DNS call.
pub open spec fn aliyun_url_spec(
    params: Seq<(Seq<char>, Seq<char>)>,
    key: Seq<char>,
    secret: Seq<char>,
    timestamp: Seq<char>,
    nonce: Seq<char>,
) -> Seq<char> {
    let canonical = canonical_query(aliyun_params(params, key, timestamp, nonce));
    "https://alidns.aliyuncs.com/?"@ + canonical + "&Signature="@ + percent_spec(
        utf8(aliyun_signature(secret, canonical)),
    )
}

fn join_encoded(entries: &Vec<(String, String)>) -> (r: String)
    ensures
        r@ == canonical_query(entry_views(entries@)),
{
    let mut parts: Vec<String> = Vec::new();
    let mut i: usize = 0;
    while i < entries.len()
        invariant
            i <= entries@.len(),
            crate::text::views(parts@) == encoded_pairs(entry_views(entries@)).take(i as int),
        decreases entries.len() - i,
    {
        let mut p = percent_encode(entries[i].0.as_str());
        push_str(&mut p, "=");
        let v = percent_encode(entries[i].1.as_str());
        push_str(&mut p, v.as_str());
        let ghost before = parts@;
        parts.push(p);
        proof {
            crate::text::lemma_views_push(before, p);
        }
        assert(encoded_pairs(entry_views(entries@)).take(i + 1) =~= encoded_pairs(
            entry_views(entries@),
        ).take(i as int).push(encoded_pairs(entry_views(entries@))[i as int]));
        i = i + 1;
    }
    assert(encoded_pairs(entry_views(entries@)).take(i as int) =~= encoded_pairs(entry_views(entries@)));
    crate::text::join_strings(parts.as_slice(), "&")
}

/// Adds the common parameters of an Aliyun call to `params`, signs them
/// with the secret, and gives the address to request. `timestamp` is the
/// UTC time (`YYYY-MM-DDTHH:MM:SSZ`) and `nonce` a fresh random text.
pub fn aliyun_url(
    creds: &DnsCredentials,
    params: ParamMap,
    timestamp: &str,
    nonce: &str,
) -> (r: String)
    ensures
        r@ == aliyun_url_spec(params@, creds.access_key@, creds.access_secret@, timestamp@, nonce@),
{
    let mut params = params;
    params.insert("Format", owned("JSON"));
    params.insert("Version", owned("2015-01-09"));
    params.insert("AccessKeyId", creds.access_key.clone());
    params.insert("SignatureMethod", owned("HMAC-SHA1"));
    params.insert("Timestamp", owned(timestamp));
    params.insert("SignatureVersion", owned("1.0"));
    params.insert("SignatureNonce", owned(nonce));
    let canonical = join_encoded(params.entries());
    let mut to_sign = owned("GET&%2F&");
    let enc = percent_encode(canonical.as_str());
    push_str(&mut to_sign, enc.as_str());
    let mut key = creds.access_secret.clone();
    push_str(&mut key, "&");
    let tag = hmac_sha1(key.as_str().as_bytes(), to_sign.as_str().as_bytes());
    let signature = base64_standard(tag.as_slice());
    let mut url = owned("https://alidns.aliyuncs.com/?");
    push_str(&mut url, canonical.as_str());
    push_str(&mut url, "&Signature=");
    let es = percent_encode(signature.as_str());
    push_str(&mut url, es.as_str());
    url
}
} // verus!
