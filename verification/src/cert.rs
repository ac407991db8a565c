//! Certificates: reading the expiry of a PEM certificate, checking uploaded
//! PEM texts, and the decisions around ACME issuance and renewal.
use vstd::prelude::*;

use chrono::TimeZone;
use x509_parser::prelude::FromDer;

use crate::model::{
    clone_opt, is_wildcard_name, lookup_by_id, new_id, now_rfc3339, dns_ids, domain_ids, AcmeChallenge,
    CertMode, Certificate, ConfigData, DnsProvider, Domain,
};
use crate::text::{chars_of, contains_sub, has_sub, owned, push_str};

verus! {

/// An error reading a certificate.
#[derive(Debug)]
pub enum PemError {
    /// What went wrong.
    Message(String),
}

/// The text of a PEM error.
pub open spec fn pem_text(e: PemError) -> Seq<char> {
    match e {
        PemError::Message(m) => m@,
    }
}

/// An error of certificate handling.
#[derive(Debug)]
pub enum CertError {
    /// What went wrong, in words.
    Message(String),
    /// A certificate could not be read.
    Pem(PemError),
}

/// The text an error is shown with: a message as it is, a PEM error
/// after `pem: `.
pub open spec fn cert_error_text(e: CertError) -> Seq<char> {
    match e {
        CertError::Message(m) => m@,
        CertError::Pem(p) => "pem: "@ + pem_text(p),
    }
}

impl CertError {
    /// See [`cert_error_text`].
    pub fn text(&self) -> (r: String)
        ensures
            r@ == cert_error_text(*self),
    {
        match self {
            CertError::Message(m) => m.clone(),
            CertError::Pem(PemError::Message(m)) => {
                let mut t = owned("pem: ");
                push_str(&mut t, m.as_str());
                t
            },
        }
    }
}

/// An error carrying `m`.
pub open spec fn cert_message_is(e: CertError, m: Seq<char>) -> bool {
    e matches CertError::Message(x) && x@ == m
}

/// What `x509_parser::pem::parse_x509_pem` makes of some bytes: the DER
/// contents of the first PEM block, or the text of its error.
pub uninterp spec fn pem_block_of(input: Seq<u8>) -> Result<Seq<u8>, Seq<char>>;

/// What `X509Certificate::from_der` makes of DER bytes: the certificate's
/// `notAfter` as Unix seconds, or the text of its error.
pub uninterp spec fn der_not_after_of(der: Seq<u8>) -> Result<i64, Seq<char>>;

/// What chrono makes of Unix seconds: the UTC instant in RFC 3339, when
/// there is one.
pub uninterp spec fn rfc3339_of(seconds: i64) -> Option<Seq<char>>;

/// What `chrono::DateTime::parse_from_rfc3339` makes of a text: the
/// instant as Unix seconds and nanoseconds, when it parses.
pub uninterp spec fn parsed_instant_of(text: Seq<char>) -> Option<(i64, u32)>;

/// `x509_parser::pem::parse_x509_pem`: the contents of the first PEM block,
/// or the error's text; named `pem_block_of`.
#[verifier::external_body]
fn read_pem_block(input: &[u8]) -> (r: Result<Vec<u8>, String>)
    ensures
        match r {
            Ok(v) => pem_block_of(input@) == Ok::<Seq<u8>, Seq<char>>(v@),
            Err(t) => pem_block_of(input@) == Err::<Seq<u8>, Seq<char>>(t@),
        },
{
    match x509_parser::pem::parse_x509_pem(input) {
        Ok((_, pem)) => Ok(pem.contents),
        Err(e) => Err(e.to_string()),
    }
}

/// `X509Certificate::from_der` and the `notAfter` of its validity, as Unix
/// seconds, or the error's text; named `der_not_after_of`.
#[verifier::external_body]
fn read_der_not_after(der: &[u8]) -> (r: Result<i64, String>)
    ensures
        match r {
            Ok(t) => der_not_after_of(der@) == Ok::<i64, Seq<char>>(t),
            Err(t) => der_not_after_of(der@) == Err::<i64, Seq<char>>(t@),
        },
{
    match x509_parser::certificate::X509Certificate::from_der(der) {
        Ok((_, cert)) => Ok(cert.validity().not_after.timestamp()),
        Err(e) => Err(e.to_string()),
    }
}

/// `Utc.timestamp_opt(seconds, 0).single()` and `to_rfc3339`: the instant
/// as RFC 3339 text; named `rfc3339_of`.
#[verifier::external_body]
fn utc_rfc3339(seconds: i64) -> (r: Option<String>)
    ensures
        match r {
            Some(t) => rfc3339_of(seconds) == Some(t@),
            None => rfc3339_of(seconds) is None,
        },
{
    chrono::Utc.timestamp_opt(seconds, 0).single().map(|d| d.to_rfc3339())
}

/// `chrono::DateTime::parse_from_rfc3339` with `timestamp` and
/// `timestamp_subsec_nanos`; named `parsed_instant_of`.
#[verifier::external_body]
fn parse_rfc3339(text: &str) -> (r: Option<(i64, u32)>)
    ensures
        r == parsed_instant_of(text@),
{
    chrono::DateTime::parse_from_rfc3339(text).ok().map(|d| (d.timestamp(), d.timestamp_subsec_nanos()))
}

/// `chrono::Utc::now()` as Unix seconds and nanoseconds. Nothing is stated
/// of the result: it is the time of the call.
#[verifier::external_body]
pub(crate) fn now_instant() -> (r: (i64, u32)) {
    let d = chrono::Utc::now();
    (d.timestamp(), d.timestamp_subsec_nanos())
}

/// The expiry of a PEM certificate in RFC 3339, from the names of the
/// three readings; each failure has its own message.
pub open spec fn not_after_spec(cert_pem: Seq<char>) -> Result<Seq<char>, Seq<char>> {
    match pem_block_of(vstd::utf8::encode_utf8(cert_pem)) {
        Err(e) => Err("无法解析证书 PEM: "@ + e),
        Ok(der) => match der_not_after_of(der) {
            Err(e) => Err("无法解析证书: "@ + e),
            Ok(ts) => match rfc3339_of(ts) {
                None => Err("证书过期时间无效"@),
                Some(t) => Ok(t),
            },
        },
    }
}

/// The `notAfter` of the first certificate in a PEM text, in RFC 3339.
pub fn cert_not_after(cert_pem: &str) -> (r: Result<String, PemError>)
    ensures
        match r {
            Ok(t) => not_after_spec(cert_pem@) == Ok::<Seq<char>, Seq<char>>(t@),
            Err(e) => not_after_spec(cert_pem@) == Err::<Seq<char>, Seq<char>>(pem_text(e)),
        },
{
    let der = match read_pem_block(cert_pem.as_bytes()) {
        Ok(d) => d,
        Err(e) => {
            let mut m = owned("无法解析证书 PEM: ");
            push_str(&mut m, e.as_str());
            return Err(PemError::Message(m));
        },
    };
    let ts = match read_der_not_after(der.as_slice()) {
        Ok(t) => t,
        Err(e) => {
            let mut m = owned("无法解析证书: ");
            push_str(&mut m, e.as_str());
            return Err(PemError::Message(m));
        },
    };
    match utc_rfc3339(ts) {
        Some(t) => Ok(t),
        None => Err(PemError::Message(owned("证书过期时间无效"))),
    }
}

/// The expiry of an uploaded certificate, when it can be read.
pub fn parse_uploaded_not_after(cert_pem: &str) -> (r: Option<String>)
    ensures
        match not_after_spec(cert_pem@) {
            Ok(t) => r matches Some(x) && x@ == t,
            Err(_) => r is None,
        },
{
    match cert_not_after(cert_pem) {
        Ok(t) => Some(t),
        Err(_) => None,
    }
}

/// A text looks like PEM of a kind when it holds `BEGIN` and the label.
pub open spec fn looks_like_pem_spec(label: Seq<char>, value: Seq<char>) -> bool {
    has_sub(value, "BEGIN"@) && has_sub(value, label)
}

/// See [`looks_like_pem_spec`].
pub fn looks_like_pem(label: &str, value: &str) -> (r: bool)
    ensures
        r == looks_like_pem_spec(label@, value@),
{
    let v = chars_of(value);
    contains_sub(&v, &chars_of("BEGIN")) && contains_sub(&v, &chars_of(label))
}

/// Checks an uploaded certificate and key: the certificate must look like
/// a PEM certificate, the key like a PEM private key (PKCS#8 or RSA); the
/// result is the certificate's expiry when it can be read.
pub fn validate_manual_pem(cert_pem: &str, key_pem: &str) -> (r: Result<Option<String>, CertError>)
    ensures
        !looks_like_pem_spec("CERTIFICATE"@, cert_pem@) ==> (r matches Err(e) && cert_message_is(
            e,
            "公钥必须是 PEM 证书"@,
        )),
        looks_like_pem_spec("CERTIFICATE"@, cert_pem@) && !looks_like_pem_spec("PRIVATE KEY"@, key_pem@)
            && !looks_like_pem_spec("RSA PRIVATE KEY"@, key_pem@) ==> (r matches Err(e)
            && cert_message_is(e, "私钥必须是 PEM 格式"@)),
        looks_like_pem_spec("CERTIFICATE"@, cert_pem@) && (looks_like_pem_spec("PRIVATE KEY"@, key_pem@)
            || looks_like_pem_spec("RSA PRIVATE KEY"@, key_pem@)) ==> (r matches Ok(n) && match not_after_spec(cert_pem@) {
            Ok(t) => n matches Some(x) && x@ == t,
            Err(_) => n is None,
        }),
{
    if !looks_like_pem("CERTIFICATE", cert_pem) {
        return Err(CertError::Message(owned("公钥必须是 PEM 证书")));
    }
    if !looks_like_pem("PRIVATE KEY", key_pem) && !looks_like_pem("RSA PRIVATE KEY", key_pem) {
        return Err(CertError::Message(owned("私钥必须是 PEM 格式")));
    }
    Ok(parse_uploaded_not_after(cert_pem))
}

/// Integer division rounding toward zero, as Rust's `/` does.
pub open spec fn trunc_div(a: int, b: int) -> int {
    if a >= 0 {
        a / b
    } else {
        -((-a) / b)
    }
}

/// Whole days from `now` to `t` (seconds, nanoseconds), rounded toward
/// zero as `TimeDelta::num_days` does: whole seconds first, then days.
pub open spec fn days_until(t: (i64, u32), now: (i64, u32)) -> int {
    let nanos = (t.0 - now.0) * 1_000_000_000 + (t.1 - now.1);
    trunc_div(trunc_div(nanos, 1_000_000_000), 86400)
}

/// An expiry is due within `days` of `now` when it is at most `days` whole
/// days away, or when it cannot be read.
pub open spec fn due_within(not_after: Seq<char>, days: i64, now: (i64, u32)) -> bool {
    match parsed_instant_of(not_after) {
        None => true,
        Some(t) => days_until(t, now) <= days,
    }
}

fn trunc_div_exec(a: i128, b: i128) -> (r: i128)
    requires
        b > 0,
        a > i128::MIN,
    ensures
        r == trunc_div(a as int, b as int),
{
    if a >= 0 {
        a / b
    } else {
        -((-a) / b)
    }
}

/// See [`due_within`], with the time given.
pub fn expires_within_days_at(not_after: &str, days: i64, now: (i64, u32)) -> (r: bool)
    ensures
        r == due_within(not_after@, days, now),
{
    match parse_rfc3339(not_after) {
        None => true,
        Some(t) => {
            let secs: i128 = (t.0 as i128) - (now.0 as i128);
            let sub: i128 = (t.1 as i128) - (now.1 as i128);
            assert(-0x1_0000_0000_0000_0000 <= secs <= 0x1_0000_0000_0000_0000);
            assert(secs * 1_000_000_000 <= 0x1_0000_0000_0000_0000 * 1_000_000_000) by (nonlinear_arith)
                requires
                    secs <= 0x1_0000_0000_0000_0000,
            ;
            assert(secs * 1_000_000_000 >= -0x1_0000_0000_0000_0000 * 1_000_000_000) by (nonlinear_arith)
                requires
                    secs >= -0x1_0000_0000_0000_0000,
            ;
            let nanos: i128 = secs * 1_000_000_000 + sub;
            let whole = trunc_div_exec(nanos, 1_000_000_000);
            let d = trunc_div_exec(whole, 86400);
            d <= days as i128
        },
    }
}

/// Whether a certificate expiring at `not_after` (RFC 3339) runs out within
/// `days` days from now; an unreadable expiry counts as due.
pub fn expires_within_days(not_after: &str, days: i64) -> (r: bool)
    ensures
        exists|now: (i64, u32)| r == due_within(not_after@, days, now),
        parsed_instant_of(not_after@) is None ==> r,
{
    let now = now_instant();
    expires_within_days_at(not_after, days, now)
}


/// Whether a domain may go to ACME now, and with which challenge: it must
/// exist, use ACME, have a challenge, and not be a wildcard validated over
/// HTTP.
pub open spec fn issue_check(domains: Seq<Domain>, domain_id: Seq<char>) -> Result<(Domain, AcmeChallenge), Seq<char>> {
    match lookup_by_id(domains, domain_ids(domains), domain_id) {
        None => Err("域名不存在"@),
        Some(d) => if d.mode != CertMode::Acme {
            Err("该域名未启用自动证书"@)
        } else {
            match d.challenge {
                None => Err("未选择验证方式"@),
                Some(c) => if is_wildcard_name(d.name@) && c == AcmeChallenge::Http01 {
                    Err("泛域名不支持 HTTP 验证"@)
                } else {
                    Ok((d, c))
                },
            }
        },
    }
}

/// See [`issue_check`].
pub fn check_issue(data: &ConfigData, domain_id: &str) -> (r: Result<(Domain, AcmeChallenge), CertError>)
    ensures
        match issue_check(data.domains@, domain_id@) {
            Ok((d, c)) => r == Ok::<(Domain, AcmeChallenge), CertError>((d, c)),
            Err(m) => r matches Err(e) && cert_message_is(e, m),
        },
{
    let domain = match data.domain(domain_id) {
        Some(d) => d.clone(),
        None => {
            return Err(CertError::Message(owned("域名不存在")));
        },
    };
    if domain.mode != CertMode::Acme {
        return Err(CertError::Message(owned("该域名未启用自动证书")));
    }
    let challenge = match domain.challenge {
        Some(c) => c,
        None => {
            return Err(CertError::Message(owned("未选择验证方式")));
        },
    };
    if domain.is_wildcard() && challenge == AcmeChallenge::Http01 {
        return Err(CertError::Message(owned("泛域名不支持 HTTP 验证")));
    }
    Ok((domain, challenge))
}

/// A domain as it is while its certificate is being issued.
pub fn mark_issuing(domain: &Domain) -> (r: Domain)
    ensures
        r.status@ == "issuing"@,
        r.last_error is None,
        r == (Domain { status: r.status, last_error: None, ..*domain }),
{
    let mut d = domain.clone();
    d.status = owned("issuing");
    d.last_error = None;
    d
}

/// A domain whose issuance failed with `error`.
pub fn mark_failed(domain: &Domain, error: &CertError) -> (r: Domain)
    ensures
        r.status@ == "failed"@,
        r.last_error matches Some(t) && t@ == cert_error_text(*error),
        r == (Domain { status: r.status, last_error: r.last_error, ..*domain }),
{
    let mut d = domain.clone();
    d.status = owned("failed");
    d.last_error = Some(error.text());
    d
}

/// The certificate stored after a successful issuance and the domain that
/// now refers to it: the domain's own certificate id is kept (a fresh one
/// is made when it has none), the certificate is named after the domain,
/// and the domain is marked issued with the new expiry.
pub fn issued_records(domain: &Domain, cert_pem: String, key_pem: String, not_after: String) -> (r: (Certificate, Domain))
    ensures
        match domain.cert_id {
            Some(id) => r.0.id == id,
            None => r.0.id@.len() == 36,
        },
        r.0.name@ == domain.name@ + " (Let's Encrypt)"@,
        r.0.cert_pem == cert_pem,
        r.0.key_pem == key_pem,
        r.0.not_after == Some(not_after),
        r.0.auto_issued,
        r.1 == (Domain {
            cert_id: Some(r.0.id),
            status: r.1.status,
            expires_at: Some(not_after),
            last_error: None,
            ..*domain
        }),
        r.1.status@ == "issued"@,
{
    let cert_id = match &domain.cert_id {
        Some(id) => id.clone(),
        None => new_id(),
    };
    let mut name = domain.name.clone();
    push_str(&mut name, " (Let's Encrypt)");
    let cert = Certificate {
        id: cert_id.clone(),
        name,
        cert_pem,
        key_pem,
        not_after: Some(not_after.clone()),
        auto_issued: true,
        created_at: now_rfc3339(),
    };
    let mut d = domain.clone();
    d.cert_id = Some(cert_id);
    d.status = owned("issued");
    d.expires_at = Some(not_after);
    d.last_error = None;
    (cert, d)
}

/// The DNS provider a DNS-01 challenge of `domain` goes through: the domain
/// must name one, and it must exist.
pub fn challenge_provider(data: &ConfigData, domain: &Domain) -> (r: Result<DnsProvider, CertError>)
    ensures
        match domain.dns_provider_id {
            None => r matches Err(e) && cert_message_is(e, "DNS 验证需要选择 DNS 提供商"@),
            Some(id) => match lookup_by_id(data.dns_providers@, dns_ids(data.dns_providers@), id@) {
                Some(p) => r == Ok::<DnsProvider, CertError>(p),
                None => r matches Err(e) && cert_message_is(e, "DNS 提供商不存在"@),
            },
        },
{
    let id = match &domain.dns_provider_id {
        Some(id) => id,
        None => {
            return Err(CertError::Message(owned("DNS 验证需要选择 DNS 提供商")));
        },
    };
    match data.dns_provider(id.as_str()) {
        Some(p) => Ok(p.clone()),
        None => Err(CertError::Message(owned("DNS 提供商不存在"))),
    }
}

/// A challenge an ACME server offers, by type.
#[derive(Debug, Clone, Copy, PartialEq, Eq, Structural)]
pub enum ChallengeKind {
    Http01,
    Dns01,
    Other,
}

/// The challenge type asked for by a domain's setting.
pub open spec fn wanted_kind(c: AcmeChallenge) -> ChallengeKind {
    match c {
        AcmeChallenge::Http01 => ChallengeKind::Http01,
        AcmeChallenge::Dns01 => ChallengeKind::Dns01,
    }
}

/// The first offered challenge of the wanted type, or an error when the
/// server offers none.
pub fn pick_challenge(offered: &[ChallengeKind], wanted: AcmeChallenge) -> (r: Result<usize, CertError>)
    ensures
        match r {
            Ok(i) => i < offered@.len() && offered@[i as int] == wanted_kind(wanted) && forall|k: int|
                0 <= k < i ==> offered@[k] != wanted_kind(wanted),
            Err(e) => cert_message_is(e, "ACME 未提供所选验证方式"@) && forall|k: int|
                0 <= k < offered@.len() ==> offered@[k] != wanted_kind(wanted),
        },
{
    let want = match wanted {
        AcmeChallenge::Http01 => ChallengeKind::Http01,
        AcmeChallenge::Dns01 => ChallengeKind::Dns01,
    };
    let mut i: usize = 0;
    while i < offered.len()
        invariant
            i <= offered@.len(),
            want == wanted_kind(wanted),
            forall|k: int| 0 <= k < i ==> offered@[k] != want,
        decreases offered.len() - i,
    {
        if offered[i] == want {
            return Ok(i);
        }
        i = i + 1;
    }
    Err(CertError::Message(owned("ACME 未提供所选验证方式")))
}

/// The state an ACME order reports.
#[derive(Debug, Clone, Copy, PartialEq, Eq, Structural)]
pub enum OrderState {
    Pending,
    Ready,
    Processing,
    Valid,
    Invalid,
}

/// What to do after polling an order.
#[derive(Debug)]
pub enum PollStep {
    /// Go on to finalize the order.
    Proceed,
    /// Wait and poll again; the count of waits so far.
    Wait(u32),
    /// Give up with this error.
    Fail(CertError),
}

/// Polling an order: ready (or any settled state but invalid) goes on,
/// invalid fails, pending or processing waits, at most 30 times.
pub fn order_poll_step(state: OrderState, tries: u32) -> (r: PollStep)
    requires
        tries <= 30,
    ensures
        state == OrderState::Invalid ==> (r matches PollStep::Fail(e) && cert_message_is(
            e,
            "ACME 订单无效，验证失败"@,
        )),
        (state == OrderState::Pending || state == OrderState::Processing) ==> (if tries + 1 > 30 {
            r matches PollStep::Fail(e) && cert_message_is(e, "等待 ACME 验证超时"@)
        } else {
            r == PollStep::Wait((tries + 1) as u32)
        }),
        (state == OrderState::Ready || state == OrderState::Valid) ==> r is Proceed,
{
    match state {
        OrderState::Ready => PollStep::Proceed,
        OrderState::Invalid => PollStep::Fail(CertError::Message(owned("ACME 订单无效，验证失败"))),
        OrderState::Pending | OrderState::Processing => {
            let t = tries + 1;
            if t > 30 {
                PollStep::Fail(CertError::Message(owned("等待 ACME 验证超时")))
            } else {
                PollStep::Wait(t)
            }
        },
        OrderState::Valid => PollStep::Proceed,
    }
}

/// Waiting for the issued certificate: a certificate ends the wait;
/// without one, wait again, at most 20 times.
pub fn certificate_poll_step(received: bool, tries: u32) -> (r: PollStep)
    requires
        tries <= 20,
    ensures
        received ==> r is Proceed,
        !received && tries + 1 > 20 ==> (r matches PollStep::Fail(e) && cert_message_is(
            e,
            "等待签发证书超时"@,
        )),
        !received && tries + 1 <= 20 ==> r == PollStep::Wait((tries + 1) as u32),
{
    if received {
        return PollStep::Proceed;
    }
    let t = tries + 1;
    if t > 20 {
        PollStep::Fail(CertError::Message(owned("等待签发证书超时")))
    } else {
        PollStep::Wait(t)
    }
}

/// A domain is due for renewal when it uses ACME and its expiry is unknown,
/// unreadable, or within 30 days of `now`.
pub open spec fn renewal_due(d: Domain, now: (i64, u32)) -> bool {
    d.mode == CertMode::Acme && match d.expires_at {
        None => true,
        Some(e) => due_within(e@, 30, now),
    }
}

/// The ids of the domains due for renewal at `now`, in order.
pub open spec fn due_ids(domains: Seq<Domain>, now: (i64, u32)) -> Seq<Seq<char>>
    decreases domains.len(),
{
    if domains.len() == 0 {
        Seq::empty()
    } else {
        let prev = due_ids(domains.drop_last(), now);
        if renewal_due(domains.last(), now) {
            prev.push(domains.last().id@)
        } else {
            prev
        }
    }
}

/// See [`due_ids`].
pub fn domains_due(data: &ConfigData, now: (i64, u32)) -> (r: Vec<String>)
    ensures
        crate::text::views(r@) == due_ids(data.domains@, now),
{
    let mut out: Vec<String> = Vec::new();
    let mut i: usize = 0;
    while i < data.domains.len()
        invariant
            i <= data.domains@.len(),
            crate::text::views(out@) == due_ids(data.domains@.take(i as int), now),
        decreases data.domains.len() - i,
    {
        let d = &data.domains[i];
        assert(data.domains@.take(i + 1).drop_last() == data.domains@.take(i as int));
        assert(data.domains@.take(i + 1).last() == data.domains@[i as int]);
        if d.mode == CertMode::Acme {
            let due = match &d.expires_at {
                None => true,
                Some(e) => expires_within_days_at(e.as_str(), 30, now),
            };
            if due {
                let ghost before = out@;
                out.push(d.id.clone());
                proof {
                    crate::text::lemma_views_push(before, d.id);
                }
            }
        }
        i = i + 1;
    }
    assert(data.domains@.take(i as int) == data.domains@);
    out
}
} // verus!
