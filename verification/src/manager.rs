//! The admin service's rules: what an input must hold to be accepted, and
//! the record that an accepted input becomes.
use vstd::prelude::*;

use crate::cert::{cert_error_text, not_after_spec, validate_manual_pem};
use crate::model::{
    cert_ids, clone_opt, dns_ids, domain_ids, host_ids, lookup_by_id, new_id, now_rfc3339, stream_ids,
    upstream_ids, AcmeChallenge, CertMode, Certificate, ConfigData, DnsProvider, DnsProviderKind, Domain,
    HeaderRewrite, Host, MatchType, Route, StreamConfig, StreamProtocol, Upstream, UpstreamProtocol,
    UpstreamServer,
};
use crate::store::StoreError;
use crate::text::{chars_of, lower_seq, owned, push_str, str_byte_len, to_lower, trim, trim_seq};

verus! {

/// A refused admin request: the HTTP status and the message shown.
#[derive(Debug)]
pub struct ApiError {
    pub status: u16,
    pub message: String,
}

/// A refusal with status `status` and message `m`.
pub open spec fn api_err(e: ApiError, status: u16, m: Seq<char>) -> bool {
    e.status == status && e.message@ == m
}

impl ApiError {
    /// A bad request (400).
    pub fn bad(message: String) -> (r: Self)
        ensures
            api_err(r, 400, message@),
    {
        ApiError { status: 400, message }
    }

    /// A missing record (404).
    pub fn not_found(message: String) -> (r: Self)
        ensures
            api_err(r, 404, message@),
    {
        ApiError { status: 404, message }
    }

    /// A refused login or a missing session (401).
    pub fn unauthorized(message: String) -> (r: Self)
        ensures
            api_err(r, 401, message@),
    {
        ApiError { status: 401, message }
    }

    /// A server fault (500).
    pub fn internal(message: String) -> (r: Self)
        ensures
            api_err(r, 500, message@),
    {
        ApiError { status: 500, message }
    }
}

/// A refused change of the store is a bad request with its message.
pub fn store_err(err: StoreError) -> (r: ApiError)
    ensures
        match err {
            StoreError::Message(m) => api_err(r, 400, m@),
        },
{
    match err {
        StoreError::Message(m) => ApiError::bad(m),
    }
}

/// A text that is empty once trimmed.
pub open spec fn blank(s: Seq<char>) -> bool {
    trim_seq(s).len() == 0
}

/// A missing or empty optional text (not trimmed).
pub open spec fn opt_empty(o: Option<String>) -> bool {
    match o {
        None => true,
        Some(s) => s@.len() == 0,
    }
}

fn is_blank(s: &str) -> (r: bool)
    ensures
        r == blank(s@),
{
    let t = trim(s);
    str_byte_len(&t) == 0
}

/// A missing optional text, or one that is blank once trimmed.
pub open spec fn opt_blank(o: Option<String>) -> bool {
    match o {
        None => true,
        Some(s) => blank(s@),
    }
}

fn is_opt_blank(o: &Option<String>) -> (r: bool)
    ensures
        r == opt_blank(*o),
{
    match o {
        None => true,
        Some(s) => is_blank(s.as_str()),
    }
}

fn is_opt_empty(o: &Option<String>) -> (r: bool)
    ensures
        r == opt_empty(*o),
{
    match o {
        None => true,
        Some(s) => str_byte_len(s) == 0,
    }
}

/// A name must not be blank; it is kept trimmed.
pub fn require_name(value: &str) -> (r: Result<String, ApiError>)
    ensures
        blank(value@) ==> (r matches Err(e) && api_err(e, 400, "名称不能为空"@)),
        !blank(value@) ==> (r matches Ok(v) && v@ == trim_seq(value@)),
{
    let v = trim(value);
    if str_byte_len(&v) == 0 {
        return Err(ApiError::bad(owned("名称不能为空")));
    }
    Ok(v)
}

/// An optional text, trimmed, with blank texts dropped.
pub open spec fn empty_to_none_spec(value: Option<String>) -> Option<Seq<char>> {
    match value {
        None => None,
        Some(v) => if blank(v@) {
            None
        } else {
            Some(trim_seq(v@))
        },
    }
}

/// See [`empty_to_none_spec`].
pub fn empty_to_none(value: Option<String>) -> (r: Option<String>)
    ensures
        match r {
            Some(x) => empty_to_none_spec(value) == Some(x@),
            None => empty_to_none_spec(value) is None,
        },
{
    match value {
        None => None,
        Some(v) => {
            let t = trim(v.as_str());
            if str_byte_len(&t) == 0 {
                None
            } else {
                Some(t)
            }
        },
    }
}

/// A certificate as entered: a name and the two PEM texts.
#[derive(Debug)]
pub struct CertInput {
    pub name: String,
    pub cert_pem: String,
    pub key_pem: String,
}

/// A DNS provider as entered.
#[derive(Debug)]
pub struct DnsInput {
    pub name: String,
    pub kind: DnsProviderKind,
    pub access_key: String,
    pub access_secret: String,
}

/// A domain as entered.
#[derive(Debug)]
pub struct DomainInput {
    pub name: String,
    pub mode: CertMode,
    pub cert_id: Option<String>,
    pub challenge: Option<AcmeChallenge>,
    pub dns_provider_id: Option<String>,
}

/// An upstream group as entered.
#[derive(Debug)]
pub struct UpstreamInput {
    pub name: String,
    pub protocol: Option<UpstreamProtocol>,
    pub verify_tls: bool,
    pub sni: Option<String>,
    pub servers: Vec<UpstreamServer>,
}

/// A route as entered.
#[derive(Debug)]
pub struct RouteInput {
    pub id: Option<String>,
    pub pattern: String,
    pub match_type: MatchType,
    pub rewrite_uri: Option<String>,
    pub methods: Vec<String>,
    pub request_headers: Vec<HeaderRewrite>,
    pub response_headers: Vec<HeaderRewrite>,
    pub upstream_id: String,
}

/// A host as entered.
#[derive(Debug)]
pub struct HostInput {
    pub hostname: String,
    pub protocol: String,
    pub https_enabled: bool,
    pub cert_id: Option<String>,
    pub force_https: bool,
    pub default_upstream_id: String,
    pub routes: Vec<RouteInput>,
}

/// A stream as entered.
#[derive(Debug)]
pub struct StreamInput {
    pub name: String,
    pub listen_port: u16,
    pub protocol: StreamProtocol,
    pub target_ip: String,
    pub target_port: u16,
}

/// The protocol a host gets when none is entered.
pub fn default_http() -> (r: String)
    ensures
        r@ == "http"@,
{
    owned("http")
}

/// Why a domain input is refused, if it is: a blank name; a wildcard name
/// (once trimmed, as it is stored) with HTTP validation; manual mode without a certificate; ACME without a
/// challenge, or DNS validation without a provider.
pub open spec fn domain_input_error(input: DomainInput) -> Option<Seq<char>> {
    if blank(input.name@) {
        Some("名称不能为空"@)
    } else if "*."@.is_prefix_of(trim_seq(input.name@)) && input.challenge == Some(AcmeChallenge::Http01) {
        Some("泛域名不支持 HTTP 验证，请使用 DNS 验证"@)
    } else {
        match input.mode {
            CertMode::Manual => if opt_empty(input.cert_id) {
                Some("手动模式需要选择证书"@)
            } else {
                None
            },
            CertMode::Acme => if input.challenge is None {
                Some("自动证书需要选择验证方式"@)
            } else if input.challenge == Some(AcmeChallenge::Dns01) && opt_empty(input.dns_provider_id) {
                Some("DNS 验证需要选择 DNS 提供商"@)
            } else {
                None
            },
        }
    }
}

/// See [`domain_input_error`]; a refusal is a bad request.
pub fn validate_domain_input(input: &DomainInput) -> (r: Result<(), ApiError>)
    ensures
        match domain_input_error(*input) {
            None => r is Ok,
            Some(m) => r matches Err(e) && api_err(e, 400, m),
        },
{
    if let Err(e) = require_name(input.name.as_str()) {
        return Err(e);
    }
    let trimmed = trim(input.name.as_str());
    let nc = chars_of(trimmed.as_str());
    let star = chars_of("*.");
    if crate::text::starts_with(&nc, &star) && input.challenge == Some(AcmeChallenge::Http01) {
        return Err(ApiError::bad(owned("泛域名不支持 HTTP 验证，请使用 DNS 验证")));
    }
    proof {
        reveal_strlit("*.");
    }
    match input.mode {
        CertMode::Manual => {
            if is_opt_empty(&input.cert_id) {
                return Err(ApiError::bad(owned("手动模式需要选择证书")));
            }
        },
        CertMode::Acme => {
            if input.challenge.is_none() {
                return Err(ApiError::bad(owned("自动证书需要选择验证方式")));
            }
            if input.challenge == Some(AcmeChallenge::Dns01) && is_opt_empty(&input.dns_provider_id) {
                return Err(ApiError::bad(owned("DNS 验证需要选择 DNS 提供商")));
            }
        },
    }
    Ok(())
}

/// Why an upstream input is refused, if it is: a blank name, no backends,
/// or a backend with a blank address.
pub open spec fn upstream_input_error(input: UpstreamInput) -> Option<Seq<char>> {
    if blank(input.name@) {
        Some("名称不能为空"@)
    } else if input.servers@.len() == 0 {
        Some("至少添加一个后端地址"@)
    } else if exists|i: int| 0 <= i < input.servers@.len() && blank(#[trigger] input.servers@[i].address@) {
        Some("后端地址不能为空"@)
    } else {
        None
    }
}

/// See [`upstream_input_error`]; a refusal is a bad request.
pub fn validate_upstream(input: &UpstreamInput) -> (r: Result<(), ApiError>)
    ensures
        match upstream_input_error(*input) {
            None => r is Ok,
            Some(m) => r matches Err(e) && api_err(e, 400, m),
        },
{
    if let Err(e) = require_name(input.name.as_str()) {
        return Err(e);
    }
    if input.servers.len() == 0 {
        return Err(ApiError::bad(owned("至少添加一个后端地址")));
    }
    let mut i: usize = 0;
    while i < input.servers.len()
        invariant
            i <= input.servers@.len(),
            !blank(input.name@),
            input.servers@.len() > 0,
            forall|k: int| 0 <= k < i ==> !blank(#[trigger] input.servers@[k].address@),
        decreases input.servers.len() - i,
    {
        if is_blank(input.servers[i].address.as_str()) {
            assert(blank(input.servers@[i as int].address@));
            return Err(ApiError::bad(owned("后端地址不能为空")));
        }
        i = i + 1;
    }
    Ok(())
}

/// A backend as stored: port 0 means no port.
pub open spec fn normalized_server(s: UpstreamServer) -> UpstreamServer {
    UpstreamServer { port: if s.port == Some(0u16) { None } else { s.port }, ..s }
}

/// The protocol an upstream group gets: the one entered, else its first
/// backend's (HTTP when that has none), else HTTP.
pub open spec fn group_protocol(input: Option<UpstreamProtocol>, servers: Seq<UpstreamServer>) -> UpstreamProtocol {
    match input {
        Some(p) => p,
        None => if servers.len() > 0 {
            crate::model::protocol_or_spec(servers[0], UpstreamProtocol::Http)
        } else {
            UpstreamProtocol::Http
        },
    }
}

/// A backend that is dialled over HTTPS with its certificate checked.
pub open spec fn verifies_tls(s: UpstreamServer, protocol: UpstreamProtocol, fallback: bool) -> bool {
    crate::model::protocol_or_spec(s, protocol) == UpstreamProtocol::Https && match s.verify_tls {
        Some(v) => v,
        None => fallback,
    }
}

/// The upstream group an accepted input becomes: backends normalized, the
/// group protocol chosen, certificate checking on when any HTTPS backend
/// checks, and a blank SNI dropped.
pub fn normalize_upstream(id: String, input: UpstreamInput) -> (r: Upstream)
    ensures
        r.id == id,
        r.name == input.name,
        r.servers@ == input.servers@.map_values(|s: UpstreamServer| normalized_server(s)),
        r.protocol == group_protocol(input.protocol, r.servers@),
        r.verify_tls == exists|i: int|
            0 <= i < r.servers@.len() && verifies_tls(#[trigger] r.servers@[i], r.protocol, input.verify_tls),
        match r.sni {
            Some(x) => empty_to_none_spec(input.sni) == Some(x@),
            None => empty_to_none_spec(input.sni) is None,
        },
{
    let ghost orig = input.servers@;
    let mut servers: Vec<UpstreamServer> = Vec::new();
    let mut i: usize = 0;
    while i < input.servers.len()
        invariant
            i <= input.servers@.len(),
            orig == input.servers@,
            servers@ == orig.take(i as int).map_values(|s: UpstreamServer| normalized_server(s)),
        decreases input.servers.len() - i,
    {
        let mut s = input.servers[i].clone();
        if s.port == Some(0u16) {
            s.port = None;
        }
        servers.push(s);
        assert(orig.take(i + 1) == orig.take(i as int).push(orig[i as int]));
        assert(servers@ =~= orig.take(i + 1).map_values(|s: UpstreamServer| normalized_server(s)));
        i = i + 1;
    }
    assert(orig.take(i as int) == orig);
    let protocol = match input.protocol {
        Some(p) => p,
        None => if servers.len() > 0 {
            servers[0].protocol_or(UpstreamProtocol::Http)
        } else {
            UpstreamProtocol::Http
        },
    };
    let mut verify_tls = false;
    let mut k: usize = 0;
    while k < servers.len()
        invariant
            k <= servers@.len(),
            verify_tls == exists|j: int| 0 <= j < k && verifies_tls(#[trigger] servers@[j], protocol, input.verify_tls),
        decreases servers.len() - k,
    {
        let s = &servers[k];
        let hit = s.protocol_or(protocol) == UpstreamProtocol::Https && s.verify_tls_or(input.verify_tls);
        assert(hit == verifies_tls(servers@[k as int], protocol, input.verify_tls));
        if hit {
            verify_tls = true;
        }
        k = k + 1;
    }
    Upstream { id, name: input.name, protocol, verify_tls, sni: empty_to_none(input.sni), servers }
}

/// What `regex::Regex::new` reports for a pattern: the text of its error,
/// or `None` when the pattern compiles.
pub uninterp spec fn regex_error_of(pattern: Seq<char>) -> Option<Seq<char>>;

/// `regex::Regex::new(pattern)`: whether it compiles, and else the error's
/// text; named `regex_error_of`.
#[verifier::external_body]
fn regex_error(pattern: &str) -> (r: Option<String>)
    ensures
        match r {
            Some(t) => regex_error_of(pattern@) == Some(t@),
            None => regex_error_of(pattern@) is None,
        },
{
    match regex::Regex::new(pattern) {
        Ok(_) => None,
        Err(e) => Some(e.to_string()),
    }
}

/// Whether an upstream group with id `id` exists.
pub open spec fn has_upstream(data: ConfigData, id: Seq<char>) -> bool {
    lookup_by_id(data.upstreams@, upstream_ids(data.upstreams@), id) is Some
}

/// Why a route is refused, if it is: a blank pattern, a blank or unknown
/// target group, or a regex that does not compile.
pub open spec fn route_input_error(r: RouteInput, data: ConfigData) -> Option<Seq<char>> {
    if blank(r.pattern@) {
        Some("路由匹配内容不能为空"@)
    } else if blank(r.upstream_id@) || !has_upstream(data, r.upstream_id@) {
        Some("路由目标服务组无效"@)
    } else if r.match_type == MatchType::Regex && regex_error_of(r.pattern@) is Some {
        Some("正则无效: "@ + regex_error_of(r.pattern@).unwrap())
    } else {
        None
    }
}

/// The first refusal among routes, in order.
pub open spec fn routes_error(rs: Seq<RouteInput>, data: ConfigData) -> Option<Seq<char>>
    decreases rs.len(),
{
    if rs.len() == 0 {
        None
    } else {
        match routes_error(rs.drop_last(), data) {
            Some(m) => Some(m),
            None => route_input_error(rs.last(), data),
        }
    }
}

/// Why a host input is refused, if it is: a blank name, a blank or unknown
/// default group, HTTPS without a certificate (a missing or blank id), or a
/// refused route.
pub open spec fn host_input_error(input: HostInput, data: ConfigData) -> Option<Seq<char>> {
    if blank(input.hostname@) {
        Some("名称不能为空"@)
    } else if blank(input.default_upstream_id@) {
        Some("请选择默认后端服务组"@)
    } else if !has_upstream(data, input.default_upstream_id@) {
        Some("默认后端服务组不存在"@)
    } else if input.https_enabled && opt_blank(input.cert_id) {
        Some("开启 HTTPS 时需要选择证书"@)
    } else {
        routes_error(input.routes@, data)
    }
}

fn validate_route(r: &RouteInput, data: &ConfigData) -> (res: Result<(), ApiError>)
    ensures
        match route_input_error(*r, *data) {
            None => res is Ok,
            Some(m) => res matches Err(e) && api_err(e, 400, m),
        },
{
    if is_blank(r.pattern.as_str()) {
        return Err(ApiError::bad(owned("路由匹配内容不能为空")));
    }
    if is_blank(r.upstream_id.as_str()) || data.upstream(r.upstream_id.as_str()).is_none() {
        return Err(ApiError::bad(owned("路由目标服务组无效")));
    }
    if r.match_type == MatchType::Regex {
        if let Some(t) = regex_error(r.pattern.as_str()) {
            let mut m = owned("正则无效: ");
            push_str(&mut m, t.as_str());
            return Err(ApiError::bad(m));
        }
    }
    Ok(())
}

/// See [`host_input_error`]; a refusal is a bad request.
pub fn validate_host(input: &HostInput, data: &ConfigData) -> (r: Result<(), ApiError>)
    ensures
        match host_input_error(*input, *data) {
            None => r is Ok,
            Some(m) => r matches Err(e) && api_err(e, 400, m),
        },
{
    if let Err(e) = require_name(input.hostname.as_str()) {
        return Err(e);
    }
    if is_blank(input.default_upstream_id.as_str()) {
        return Err(ApiError::bad(owned("请选择默认后端服务组")));
    }
    if data.upstream(input.default_upstream_id.as_str()).is_none() {
        return Err(ApiError::bad(owned("默认后端服务组不存在")));
    }
    if input.https_enabled && is_opt_blank(&input.cert_id) {
        return Err(ApiError::bad(owned("开启 HTTPS 时需要选择证书")));
    }
    let mut i: usize = 0;
    while i < input.routes.len()
        invariant
            i <= input.routes@.len(),
            !blank(input.hostname@),
            !blank(input.default_upstream_id@),
            has_upstream(*data, input.default_upstream_id@),
            !(input.https_enabled && opt_blank(input.cert_id)),
            routes_error(input.routes@.take(i as int), *data) is None,
        decreases input.routes.len() - i,
    {
        assert(input.routes@.take(i + 1).drop_last() == input.routes@.take(i as int));
        assert(input.routes@.take(i + 1).last() == input.routes@[i as int]);
        let res = validate_route(&input.routes[i], data);
        if res.is_err() {
            assert(route_input_error(input.routes@[i as int], *data) is Some);
            proof {
                lemma_routes_error_prefix(input.routes@, *data, i + 1);
            }
            return res;
        }
        i = i + 1;
    }
    assert(input.routes@.take(i as int) == input.routes@);
    Ok(())
}

proof fn lemma_routes_error_prefix(rs: Seq<RouteInput>, data: ConfigData, n: int)
    requires
        0 < n <= rs.len(),
        routes_error(rs.take(n - 1), data) is None,
        route_input_error(rs[n - 1], data) is Some,
    ensures
        routes_error(rs, data) == route_input_error(rs[n - 1], data),
    decreases rs.len(),
{
    if rs.len() == n {
        assert(rs.drop_last() == rs.take(n - 1));
    } else {
        let d = rs.drop_last();
        assert(d.take(n - 1) == rs.take(n - 1));
        assert(d[n - 1] == rs[n - 1]);
        lemma_routes_error_prefix(d, data, n);
    }
}

/// The route an accepted route input becomes: its id when one is given
/// (a fresh id otherwise), and a blank rewrite dropped.
pub open spec fn route_from_input(r: RouteInput, made: Route) -> bool {
    &&& match r.id {
        Some(i) if i@.len() > 0 => made.id == i,
        _ => made.id@.len() == 36,
    }
    &&& made.pattern == r.pattern
    &&& made.match_type == r.match_type
    &&& match made.rewrite_uri {
        Some(x) => empty_to_none_spec(r.rewrite_uri) == Some(x@),
        None => empty_to_none_spec(r.rewrite_uri) is None,
    }
    &&& made.methods == r.methods
    &&& made.request_headers == r.request_headers
    &&& made.response_headers == r.response_headers
    &&& made.upstream_id == r.upstream_id
}

/// See [`route_from_input`], for each route in order.
pub fn into_routes(routes: Vec<RouteInput>) -> (r: Vec<Route>)
    ensures
        r@.len() == routes@.len(),
        forall|i: int| 0 <= i < r@.len() ==> route_from_input(#[trigger] routes@[i], r@[i]),
{
    let ghost orig = routes@;
    let mut out: Vec<Route> = Vec::new();
    let mut rest = routes;
    assert(orig.skip(0) =~= orig);
    while rest.len() > 0
        invariant
            out@.len() + rest@.len() == orig.len(),
            rest@ == orig.skip(out@.len() as int),
            forall|i: int| 0 <= i < out@.len() ==> route_from_input(#[trigger] orig[i], out@[i]),
        decreases rest.len(),
    {
        let ghost n: int = out@.len() as int;
        let r = rest.remove(0);
        assert(r == orig[n as int]);
        let id = match r.id {
            Some(i) => if str_byte_len(&i) > 0 {
                i
            } else {
                new_id()
            },
            None => new_id(),
        };
        let route = Route {
            id,
            pattern: r.pattern,
            match_type: r.match_type,
            rewrite_uri: empty_to_none(r.rewrite_uri),
            methods: r.methods,
            request_headers: r.request_headers,
            response_headers: r.response_headers,
            upstream_id: r.upstream_id,
        };
        let ghost before = out@;
        out.push(route);
        assert(rest@ =~= orig.skip(n + 1int));
        assert forall|i: int| 0 <= i < out@.len() implies route_from_input(#[trigger] orig[i], out@[i]) by {
            if i < before.len() {
                assert(out@[i] == before[i]);
            }
        }
    }
    out
}

/// Why a stream input is refused, if it is: a blank name, a zero port, or
/// a blank target address.
pub open spec fn stream_input_error(input: StreamInput) -> Option<Seq<char>> {
    if blank(input.name@) {
        Some("名称不能为空"@)
    } else if input.listen_port == 0 || input.target_port == 0 {
        Some("端口无效"@)
    } else if blank(input.target_ip@) {
        Some("目标 IP 不能为空"@)
    } else {
        None
    }
}

/// See [`stream_input_error`]; a refusal is a bad request.
pub fn validate_stream(input: &StreamInput) -> (r: Result<(), ApiError>)
    ensures
        match stream_input_error(*input) {
            None => r is Ok,
            Some(m) => r matches Err(e) && api_err(e, 400, m),
        },
{
    if let Err(e) = require_name(input.name.as_str()) {
        return Err(e);
    }
    if input.listen_port == 0 || input.target_port == 0 {
        return Err(ApiError::bad(owned("端口无效")));
    }
    if is_blank(input.target_ip.as_str()) {
        return Err(ApiError::bad(owned("目标 IP 不能为空")));
    }
    Ok(())
}


/// Whether a certificate input's PEM texts pass, and what then becomes
/// the expiry; a refusal carries the text of the certificate error.
pub open spec fn pem_ok(input: CertInput) -> bool {
    crate::cert::looks_like_pem_spec("CERTIFICATE"@, input.cert_pem@) && (
    crate::cert::looks_like_pem_spec("PRIVATE KEY"@, input.key_pem@)
        || crate::cert::looks_like_pem_spec("RSA PRIVATE KEY"@, input.key_pem@))
}

/// Why a certificate input's PEM texts are refused, if they are.
pub open spec fn pem_input_error(input: CertInput) -> Option<Seq<char>> {
    if !crate::cert::looks_like_pem_spec("CERTIFICATE"@, input.cert_pem@) {
        Some("公钥必须是 PEM 证书"@)
    } else if !pem_ok(input) {
        Some("私钥必须是 PEM 格式"@)
    } else {
        None
    }
}

/// The expiry a stored certificate gets from its PEM text.
pub open spec fn expiry_matches(not_after: Option<String>, cert_pem: Seq<char>) -> bool {
    match not_after_spec(cert_pem) {
        Ok(t) => not_after matches Some(x) && x@ == t,
        Err(_) => not_after is None,
    }
}

/// A new certificate from an input: the PEM texts are checked first
/// (a refusal is a bad request with the error's text), then the name; the
/// record gets a fresh id and its expiry from the certificate.
pub fn new_certificate(input: CertInput) -> (r: Result<Certificate, ApiError>)
    ensures
        !pem_ok(input) ==> (r matches Err(e) && api_err(e, 400, pem_input_error(input).unwrap())),
        pem_ok(input) && blank(input.name@) ==> (r matches Err(e) && api_err(e, 400, "名称不能为空"@)),
        pem_ok(input) && !blank(input.name@) ==> (r matches Ok(c) && c.id@.len() == 36 && c.name@
            == trim_seq(input.name@) && c.cert_pem == input.cert_pem && c.key_pem == input.key_pem
            && expiry_matches(c.not_after, input.cert_pem@) && !c.auto_issued),
{
    let not_after = match validate_manual_pem(input.cert_pem.as_str(), input.key_pem.as_str()) {
        Ok(n) => n,
        Err(e) => {
            return Err(ApiError::bad(e.text()));
        },
    };
    let name = match require_name(input.name.as_str()) {
        Ok(n) => n,
        Err(e) => {
            return Err(e);
        },
    };
    Ok(Certificate {
        id: new_id(),
        name,
        cert_pem: input.cert_pem,
        key_pem: input.key_pem,
        not_after,
        auto_issued: false,
        created_at: now_rfc3339(),
    })
}

/// A changed certificate: it must exist (else 404), then the PEM texts and
/// the name are checked as for a new one; the id, the issuing flag and the
/// creation time are kept.
pub fn updated_certificate(data: &ConfigData, id: String, input: CertInput) -> (r: Result<Certificate, ApiError>)
    ensures
        match lookup_by_id(data.certificates@, cert_ids(data.certificates@), id@) {
            None => r matches Err(e) && api_err(e, 404, "证书不存在"@),
            Some(old) => {
                &&& !pem_ok(input) ==> (r matches Err(e) && api_err(e, 400, pem_input_error(input).unwrap()))
                &&& pem_ok(input) && blank(input.name@) ==> (r matches Err(e) && api_err(
                    e,
                    400,
                    "名称不能为空"@,
                ))
                &&& pem_ok(input) && !blank(input.name@) ==> (r matches Ok(c) && c.id == id && c.name@
                    == trim_seq(input.name@) && c.cert_pem == input.cert_pem && c.key_pem
                    == input.key_pem && expiry_matches(c.not_after, input.cert_pem@) && c.auto_issued
                    == old.auto_issued && c.created_at == old.created_at)
            },
        },
{
    let existing = match data.cert(id.as_str()) {
        Some(c) => c.clone(),
        None => {
            return Err(ApiError::not_found(owned("证书不存在")));
        },
    };
    let not_after = match validate_manual_pem(input.cert_pem.as_str(), input.key_pem.as_str()) {
        Ok(n) => n,
        Err(e) => {
            return Err(ApiError::bad(e.text()));
        },
    };
    let name = match require_name(input.name.as_str()) {
        Ok(n) => n,
        Err(e) => {
            return Err(e);
        },
    };
    Ok(Certificate {
        id,
        name,
        cert_pem: input.cert_pem,
        key_pem: input.key_pem,
        not_after,
        auto_issued: existing.auto_issued,
        created_at: existing.created_at,
    })
}

/// The provider an input makes under id `id`: its texts trimmed.
pub open spec fn dns_built(p: DnsProvider, id: String, input: DnsInput) -> bool {
    &&& p.id == id
    &&& p.name@ == trim_seq(input.name@)
    &&& p.kind == input.kind
    &&& p.access_key@ == trim_seq(input.access_key@)
    &&& p.access_secret@ == trim_seq(input.access_secret@)
}

/// A DNS provider from an input with a given id: the name, key and secret
/// must each be non-blank (checked in that order) and are kept trimmed.
pub fn dns_provider_with_id(id: String, input: DnsInput) -> (r: Result<DnsProvider, ApiError>)
    ensures
        blank(input.name@) || blank(input.access_key@) || blank(input.access_secret@) ==> (r matches Err(e)
            && api_err(e, 400, "名称不能为空"@)),
        !blank(input.name@) && !blank(input.access_key@) && !blank(input.access_secret@) ==> (r matches Ok(
            p,
        ) && dns_built(p, id, input)),
{
    let name = match require_name(input.name.as_str()) {
        Ok(n) => n,
        Err(e) => {
            return Err(e);
        },
    };
    let access_key = match require_name(input.access_key.as_str()) {
        Ok(n) => n,
        Err(e) => {
            return Err(e);
        },
    };
    let access_secret = match require_name(input.access_secret.as_str()) {
        Ok(n) => n,
        Err(e) => {
            return Err(e);
        },
    };
    Ok(DnsProvider { id, name, kind: input.kind, access_key, access_secret })
}

/// A changed DNS provider: it must exist (else 404), then as for a new one.
pub fn updated_dns_provider(data: &ConfigData, id: String, input: DnsInput) -> (r: Result<DnsProvider, ApiError>)
    ensures
        lookup_by_id(data.dns_providers@, dns_ids(data.dns_providers@), id@) is None ==> (r matches Err(e)
            && api_err(e, 404, "DNS 提供商不存在"@)),
        lookup_by_id(data.dns_providers@, dns_ids(data.dns_providers@), id@) is Some ==> (blank(input.name@)
            || blank(input.access_key@) || blank(input.access_secret@) ==> (r matches Err(e) && api_err(
            e,
            400,
            "名称不能为空"@,
        ))),
        lookup_by_id(data.dns_providers@, dns_ids(data.dns_providers@), id@) is Some ==> (!blank(input.name@)
            && !blank(input.access_key@) && !blank(input.access_secret@) ==> (r matches Ok(p) && dns_built(
            p,
            id,
            input,
        ))),
{
    if data.dns_provider(id.as_str()).is_none() {
        return Err(ApiError::not_found(owned("DNS 提供商不存在")));
    }
    dns_provider_with_id(id, input)
}

/// A domain name as stored: trimmed and in lower case.
pub open spec fn domain_name_of(name: Seq<char>) -> Seq<char> {
    lower_seq(trim_seq(name))
}

/// The expiry of the certificate `cert_id` names, when it exists and has
/// one.
pub open spec fn cert_expiry(data: ConfigData, cert_id: Option<String>) -> Option<String> {
    match cert_id {
        None => None,
        Some(cid) => match lookup_by_id(data.certificates@, cert_ids(data.certificates@), cid@) {
            Some(c) => c.not_after,
            None => None,
        },
    }
}

fn lookup_expiry(data: &ConfigData, cert_id: &Option<String>) -> (r: Option<String>)
    ensures
        r == cert_expiry(*data, *cert_id),
{
    match cert_id {
        None => None,
        Some(cid) => match data.cert(cid.as_str()) {
            Some(c) => clone_opt(&c.not_after),
            None => None,
        },
    }
}

/// A new domain from an input: refused as [`domain_input_error`] says; its
/// name is trimmed and lower-cased, its status is `pending` under ACME and
/// `manual` otherwise, and a manual domain takes its certificate's expiry.
/// An ACME domain is then to be issued.
pub fn new_domain(data: &ConfigData, input: DomainInput) -> (r: Result<Domain, ApiError>)
    ensures
        match domain_input_error(input) {
            Some(m) => r matches Err(e) && api_err(e, 400, m),
            None => r matches Ok(d) && d.id@.len() == 36 && d.name@ == domain_name_of(input.name@) && d.mode
                == input.mode && d.cert_id == input.cert_id && d.challenge == input.challenge
                && d.dns_provider_id == input.dns_provider_id && d.status@ == (if input.mode
                == CertMode::Acme {
                "pending"@
            } else {
                "manual"@
            }) && d.last_error is None && d.expires_at == (if input.mode == CertMode::Manual {
                cert_expiry(*data, input.cert_id)
            } else {
                None
            }),
        },
{
    if let Err(e) = validate_domain_input(&input) {
        return Err(e);
    }
    let trimmed = trim(input.name.as_str());
    let name = to_lower(trimmed.as_str());
    let acme = input.mode == CertMode::Acme;
    let expires_at = if acme {
        None
    } else {
        lookup_expiry(data, &input.cert_id)
    };
    Ok(Domain {
        id: new_id(),
        name,
        mode: input.mode,
        cert_id: input.cert_id,
        challenge: input.challenge,
        dns_provider_id: input.dns_provider_id,
        status: if acme {
            owned("pending")
        } else {
            owned("manual")
        },
        last_error: None,
        expires_at,
        created_at: now_rfc3339(),
    })
}

/// A changed domain: the input is checked first, then the domain must
/// exist (else 404). Name, mode, certificate, challenge and provider are
/// replaced; a manual domain gets status `manual` and its certificate's
/// expiry, an ACME domain keeps its status and expiry.
pub fn updated_domain(data: &ConfigData, id: &str, input: DomainInput) -> (r: Result<Domain, ApiError>)
    ensures
        match domain_input_error(input) {
            Some(m) => r matches Err(e) && api_err(e, 400, m),
            None => match lookup_by_id(data.domains@, domain_ids(data.domains@), id@) {
                None => r matches Err(e) && api_err(e, 404, "域名不存在"@),
                Some(old) => r matches Ok(d) && d.name@ == domain_name_of(input.name@) && d == (Domain {
                    name: d.name,
                    mode: input.mode,
                    cert_id: input.cert_id,
                    challenge: input.challenge,
                    dns_provider_id: input.dns_provider_id,
                    status: d.status,
                    expires_at: d.expires_at,
                    ..old
                }) && if input.mode == CertMode::Manual {
                    d.status@ == "manual"@ && d.expires_at == cert_expiry(*data, input.cert_id)
                } else {
                    d.status == old.status && d.expires_at == old.expires_at
                },
            },
        },
{
    if let Err(e) = validate_domain_input(&input) {
        return Err(e);
    }
    let existing = match data.domain(id) {
        Some(d) => d.clone(),
        None => {
            return Err(ApiError::not_found(owned("域名不存在")));
        },
    };
    let mut item = existing;
    let trimmed = trim(input.name.as_str());
    item.name = to_lower(trimmed.as_str());
    item.mode = input.mode;
    item.challenge = input.challenge;
    item.dns_provider_id = input.dns_provider_id;
    if input.mode == CertMode::Manual {
        item.status = owned("manual");
        item.expires_at = lookup_expiry(data, &input.cert_id);
    }
    item.cert_id = input.cert_id;
    Ok(item)
}

/// A renewal may be asked for an existing domain (else 404) that uses
/// ACME (else a bad request).
pub fn renew_check(data: &ConfigData, id: &str) -> (r: Result<(), ApiError>)
    ensures
        match lookup_by_id(data.domains@, domain_ids(data.domains@), id@) {
            None => r matches Err(e) && api_err(e, 404, "域名不存在"@),
            Some(d) => if d.mode == CertMode::Acme {
                r is Ok
            } else {
                r matches Err(e) && api_err(e, 400, "仅自动证书支持续签"@)
            },
        },
{
    match data.domain(id) {
        None => Err(ApiError::not_found(owned("域名不存在"))),
        Some(d) => if d.mode == CertMode::Acme {
            Ok(())
        } else {
            Err(ApiError::bad(owned("仅自动证书支持续签")))
        },
    }
}

/// The group an input makes under id `id`; see [`normalize_upstream`].
pub open spec fn upstream_built(u: Upstream, id: String, input: UpstreamInput) -> bool {
    &&& u.id == id
    &&& u.name == input.name
    &&& u.servers@ == input.servers@.map_values(|s: UpstreamServer| normalized_server(s))
    &&& u.protocol == group_protocol(input.protocol, u.servers@)
    &&& u.verify_tls == exists|i: int|
        0 <= i < u.servers@.len() && verifies_tls(#[trigger] u.servers@[i], u.protocol, input.verify_tls)
    &&& match u.sni {
        Some(x) => empty_to_none_spec(input.sni) == Some(x@),
        None => empty_to_none_spec(input.sni) is None,
    }
}

/// An upstream group from an input: checked as [`upstream_input_error`]
/// says, then normalized.
pub fn upstream_with_id(id: String, input: UpstreamInput) -> (r: Result<Upstream, ApiError>)
    ensures
        match upstream_input_error(input) {
            Some(m) => r matches Err(e) && api_err(e, 400, m),
            None => r matches Ok(u) && upstream_built(u, id, input),
        },
{
    if let Err(e) = validate_upstream(&input) {
        return Err(e);
    }
    Ok(normalize_upstream(id, input))
}

/// A changed upstream group: it must exist (else 404), then as for a new
/// one.
pub fn updated_upstream(data: &ConfigData, id: String, input: UpstreamInput) -> (r: Result<Upstream, ApiError>)
    ensures
        lookup_by_id(data.upstreams@, upstream_ids(data.upstreams@), id@) is None ==> (r matches Err(e)
            && api_err(e, 404, "服务组不存在"@)),
        lookup_by_id(data.upstreams@, upstream_ids(data.upstreams@), id@) is Some ==> match upstream_input_error(
            input,
        ) {
            Some(m) => r matches Err(e) && api_err(e, 400, m),
            None => r matches Ok(u) && upstream_built(u, id, input),
        },
{
    if data.upstream(id.as_str()).is_none() {
        return Err(ApiError::not_found(owned("服务组不存在")));
    }
    upstream_with_id(id, input)
}

/// The host an input makes under id `id`.
pub open spec fn host_built(h: Host, id: String, input: HostInput) -> bool {
    &&& h.id == id
    &&& h.hostname@ == domain_name_of(input.hostname@)
    &&& h.protocol == input.protocol
    &&& h.https_enabled == input.https_enabled
    &&& h.force_https == input.force_https
    &&& h.default_upstream_id == input.default_upstream_id
    &&& match h.cert_id {
        Some(x) => empty_to_none_spec(input.cert_id) == Some(x@),
        None => empty_to_none_spec(input.cert_id) is None,
    }
    &&& h.routes@.len() == input.routes@.len()
    &&& forall|i: int| 0 <= i < h.routes@.len() ==> route_from_input(#[trigger] input.routes@[i], h.routes@[i])
}

/// A host from an input: checked as [`host_input_error`] says; its name is
/// trimmed and lower-cased, a blank certificate id dropped, and its routes
/// made as [`into_routes`] makes them.
pub fn host_with_id(data: &ConfigData, id: String, input: HostInput) -> (r: Result<Host, ApiError>)
    ensures
        match host_input_error(input, *data) {
            Some(m) => r matches Err(e) && api_err(e, 400, m),
            None => r matches Ok(h) && host_built(h, id, input),
        },
{
    if let Err(e) = validate_host(&input, data) {
        return Err(e);
    }
    let trimmed = trim(input.hostname.as_str());
    Ok(Host {
        id,
        hostname: to_lower(trimmed.as_str()),
        protocol: input.protocol,
        https_enabled: input.https_enabled,
        cert_id: empty_to_none(input.cert_id),
        force_https: input.force_https,
        default_upstream_id: input.default_upstream_id,
        routes: into_routes(input.routes),
    })
}

/// A changed host: it must exist (else 404), then as for a new one.
pub fn updated_host(data: &ConfigData, id: String, input: HostInput) -> (r: Result<Host, ApiError>)
    ensures
        lookup_by_id(data.hosts@, host_ids(data.hosts@), id@) is None ==> (r matches Err(e) && api_err(
            e,
            404,
            "主机不存在"@,
        )),
        lookup_by_id(data.hosts@, host_ids(data.hosts@), id@) is Some ==> match host_input_error(input, *data) {
            Some(m) => r matches Err(e) && api_err(e, 400, m),
            None => r matches Ok(h) && host_built(h, id, input),
        },
{
    if data.host(id.as_str()).is_none() {
        return Err(ApiError::not_found(owned("主机不存在")));
    }
    host_with_id(data, id, input)
}

/// The stream an input makes under id `id`: the target address trimmed.
pub open spec fn stream_built(s: StreamConfig, id: String, input: StreamInput) -> bool {
    &&& s.id == id
    &&& s.name == input.name
    &&& s.listen_port == input.listen_port
    &&& s.protocol == input.protocol
    &&& s.target_ip@ == trim_seq(input.target_ip@)
    &&& s.target_port == input.target_port
}

/// A stream from an input: checked as [`stream_input_error`] says; the
/// target address is kept trimmed.
pub fn stream_with_id(id: String, input: StreamInput) -> (r: Result<StreamConfig, ApiError>)
    ensures
        match stream_input_error(input) {
            Some(m) => r matches Err(e) && api_err(e, 400, m),
            None => r matches Ok(s) && stream_built(s, id, input),
        },
{
    if let Err(e) = validate_stream(&input) {
        return Err(e);
    }
    Ok(StreamConfig {
        id,
        name: input.name,
        listen_port: input.listen_port,
        protocol: input.protocol,
        target_ip: trim(input.target_ip.as_str()),
        target_port: input.target_port,
    })
}

/// A changed stream: it must exist (else 404), then as for a new one.
pub fn updated_stream(data: &ConfigData, id: String, input: StreamInput) -> (r: Result<StreamConfig, ApiError>)
    ensures
        lookup_by_id(data.streams@, stream_ids(data.streams@), id@) is None ==> (r matches Err(e)
            && api_err(e, 404, "数据流不存在"@)),
        lookup_by_id(data.streams@, stream_ids(data.streams@), id@) is Some ==> match stream_input_error(
            input,
        ) {
            Some(m) => r matches Err(e) && api_err(e, 400, m),
            None => r matches Ok(s) && stream_built(s, id, input),
        },
{
    if data.stream(id.as_str()).is_none() {
        return Err(ApiError::not_found(owned("数据流不存在")));
    }
    stream_with_id(id, input)
}
} // verus!
