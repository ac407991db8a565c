//! The decisions the HTTP proxy takes for a request: answering ACME
//! challenges, finding the host, redirecting to HTTPS, choosing the route
//! and the backend, and the request and response header rewrites.
use vstd::prelude::*;

use crate::model::{
    effective_port_spec, lookup_by_id, protocol_or_spec, upstream_ids, ConfigData, HeaderRewrite, Host,
    Route, Upstream, UpstreamProtocol,
};
use crate::router::{
    backend_socket, best_host, find_host, first_route, host_names_fit, host_part, match_path_spec,
    match_route, pick_backend_with, random_below, resolve_sni, rewrite_spec, socket_spec, strip_host_port,
    ticket_owner, tickets_fit, total_tickets, total_weight,
};
use crate::template::{
    bind_headers, expand_headers, expanded_headers, header_views, request_header_vars,
    response_header_vars,
};
use crate::text::{chars_of, owned, push_str, starts_with, str_byte_len, str_eq, string_from_range, views};

verus! {

/// The token of an ACME HTTP-01 challenge path.
pub open spec fn acme_token_spec(path: Seq<char>) -> Option<Seq<char>> {
    if "/.well-known/acme-challenge/"@.is_prefix_of(path) {
        Some(path.skip(28))
    } else {
        None
    }
}

/// See [`acme_token_spec`].
pub fn acme_token(path: &str) -> (r: Option<String>)
    ensures
        match r {
            Some(t) => acme_token_spec(path@) == Some(t@),
            None => acme_token_spec(path@) is None,
        },
{
    let pc = chars_of(path);
    let prefix = chars_of("/.well-known/acme-challenge/");
    proof {
        reveal_strlit("/.well-known/acme-challenge/");
    }
    if starts_with(&pc, &prefix) {
        Some(string_from_range(&pc, 28, pc.len()))
    } else {
        None
    }
}

/// The host a request is for: its non-empty `Host` header, else the
/// non-empty host of its URI, else nothing.
pub open spec fn request_host_spec(header: Option<Seq<char>>, uri_host: Option<Seq<char>>) -> Seq<char> {
    match header {
        Some(h) if h.len() > 0 => h,
        _ => match uri_host {
            Some(u) if u.len() > 0 => u,
            _ => Seq::empty(),
        },
    }
}

/// See [`request_host_spec`].
pub fn request_host(header: Option<&str>, uri_host: Option<&str>) -> (r: String)
    ensures
        r@ == request_host_spec(
            match header {
                Some(h) => Some(h@),
                None => None,
            },
            match uri_host {
                Some(u) => Some(u@),
                None => None,
            },
        ),
{
    if let Some(h) = header {
        if h.as_bytes().len() > 0 {
            return owned(h);
        }
    }
    if let Some(u) = uri_host {
        if u.as_bytes().len() > 0 {
            return owned(u);
        }
    }
    String::new()
}

/// Every host's names have scores that fit (a machine limit).
pub open spec fn hosts_fit(data: ConfigData) -> bool {
    forall|i: int| 0 <= i < data.hosts@.len() ==> host_names_fit(#[trigger] data.hosts@[i])
}

/// What happens to a request before a route is chosen.
#[derive(Debug)]
pub enum Front {
    /// Answer with this status and plain-text body.
    Respond(u16, String),
    /// Redirect (301) to this address.
    Redirect(String),
    /// Go on with this host.
    Route(Host),
}

/// The answer before routing: a pending ACME challenge answers its token;
/// a request for no host is refused (400 without a host name, 404 for an
/// unknown one); a host that forces HTTPS redirects a plain request;
/// otherwise the chosen host goes on.
pub fn front_decision(
    data: &ConfigData,
    challenge_body: Option<String>,
    host_header: &str,
    tls: bool,
    uri: &str,
) -> (r: Front)
    requires
        hosts_fit(*data),
    ensures
        challenge_body matches Some(b) ==> r == Front::Respond(200, b),
        challenge_body is None ==> match best_host(data.hosts@, host_part(host_header@)) {
            None => if host_header@.len() == 0 {
                r matches Front::Respond(s, m) && s == 400 && m@ == "missing Host header"@
            } else {
                r matches Front::Respond(s, m) && s == 404 && m@ == "no host matched"@
            },
            Some(i) => if data.hosts@[i].force_https && !tls {
                r matches Front::Redirect(l) && l@ == "https://"@ + host_part(host_header@) + uri@
            } else {
                r matches Front::Route(h) && h@ == data.hosts@[i]@
            },
        },
{
    if let Some(b) = challenge_body {
        return Front::Respond(200, b);
    }
    let host = match find_host(data, host_header) {
        Some(h) => h,
        None => {
            if host_header.as_bytes().len() == 0 {
                return Front::Respond(400, owned("missing Host header"));
            }
            return Front::Respond(404, owned("no host matched"));
        },
    };
    if host.force_https && !tls {
        let mut location = owned("https://");
        push_str(&mut location, strip_host_port(host_header));
        push_str(&mut location, uri);
        return Front::Redirect(location);
    }
    Front::Route(host.clone())
}

/// The upstream a request goes to within a host: the first applying
/// route's, else the host's default.
pub open spec fn selected_upstream(host: Host, method: Seq<char>, path: Seq<char>) -> Seq<char> {
    match first_route(host.routes@, method, path) {
        Some(i) => host.routes@[i].upstream_id@,
        None => host.default_upstream_id@,
    }
}

/// The URI sent upstream: rewritten by the applying route, else unchanged.
pub open spec fn selected_uri(host: Host, method: Seq<char>, path: Seq<char>) -> Seq<char> {
    match first_route(host.routes@, method, path) {
        Some(i) => rewrite_spec(path, host.routes@[i], match_path_spec(host.routes@[i], path)->0),
        None => path,
    }
}

/// The request header rewrites of the applying route (none without one).
pub open spec fn selected_request_headers(host: Host, method: Seq<char>, path: Seq<char>) -> Seq<HeaderRewrite> {
    match first_route(host.routes@, method, path) {
        Some(i) => host.routes@[i].request_headers@,
        None => Seq::empty(),
    }
}

/// The response header rewrites of the applying route (none without one).
pub open spec fn selected_response_headers(host: Host, method: Seq<char>, path: Seq<char>) -> Seq<HeaderRewrite> {
    match first_route(host.routes@, method, path) {
        Some(i) => host.routes@[i].response_headers@,
        None => Seq::empty(),
    }
}

/// The captures of the applying route (none without one).
pub open spec fn selected_captures(host: Host, method: Seq<char>, path: Seq<char>) -> Seq<Seq<char>> {
    match first_route(host.routes@, method, path) {
        Some(i) => match_path_spec(host.routes@[i], path)->0,
        None => Seq::empty(),
    }
}

/// The variables request header templates see.
pub open spec fn request_vars(host_header: Seq<char>, method: Seq<char>, uri: Seq<char>, headers: Seq<(String, String)>) -> Map<Seq<char>, Seq<char>> {
    bind_headers(
        Map::<Seq<char>, Seq<char>>::empty().insert("host"@, host_part(host_header)).insert(
            "request_method"@,
            method,
        ).insert("uri"@, uri).insert("request_uri"@, uri),
        headers,
        "http_"@,
    )
}

/// Every upstream group's tickets fit in `u32` (a machine limit).
pub open spec fn upstreams_fit(data: ConfigData) -> bool {
    forall|i: int| 0 <= i < data.upstreams@.len() ==> tickets_fit(#[trigger] data.upstreams@[i].servers@)
}

/// Where and how a request is proxied.
#[derive(Debug)]
pub struct ProxyPlan {
    /// The backend's socket address text.
    pub socket: String,
    /// Whether the backend is reached over TLS.
    pub tls: bool,
    /// The server name sent in TLS (empty without TLS).
    pub sni: String,
    /// Whether the backend's certificate is checked.
    pub verify: bool,
    /// The URI to send instead of the request's, when it changes.
    pub rewrite: Option<String>,
    /// Request header rewrites, with their templates expanded.
    pub request_headers: Vec<HeaderRewrite>,
    /// Response header rewrites, expanded when the answer comes.
    pub response_headers: Vec<HeaderRewrite>,
}

/// What happens to a routed request.
#[derive(Debug)]
pub enum Routed {
    /// Answer with this status and plain-text body.
    Respond(u16, String),
    /// Send it on as planned.
    Proxy(ProxyPlan),
}

/// The plan a routed request follows with backend ticket `ticket` drawn.
pub open spec fn plan_ok(
    data: ConfigData,
    host: Host,
    host_header: Seq<char>,
    method: Seq<char>,
    uri: Seq<char>,
    headers: Seq<(String, String)>,
    ticket: nat,
    r: Routed,
) -> bool {
    match lookup_by_id(data.upstreams@, upstream_ids(data.upstreams@), selected_upstream(host, method, uri)) {
        None => r matches Routed::Respond(s, m) && s == 502 && m@ == "upstream not found"@,
        Some(up) => if up.servers@.len() == 0 {
            r matches Routed::Respond(s, m) && s == 502 && m@ == "no upstream server"@
        } else {
            let s = up.servers@[ticket_owner(up.servers@, ticket)];
            let tls = protocol_or_spec(s, up.protocol) == UpstreamProtocol::Https;
            let sel_uri = selected_uri(host, method, uri);
            let req = selected_request_headers(host, method, uri);
            r matches Routed::Proxy(p) && p.socket@ == socket_spec(s.address@, effective_port_spec(s, up.protocol))
                && p.tls == tls && p.sni@ == (if tls {
                match up.sni {
                    Some(x) if x@.len() > 0 => x@,
                    _ => s.address@,
                }
            } else {
                Seq::empty()
            }) && p.verify == match s.verify_tls {
                Some(v) => v,
                None => up.verify_tls,
            } && match p.rewrite {
                Some(x) => sel_uri != uri && x@ == sel_uri,
                None => sel_uri == uri,
            } && (if req.len() == 0 {
                p.request_headers@.len() == 0
            } else {
                header_views(p.request_headers@) == expanded_headers(
                    req,
                    uri,
                    selected_captures(host, method, uri),
                    request_vars(host_header, method, uri, headers),
                )
            }) && p.response_headers@ == selected_response_headers(host, method, uri)
        },
    }
}


/// Routes a request within its host and plans how it is proxied, with the
/// backend that holds `ticket`: an unknown upstream group or one without
/// backends is answered with 502.
pub fn route_plan(
    data: &ConfigData,
    host: &Host,
    host_header: &str,
    method: &str,
    uri: &str,
    headers: &[(String, String)],
    ticket: u32,
) -> (r: Routed)
    ensures
        plan_ok(*data, *host, host_header@, method@, uri@, headers@, ticket as nat, r),
{
    let selected = match_route(host, method, uri);
    let upstream = match data.upstream(selected.upstream_id.as_str()) {
        Some(u) => u,
        None => {
            return Routed::Respond(502, owned("upstream not found"));
        },
    };
    let server = match pick_backend_with(upstream.servers.as_slice(), ticket) {
        Some(s) => s,
        None => {
            return Routed::Respond(502, owned("no upstream server"));
        },
    };
    let tls = server.protocol_or(upstream.protocol) == UpstreamProtocol::Https;
    let socket = backend_socket(server, upstream.protocol);
    let sni = if tls {
        resolve_sni(upstream, server)
    } else {
        String::new()
    };
    let verify = server.verify_tls_or(upstream.verify_tls);
    let rewrite = if str_eq(selected.uri.as_str(), uri) {
        None
    } else {
        Some(selected.uri.clone())
    };
    let request_headers = if selected.request_headers.len() == 0 {
        Vec::new()
    } else {
        let vars = request_header_vars(host_header, method, uri, headers);
        expand_headers(selected.request_headers.as_slice(), uri, selected.captures.as_slice(), &vars)
    };
    let ghost up = *upstream;
    let ghost sv = up.servers@[ticket_owner(up.servers@, ticket as nat)];
    assert(*server == sv);
    assert(selected.upstream_id@ == selected_upstream(*host, method@, uri@));
    assert(selected.uri@ == selected_uri(*host, method@, uri@));
    assert(selected.request_headers@ == selected_request_headers(*host, method@, uri@));
    assert(selected.response_headers@ == selected_response_headers(*host, method@, uri@));
    assert(views(selected.captures@) == selected_captures(*host, method@, uri@));
    let plan = ProxyPlan {
        socket,
        tls,
        sni,
        verify,
        rewrite,
        request_headers,
        response_headers: selected.response_headers,
    };
    assert(plan.socket@ == socket_spec(sv.address@, effective_port_spec(sv, up.protocol)));
    assert(plan.tls == (protocol_or_spec(sv, up.protocol) == UpstreamProtocol::Https));
    assert(match plan.rewrite {
        Some(x) => selected_uri(*host, method@, uri@) != uri@ && x@ == selected_uri(*host, method@, uri@),
        None => selected_uri(*host, method@, uri@) == uri@,
    });
    Routed::Proxy(plan)
}

/// Routes and plans a request as [`route_plan`] does, with a backend drawn
/// at random in proportion to the weights.
pub fn route_decision(
    data: &ConfigData,
    host: &Host,
    host_header: &str,
    method: &str,
    uri: &str,
    headers: &[(String, String)],
) -> (r: Routed)
    requires
        upstreams_fit(*data),
    ensures
        exists|t: nat| plan_ok(*data, *host, host_header@, method@, uri@, headers@, t, r),
{
    let selected_id = match_route(host, method, uri).upstream_id;
    let ticket = match data.upstream(selected_id.as_str()) {
        Some(u) => {
            proof {
                let ids = upstream_ids(data.upstreams@);
                crate::model::lemma_first_index_facts(ids, selected_id@);
                let i = crate::model::first_index(ids, selected_id@).unwrap();
                assert(data.upstreams@[i] == *u);
                assert(tickets_fit(data.upstreams@[i].servers@));
            }
            let total = total_weight(u.servers.as_slice());
            if total > 0 {
                random_below(total)
            } else {
                0
            }
        },
        None => 0,
    };
    let r = route_plan(data, host, host_header, method, uri, headers, ticket);
    assert(plan_ok(*data, *host, host_header@, method@, uri@, headers@, ticket as nat, r));
    r
}

/// The header rewrites applied to an answer, with their templates expanded
/// against the answer's headers (`$upstream_http_*`).
pub fn response_rewrites(rewrites: &[HeaderRewrite], answer_headers: &[(String, String)]) -> (r: Vec<HeaderRewrite>)
    ensures
        header_views(r@) == expanded_headers(
            rewrites@,
            Seq::empty(),
            Seq::empty(),
            bind_headers(Map::<Seq<char>, Seq<char>>::empty(), answer_headers@, "upstream_http_"@),
        ),
{
    let vars = response_header_vars(answer_headers);
    let uri = String::new();
    let none: Vec<String> = Vec::new();
    assert(views(none@) =~= Seq::<Seq<char>>::empty());
    expand_headers(rewrites, uri.as_str(), none.as_slice(), &vars)
}

/// A header rewrite with an empty value removes the header; any other sets it.
pub open spec fn removes_header(h: HeaderRewrite) -> bool {
    h.value@.len() == 0
}

/// See [`removes_header`].
pub fn is_removal(h: &HeaderRewrite) -> (r: bool)
    ensures
        r == removes_header(*h),
{
    str_byte_len(&h.value) == 0
}

/// The `X-Forwarded-For` value sent upstream: the client address appended
/// to what the request carried, or the address alone.
pub fn forwarded_for(existing: Option<&str>, client: &str) -> (r: String)
    ensures
        match existing {
            Some(e) => r@ == e@ + ", "@ + client@,
            None => r@ == client@,
        },
{
    match existing {
        Some(e) => {
            let mut out = owned(e);
            push_str(&mut out, ", ");
            push_str(&mut out, client);
            out
        },
        None => owned(client),
    }
}

/// The `X-Forwarded-Proto` value: `https` for TLS requests.
pub fn forwarded_proto(tls: bool) -> (r: &'static str)
    ensures
        r@ == (if tls {
            "https"@
        } else {
            "http"@
        }),
{
    if tls {
        "https"
    } else {
        "http"
    }
}

/// The access log line of a request.
pub fn access_line(
    client: &str,
    host: &str,
    method: &str,
    uri: &str,
    status: u16,
    bytes: u64,
    ms: u64,
    user_agent: &str,
) -> (r: String)
    ensures
        r@ == client@ + " "@ + host@ + " \""@ + method@ + " "@ + uri@ + "\" "@ + crate::text::decimal(
            status as nat,
        ) + " "@ + crate::text::decimal(bytes as nat) + " "@ + crate::text::decimal(ms as nat) + "ms \""@
            + user_agent@ + "\""@,
{
    let mut out = owned(client);
    push_str(&mut out, " ");
    push_str(&mut out, host);
    push_str(&mut out, " \"");
    push_str(&mut out, method);
    push_str(&mut out, " ");
    push_str(&mut out, uri);
    push_str(&mut out, "\" ");
    crate::text::push_decimal(&mut out, status as u64);
    push_str(&mut out, " ");
    crate::text::push_decimal(&mut out, bytes);
    push_str(&mut out, " ");
    crate::text::push_decimal(&mut out, ms);
    push_str(&mut out, "ms \"");
    push_str(&mut out, user_agent);
    push_str(&mut out, "\"");
    out
}

/// How many worker threads serve: the configured number, else the
/// machine's parallelism (4 when unknown), at least 1.
pub fn worker_threads(configured: usize, available: Option<usize>) -> (r: usize)
    ensures
        configured > 0 ==> r == configured,
        configured == 0 ==> r == match available {
            Some(n) => if n >= 1 { n } else { 1 },
            None => 4,
        },
{
    if configured > 0 {
        return configured;
    }
    match available {
        Some(n) => if n >= 1 {
            n
        } else {
            1
        },
        None => 4,
    }
}
} // verus!
