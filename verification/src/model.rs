//! The configuration model: certificates, DNS providers, domains, upstream
//! groups, virtual hosts with their routes, and TCP/UDP streams.
use vstd::prelude::*;

use crate::text::{
    chars_of, find_char, is_space, join_strings, lemma_split_nonempty, lemma_split_step, lower_chars,
    lower_seq, owned,
    seq_join, space, split_seq, starts_with, string_from, trim_bounds, trim_seq, views,
};

verus! {

/// A fresh random identifier (`uuid::Uuid::new_v4`, hyphenated).
/// Claimed: the text has the 36 characters of the hyphenated form; which
/// identifier comes out is left open (it is random).
#[verifier::external_body]
pub fn new_id() -> (r: String)
    ensures
        r@.len() == 36,
{
    uuid::Uuid::new_v4().to_string()
}

/// The current UTC time in RFC 3339 with whole seconds and a `Z` suffix
/// (`chrono::Utc::now().to_rfc3339_opts(SecondsFormat::Secs, true)`).
/// Nothing is claimed of the text: it depends on the clock.
#[verifier::external_body]
pub fn now_rfc3339() -> String {
    chrono::Utc::now().to_rfc3339_opts(chrono::SecondsFormat::Secs, true)
}

/// A copy of an optional string.
pub fn clone_opt(o: &Option<String>) -> (r: Option<String>)
    ensures
        r == *o,
{
    match o {
        Some(s) => Some(s.clone()),
        None => None,
    }
}

/// An uploaded or issued certificate with its private key.
#[derive(Debug)]
pub struct Certificate {
    pub id: String,
    pub name: String,
    pub cert_pem: String,
    pub key_pem: String,
    pub not_after: Option<String>,
    pub auto_issued: bool,
    pub created_at: String,
}

impl Clone for Certificate {
    fn clone(&self) -> (r: Self)
        ensures
            r == *self,
    {
        Certificate {
            id: self.id.clone(),
            name: self.name.clone(),
            cert_pem: self.cert_pem.clone(),
            key_pem: self.key_pem.clone(),
            not_after: clone_opt(&self.not_after),
            auto_issued: self.auto_issued,
            created_at: self.created_at.clone(),
        }
    }
}

/// The DNS services that can publish ACME challenge records.
#[derive(Debug, Clone, Copy, PartialEq, Eq, Structural)]
pub enum DnsProviderKind {
    Aliyun,
    Wanwang,
    Godaddy,
    Tencent,
    Xinnet,
    Cloudflare,
    Amazon,
}

/// Credentials for one DNS service.
#[derive(Debug)]
pub struct DnsProvider {
    pub id: String,
    pub name: String,
    pub kind: DnsProviderKind,
    pub access_key: String,
    pub access_secret: String,
}

impl Clone for DnsProvider {
    fn clone(&self) -> (r: Self)
        ensures
            r == *self,
    {
        DnsProvider {
            id: self.id.clone(),
            name: self.name.clone(),
            kind: self.kind,
            access_key: self.access_key.clone(),
            access_secret: self.access_secret.clone(),
        }
    }
}

/// How a domain gets its certificate.
#[derive(Debug, Clone, Copy, PartialEq, Eq, Structural)]
pub enum CertMode {
    Manual,
    Acme,
}

/// The ACME challenge used to prove control of a domain.
#[derive(Debug, Clone, Copy, PartialEq, Eq, Structural)]
pub enum AcmeChallenge {
    Http01,
    Dns01,
}

/// A domain whose certificate is managed by hand or through ACME.
#[derive(Debug)]
pub struct Domain {
    pub id: String,
    pub name: String,
    pub mode: CertMode,
    pub cert_id: Option<String>,
    pub challenge: Option<AcmeChallenge>,
    pub dns_provider_id: Option<String>,
    pub status: String,
    pub last_error: Option<String>,
    pub expires_at: Option<String>,
    pub created_at: String,
}

impl Clone for Domain {
    fn clone(&self) -> (r: Self)
        ensures
            r == *self,
    {
        Domain {
            id: self.id.clone(),
            name: self.name.clone(),
            mode: self.mode,
            cert_id: clone_opt(&self.cert_id),
            challenge: self.challenge,
            dns_provider_id: clone_opt(&self.dns_provider_id),
            status: self.status.clone(),
            last_error: clone_opt(&self.last_error),
            expires_at: clone_opt(&self.expires_at),
            created_at: self.created_at.clone(),
        }
    }
}

/// A domain name is a wildcard when it starts with `*.` or holds `*`.
pub open spec fn is_wildcard_name(name: Seq<char>) -> bool {
    "*."@.is_prefix_of(name) || name.contains('*')
}

impl Domain {
    /// Whether the domain is a wildcard name (such names need DNS-01).
    pub fn is_wildcard(&self) -> (r: bool)
        ensures
            r == is_wildcard_name(self.name@),
    {
        let cs = chars_of(self.name.as_str());
        let p = chars_of("*.");
        let pre = starts_with(&cs, &p);
        match find_char(&cs, '*', 0) {
            Some(i) => {
                assert(cs@[i as int] == '*');
                true
            },
            None => pre,
        }
    }
}

/// The scheme used to reach a backend.
#[derive(Debug, Clone, Copy, PartialEq, Eq, Structural)]
pub enum UpstreamProtocol {
    Http,
    Https,
}

impl Default for UpstreamProtocol {
    fn default() -> (r: Self)
        ensures
            r == UpstreamProtocol::Http,
    {
        UpstreamProtocol::Http
    }
}

/// One backend of an upstream group.
#[derive(Debug)]
pub struct UpstreamServer {
    pub address: String,
    pub port: Option<u16>,
    pub weight: u32,
    pub protocol: Option<UpstreamProtocol>,
    pub verify_tls: Option<bool>,
}

impl Clone for UpstreamServer {
    fn clone(&self) -> (r: Self)
        ensures
            r == *self,
    {
        UpstreamServer {
            address: self.address.clone(),
            port: self.port,
            weight: self.weight,
            protocol: self.protocol,
            verify_tls: self.verify_tls,
        }
    }
}

/// The weight a backend gets when none is configured.
pub fn default_weight() -> (r: u32)
    ensures
        r == 1,
{
    1
}

/// A group of backends that routes send traffic to.
#[derive(Debug)]
pub struct Upstream {
    pub id: String,
    pub name: String,
    pub protocol: UpstreamProtocol,
    pub verify_tls: bool,
    pub sni: Option<String>,
    pub servers: Vec<UpstreamServer>,
}

/// The mathematical value of an upstream group: its backends as a sequence.
pub struct UpstreamView {
    pub id: String,
    pub name: String,
    pub protocol: UpstreamProtocol,
    pub verify_tls: bool,
    pub sni: Option<String>,
    pub servers: Seq<UpstreamServer>,
}

impl View for Upstream {
    type V = UpstreamView;

    open spec fn view(&self) -> UpstreamView {
        UpstreamView {
            id: self.id,
            name: self.name,
            protocol: self.protocol,
            verify_tls: self.verify_tls,
            sni: self.sni,
            servers: self.servers@,
        }
    }
}

impl Clone for Upstream {
    fn clone(&self) -> (r: Self)
        ensures
            r@ == self@,
    {
        let servers = self.servers.clone();
        assert(servers@ =~= self.servers@);
        Upstream {
            id: self.id.clone(),
            name: self.name.clone(),
            protocol: self.protocol,
            verify_tls: self.verify_tls,
            sni: clone_opt(&self.sni),
            servers,
        }
    }
}

/// The protocol of a backend, or `fallback` when it has none of its own.
pub open spec fn protocol_or_spec(s: UpstreamServer, fallback: UpstreamProtocol) -> UpstreamProtocol {
    match s.protocol {
        Some(p) => p,
        None => fallback,
    }
}

/// The port a backend is dialled on: its own port unless absent or zero,
/// else 443 for HTTPS and 80 for HTTP.
pub open spec fn effective_port_spec(s: UpstreamServer, fallback: UpstreamProtocol) -> u16 {
    match s.port {
        Some(p) if p != 0 => p,
        _ => match protocol_or_spec(s, fallback) {
            UpstreamProtocol::Https => 443,
            UpstreamProtocol::Http => 80,
        },
    }
}

impl UpstreamServer {
    /// The backend's own protocol, else `fallback`.
    pub fn protocol_or(&self, fallback: UpstreamProtocol) -> (r: UpstreamProtocol)
        ensures
            r == protocol_or_spec(*self, fallback),
    {
        match self.protocol {
            Some(p) => p,
            None => fallback,
        }
    }

    /// The backend's own TLS verification setting, else `fallback`.
    pub fn verify_tls_or(&self, fallback: bool) -> (r: bool)
        ensures
            r == match self.verify_tls {
                Some(v) => v,
                None => fallback,
            },
    {
        match self.verify_tls {
            Some(v) => v,
            None => fallback,
        }
    }

    /// The port to dial: see [`effective_port_spec`].
    pub fn effective_port(&self, fallback: UpstreamProtocol) -> (r: u16)
        ensures
            r == effective_port_spec(*self, fallback),
            r != 0,
    {
        if let Some(port) = self.port {
            if port != 0 {
                return port;
            }
        }
        match self.protocol_or(fallback) {
            UpstreamProtocol::Https => 443,
            UpstreamProtocol::Http => 80,
        }
    }
}

/// How a route's pattern is matched against the request path.
#[derive(Debug, Clone, Copy, PartialEq, Eq, Structural)]
pub enum MatchType {
    Prefix,
    Regex,
}

/// A header set (or removed, when the value is empty) on a request or response.
#[derive(Debug)]
pub struct HeaderRewrite {
    pub name: String,
    pub value: String,
}

impl Clone for HeaderRewrite {
    fn clone(&self) -> (r: Self)
        ensures
            r == *self,
    {
        HeaderRewrite { name: self.name.clone(), value: self.value.clone() }
    }
}

/// A copy of a header list.
pub fn clone_headers(v: &Vec<HeaderRewrite>) -> (r: Vec<HeaderRewrite>)
    ensures
        r@ == v@,
{
    let r = v.clone();
    assert(r@ =~= v@);
    r
}

/// A copy of a list of strings.
pub fn clone_strings(v: &Vec<String>) -> (r: Vec<String>)
    ensures
        r@ == v@,
{
    let r = v.clone();
    assert(r@ =~= v@);
    r
}

/// A path rule of a host.
#[derive(Debug)]
pub struct Route {
    pub id: String,
    pub pattern: String,
    pub match_type: MatchType,
    pub rewrite_uri: Option<String>,
    pub methods: Vec<String>,
    pub request_headers: Vec<HeaderRewrite>,
    pub response_headers: Vec<HeaderRewrite>,
    pub upstream_id: String,
}

/// The mathematical value of a route.
pub struct RouteView {
    pub id: String,
    pub pattern: String,
    pub match_type: MatchType,
    pub rewrite_uri: Option<String>,
    pub methods: Seq<String>,
    pub request_headers: Seq<HeaderRewrite>,
    pub response_headers: Seq<HeaderRewrite>,
    pub upstream_id: String,
}

impl View for Route {
    type V = RouteView;

    open spec fn view(&self) -> RouteView {
        RouteView {
            id: self.id,
            pattern: self.pattern,
            match_type: self.match_type,
            rewrite_uri: self.rewrite_uri,
            methods: self.methods@,
            request_headers: self.request_headers@,
            response_headers: self.response_headers@,
            upstream_id: self.upstream_id,
        }
    }
}

impl Clone for Route {
    fn clone(&self) -> (r: Self)
        ensures
            r@ == self@,
    {
        Route {
            id: self.id.clone(),
            pattern: self.pattern.clone(),
            match_type: self.match_type,
            rewrite_uri: clone_opt(&self.rewrite_uri),
            methods: clone_strings(&self.methods),
            request_headers: clone_headers(&self.request_headers),
            response_headers: clone_headers(&self.response_headers),
            upstream_id: self.upstream_id.clone(),
        }
    }
}

/// The views of a sequence of routes.
pub open spec fn route_views(rs: Seq<Route>) -> Seq<RouteView> {
    rs.map_values(|r: Route| r@)
}

/// A virtual host: one or more host names, TLS settings and routes.
#[derive(Debug)]
pub struct Host {
    pub id: String,
    pub hostname: String,
    pub protocol: String,
    pub https_enabled: bool,
    pub cert_id: Option<String>,
    pub force_https: bool,
    pub default_upstream_id: String,
    pub routes: Vec<Route>,
}

/// The mathematical value of a host.
pub struct HostView {
    pub id: String,
    pub hostname: String,
    pub protocol: String,
    pub https_enabled: bool,
    pub cert_id: Option<String>,
    pub force_https: bool,
    pub default_upstream_id: String,
    pub routes: Seq<RouteView>,
}

impl View for Host {
    type V = HostView;

    open spec fn view(&self) -> HostView {
        HostView {
            id: self.id,
            hostname: self.hostname,
            protocol: self.protocol,
            https_enabled: self.https_enabled,
            cert_id: self.cert_id,
            force_https: self.force_https,
            default_upstream_id: self.default_upstream_id,
            routes: route_views(self.routes@),
        }
    }
}

impl Clone for Host {
    fn clone(&self) -> (r: Self)
        ensures
            r@ == self@,
    {
        let mut routes: Vec<Route> = Vec::new();
        let mut i: usize = 0;
        while i < self.routes.len()
            invariant
                i <= self.routes@.len(),
                routes@.len() == i,
                forall|k: int| 0 <= k < i ==> (#[trigger] routes@[k])@ == self.routes@[k]@,
            decreases self.routes.len() - i,
        {
            routes.push(self.routes[i].clone());
            i = i + 1;
        }
        assert(route_views(routes@) =~= route_views(self.routes@));
        Host {
            id: self.id.clone(),
            hostname: self.hostname.clone(),
            protocol: self.protocol.clone(),
            https_enabled: self.https_enabled,
            cert_id: clone_opt(&self.cert_id),
            force_https: self.force_https,
            default_upstream_id: self.default_upstream_id.clone(),
            routes,
        }
    }
}

/// The protocol label a host gets when none is configured.
pub fn default_protocol() -> (r: String)
    ensures
        r@ == "http"@,
{
    owned("http")
}

/// The protocol of a forwarded port.
#[derive(Debug, Clone, Copy, PartialEq, Eq, Structural)]
pub enum StreamProtocol {
    Tcp,
    Udp,
}

/// A TCP or UDP port forward.
#[derive(Debug)]
pub struct StreamConfig {
    pub id: String,
    pub name: String,
    pub listen_port: u16,
    pub protocol: StreamProtocol,
    pub target_ip: String,
    pub target_port: u16,
}

impl Clone for StreamConfig {
    fn clone(&self) -> (r: Self)
        ensures
            r == *self,
    {
        StreamConfig {
            id: self.id.clone(),
            name: self.name.clone(),
            listen_port: self.listen_port,
            protocol: self.protocol,
            target_ip: self.target_ip.clone(),
            target_port: self.target_port,
        }
    }
}

/// The whole configuration.
#[derive(Debug)]
pub struct ConfigData {
    pub certificates: Vec<Certificate>,
    pub dns_providers: Vec<DnsProvider>,
    pub domains: Vec<Domain>,
    pub upstreams: Vec<Upstream>,
    pub hosts: Vec<Host>,
    pub streams: Vec<StreamConfig>,
}

/// The mathematical value of a configuration.
pub struct ConfigView {
    pub certificates: Seq<Certificate>,
    pub dns_providers: Seq<DnsProvider>,
    pub domains: Seq<Domain>,
    pub upstreams: Seq<UpstreamView>,
    pub hosts: Seq<HostView>,
    pub streams: Seq<StreamConfig>,
}

impl View for ConfigData {
    type V = ConfigView;

    open spec fn view(&self) -> ConfigView {
        ConfigView {
            certificates: self.certificates@,
            dns_providers: self.dns_providers@,
            domains: self.domains@,
            upstreams: self.upstreams@.map_values(|u: Upstream| u@),
            hosts: self.hosts@.map_values(|h: Host| h@),
            streams: self.streams@,
        }
    }
}

impl Clone for ConfigData {
    fn clone(&self) -> (r: Self)
        ensures
            r@ == self@,
    {
        let certificates = self.certificates.clone();
        let dns_providers = self.dns_providers.clone();
        let domains = self.domains.clone();
        let upstreams = self.upstreams.clone();
        let hosts = self.hosts.clone();
        let streams = self.streams.clone();
        assert(certificates@ =~= self.certificates@);
        assert(dns_providers@ =~= self.dns_providers@);
        assert(domains@ =~= self.domains@);
        assert(upstreams@.map_values(|u: Upstream| u@) =~= self.upstreams@.map_values(|u: Upstream| u@));
        assert(hosts@.map_values(|h: Host| h@) =~= self.hosts@.map_values(|h: Host| h@));
        assert(streams@ =~= self.streams@);
        ConfigData { certificates, dns_providers, domains, upstreams, hosts, streams }
    }
}

impl Default for ConfigData {
    fn default() -> (r: Self)
        ensures
            r.certificates@.len() == 0,
            r.dns_providers@.len() == 0,
            r.domains@.len() == 0,
            r.upstreams@.len() == 0,
            r.hosts@.len() == 0,
            r.streams@.len() == 0,
    {
        ConfigData {
            certificates: Vec::new(),
            dns_providers: Vec::new(),
            domains: Vec::new(),
            upstreams: Vec::new(),
            hosts: Vec::new(),
            streams: Vec::new(),
        }
    }
}

/// The first position in `ids` that equals `id`, if any.
pub open spec fn first_index(ids: Seq<Seq<char>>, id: Seq<char>) -> Option<int> {
    if exists|i: int| 0 <= i < ids.len() && ids[i] == id {
        Some(
            choose|i: int|
                0 <= i < ids.len() && ids[i] == id && forall|k: int| 0 <= k < i ==> ids[k] != id,
        )
    } else {
        None
    }
}

/// `first_index` names the first position holding `id`.
pub proof fn lemma_first_index(ids: Seq<Seq<char>>, id: Seq<char>, i: int)
    requires
        0 <= i < ids.len(),
        ids[i] == id,
        forall|k: int| 0 <= k < i ==> ids[k] != id,
    ensures
        first_index(ids, id) == Some(i),
{
    let j = choose|j: int|
        0 <= j < ids.len() && ids[j] == id && forall|k: int| 0 <= k < j ==> ids[k] != id;
    assert(0 <= j < ids.len() && ids[j] == id && forall|k: int| 0 <= k < j ==> ids[k] != id);
    if j < i {
        assert(ids[j] != id);
    }
    if i < j {
        assert(ids[i] != id);
    }
}

/// What `first_index` gives: the first position holding the id, or none
/// when no position does.
pub proof fn lemma_first_index_facts(ks: Seq<Seq<char>>, k: Seq<char>)
    ensures
        first_index(ks, k) matches Some(i) ==> 0 <= i < ks.len() && ks[i] == k && forall|q: int|
            0 <= q < i ==> ks[q] != k,
        first_index(ks, k) is None ==> forall|q: int| 0 <= q < ks.len() ==> ks[q] != k,
{
    if exists|i: int| 0 <= i < ks.len() && ks[i] == k {
        let e = choose|i: int| 0 <= i < ks.len() && ks[i] == k;
        lemma_min_index(ks, k, e);
    }
}

/// Some position holding `k` is the first one.
pub proof fn lemma_min_index(ks: Seq<Seq<char>>, k: Seq<char>, e: int)
    requires
        0 <= e < ks.len(),
        ks[e] == k,
    ensures
        exists|f: int| 0 <= f < ks.len() && ks[f] == k && forall|q: int| 0 <= q < f ==> ks[q] != k,
    decreases e,
{
    if exists|q: int| 0 <= q < e && ks[q] == k {
        let q = choose|q: int| 0 <= q < e && ks[q] == k;
        lemma_min_index(ks, k, q);
    } else {
        assert(forall|q: int| 0 <= q < e ==> ks[q] != k);
    }
}

/// The identifiers of the certificates.
pub open spec fn cert_ids(s: Seq<Certificate>) -> Seq<Seq<char>> {
    s.map_values(|c: Certificate| c.id@)
}

/// The identifiers of the DNS providers.
pub open spec fn dns_ids(s: Seq<DnsProvider>) -> Seq<Seq<char>> {
    s.map_values(|c: DnsProvider| c.id@)
}

/// The identifiers of the domains.
pub open spec fn domain_ids(s: Seq<Domain>) -> Seq<Seq<char>> {
    s.map_values(|c: Domain| c.id@)
}

/// The identifiers of the upstream groups.
pub open spec fn upstream_ids(s: Seq<Upstream>) -> Seq<Seq<char>> {
    s.map_values(|c: Upstream| c.id@)
}

/// The identifiers of the hosts.
pub open spec fn host_ids(s: Seq<Host>) -> Seq<Seq<char>> {
    s.map_values(|c: Host| c.id@)
}

/// The identifiers of the streams.
pub open spec fn stream_ids(s: Seq<StreamConfig>) -> Seq<Seq<char>> {
    s.map_values(|c: StreamConfig| c.id@)
}

/// The result of looking `id` up in a list: the first entry with that id.
pub open spec fn lookup_by_id<T>(items: Seq<T>, ids: Seq<Seq<char>>, id: Seq<char>) -> Option<T> {
    match first_index(ids, id) {
        Some(i) => Some(items[i]),
        None => None,
    }
}

impl ConfigData {
    /// The certificate with identifier `id` (the first, should there be several).
    pub fn cert(&self, id: &str) -> (r: Option<&Certificate>)
        ensures
            r == match lookup_by_id(self.certificates@, cert_ids(self.certificates@), id@) {
                Some(c) => Some(&c),
                None => None::<&Certificate>,
            },
    {
        let key = owned(id);
        let mut i: usize = 0;
        while i < self.certificates.len()
            invariant
                i <= self.certificates@.len(),
                key@ == id@,
                forall|k: int| 0 <= k < i ==> cert_ids(self.certificates@)[k] != id@,
            decreases self.certificates.len() - i,
        {
            if self.certificates[i].id == key {
                proof {
                    lemma_first_index(cert_ids(self.certificates@), id@, i as int);
                }
                return Some(&self.certificates[i]);
            }
            i = i + 1;
        }
        assert(!(exists|k: int| 0 <= k < cert_ids(self.certificates@).len() && cert_ids(self.certificates@)[k] == id@));
        None
    }

    /// The DNS provider with identifier `id`.
    pub fn dns_provider(&self, id: &str) -> (r: Option<&DnsProvider>)
        ensures
            r == match lookup_by_id(self.dns_providers@, dns_ids(self.dns_providers@), id@) {
                Some(c) => Some(&c),
                None => None::<&DnsProvider>,
            },
    {
        let key = owned(id);
        let mut i: usize = 0;
        while i < self.dns_providers.len()
            invariant
                i <= self.dns_providers@.len(),
                key@ == id@,
                forall|k: int| 0 <= k < i ==> dns_ids(self.dns_providers@)[k] != id@,
            decreases self.dns_providers.len() - i,
        {
            if self.dns_providers[i].id == key {
                proof {
                    lemma_first_index(dns_ids(self.dns_providers@), id@, i as int);
                }
                return Some(&self.dns_providers[i]);
            }
            i = i + 1;
        }
        assert(!(exists|k: int| 0 <= k < dns_ids(self.dns_providers@).len() && dns_ids(self.dns_providers@)[k] == id@));
        None
    }

    /// The domain with identifier `id`.
    pub fn domain(&self, id: &str) -> (r: Option<&Domain>)
        ensures
            r == match lookup_by_id(self.domains@, domain_ids(self.domains@), id@) {
                Some(c) => Some(&c),
                None => None::<&Domain>,
            },
    {
        let key = owned(id);
        let mut i: usize = 0;
        while i < self.domains.len()
            invariant
                i <= self.domains@.len(),
                key@ == id@,
                forall|k: int| 0 <= k < i ==> domain_ids(self.domains@)[k] != id@,
            decreases self.domains.len() - i,
        {
            if self.domains[i].id == key {
                proof {
                    lemma_first_index(domain_ids(self.domains@), id@, i as int);
                }
                return Some(&self.domains[i]);
            }
            i = i + 1;
        }
        assert(!(exists|k: int| 0 <= k < domain_ids(self.domains@).len() && domain_ids(self.domains@)[k] == id@));
        None
    }

    /// The upstream group with identifier `id`.
    pub fn upstream(&self, id: &str) -> (r: Option<&Upstream>)
        ensures
            r == match lookup_by_id(self.upstreams@, upstream_ids(self.upstreams@), id@) {
                Some(c) => Some(&c),
                None => None::<&Upstream>,
            },
    {
        let key = owned(id);
        let mut i: usize = 0;
        while i < self.upstreams.len()
            invariant
                i <= self.upstreams@.len(),
                key@ == id@,
                forall|k: int| 0 <= k < i ==> upstream_ids(self.upstreams@)[k] != id@,
            decreases self.upstreams.len() - i,
        {
            if self.upstreams[i].id == key {
                proof {
                    lemma_first_index(upstream_ids(self.upstreams@), id@, i as int);
                }
                return Some(&self.upstreams[i]);
            }
            i = i + 1;
        }
        assert(!(exists|k: int| 0 <= k < upstream_ids(self.upstreams@).len() && upstream_ids(self.upstreams@)[k] == id@));
        None
    }

    /// The host with identifier `id`.
    pub fn host(&self, id: &str) -> (r: Option<&Host>)
        ensures
            r == match lookup_by_id(self.hosts@, host_ids(self.hosts@), id@) {
                Some(c) => Some(&c),
                None => None::<&Host>,
            },
    {
        let key = owned(id);
        let mut i: usize = 0;
        while i < self.hosts.len()
            invariant
                i <= self.hosts@.len(),
                key@ == id@,
                forall|k: int| 0 <= k < i ==> host_ids(self.hosts@)[k] != id@,
            decreases self.hosts.len() - i,
        {
            if self.hosts[i].id == key {
                proof {
                    lemma_first_index(host_ids(self.hosts@), id@, i as int);
                }
                return Some(&self.hosts[i]);
            }
            i = i + 1;
        }
        assert(!(exists|k: int| 0 <= k < host_ids(self.hosts@).len() && host_ids(self.hosts@)[k] == id@));
        None
    }

    /// The stream with identifier `id`.
    pub fn stream(&self, id: &str) -> (r: Option<&StreamConfig>)
        ensures
            r == match lookup_by_id(self.streams@, stream_ids(self.streams@), id@) {
                Some(c) => Some(&c),
                None => None::<&StreamConfig>,
            },
    {
        let key = owned(id);
        let mut i: usize = 0;
        while i < self.streams.len()
            invariant
                i <= self.streams@.len(),
                key@ == id@,
                forall|k: int| 0 <= k < i ==> stream_ids(self.streams@)[k] != id@,
            decreases self.streams.len() - i,
        {
            if self.streams[i].id == key {
                proof {
                    lemma_first_index(stream_ids(self.streams@), id@, i as int);
                }
                return Some(&self.streams[i]);
            }
            i = i + 1;
        }
        assert(!(exists|k: int| 0 <= k < stream_ids(self.streams@).len() && stream_ids(self.streams@)[k] == id@));
        None
    }
}


/// Characters that separate host names in a host's `hostname` field.
pub open spec fn is_host_sep(c: char) -> bool {
    c == ',' || c == ';' || c == '\n' || c == '\r' || is_space(c)
}

/// The name a raw piece stands for: trimmed and lower-cased.
pub open spec fn piece_name(piece: Seq<char>) -> Seq<char> {
    lower_seq(trim_seq(piece))
}

/// Adds the name of `piece` to `names` unless it is empty or already there.
pub open spec fn add_name(names: Seq<Seq<char>>, piece: Seq<char>) -> Seq<Seq<char>> {
    let name = piece_name(piece);
    if name.len() == 0 || names.contains(name) {
        names
    } else {
        names.push(name)
    }
}

/// The distinct non-empty names of the pieces, in order of first appearance.
pub open spec fn collect_names(pieces: Seq<Seq<char>>) -> Seq<Seq<char>>
    decreases pieces.len(),
{
    if pieces.len() == 0 {
        Seq::<Seq<char>>::empty()
    } else {
        add_name(collect_names(pieces.drop_last()), pieces.last())
    }
}

/// The host names listed in `raw`; a list without names stands for the
/// catch-all name, the empty string.
pub open spec fn hostnames_of(raw: Seq<char>) -> Seq<Seq<char>> {
    let names = collect_names(split_seq(raw, |c: char| is_host_sep(c)));
    if names.len() == 0 {
        seq![Seq::<char>::empty()]
    } else {
        names
    }
}

fn host_sep(c: char) -> (r: bool)
    ensures
        r == is_host_sep(c),
{
    c == ',' || c == ';' || c == '\n' || c == '\r' || space(c)
}

fn push_name(names: &mut Vec<String>, piece: &Vec<char>)
    ensures
        views(final(names)@) == add_name(views(old(names)@), piece@),
{
    let (lo, hi) = trim_bounds(piece);
    let mut t: Vec<char> = Vec::new();
    let mut k: usize = lo;
    while k < hi
        invariant
            lo <= k <= hi <= piece@.len(),
            t@ == piece@.subrange(lo as int, k as int),
        decreases hi - k,
    {
        t.push(piece[k]);
        k = k + 1;
    }
    let lc = lower_chars(&t);
    if lc.len() == 0 {
        return ;
    }
    let name = string_from(&lc);
    let ghost old_views = views(names@);
    let mut j: usize = 0;
    while j < names.len()
        invariant
            j <= names@.len(),
            names@ == old(names)@,
            old_views == views(names@),
            name@ == piece_name(piece@),
            forall|q: int| 0 <= q < j ==> old_views[q] != name@,
        decreases names.len() - j,
    {
        if names[j] == name {
            assert(old_views[j as int] == name@);
            return ;
        }
        j = j + 1;
    }
    names.push(name);
    assert(views(names@) =~= old_views.push(name@));
}

/// Splits a host's `hostname` field into its distinct lower-cased names.
/// Names are separated by commas, semicolons, line breaks or whitespace;
/// an empty list yields the single catch-all name `""`.
pub fn parse_hostnames(raw: &str) -> (r: Vec<String>)
    ensures
        views(r@) == hostnames_of(raw@),
        r@.len() >= 1,
{
    let cs = chars_of(raw);
    let ghost sep = |c: char| is_host_sep(c);
    let mut names: Vec<String> = Vec::new();
    let mut cur: Vec<char> = Vec::new();
    let mut i: usize = 0;
    assert(cs@.take(0) == Seq::<char>::empty());
    while i < cs.len()
        invariant
            i <= cs@.len(),
            cs@ == raw@,
            sep == (|c: char| is_host_sep(c)),
            split_seq(cs@.take(i as int), sep).len() >= 1,
            cur@ == split_seq(cs@.take(i as int), sep).last(),
            views(names@) == collect_names(split_seq(cs@.take(i as int), sep).drop_last()),
        decreases cs.len() - i,
    {
        proof {
            lemma_split_step(cs@, i as int, sep);
        }
        let ghost prev = split_seq(cs@.take(i as int), sep);
        if host_sep(cs[i]) {
            push_name(&mut names, &cur);
            cur = Vec::new();
            proof {
                let next = split_seq(cs@.take(i + 1), sep);
                assert(next.drop_last() == prev);
                assert(prev == prev.drop_last().push(prev.last()));
                assert(collect_names(prev) == add_name(collect_names(prev.drop_last()), prev.last()));
            }
        } else {
            cur.push(cs[i]);
            proof {
                let next = split_seq(cs@.take(i + 1), sep);
                assert(next.drop_last() =~= prev.drop_last());
            }
        }
        i = i + 1;
    }
    push_name(&mut names, &cur);
    proof {
        let all = split_seq(cs@.take(i as int), sep);
        assert(cs@.take(i as int) == raw@);
        assert(all == all.drop_last().push(all.last()));
        assert(collect_names(all) == add_name(collect_names(all.drop_last()), all.last()));
    }
    if names.len() == 0 {
        names.push(String::new());
        assert(views(names@) =~= seq![Seq::<char>::empty()]);
    }
    names
}

/// Joins host names into one `hostname` field, separated by `", "`.
/// The catch-all list `[""]` joins to the empty string.
pub fn join_hostnames(names: &[String]) -> (r: String)
    ensures
        r@ == seq_join(views(names@), ", "@),
{
    if names.len() == 1 && names[0].as_str().is_empty() {
        proof {
            assert(views(names@).len() == 1);
        }
        String::new()
    } else {
        join_strings(names, ", ")
    }
}


/// No character of `s` satisfies `sep`.
pub open spec fn free_of(s: Seq<char>, sep: spec_fn(char) -> bool) -> bool {
    forall|k: int| 0 <= k < s.len() ==> !sep(#[trigger] s[k])
}

/// Names as [`hostnames_of`] lists them: non-empty, without separators,
/// lower-case and distinct.
pub open spec fn normal_names(ns: Seq<Seq<char>>) -> bool {
    &&& forall|i: int|
        0 <= i < ns.len() ==> (#[trigger] ns[i]).len() > 0 && free_of(ns[i], |c: char| is_host_sep(c))
            && lower_seq(ns[i]) == ns[i]
    &&& forall|i: int, j: int| 0 <= i < j < ns.len() ==> #[trigger] ns[i] != #[trigger] ns[j]
}

proof fn lemma_split_pieces_free(s: Seq<char>, sep: spec_fn(char) -> bool)
    ensures
        forall|i: int| 0 <= i < split_seq(s, sep).len() ==> free_of(#[trigger] split_seq(s, sep)[i], sep),
    decreases s.len(),
{
    if s.len() > 0 {
        let t = s.drop_last();
        lemma_split_pieces_free(t, sep);
        lemma_split_nonempty(t, sep);
        let prev = split_seq(t, sep);
        let now = split_seq(s, sep);
        if sep(s.last()) {
            assert(now == prev.push(Seq::<char>::empty()));
            assert forall|i: int| 0 <= i < now.len() implies free_of(#[trigger] now[i], sep) by {
                if i < prev.len() {
                    assert(now[i] == prev[i]);
                }
            }
        } else {
            let last = prev.last().push(s.last());
            assert(now == prev.update(prev.len() - 1, last));
            assert(free_of(prev[prev.len() - 1], sep));
            assert forall|k: int| 0 <= k < last.len() implies !sep(#[trigger] last[k]) by {
                if k < prev.last().len() {
                    assert(last[k] == prev.last()[k]);
                }
            }
            assert forall|i: int| 0 <= i < now.len() implies free_of(#[trigger] now[i], sep) by {
                if i < prev.len() - 1 {
                    assert(now[i] == prev[i]);
                }
            }
        }
    }
}

proof fn lemma_split_free(t: Seq<char>, sep: spec_fn(char) -> bool)
    requires
        free_of(t, sep),
    ensures
        split_seq(t, sep) == seq![t],
    decreases t.len(),
{
    if t.len() > 0 {
        let d = t.drop_last();
        assert(free_of(d, sep)) by {
            assert forall|k: int| 0 <= k < d.len() implies !sep(#[trigger] d[k]) by {
                assert(d[k] == t[k]);
            }
        }
        lemma_split_free(d, sep);
        assert(!sep(t[t.len() - 1]));
        assert(d.push(t.last()) =~= t);
        assert(seq![d].update(0, d.push(t.last())) =~= seq![t]);
    } else {
        assert(t =~= Seq::<char>::empty());
    }
}

proof fn lemma_split_append_free(s: Seq<char>, t: Seq<char>, sep: spec_fn(char) -> bool)
    requires
        free_of(t, sep),
    ensures
        split_seq(s, sep).len() >= 1,
        split_seq(s + t, sep) == split_seq(s, sep).update(
            split_seq(s, sep).len() - 1,
            split_seq(s, sep).last() + t,
        ),
    decreases t.len(),
{
    lemma_split_nonempty(s, sep);
    let ps = split_seq(s, sep);
    if t.len() == 0 {
        assert(s + t =~= s);
        assert(ps.last() + t =~= ps.last());
        assert(ps.update(ps.len() - 1, ps.last() + t) =~= ps);
    } else {
        let d = t.drop_last();
        assert(free_of(d, sep)) by {
            assert forall|k: int| 0 <= k < d.len() implies !sep(#[trigger] d[k]) by {
                assert(d[k] == t[k]);
            }
        }
        lemma_split_append_free(s, d, sep);
        let st = s + t;
        assert(st.drop_last() =~= s + d);
        assert(st.last() == t[t.len() - 1]);
        assert(!sep(st.last()));
        let prev = split_seq(s + d, sep);
        assert(prev == ps.update(ps.len() - 1, ps.last() + d));
        assert(prev.last().push(st.last()) =~= ps.last() + t);
        assert(prev.update(prev.len() - 1, prev.last().push(st.last())) =~= ps.update(
            ps.len() - 1,
            ps.last() + t,
        ));
    }
}

proof fn lemma_split_after_sep(s: Seq<char>, c: char, sep: spec_fn(char) -> bool)
    requires
        sep(c),
    ensures
        split_seq(s.push(c), sep) == split_seq(s, sep).push(Seq::<char>::empty()),
{
    assert(s.push(c).drop_last() =~= s);
}

proof fn lemma_piece_name_free(p: Seq<char>)
    requires
        free_of(p, |c: char| is_host_sep(c)),
    ensures
        piece_name(p) == lower_seq(p),
        free_of(lower_seq(p), |c: char| is_host_sep(c)),
        lower_seq(lower_seq(p)) == lower_seq(p),
        lower_seq(p).len() == p.len(),
{
    if p.len() > 0 {
        assert(!is_host_sep(p[0]));
        assert(!is_host_sep(p[p.len() - 1]));
    }
    assert(trim_seq(p) == p);
    let l = lower_seq(p);
    assert forall|k: int| 0 <= k < l.len() implies !is_host_sep(#[trigger] l[k]) by {
        assert(!is_host_sep(p[k]));
    }
    assert(lower_seq(l) =~= l);
}

proof fn lemma_names_normal(pieces: Seq<Seq<char>>)
    requires
        forall|i: int| 0 <= i < pieces.len() ==> free_of(#[trigger] pieces[i], |c: char| is_host_sep(c)),
    ensures
        normal_names(collect_names(pieces)),
    decreases pieces.len(),
{
    if pieces.len() > 0 {
        let d = pieces.drop_last();
        assert forall|i: int| 0 <= i < d.len() implies free_of(#[trigger] d[i], |c: char| is_host_sep(c)) by {
            assert(d[i] == pieces[i]);
        }
        lemma_names_normal(d);
        let prev = collect_names(d);
        let p = pieces.last();
        assert(free_of(p, |c: char| is_host_sep(c))) by {
            assert(p == pieces[pieces.len() - 1]);
        }
        lemma_piece_name_free(p);
        let name = piece_name(p);
        if !(name.len() == 0 || prev.contains(name)) {
            let now = prev.push(name);
            assert forall|i: int, j: int| 0 <= i < j < now.len() implies #[trigger] now[i] != #[trigger] now[j] by {
                if j == prev.len() {
                    assert(now[i] == prev[i]);
                    assert(!prev.contains(name));
                } else {
                    assert(now[i] == prev[i]);
                    assert(now[j] == prev[j]);
                }
            }
            assert forall|i: int| 0 <= i < now.len() implies (#[trigger] now[i]).len() > 0 && free_of(
                now[i],
                |c: char| is_host_sep(c),
            ) && lower_seq(now[i]) == now[i] by {
                if i < prev.len() {
                    assert(now[i] == prev[i]);
                }
            }
        }
    }
}

proof fn lemma_join_names(ns: Seq<Seq<char>>)
    requires
        ns.len() >= 1,
        normal_names(ns),
    ensures
        collect_names(split_seq(seq_join(ns, ", "@), |c: char| is_host_sep(c))) == ns,
    decreases ns.len(),
{
    let sep = |c: char| is_host_sep(c);
    reveal_strlit(", ");
    if ns.len() == 1 {
        assert(ns[0].len() > 0 && free_of(ns[0], sep) && lower_seq(ns[0]) == ns[0]);
        lemma_split_free(ns[0], sep);
        lemma_piece_name_free(ns[0]);
        let one = seq![ns[0]];
        assert(one.drop_last() =~= Seq::<Seq<char>>::empty());
        assert(collect_names(Seq::<Seq<char>>::empty()) == Seq::<Seq<char>>::empty());
        assert(one.last() == ns[0]);
        assert(collect_names(one) == add_name(Seq::<Seq<char>>::empty(), ns[0]));
        assert(seq![ns[0]] =~= ns);
    } else {
        let d = ns.drop_last();
        let l = ns.last();
        assert(normal_names(d)) by {
            assert forall|i: int, j: int| 0 <= i < j < d.len() implies #[trigger] d[i] != #[trigger] d[j] by {
                assert(d[i] == ns[i]);
                assert(d[j] == ns[j]);
            }
            assert forall|i: int| 0 <= i < d.len() implies (#[trigger] d[i]).len() > 0 && free_of(d[i], sep)
                && lower_seq(d[i]) == d[i] by {
                assert(d[i] == ns[i]);
            }
        }
        lemma_join_names(d);
        let a = seq_join(d, ", "@);
        assert(seq_join(ns, ", "@) == a + ", "@ + l);
        assert(a + ", "@ + l =~= a.push(',').push(' ') + l);
        assert(l == ns[ns.len() - 1]);
        assert(free_of(l, sep) && l.len() > 0 && lower_seq(l) == l);
        lemma_split_after_sep(a, ',', sep);
        lemma_split_after_sep(a.push(','), ' ', sep);
        lemma_split_append_free(a.push(',').push(' '), l, sep);
        let x = split_seq(a, sep);
        let y = x.push(Seq::<char>::empty()).push(Seq::<char>::empty());
        assert(split_seq(a.push(',').push(' '), sep) == y);
        let z = x.push(Seq::<char>::empty()).push(l);
        assert(Seq::<char>::empty() + l =~= l);
        assert(y.update(y.len() - 1, y.last() + l) =~= z);
        assert(split_seq(seq_join(ns, ", "@), sep) == z);
        assert(z.drop_last() =~= x.push(Seq::<char>::empty()));
        assert(x.push(Seq::<char>::empty()).drop_last() =~= x);
        let e = Seq::<char>::empty();
        assert(piece_name(e) =~= e) by {
            assert(trim_seq(e) == e);
        }
        assert(collect_names(x.push(e)) == collect_names(x));
        lemma_piece_name_free(l);
        assert(!d.contains(l)) by {
            if d.contains(l) {
                let i = choose|i: int| 0 <= i < d.len() && d[i] == l;
                assert(ns[i] == l);
                assert(ns[i] != ns[ns.len() - 1]);
            }
        }
        assert(collect_names(z) == add_name(collect_names(x.push(e)), l));
        assert(d.push(l) =~= ns);
    }
}

/// Listing a `hostname` field's names and reading the list back gives the
/// same names: `parse_hostnames(join_hostnames(parse_hostnames(raw)))`
/// equals `parse_hostnames(raw)`.
pub proof fn hostnames_round_trip(raw: Seq<char>)
    ensures
        hostnames_of(seq_join(hostnames_of(raw), ", "@)) == hostnames_of(raw),
{
    let sep = |c: char| is_host_sep(c);
    let pieces = split_seq(raw, sep);
    lemma_split_pieces_free(raw, sep);
    lemma_names_normal(pieces);
    let names = collect_names(pieces);
    if names.len() == 0 {
        let e = Seq::<char>::empty();
        assert(seq_join(seq![e], ", "@) == e);
        assert(split_seq(e, sep) == seq![e]);
        assert(seq![e].drop_last() =~= Seq::<Seq<char>>::empty());
        assert(trim_seq(e) == e);
        assert(collect_names(Seq::<Seq<char>>::empty()) == Seq::<Seq<char>>::empty());
        assert(seq![e].last() == e);
        assert(piece_name(e).len() == 0);
        assert(collect_names(seq![e]) =~= Seq::<Seq<char>>::empty());
    } else {
        lemma_join_names(names);
    }
}

} // verus!
