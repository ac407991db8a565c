//! The configuration store: the current configuration, a generation counter
//! that moves on every successful change, and the insert/replace/delete
//! operations with the reference checks that keep the configuration
//! consistent. Loading and saving the file is the caller's business.
use vstd::prelude::*;

use crate::model::{
    first_index, lemma_first_index_facts, Certificate, ConfigData, ConfigView, DnsProvider, Domain, Host, HostView,
    StreamConfig, Upstream, UpstreamView,
};
use crate::text::{owned, push_decimal, push_str};

verus! {

/// An entry of the configuration that carries an identifier.
pub trait Identified: Sized {
    /// The identifier, as a character sequence.
    spec fn key(&self) -> Seq<char>;

    /// The identifier.
    fn id_str(&self) -> (r: &String)
        ensures
            r@ == self.key(),
    ;
}

impl Identified for Certificate {
    open spec fn key(&self) -> Seq<char> {
        self.id@
    }

    fn id_str(&self) -> (r: &String) {
        &self.id
    }
}

impl Identified for DnsProvider {
    open spec fn key(&self) -> Seq<char> {
        self.id@
    }

    fn id_str(&self) -> (r: &String) {
        &self.id
    }
}

impl Identified for Domain {
    open spec fn key(&self) -> Seq<char> {
        self.id@
    }

    fn id_str(&self) -> (r: &String) {
        &self.id
    }
}

impl Identified for Upstream {
    open spec fn key(&self) -> Seq<char> {
        self.id@
    }

    fn id_str(&self) -> (r: &String) {
        &self.id
    }
}

impl Identified for Host {
    open spec fn key(&self) -> Seq<char> {
        self.id@
    }

    fn id_str(&self) -> (r: &String) {
        &self.id
    }
}

impl Identified for StreamConfig {
    open spec fn key(&self) -> Seq<char> {
        self.id@
    }

    fn id_str(&self) -> (r: &String) {
        &self.id
    }
}

/// The identifiers of a list of entries.
pub open spec fn keys<T: Identified>(s: Seq<T>) -> Seq<Seq<char>> {
    s.map_values(|x: T| x.key())
}

/// The list after putting `item` in place of the first entry with its
/// identifier, or at the end when there is none.
pub open spec fn upserted<T: Identified>(s: Seq<T>, item: T) -> Seq<T> {
    match first_index(keys(s), item.key()) {
        Some(i) => s.update(i, item),
        None => s.push(item),
    }
}

/// The list without the entries whose identifier is `id`, order kept.
pub open spec fn without<T: Identified>(s: Seq<T>, id: Seq<char>) -> Seq<T>
    decreases s.len(),
{
    if s.len() == 0 {
        s
    } else if s.last().key() == id {
        without(s.drop_last(), id)
    } else {
        without(s.drop_last(), id).push(s.last())
    }
}

/// Some entry has identifier `id`.
pub open spec fn has_key<T: Identified>(s: Seq<T>, id: Seq<char>) -> bool {
    exists|i: int| 0 <= i < s.len() && s[i].key() == id
}

/// Replaces the first entry with the item's identifier, or appends the item.
pub fn upsert_by_id<T: Identified>(v: &mut Vec<T>, item: T)
    ensures
        final(v)@ == upserted(old(v)@, item),
{
    let ghost ks = keys(v@);
    let mut i: usize = 0;
    while i < v.len()
        invariant
            i <= v@.len(),
            v@ == old(v)@,
            ks == keys(v@),
            forall|k: int| 0 <= k < i ==> ks[k] != item.key(),
        decreases v.len() - i,
    {
        if *v[i].id_str() == *item.id_str() {
            proof {
                crate::model::lemma_first_index(ks, item.key(), i as int);
            }
            v.set(i, item);
            return ;
        }
        i = i + 1;
    }
    assert(!(exists|k: int| 0 <= k < ks.len() && ks[k] == item.key()));
    v.push(item);
}

/// Removes every entry with identifier `id`; tells whether there was one.
pub fn remove_by_id<T: Identified>(v: &mut Vec<T>, id: &str) -> (r: bool)
    ensures
        final(v)@ == without(old(v)@, id@),
        r == has_key(old(v)@, id@),
{
    let key = owned(id);
    let mut kept: Vec<T> = Vec::new();
    let mut found = false;
    let mut rest: Vec<T> = Vec::new();
    std::mem::swap(&mut rest, v);
    let ghost all = rest@;
    // take the entries back to front, then restore the order
    let mut back: Vec<T> = Vec::new();
    while rest.len() > 0
        invariant
            rest@.len() + back@.len() == all.len(),
            rest@ == all.take(rest@.len() as int),
            forall|k: int| 0 <= k < back@.len() ==> #[trigger] back@[k] == all[all.len() - 1 - k],
        decreases rest.len(),
    {
        let x = rest.pop().unwrap();
        back.push(x);
        assert(rest@ =~= all.take(rest@.len() as int));
    }
    let mut j: usize = back.len();
    while j > 0
        invariant
            j == back@.len(),
            j <= all.len(),
            key@ == id@,
            forall|k: int| 0 <= k < back@.len() ==> #[trigger] back@[k] == all[all.len() - 1 - k],
            kept@ == without(all.take(all.len() - j), id@),
            found == has_key(all.take(all.len() - j), id@),
        decreases j,
    {
        let x = back.pop().unwrap();
        j = j - 1;
        let ghost pre = all.take(all.len() - j - 1);
        let ghost now = all.take(all.len() - j);
        assert(x == all[all.len() - 1 - j]);
        assert(now.drop_last() =~= pre);
        assert(now.last() == x);
        if *x.id_str() == key {
            found = true;
            assert(now[now.len() - 1].key() == id@);
        } else {
            proof {
                if has_key(now, id@) {
                    let w = choose|w: int| 0 <= w < now.len() && now[w].key() == id@;
                    assert(pre[w] == now[w]);
                }
            }
            kept.push(x);
        }
        proof {
            if has_key(pre, id@) {
                let w = choose|w: int| 0 <= w < pre.len() && pre[w].key() == id@;
                assert(now[w] == pre[w]);
            }
        }
    }
    assert(all.take(all.len() as int) =~= all);
    *v = kept;
    found
}

/// Why the store refused a change.
#[derive(Debug)]
pub enum StoreError {
    /// The change would break the configuration; the text says why.
    Message(String),
}

/// A refusal with the given text.
pub open spec fn refused(e: StoreError, text: Seq<char>) -> bool {
    match e {
        StoreError::Message(m) => m@ == text,
    }
}

/// Some domain's certificate is `id`.
pub open spec fn domain_uses_cert(ds: Seq<Domain>, id: Seq<char>) -> bool {
    exists|i: int| 0 <= i < ds.len() && ((#[trigger] ds[i]).cert_id matches Some(c) && c@ == id)
}

/// Some host's certificate is `id`.
pub open spec fn host_uses_cert(hs: Seq<Host>, id: Seq<char>) -> bool {
    exists|i: int| 0 <= i < hs.len() && ((#[trigger] hs[i]).cert_id matches Some(c) && c@ == id)
}

/// Some domain's DNS provider is `id`.
pub open spec fn domain_uses_dns(ds: Seq<Domain>, id: Seq<char>) -> bool {
    exists|i: int|
        0 <= i < ds.len() && ((#[trigger] ds[i]).dns_provider_id matches Some(c) && c@ == id)
}

/// Some host sends traffic to upstream `id`, by default or through a route.
pub open spec fn host_uses_upstream(hs: Seq<Host>, id: Seq<char>) -> bool {
    exists|i: int|
        0 <= i < hs.len() && ((#[trigger] hs[i]).default_upstream_id@ == id || exists|j: int|
            0 <= j < hs[i].routes@.len() && (#[trigger] hs[i].routes@[j]).upstream_id@ == id)
}

/// An upstream group counts as in use (so that deleting it is refused and
/// changes nothing) exactly when some host names it as its default
/// upstream or some route of some host sends traffic to it; when it is not
/// in use, no host's default and no route names it.
pub proof fn upstream_in_use_iff_referenced(hs: Seq<Host>, id: Seq<char>)
    ensures
        host_uses_upstream(hs, id) <==> (exists|i: int|
            0 <= i < hs.len() && #[trigger] hs[i].default_upstream_id@ == id) || (exists|i: int, j: int|
            0 <= i < hs.len() && 0 <= j < hs[i].routes@.len() && #[trigger] hs[i].routes@[j].upstream_id@
                == id),
        !host_uses_upstream(hs, id) ==> forall|i: int, j: int|
            0 <= i < hs.len() && 0 <= j < hs[i].routes@.len() ==> #[trigger] hs[i].routes@[j].upstream_id@
                != id,
{
    if exists|i: int, j: int|
        0 <= i < hs.len() && 0 <= j < hs[i].routes@.len() && #[trigger] hs[i].routes@[j].upstream_id@
            == id {
        let (i, j) = choose|i: int, j: int|
            0 <= i < hs.len() && 0 <= j < hs[i].routes@.len() && #[trigger] hs[i].routes@[j].upstream_id@
                == id;
        assert(hs[i].routes@[j].upstream_id@ == id);
        assert(host_uses_upstream(hs, id));
    }
    if exists|i: int| 0 <= i < hs.len() && #[trigger] hs[i].default_upstream_id@ == id {
        let i = choose|i: int| 0 <= i < hs.len() && #[trigger] hs[i].default_upstream_id@ == id;
        assert(hs[i].default_upstream_id@ == id);
    }
    if host_uses_upstream(hs, id) {
        let i = choose|i: int|
            0 <= i < hs.len() && ((#[trigger] hs[i]).default_upstream_id@ == id || exists|j: int|
                0 <= j < hs[i].routes@.len() && (#[trigger] hs[i].routes@[j]).upstream_id@ == id);
        if hs[i].default_upstream_id@ != id {
            let j = choose|j: int|
                0 <= j < hs[i].routes@.len() && (#[trigger] hs[i].routes@[j]).upstream_id@ == id;
            assert(hs[i].routes@[j].upstream_id@ == id);
        }
    }
}

/// Some other stream (another id) listens on `port`.
pub open spec fn port_taken(ss: Seq<StreamConfig>, port: u16, id: Seq<char>) -> bool {
    exists|i: int|
        0 <= i < ss.len() && (#[trigger] ss[i]).listen_port == port && ss[i].id@ != id
}

/// No two streams listen on the same port.
pub open spec fn ports_distinct(ss: Seq<StreamConfig>) -> bool {
    forall|i: int, j: int|
        0 <= i < ss.len() && 0 <= j < ss.len() && i != j ==> (#[trigger] ss[i]).listen_port
            != (#[trigger] ss[j]).listen_port
}

fn opt_is(o: &Option<String>, key: &String) -> (r: bool)
    ensures
        r == match o {
            Some(c) => c@ == key@,
            None => false,
        },
{
    match o {
        Some(c) => *c == *key,
        None => false,
    }
}

/// The configuration together with its generation.
pub struct Store {
    data: ConfigData,
    generation: u64,
}

/// The mathematical value of a store.
pub struct StoreView {
    pub data: ConfigView,
    pub generation: u64,
}

impl View for Store {
    type V = StoreView;

    closed spec fn view(&self) -> StoreView {
        StoreView { data: self.data@, generation: self.generation }
    }
}

/// The generation after a successful change (it wraps around like an
/// atomic counter).
pub open spec fn next_generation(g: u64) -> u64 {
    if g == u64::MAX {
        0
    } else {
        (g + 1) as u64
    }
}

impl Store {
    /// The raw configuration held.
    pub closed spec fn config(&self) -> ConfigData {
        self.data
    }

    /// A store holding `data`, at generation 1.
    pub fn new(data: ConfigData) -> (r: Self)
        ensures
            r@.data == data@,
            r.config() == data,
            r@.generation == 1,
    {
        Store { data, generation: 1 }
    }

    /// How many changes the store has taken (plus one).
    pub fn generation(&self) -> (r: u64)
        ensures
            r == self@.generation,
    {
        self.generation
    }

    /// The configuration currently held.
    pub fn data(&self) -> (r: &ConfigData)
        ensures
            *r == self.config(),
            r@ == self@.data,
    {
        &self.data
    }

    fn bump(&mut self)
        ensures
            final(self).data == old(self).data,
            final(self).generation == next_generation(old(self).generation),
    {
        self.generation = self.generation.wrapping_add(1);
    }

    /// A copy of the configuration currently held.
    pub fn snapshot(&self) -> (r: ConfigData)
        ensures
            r@ == self@.data,
    {
        self.data.clone()
    }

    /// Replaces the whole configuration.
    pub fn replace(&mut self, data: ConfigData)
        ensures
            final(self).config() == data,
            final(self)@.generation == next_generation(old(self)@.generation),
    {
        self.data = data;
        self.bump();
    }

    /// Puts a certificate in place of the one with its id, or adds it.
    pub fn upsert_certificate(&mut self, item: Certificate) -> (r: Certificate)
        ensures
            r == item,
            final(self)@.data == (ConfigView {
                certificates: upserted(old(self)@.data.certificates, item),
                ..old(self)@.data
            }),
            final(self)@.generation == next_generation(old(self)@.generation),
    {
        let copy = item.clone();
        upsert_by_id(&mut self.data.certificates, item);
        self.bump();
        copy
    }

    /// Puts a DNS provider in place of the one with its id, or adds it.
    pub fn upsert_dns_provider(&mut self, item: DnsProvider) -> (r: DnsProvider)
        ensures
            r == item,
            final(self)@.data == (ConfigView {
                dns_providers: upserted(old(self)@.data.dns_providers, item),
                ..old(self)@.data
            }),
            final(self)@.generation == next_generation(old(self)@.generation),
    {
        let copy = item.clone();
        upsert_by_id(&mut self.data.dns_providers, item);
        self.bump();
        copy
    }

    /// Puts a domain in place of the one with its id, or adds it.
    pub fn upsert_domain(&mut self, item: Domain) -> (r: Domain)
        ensures
            r == item,
            final(self)@.data == (ConfigView {
                domains: upserted(old(self)@.data.domains, item),
                ..old(self)@.data
            }),
            final(self)@.generation == next_generation(old(self)@.generation),
    {
        let copy = item.clone();
        upsert_by_id(&mut self.data.domains, item);
        self.bump();
        copy
    }

    /// Puts an upstream group in place of the one with its id, or adds it.
    pub fn upsert_upstream(&mut self, item: Upstream) -> (r: Upstream)
        ensures
            r@ == item@,
            final(self).config().upstreams@ == upserted(old(self).config().upstreams@, item),
            final(self)@.data == (ConfigView {
                upstreams: final(self)@.data.upstreams,
                ..old(self)@.data
            }),
            final(self)@.generation == next_generation(old(self)@.generation),
    {
        let copy = item.clone();
        upsert_by_id(&mut self.data.upstreams, item);
        self.bump();
        copy
    }

    /// Puts a host in place of the one with its id, or adds it.
    pub fn upsert_host(&mut self, item: Host) -> (r: Host)
        ensures
            r@ == item@,
            final(self).config().hosts@ == upserted(old(self).config().hosts@, item),
            final(self)@.data == (ConfigView { hosts: final(self)@.data.hosts, ..old(self)@.data }),
            final(self)@.generation == next_generation(old(self)@.generation),
    {
        let copy = item.clone();
        upsert_by_id(&mut self.data.hosts, item);
        self.bump();
        copy
    }

    /// Puts a stream in place of the one with its id, or adds it; refused
    /// (and nothing changes) when another stream already listens on its port.
    pub fn upsert_stream(&mut self, item: StreamConfig) -> (r: Result<StreamConfig, StoreError>)
        ensures
            port_taken(old(self)@.data.streams, item.listen_port, item.id@) <==> r is Err,
            r matches Err(e) ==> refused(
                e,
                "监听端口 "@ + crate::text::decimal(item.listen_port as nat) + " 已被占用"@,
            ) && final(self)@ == old(self)@,
            r matches Ok(s) ==> s == item && final(self)@.data == (ConfigView {
                streams: upserted(old(self)@.data.streams, item),
                ..old(self)@.data
            }) && final(self)@.generation == next_generation(old(self)@.generation),
    {
        let mut i: usize = 0;
        while i < self.data.streams.len()
            invariant
                i <= self.data.streams@.len(),
                forall|k: int|
                    0 <= k < i ==> !((#[trigger] self.data.streams@[k]).listen_port
                        == item.listen_port && self.data.streams@[k].id@ != item.id@),
            decreases self.data.streams.len() - i,
        {
            let s = &self.data.streams[i];
            if s.listen_port == item.listen_port && !(s.id == item.id) {
                let mut msg = owned("监听端口 ");
                push_decimal(&mut msg, item.listen_port as u64);
                push_str(&mut msg, " 已被占用");
                proof {
                    reveal_strlit("监听端口 ");
                    reveal_strlit(" 已被占用");
                }
                return Err(StoreError::Message(msg));
            }
            i = i + 1;
        }
        let copy = item.clone();
        upsert_by_id(&mut self.data.streams, item);
        self.bump();
        Ok(copy)
    }
}


fn any_domain_cert(ds: &Vec<Domain>, key: &String) -> (r: bool)
    ensures
        r == domain_uses_cert(ds@, key@),
{
    let mut i: usize = 0;
    while i < ds.len()
        invariant
            i <= ds@.len(),
            forall|k: int| 0 <= k < i ==> !((#[trigger] ds@[k]).cert_id matches Some(c) && c@ == key@),
        decreases ds.len() - i,
    {
        if opt_is(&ds[i].cert_id, key) {
            return true;
        }
        i = i + 1;
    }
    false
}

fn any_host_cert(hs: &Vec<Host>, key: &String) -> (r: bool)
    ensures
        r == host_uses_cert(hs@, key@),
{
    let mut i: usize = 0;
    while i < hs.len()
        invariant
            i <= hs@.len(),
            forall|k: int| 0 <= k < i ==> !((#[trigger] hs@[k]).cert_id matches Some(c) && c@ == key@),
        decreases hs.len() - i,
    {
        if opt_is(&hs[i].cert_id, key) {
            return true;
        }
        i = i + 1;
    }
    false
}

fn any_domain_dns(ds: &Vec<Domain>, key: &String) -> (r: bool)
    ensures
        r == domain_uses_dns(ds@, key@),
{
    let mut i: usize = 0;
    while i < ds.len()
        invariant
            i <= ds@.len(),
            forall|k: int|
                0 <= k < i ==> !((#[trigger] ds@[k]).dns_provider_id matches Some(c) && c@ == key@),
        decreases ds.len() - i,
    {
        if opt_is(&ds[i].dns_provider_id, key) {
            return true;
        }
        i = i + 1;
    }
    false
}

fn any_host_upstream(hs: &Vec<Host>, key: &String) -> (r: bool)
    ensures
        r == host_uses_upstream(hs@, key@),
{
    let mut i: usize = 0;
    while i < hs.len()
        invariant
            i <= hs@.len(),
            forall|k: int|
                0 <= k < i ==> !((#[trigger] hs@[k]).default_upstream_id@ == key@ || exists|j: int|
                    0 <= j < hs@[k].routes@.len() && (#[trigger] hs@[k].routes@[j]).upstream_id@
                        == key@),
        decreases hs.len() - i,
    {
        let h = &hs[i];
        if h.default_upstream_id == *key {
            return true;
        }
        let mut j: usize = 0;
        while j < h.routes.len()
            invariant
                j <= h.routes@.len(),
                i < hs@.len(),
                *h == hs@[i as int],
                forall|q: int| 0 <= q < j ==> (#[trigger] h.routes@[q]).upstream_id@ != key@,
            decreases h.routes.len() - j,
        {
            if h.routes[j].upstream_id == *key {
                assert(hs@[i as int].routes@[j as int].upstream_id@ == key@);
                return true;
            }
            j = j + 1;
        }
        i = i + 1;
    }
    false
}

impl Store {
    /// Removes the certificate `id`. Refused while a domain or host uses it,
    /// and when there is no such certificate; nothing changes then.
    pub fn delete_certificate(&mut self, id: &str) -> (r: Result<(), StoreError>)
        ensures
            ({
                let d = old(self)@.data;
                if domain_uses_cert(d.domains, id@) || host_uses_cert(old(self).config().hosts@, id@) {
                    r matches Err(e) && refused(e, "证书仍被域名或主机引用"@) && final(self)@ == old(self)@
                } else if !has_key(d.certificates, id@) {
                    r matches Err(e) && refused(e, "证书不存在"@) && final(self)@ == old(self)@
                } else {
                    r is Ok && final(self)@.data == (ConfigView {
                        certificates: without(d.certificates, id@),
                        ..d
                    }) && final(self)@.generation == next_generation(old(self)@.generation)
                }
            }),
    {
        let key = owned(id);
        if any_domain_cert(&self.data.domains, &key) || any_host_cert(&self.data.hosts, &key) {
            proof {
                reveal_strlit("证书仍被域名或主机引用");
            }
            return Err(StoreError::Message(owned("证书仍被域名或主机引用")));
        }
        if !remove_by_id(&mut self.data.certificates, id) {
            proof {
                reveal_strlit("证书不存在");
                lemma_without_absent(old(self).data.certificates@, id@);
            }
            return Err(StoreError::Message(owned("证书不存在")));
        }
        self.bump();
        Ok(())
    }

    /// Removes the DNS provider `id`. Refused while a domain uses it, and
    /// when there is no such provider; nothing changes then.
    pub fn delete_dns_provider(&mut self, id: &str) -> (r: Result<(), StoreError>)
        ensures
            ({
                let d = old(self)@.data;
                if domain_uses_dns(d.domains, id@) {
                    r matches Err(e) && refused(e, "DNS 提供商仍被域名引用"@) && final(self)@ == old(self)@
                } else if !has_key(d.dns_providers, id@) {
                    r matches Err(e) && refused(e, "DNS 提供商不存在"@) && final(self)@ == old(self)@
                } else {
                    r is Ok && final(self)@.data == (ConfigView {
                        dns_providers: without(d.dns_providers, id@),
                        ..d
                    }) && final(self)@.generation == next_generation(old(self)@.generation)
                }
            }),
    {
        let key = owned(id);
        if any_domain_dns(&self.data.domains, &key) {
            proof {
                reveal_strlit("DNS 提供商仍被域名引用");
            }
            return Err(StoreError::Message(owned("DNS 提供商仍被域名引用")));
        }
        if !remove_by_id(&mut self.data.dns_providers, id) {
            proof {
                reveal_strlit("DNS 提供商不存在");
                lemma_without_absent(old(self).data.dns_providers@, id@);
            }
            return Err(StoreError::Message(owned("DNS 提供商不存在")));
        }
        self.bump();
        Ok(())
    }

    /// Removes the domain `id`; refused when there is none.
    pub fn delete_domain(&mut self, id: &str) -> (r: Result<(), StoreError>)
        ensures
            ({
                let d = old(self)@.data;
                if !has_key(d.domains, id@) {
                    r matches Err(e) && refused(e, "域名不存在"@) && final(self)@ == old(self)@
                } else {
                    r is Ok && final(self)@.data == (ConfigView {
                        domains: without(d.domains, id@),
                        ..d
                    }) && final(self)@.generation == next_generation(old(self)@.generation)
                }
            }),
    {
        if !remove_by_id(&mut self.data.domains, id) {
            proof {
                reveal_strlit("域名不存在");
                lemma_without_absent(old(self).data.domains@, id@);
            }
            return Err(StoreError::Message(owned("域名不存在")));
        }
        self.bump();
        Ok(())
    }

    /// Removes the upstream group `id`. Refused while a host or route sends
    /// traffic to it, and when there is none; nothing changes then.
    pub fn delete_upstream(&mut self, id: &str) -> (r: Result<(), StoreError>)
        ensures
            ({
                let d = old(self).config();
                if host_uses_upstream(d.hosts@, id@) {
                    r matches Err(e) && refused(e, "服务组仍被主机或路由引用"@) && final(self)@ == old(self)@
                } else if !has_key(d.upstreams@, id@) {
                    r matches Err(e) && refused(e, "服务组不存在"@) && final(self)@ == old(self)@
                } else {
                    r is Ok && final(self).config().upstreams@ == without(d.upstreams@, id@)
                        && final(self)@.data == (ConfigView {
                        upstreams: final(self)@.data.upstreams,
                        ..old(self)@.data
                    }) && final(self)@.generation == next_generation(old(self)@.generation)
                }
            }),
    {
        let key = owned(id);
        if any_host_upstream(&self.data.hosts, &key) {
            proof {
                reveal_strlit("服务组仍被主机或路由引用");
            }
            return Err(StoreError::Message(owned("服务组仍被主机或路由引用")));
        }
        if !remove_by_id(&mut self.data.upstreams, id) {
            proof {
                reveal_strlit("服务组不存在");
                lemma_without_absent(old(self).data.upstreams@, id@);
                assert(self.data.upstreams@.map_values(|u: Upstream| u@) =~= old(self).data.upstreams@.map_values(|u: Upstream| u@));
            }
            return Err(StoreError::Message(owned("服务组不存在")));
        }
        self.bump();
        Ok(())
    }

    /// Removes the host `id`; refused when there is none.
    pub fn delete_host(&mut self, id: &str) -> (r: Result<(), StoreError>)
        ensures
            ({
                let d = old(self).config();
                if !has_key(d.hosts@, id@) {
                    r matches Err(e) && refused(e, "主机不存在"@) && final(self)@ == old(self)@
                } else {
                    r is Ok && final(self).config().hosts@ == without(d.hosts@, id@)
                        && final(self)@.data == (ConfigView {
                        hosts: final(self)@.data.hosts,
                        ..old(self)@.data
                    }) && final(self)@.generation == next_generation(old(self)@.generation)
                }
            }),
    {
        if !remove_by_id(&mut self.data.hosts, id) {
            proof {
                reveal_strlit("主机不存在");
                lemma_without_absent(old(self).data.hosts@, id@);
                assert(self.data.hosts@.map_values(|h: Host| h@) =~= old(self).data.hosts@.map_values(|h: Host| h@));
            }
            return Err(StoreError::Message(owned("主机不存在")));
        }
        self.bump();
        Ok(())
    }

    /// Removes the stream `id`; refused when there is none.
    pub fn delete_stream(&mut self, id: &str) -> (r: Result<(), StoreError>)
        ensures
            ({
                let d = old(self)@.data;
                if !has_key(d.streams, id@) {
                    r matches Err(e) && refused(e, "数据流不存在"@) && final(self)@ == old(self)@
                } else {
                    r is Ok && final(self)@.data == (ConfigView {
                        streams: without(d.streams, id@),
                        ..d
                    }) && final(self)@.generation == next_generation(old(self)@.generation)
                }
            }),
    {
        if !remove_by_id(&mut self.data.streams, id) {
            proof {
                reveal_strlit("数据流不存在");
                lemma_without_absent(old(self).data.streams@, id@);
            }
            return Err(StoreError::Message(owned("数据流不存在")));
        }
        self.bump();
        Ok(())
    }
}

/// Removing an identifier that is absent leaves the list as it was.
pub proof fn lemma_without_absent<T: Identified>(s: Seq<T>, id: Seq<char>)
    requires
        !has_key(s, id),
    ensures
        without(s, id) == s,
    decreases s.len(),
{
    if s.len() > 0 {
        assert(!has_key(s.drop_last(), id)) by {
            if has_key(s.drop_last(), id) {
                let w = choose|w: int| 0 <= w < s.drop_last().len() && s.drop_last()[w].key() == id;
                assert(s.drop_last()[w] == s[w]);
                assert(0 <= w < s.len() && s[w].key() == id);
            }
        }
        lemma_without_absent(s.drop_last(), id);
        assert(s.last().key() != id) by {
            if s.last().key() == id {
                assert(s[s.len() - 1].key() == id);
            }
        }
        assert(s.drop_last().push(s.last()) =~= s);
    }
}


/// Where an upserted entry sits: at the first entry with its identifier,
/// else at the end.
pub open spec fn upsert_pos<T: Identified>(s: Seq<T>, item: T) -> int {
    match first_index(keys(s), item.key()) {
        Some(i) => i,
        None => s.len() as int,
    }
}


/// Upserting keeps the identifiers, adding the new one at the end when it
/// was not there.
pub proof fn lemma_keys_upserted<T: Identified>(s: Seq<T>, item: T)
    ensures
        keys(upserted(s, item)) == (match first_index(keys(s), item.key()) {
            Some(_) => keys(s),
            None => keys(s).push(item.key()),
        }),
        0 <= upsert_pos(s, item) < upserted(s, item).len(),
        upserted(s, item).len() == s.len() || (upserted(s, item).len() == s.len() + 1
            && upsert_pos(s, item) == s.len()),
        upserted(s, item)[upsert_pos(s, item)] == item,
        forall|q: int| 0 <= q < s.len() && q != upsert_pos(s, item) ==> upserted(s, item)[q] == s[q],
{
    lemma_first_index_facts(keys(s), item.key());
    let t = upserted(s, item);
    match first_index(keys(s), item.key()) {
        Some(i) => {
            assert(keys(t) =~= keys(s));
        },
        None => {
            assert(keys(t) =~= keys(s).push(item.key()));
        },
    }
}

proof fn lemma_first_index_push(ks: Seq<Seq<char>>, k: Seq<char>, x: Seq<char>)
    requires
        x != k,
    ensures
        first_index(ks.push(k), x) == first_index(ks, x),
{
    lemma_first_index_facts(ks, x);
    lemma_first_index_facts(ks.push(k), x);
    match first_index(ks, x) {
        Some(i) => {
            assert(ks.push(k)[i] == x);
            assert forall|q: int| 0 <= q < i implies ks.push(k)[q] != x by {
                assert(ks.push(k)[q] == ks[q]);
            }
            crate::model::lemma_first_index(ks.push(k), x, i);
        },
        None => {
            assert forall|q: int| 0 <= q < ks.push(k).len() implies ks.push(k)[q] != x by {
                if q < ks.len() {
                    assert(ks.push(k)[q] == ks[q]);
                }
            }
        },
    }
}

/// Law (read after write): after an entry is put into a list, looking its
/// identifier up finds that very entry, and every other identifier finds
/// what it found before.
pub proof fn upsert_then_lookup<T: Identified>(s: Seq<T>, item: T, other: Seq<char>)
    ensures
        first_index(keys(upserted(s, item)), item.key()) == Some(upsert_pos(s, item)),
        upserted(s, item)[upsert_pos(s, item)] == item,
        other != item.key() ==> first_index(keys(upserted(s, item)), other) == first_index(
            keys(s),
            other,
        ),
        other != item.key() ==> (first_index(keys(s), other) matches Some(a) ==> upserted(
            s,
            item,
        )[a] == s[a]),
{
    let t = upserted(s, item);
    let k = item.key();
    lemma_keys_upserted(s, item);
    lemma_first_index_facts(keys(s), k);
    lemma_first_index_facts(keys(s), other);
    match first_index(keys(s), k) {
        Some(i) => {
            crate::model::lemma_first_index(keys(t), k, i);
            if let Some(a) = first_index(keys(s), other) {
                if other != k {
                    assert(a != i);
                }
            }
        },
        None => {
            let n = s.len() as int;
            assert forall|q: int| 0 <= q < n implies keys(t)[q] != k by {
                assert(keys(t)[q] == keys(s)[q]);
            }
            crate::model::lemma_first_index(keys(t), k, n);
            if other != k {
                lemma_first_index_push(keys(s), k, other);
            }
        },
    }
}

/// Removal keeps exactly the entries with other identifiers, in order.
pub proof fn lemma_without_members<T: Identified>(s: Seq<T>, id: Seq<char>)
    ensures
        !has_key(without(s, id), id),
        forall|x: T| without(s, id).contains(x) <==> (s.contains(x) && x.key() != id),
        without(s, id).len() <= s.len(),
    decreases s.len(),
{
    if s.len() > 0 {
        let init = s.drop_last();
        lemma_without_members(init, id);
        let w = without(init, id);
        let t = without(s, id);
        assert(s.last() == s[s.len() - 1]);
        if s.last().key() == id {
            assert(t == w);
        } else {
            assert(t == w.push(s.last()));
        }
        assert forall|x: T| t.contains(x) implies (s.contains(x) && x.key() != id) by {
            let q = choose|q: int| 0 <= q < t.len() && t[q] == x;
            if q < w.len() {
                assert(t[q] == w[q]);
                assert(w.contains(x));
                let r = choose|r: int| 0 <= r < init.len() && init[r] == x;
                assert(s[r] == init[r]);
            } else {
                assert(x == s.last());
            }
        }
        assert forall|x: T| (s.contains(x) && x.key() != id) implies t.contains(x) by {
            let q = choose|q: int| 0 <= q < s.len() && s[q] == x;
            if q < init.len() {
                assert(init[q] == x);
                assert(init.contains(x));
                assert(w.contains(x));
                let r = choose|r: int| 0 <= r < w.len() && w[r] == x;
                assert(t[r] == w[r]);
            } else {
                assert(t[w.len() as int] == x);
            }
        }
        if has_key(without(s, id), id) {
            let q = choose|q: int| 0 <= q < without(s, id).len() && without(s, id)[q].key() == id;
            assert(without(s, id).contains(without(s, id)[q]));
        }
    }
}

/// Law (delete): after removing an identifier, no entry has it, and every
/// entry with another identifier is still there (and nothing else is).
pub proof fn delete_then_absent<T: Identified>(s: Seq<T>, id: Seq<char>)
    ensures
        !has_key(without(s, id), id),
        first_index(keys(without(s, id)), id) is None,
        forall|x: T| without(s, id).contains(x) <==> (s.contains(x) && x.key() != id),
{
    lemma_without_members(s, id);
    let t = without(s, id);
    if exists|i: int| 0 <= i < keys(t).len() && keys(t)[i] == id {
        let i = choose|i: int| 0 <= i < keys(t).len() && keys(t)[i] == id;
        assert(t[i].key() == id);
    }
}

/// Law: putting an entry into a list whose identifiers are distinct keeps
/// them distinct.
pub proof fn upsert_keeps_ids_distinct<T: Identified>(s: Seq<T>, item: T)
    requires
        keys(s).no_duplicates(),
    ensures
        keys(upserted(s, item)).no_duplicates(),
{
    lemma_keys_upserted(s, item);
    lemma_first_index_facts(keys(s), item.key());
    if first_index(keys(s), item.key()) is None {
        let ks = keys(s).push(item.key());
        assert forall|a: int, b: int| 0 <= a < ks.len() && 0 <= b < ks.len() && a != b implies ks[a] != ks[b] by {
            if a < keys(s).len() && b < keys(s).len() {
                assert(ks[a] == keys(s)[a] && ks[b] == keys(s)[b]);
            } else if a < keys(s).len() {
                assert(ks[a] == keys(s)[a]);
            } else {
                assert(ks[b] == keys(s)[b]);
            }
        }
    }
}

/// Law: with distinct stream ids, an accepted stream change keeps the
/// listen ports of all streams distinct.
#[verifier::rlimit(40)]
pub proof fn upsert_stream_keeps_ports_distinct(ss: Seq<StreamConfig>, item: StreamConfig)
    requires
        ports_distinct(ss),
        keys(ss).no_duplicates(),
        !port_taken(ss, item.listen_port, item.id@),
    ensures
        ports_distinct(upserted(ss, item)),
{
    let t = upserted(ss, item);
    let p = upsert_pos(ss, item);
    lemma_keys_upserted(ss, item);
    lemma_first_index_facts(keys(ss), item.key());
    assert forall|a: int| 0 <= a < t.len() && a != p implies (#[trigger] t[a]).listen_port
        != item.listen_port by {
        assert(t[a] == ss[a]);
        if ss[a].listen_port == item.listen_port {
            assert(ss[a].id@ == item.id@);
            assert(keys(ss)[a] == item.key());
            if let Some(i) = first_index(keys(ss), item.key()) {
                assert(keys(ss)[i] == item.key());
            }
        }
    }
    assert forall|a: int, b: int|
        0 <= a < t.len() && 0 <= b < t.len() && a != b implies (#[trigger] t[a]).listen_port
        != (#[trigger] t[b]).listen_port by {
        if a != p && b != p {
            assert(t[a] == ss[a] && t[b] == ss[b]);
        }
    }
}

} // verus!
