//! Choosing the certificate a TLS handshake is answered with, by server
//! name: exact names first, then wildcards, then the catch-all host's
//! certificate, then any usable certificate. Certificates are named by
//! their position in the configuration.
use vstd::prelude::*;

use crate::model::{hostnames_of, parse_hostnames, ConfigData, Domain, Host};
use crate::router::{host_part, host_specificity, score_fits, specificity, strip_host_port};
use rustls::pki_types::{CertificateDer, PrivateKeyDer};
use crate::text::{chars_eq, chars_of, ends_with, lower_seq, owned, starts_with, to_lower};

verus! {

/// The certificate an id names among usable ones: the last usable
/// certificate with that id.
pub open spec fn cert_for(data: ConfigData, usable: Seq<bool>, id: Seq<char>) -> Option<int> {
    if exists|i: int| 0 <= i < data.certificates@.len() && i < usable.len() && usable[i] && data.certificates@[i].id@ == id {
        Some(
            choose|i: int|
                0 <= i < data.certificates@.len() && i < usable.len() && usable[i] && data.certificates@[i].id@
                    == id && forall|k: int|
                    i < k < data.certificates@.len() && k < usable.len() && usable[k] ==> data.certificates@[k].id@
                        != id,
        )
    } else {
        None
    }
}

/// A name pattern and the certificate (by position) that serves it.
#[derive(Debug)]
pub struct CertEntry {
    pub pattern: String,
    pub cert: usize,
    pub score: u32,
}

/// Names, each with certificate `c`.
pub open spec fn tag_names(ns: Seq<Seq<char>>, c: int) -> Seq<(Seq<char>, int)> {
    ns.map_values(|n: Seq<char>| (n, c))
}

/// The patterns of the HTTPS hosts whose certificate is usable, in order:
/// each host's names with its certificate.
pub open spec fn host_entries(hosts: Seq<Host>, data: ConfigData, usable: Seq<bool>) -> Seq<(Seq<char>, int)>
    decreases hosts.len(),
{
    if hosts.len() == 0 {
        Seq::empty()
    } else {
        let prev = host_entries(hosts.drop_last(), data, usable);
        let h = hosts.last();
        match h.cert_id {
            Some(id) if h.https_enabled && cert_for(data, usable, id@) is Some => prev + tag_names(
                hostnames_of(h.hostname@),
                cert_for(data, usable, id@).unwrap(),
            ),
            _ => prev,
        }
    }
}

/// The names of the domains whose certificate is usable, in order.
pub open spec fn domain_entries(domains: Seq<Domain>, data: ConfigData, usable: Seq<bool>) -> Seq<(Seq<char>, int)>
    decreases domains.len(),
{
    if domains.len() == 0 {
        Seq::empty()
    } else {
        let prev = domain_entries(domains.drop_last(), data, usable);
        let d = domains.last();
        match d.cert_id {
            Some(id) if cert_for(data, usable, id@) is Some => prev.push(
                (d.name@, cert_for(data, usable, id@).unwrap()),
            ),
            _ => prev,
        }
    }
}

/// Every name served by a certificate, hosts first, then domains.
pub open spec fn all_entries(data: ConfigData, usable: Seq<bool>) -> Seq<(Seq<char>, int)> {
    host_entries(data.hosts@, data, usable) + domain_entries(data.domains@, data, usable)
}

/// What kind of name a pattern is.
pub open spec fn is_catch_all(p: Seq<char>) -> bool {
    p.len() == 0
}

/// A wildcard pattern (`*.` and a suffix).
pub open spec fn is_wildcard_pattern(p: Seq<char>) -> bool {
    p.len() > 0 && "*."@.is_prefix_of(p)
}

/// A pattern that answers server name `key` exactly.
pub open spec fn exact_hit(p: Seq<char>, key: Seq<char>) -> bool {
    p.len() > 0 && !"*."@.is_prefix_of(p) && lower_seq(p) == key
}

/// A wildcard pattern that covers server name `key`: a proper subdomain of
/// its suffix.
pub open spec fn wildcard_hit(p: Seq<char>, key: Seq<char>) -> bool {
    let suffix = lower_seq(p.skip(2));
    is_wildcard_pattern(p) && key != suffix && suffix.is_suffix_of(key) && key.len() > suffix.len()
        && key[key.len() - suffix.len() - 1] == '.'
}

/// Among entries passing `pred`, the certificate of the first with the
/// highest score.
pub open spec fn best_entry(es: Seq<(Seq<char>, int)>, pred: spec_fn(Seq<char>) -> bool) -> Option<(int, int)>
    decreases es.len(),
{
    if es.len() == 0 {
        None
    } else {
        let prev = best_entry(es.drop_last(), pred);
        let e = es.last();
        if pred(e.0) && (prev is None || specificity(e.0) > prev.unwrap().1) {
            Some((e.1, specificity(e.0)))
        } else {
            prev
        }
    }
}

/// The certificate for server name `sni` (lower-cased, without a port):
/// an exact name, else a covering wildcard, else the catch-all; `None`
/// when none applies.
pub open spec fn pick_spec(es: Seq<(Seq<char>, int)>, sni: Seq<char>) -> Option<int> {
    let key = lower_seq(host_part(sni));
    match best_entry(es, |p: Seq<char>| exact_hit(p, key)) {
        Some((c, _)) => Some(c),
        None => match best_entry(es, |p: Seq<char>| wildcard_hit(p, key)) {
            Some((c, _)) => Some(c),
            None => match best_entry(es, |p: Seq<char>| is_catch_all(p)) {
                Some((c, _)) => Some(c),
                None => None,
            },
        },
    }
}

/// The names served by certificates, built from the configuration and
/// which certificates could be loaded.
#[derive(Debug)]
pub struct CertIndex {
    pub entries: Vec<CertEntry>,
    /// A usable certificate to fall back on, if there is one.
    pub any: Option<usize>,
}

/// The entries of an index as patterns and positions.
pub open spec fn entry_pairs(v: Seq<CertEntry>) -> Seq<(Seq<char>, int)> {
    v.map_values(|e: CertEntry| (e.pattern@, e.cert as int))
}

/// Every entry's score is its pattern's specificity.
pub open spec fn scores_right(v: Seq<CertEntry>) -> bool {
    forall|i: int| 0 <= i < v.len() ==> #[trigger] v[i].score == specificity(v[i].pattern@)
}

/// Every pattern of every host and domain has a score that fits (a
/// machine limit).
pub open spec fn names_fit(data: ConfigData) -> bool {
    &&& forall|i: int, k: int|
        0 <= i < data.hosts@.len() && 0 <= k < hostnames_of(data.hosts@[i].hostname@).len() ==> score_fits(
            #[trigger] hostnames_of(#[trigger] data.hosts@[i].hostname@)[k],
        )
    &&& forall|i: int| 0 <= i < data.domains@.len() ==> score_fits(#[trigger] data.domains@[i].name@)
}

fn cert_position(data: &ConfigData, usable: &[bool], id: &str) -> (r: Option<usize>)
    ensures
        match r {
            Some(i) => cert_for(*data, usable@, id@) == Some(i as int),
            None => cert_for(*data, usable@, id@) is None,
        },
{
    let n = data.certificates.len();
    let mut k: usize = n;
    while k > 0
        invariant
            k <= n == data.certificates@.len(),
            forall|q: int| k <= q < n && q < usable@.len() && usable@[q] ==> data.certificates@[q].id@ != id@,
        decreases k,
    {
        let i = k - 1;
        if i < usable.len() && usable[i] && crate::text::str_eq(data.certificates[i].id.as_str(), id) {
            proof {
                let c = choose|c: int|
                    0 <= c < data.certificates@.len() && c < usable@.len() && usable@[c] && data.certificates@[c].id@
                        == id@ && forall|q: int|
                        c < q < data.certificates@.len() && q < usable@.len() && usable@[q] ==> data.certificates@[q].id@
                            != id@;
                assert(0 <= c < n && c < usable@.len() && usable@[c] && data.certificates@[c].id@ == id@ && forall|q: int|
                    c < q < n && q < usable@.len() && usable@[q] ==> data.certificates@[q].id@ != id@);
                if c < i {
                    assert(data.certificates@[i as int].id@ != id@);
                }
                if i < c {
                    assert(data.certificates@[c].id@ != id@);
                }
            }
            return Some(i);
        }
        k = i;
    }
    None
}

fn push_entry(v: &mut Vec<CertEntry>, pattern: String, cert: usize)
    requires
        score_fits(pattern@),
    ensures
        final(v)@ == old(v)@.push(final(v)@.last()),
        final(v)@.last().pattern == pattern,
        final(v)@.last().cert == cert,
        final(v)@.last().score == specificity(pattern@),
{
    let score = host_specificity(pattern.as_str());
    v.push(CertEntry { pattern, cert, score });
}

fn first_usable(data: &ConfigData, usable: &[bool]) -> (r: Option<usize>)
    ensures
        match r {
            Some(i) => i < data.certificates@.len() && i < usable@.len() && usable@[i as int],
            None => forall|i: int| 0 <= i < data.certificates@.len() && i < usable@.len() ==> !usable@[i],
        },
{
    let mut q: usize = 0;
    while q < data.certificates.len() && q < usable.len()
        invariant
            q <= data.certificates@.len(),
            q <= usable@.len(),
            forall|t: int| 0 <= t < q ==> !usable@[t],
        decreases data.certificates.len() - q,
    {
        if usable[q] {
            return Some(q);
        }
        q = q + 1;
    }
    None
}

/// Builds the index from the configuration and which certificates could
/// be loaded (`usable`, by position).
pub fn build_cert_index(data: &ConfigData, usable: &[bool]) -> (r: CertIndex)
    requires
        names_fit(*data),
    ensures
        entry_pairs(r.entries@) == all_entries(*data, usable@),
        scores_right(r.entries@),
        match r.any {
            Some(i) => i < data.certificates@.len() && i < usable@.len() && usable@[i as int],
            None => forall|i: int| 0 <= i < data.certificates@.len() && i < usable@.len() ==> !usable@[i],
        },
{
    let mut entries: Vec<CertEntry> = Vec::new();
    let mut i: usize = 0;
    while i < data.hosts.len()
        invariant
            i <= data.hosts@.len(),
            names_fit(*data),
            entry_pairs(entries@) == host_entries(data.hosts@.take(i as int), *data, usable@),
            scores_right(entries@),
        decreases data.hosts.len() - i,
    {
        let h = &data.hosts[i];
        assert(data.hosts@.take(i + 1).drop_last() == data.hosts@.take(i as int));
        assert(data.hosts@.take(i + 1).last() == data.hosts@[i as int]);
        if h.https_enabled {
            if let Some(id) = &h.cert_id {
                if let Some(c) = cert_position(data, usable, id.as_str()) {
                    let names = parse_hostnames(h.hostname.as_str());
                    let ghost base = entries@;
                    let ghost ns = hostnames_of(h.hostname@);
                    let mut k: usize = 0;
                    while k < names.len()
                        invariant
                            k <= names@.len(),
                            crate::text::views(names@) == ns,
                            ns == hostnames_of(data.hosts@[i as int].hostname@),
                            i < data.hosts@.len(),
                            names_fit(*data),
                            entries@.len() == base.len() + k,
                            entry_pairs(entries@) == entry_pairs(base) + tag_names(ns.take(k as int), c as int),
                            scores_right(entries@),
                        decreases names.len() - k,
                    {
                        assert(ns[k as int] == names@[k as int]@);
                        assert(score_fits(hostnames_of(data.hosts@[i as int].hostname@)[k as int]));
                        let ghost before = entries@;
                        push_entry(&mut entries, names[k].clone(), c);
                        assert(entry_pairs(entries@) =~= entry_pairs(before).push((ns[k as int], c as int)));
                        assert(ns.take(k + 1) == ns.take(k as int).push(ns[k as int]));
                        assert(tag_names(ns.take(k + 1), c as int) =~= tag_names(ns.take(k as int), c as int).push(
                            (ns[k as int], c as int),
                        ));
                        assert(entry_pairs(entries@) =~= entry_pairs(base) + tag_names(ns.take(k + 1), c as int));
                        assert forall|q: int| 0 <= q < entries@.len() implies #[trigger] entries@[q].score
                            == specificity(entries@[q].pattern@) by {
                            if q < before.len() {
                                assert(entries@[q] == before[q]);
                            }
                        }
                        k = k + 1;
                    }
                    assert(ns.take(k as int) == ns);
                }
            }
        }
        i = i + 1;
    }
    assert(data.hosts@.take(i as int) == data.hosts@);
    let ghost hosts_part = entry_pairs(entries@);
    let mut j: usize = 0;
    while j < data.domains.len()
        invariant
            j <= data.domains@.len(),
            names_fit(*data),
            hosts_part == host_entries(data.hosts@, *data, usable@),
            entry_pairs(entries@) == hosts_part + domain_entries(data.domains@.take(j as int), *data, usable@),
            scores_right(entries@),
        decreases data.domains.len() - j,
    {
        let d = &data.domains[j];
        assert(data.domains@.take(j + 1).drop_last() == data.domains@.take(j as int));
        assert(data.domains@.take(j + 1).last() == data.domains@[j as int]);
        if let Some(id) = &d.cert_id {
            if let Some(c) = cert_position(data, usable, id.as_str()) {
                assert(score_fits(data.domains@[j as int].name@));
                let ghost before = entries@;
                push_entry(&mut entries, d.name.clone(), c);
                assert(entry_pairs(entries@) =~= entry_pairs(before).push((d.name@, c as int)));
                assert forall|q: int| 0 <= q < entries@.len() implies #[trigger] entries@[q].score
                    == specificity(entries@[q].pattern@) by {
                    if q < before.len() {
                        assert(entries@[q] == before[q]);
                    }
                }
            }
        }
        j = j + 1;
    }
    assert(data.domains@.take(j as int) == data.domains@);
    let any = first_usable(data, usable);
    CertIndex { entries, any }
}

/// Whether an entry's pattern answers `key` exactly.
fn exact_hit_exec(p: &String, key: &Vec<char>) -> (r: bool)
    ensures
        r == exact_hit(p@, key@),
{
    let pc = chars_of(p.as_str());
    if pc.len() == 0 || starts_with(&pc, &chars_of("*.")) {
        return false;
    }
    let lc = crate::text::lower_chars(&pc);
    chars_eq(&lc, key)
}

/// Whether an entry's wildcard covers `key`.
fn wildcard_hit_exec(p: &String, key: &Vec<char>) -> (r: bool)
    ensures
        r == wildcard_hit(p@, key@),
{
    proof {
        reveal_strlit("*.");
    }
    let pc = chars_of(p.as_str());
    if !(pc.len() > 0 && starts_with(&pc, &chars_of("*."))) {
        return false;
    }
    let rest = crate::text::slice_chars(&pc, 2, pc.len());
    assert(rest@ == p@.skip(2));
    let suffix = crate::text::lower_chars(&rest);
    if chars_eq(key, &suffix) || !ends_with(key, &suffix) || key.len() <= suffix.len() {
        return false;
    }
    key[key.len() - suffix.len() - 1] == '.'
}

/// The answer to a handshake for server name `sni` (`None` when the client
/// sent none): the position of the certificate, else the index's fallback
/// certificate, else `None` for the built-in one.
pub fn pick_cert(index: &CertIndex, sni: Option<&str>) -> (r: Option<usize>)
    requires
        scores_right(index.entries@),
    ensures
        ({
            let name = match sni {
                Some(s) => s@,
                None => Seq::<char>::empty(),
            };
            match pick_spec(entry_pairs(index.entries@), name) {
                Some(c) => r == Some(c as usize),
                None => r == index.any,
            }
        }),
{
    let raw = match sni {
        Some(s) => s,
        None => "",
    };
    proof {
        reveal_strlit("");
    }
    assert(raw@ == match sni {
        Some(s) => s@,
        None => Seq::<char>::empty(),
    });
    let key = chars_of(to_lower(strip_host_port(raw)).as_str());
    let ghost es = entry_pairs(index.entries@);
    let ghost kv = key@;
    let exact = best_in(index, &key, 0);
    if let Some(c) = exact {
        return Some(c);
    }
    let wild = best_in(index, &key, 1);
    if let Some(c) = wild {
        return Some(c);
    }
    let fallback = best_in(index, &key, 2);
    if let Some(c) = fallback {
        return Some(c);
    }
    index.any
}

/// The entry predicate of a search: exact (0), wildcard (1), catch-all.
pub open spec fn search_pred(kind: u8, key: Seq<char>) -> spec_fn(Seq<char>) -> bool {
    if kind == 0 {
        |p: Seq<char>| exact_hit(p, key)
    } else if kind == 1 {
        |p: Seq<char>| wildcard_hit(p, key)
    } else {
        |p: Seq<char>| is_catch_all(p)
    }
}

fn best_in(index: &CertIndex, key: &Vec<char>, kind: u8) -> (r: Option<usize>)
    requires
        scores_right(index.entries@),
    ensures
        match best_entry(entry_pairs(index.entries@), search_pred(kind, key@)) {
            Some((c, _)) => r == Some(c as usize),
            None => r is None,
        },
{
    let ghost es = entry_pairs(index.entries@);
    let ghost pred = search_pred(kind, key@);
    let mut best: Option<(usize, u32)> = None;
    let mut i: usize = 0;
    while i < index.entries.len()
        invariant
            i <= index.entries@.len(),
            es == entry_pairs(index.entries@),
            pred == search_pred(kind, key@),
            scores_right(index.entries@),
            match best {
                Some((c, s)) => best_entry(es.take(i as int), pred) == Some((c as int, s as int)),
                None => best_entry(es.take(i as int), pred) is None,
            },
        decreases index.entries.len() - i,
    {
        let e = &index.entries[i];
        assert(es.take(i + 1).drop_last() == es.take(i as int));
        assert(es.take(i + 1).last() == es[i as int]);
        assert(es[i as int] == (e.pattern@, e.cert as int));
        let hit = if kind == 0 {
            exact_hit_exec(&e.pattern, key)
        } else if kind == 1 {
            wildcard_hit_exec(&e.pattern, key)
        } else {
            e.pattern.as_str().as_bytes().len() == 0
        };
        assert(hit == pred(e.pattern@));
        let better = match best {
            None => true,
            Some((_, s)) => e.score > s,
        };
        if hit && better {
            best = Some((e.cert, e.score));
        }
        i = i + 1;
    }
    assert(es.take(i as int) == es);
    match best {
        Some((c, _)) => Some(c),
        None => None,
    }
}

/// The cached index is rebuilt when the configuration changed since it was
/// built, or when none was built yet (generation 0).
pub fn needs_refresh(cached: u64, current: u64) -> (r: bool)
    ensures
        r == !(cached == current && cached != 0),
{
    !(cached == current && cached != 0)
}


/// The external type of a certificate chain with its signing key.
#[verifier::external_type_specification]
#[verifier::external_body]
pub struct ExCertifiedKey(rustls::sign::CertifiedKey);

/// The encoding of a DER private key.
#[derive(Debug, Clone, Copy, PartialEq, Eq, Structural)]
pub enum KeyFormat {
    /// An RSA key (PKCS#1).
    Pkcs1,
    /// An elliptic-curve key (SEC1).
    Sec1,
    /// A PKCS#8 key.
    Pkcs8,
}

/// The views of DER blobs.
pub open spec fn der_views(v: Seq<Vec<u8>>) -> Seq<Seq<u8>> {
    v.map_values(|d: Vec<u8>| d@)
}

/// The DER certificates `rustls_pemfile::certs` reads from a PEM text
/// (all of them, in order), or the text of the first error it meets.
pub uninterp spec fn pem_certs_of(pem: Seq<u8>) -> Result<Seq<Seq<u8>>, Seq<char>>;

/// The private key `rustls_pemfile::private_key` finds in a PEM text, with
/// its encoding; `None` when there is none; or the text of the error it
/// meets.
pub uninterp spec fn pem_key_of(pem: Seq<u8>) -> Result<Option<(KeyFormat, Seq<u8>)>, Seq<char>>;

/// Why `rustls::sign::CertifiedKey::from_der` with the ring provider
/// refuses a chain and a key (the key cannot be loaded, or it does not
/// match the first certificate), as its error's text; `None` when it
/// accepts them.
pub uninterp spec fn key_load_error_of(certs: Seq<Seq<u8>>, format: KeyFormat, key: Seq<u8>) -> Option<Seq<char>>;

/// `rustls_pemfile::certs` over the bytes, collected, each certificate as
/// its DER bytes. Claimed: they, or the error met, are what
/// [`pem_certs_of`] names.
#[verifier::external_body]
fn read_pem_certs(pem: &[u8]) -> (r: Result<Vec<Vec<u8>>, String>)
    ensures
        match r {
            Ok(v) => pem_certs_of(pem@) == Ok::<Seq<Seq<u8>>, Seq<char>>(der_views(v@)),
            Err(e) => pem_certs_of(pem@) == Err::<Seq<Seq<u8>>, Seq<char>>(e@),
        },
{
    rustls_pemfile::certs(&mut std::io::Cursor::new(pem))
        .map(|c| c.map(|d| d.as_ref().to_vec()))
        .collect::<Result<Vec<Vec<u8>>, _>>()
        .map_err(|e| e.to_string())
}

/// `rustls_pemfile::private_key` over the bytes, the key given as its
/// encoding and DER bytes. Claimed: that, or the error met, is what
/// [`pem_key_of`] names. (`rustls_pemfile` 2.2.0 yields only the three
/// encodings; the arm for any other is what the type's `non_exhaustive`
/// asks for.)
#[verifier::external_body]
fn read_pem_key(pem: &[u8]) -> (r: Result<Option<(KeyFormat, Vec<u8>)>, String>)
    ensures
        match r {
            Ok(Some((f, k))) => pem_key_of(pem@) == Ok::<Option<(KeyFormat, Seq<u8>)>, Seq<char>>(Some((f, k@))),
            Ok(None) => pem_key_of(pem@) == Ok::<Option<(KeyFormat, Seq<u8>)>, Seq<char>>(None),
            Err(e) => pem_key_of(pem@) == Err::<Option<(KeyFormat, Seq<u8>)>, Seq<char>>(e@),
        },
{
    match rustls_pemfile::private_key(&mut std::io::Cursor::new(pem)) {
        Ok(Some(PrivateKeyDer::Pkcs1(k))) => Ok(Some((KeyFormat::Pkcs1, k.secret_pkcs1_der().to_vec()))),
        Ok(Some(PrivateKeyDer::Sec1(k))) => Ok(Some((KeyFormat::Sec1, k.secret_sec1_der().to_vec()))),
        Ok(Some(PrivateKeyDer::Pkcs8(k))) => Ok(Some((KeyFormat::Pkcs8, k.secret_pkcs8_der().to_vec()))),
        Ok(_) => Ok(None),
        Err(e) => Err(e.to_string()),
    }
}

/// `rustls::sign::CertifiedKey::from_der` with the ring provider, over the
/// chain and the key given as DER bytes: it loads the key and checks it
/// against the first certificate. Claimed: it succeeds exactly when
/// [`key_load_error_of`] names no error, and otherwise fails with that
/// error's text (the outcome is a function of the arguments alone).
#[verifier::external_body]
fn certified_key(certs: Vec<Vec<u8>>, format: KeyFormat, key: Vec<u8>) -> (r: Result<rustls::sign::CertifiedKey, String>)
    ensures
        match r {
            Ok(_) => key_load_error_of(der_views(certs@), format, key@) is None,
            Err(e) => key_load_error_of(der_views(certs@), format, key@) == Some(e@),
        },
{
    let chain: Vec<CertificateDer<'static>> = certs.into_iter().map(CertificateDer::from).collect();
    let key: PrivateKeyDer<'static> = match format {
        KeyFormat::Pkcs1 => PrivateKeyDer::Pkcs1(key.into()),
        KeyFormat::Sec1 => PrivateKeyDer::Sec1(key.into()),
        KeyFormat::Pkcs8 => PrivateKeyDer::Pkcs8(key.into()),
    };
    rustls::sign::CertifiedKey::from_der(chain, key, &rustls::crypto::ring::default_provider()).map_err(|e| e.to_string())
}

/// What loading a certificate's PEM texts comes to: the error of the
/// certificate text, `certificate pem is empty` without certificates, the
/// error of the key text, `private key pem is empty` without a key, then
/// whatever loading the key against the chain says.
pub open spec fn cert_load_result(cert_pem: Seq<char>, key_pem: Seq<char>) -> Result<(), Seq<char>> {
    match pem_certs_of(vstd::utf8::encode_utf8(cert_pem)) {
        Err(e) => Err(e),
        Ok(cs) => if cs.len() == 0 {
            Err("certificate pem is empty"@)
        } else {
            match pem_key_of(vstd::utf8::encode_utf8(key_pem)) {
                Err(e) => Err(e),
                Ok(None) => Err("private key pem is empty"@),
                Ok(Some((f, k))) => match key_load_error_of(cs, f, k) {
                    None => Ok(()),
                    Some(e) => Err(e),
                },
            }
        },
    }
}

/// Loads a certificate chain and its key from PEM texts; see
/// [`cert_load_result`].
pub fn parse_cert(cert_pem: &str, key_pem: &str) -> (r: Result<rustls::sign::CertifiedKey, String>)
    ensures
        match cert_load_result(cert_pem@, key_pem@) {
            Ok(()) => r is Ok,
            Err(e) => r matches Err(x) && x@ == e,
        },
{
    let certs = match read_pem_certs(cert_pem.as_bytes()) {
        Ok(c) => c,
        Err(e) => {
            return Err(e);
        },
    };
    if certs.len() == 0 {
        return Err(owned("certificate pem is empty"));
    }
    let (format, key) = match read_pem_key(key_pem.as_bytes()) {
        Ok(Some(k)) => k,
        Ok(None) => {
            return Err(owned("private key pem is empty"));
        },
        Err(e) => {
            return Err(e);
        },
    };
    certified_key(certs, format, key)
}

/// The keys of the configuration's certificates, by position, and the
/// index built from which of them loaded: every certificate whose PEM
/// texts load (see [`cert_load_result`]) has its key, and no other does.
pub fn load_certs(data: &ConfigData) -> (r: (CertIndex, Vec<Option<rustls::sign::CertifiedKey>>))
    requires
        names_fit(*data),
    ensures
        r.1@.len() == data.certificates@.len(),
        forall|i: int|
            0 <= i < r.1@.len() ==> ((#[trigger] r.1@[i]) is Some <==> cert_load_result(
                data.certificates@[i].cert_pem@,
                data.certificates@[i].key_pem@,
            ) is Ok),
        entry_pairs(r.0.entries@) == all_entries(*data, r.1@.map_values(|k: Option<rustls::sign::CertifiedKey>| k is Some)),
        scores_right(r.0.entries@),
        match r.0.any {
            Some(i) => i < r.1@.len() && r.1@[i as int] is Some,
            None => forall|i: int| 0 <= i < r.1@.len() ==> r.1@[i] is None,
        },
{
    let mut keys: Vec<Option<rustls::sign::CertifiedKey>> = Vec::new();
    let mut usable: Vec<bool> = Vec::new();
    let mut i: usize = 0;
    while i < data.certificates.len()
        invariant
            i <= data.certificates@.len(),
            keys@.len() == i,
            usable@ == keys@.map_values(|k: Option<rustls::sign::CertifiedKey>| k is Some),
            forall|j: int|
                0 <= j < i ==> ((#[trigger] keys@[j]) is Some <==> cert_load_result(
                    data.certificates@[j].cert_pem@,
                    data.certificates@[j].key_pem@,
                ) is Ok),
        decreases data.certificates.len() - i,
    {
        let c = &data.certificates[i];
        let k = match parse_cert(c.cert_pem.as_str(), c.key_pem.as_str()) {
            Ok(k) => Some(k),
            Err(_) => None,
        };
        let loaded = k.is_some();
        keys.push(k);
        usable.push(loaded);
        assert(usable@ =~= keys@.map_values(|k: Option<rustls::sign::CertifiedKey>| k is Some));
        i = i + 1;
    }
    let index = build_cert_index(data, usable.as_slice());
    assert forall|j: int| 0 <= j < keys@.len() implies usable@[j] == (#[trigger] keys@[j] is Some) by {
        assert(usable@[j] == keys@.map_values(|k: Option<rustls::sign::CertifiedKey>| k is Some)[j]);
    }
    (index, keys)
}

} // verus!
