//! The operation log of the admin service: which requests are recorded,
//! how a request is named, who made it, and how secrets are kept out of
//! the record.
use vstd::prelude::*;

use crate::text::{
    chars_eq, chars_of, lower_seq, owned, split_on, split_seq, starts_with, str_eq, string_from_range,
    to_lower, trim_bounds, trim_seq, until_len, until_char, views,
};

verus! {

/// An HTTP request method.
#[derive(Debug, Clone, Copy, PartialEq, Eq, Structural)]
pub enum HttpMethod {
    Get,
    Head,
    Options,
    Post,
    Put,
    Patch,
    Delete,
    Other,
}

/// Reads, preflights, calls outside `/api` and the health check are not
/// recorded.
pub open spec fn skip_spec(method: HttpMethod, path: Seq<char>) -> bool {
    method == HttpMethod::Get || method == HttpMethod::Head || method == HttpMethod::Options
        || !"/api"@.is_prefix_of(path) || path == "/api/health"@
}

/// See [`skip_spec`].
pub fn skip(method: HttpMethod, path: &str) -> (r: bool)
    ensures
        r == skip_spec(method, path@),
{
    let pc = chars_of(path);
    method == HttpMethod::Get || method == HttpMethod::Head || method == HttpMethod::Options
        || !starts_with(&pc, &chars_of("/api")) || str_eq(path, "/api/health")
}

/// The name of the resource a path segment stands for.
pub open spec fn resource_name_spec(seg: Seq<char>) -> Seq<char> {
    if seg == "login"@ || seg == "logout"@ {
        "会话"@
    } else if seg == "certs"@ {
        "证书"@
    } else if seg == "dns-providers"@ {
        "DNS提供商"@
    } else if seg == "domains"@ {
        "域名证书"@
    } else if seg == "upstreams"@ {
        "服务组"@
    } else if seg == "hosts"@ {
        "主机"@
    } else if seg == "streams"@ {
        "数据流"@
    } else {
        "管理接口"@
    }
}

/// See [`resource_name_spec`].
pub fn resource_name(seg: &str) -> (r: &'static str)
    ensures
        r@ == resource_name_spec(seg@),
{
    if str_eq(seg, "login") || str_eq(seg, "logout") {
        "会话"
    } else if str_eq(seg, "certs") {
        "证书"
    } else if str_eq(seg, "dns-providers") {
        "DNS提供商"
    } else if str_eq(seg, "domains") {
        "域名证书"
    } else if str_eq(seg, "upstreams") {
        "服务组"
    } else if str_eq(seg, "hosts") {
        "主机"
    } else if str_eq(seg, "streams") {
        "数据流"
    } else {
        "管理接口"
    }
}

/// The non-empty pieces of a path after `/api/`.
pub open spec fn path_segments(path: Seq<char>) -> Seq<Seq<char>> {
    let rest = if "/api/"@.is_prefix_of(path) {
        path.skip(5)
    } else {
        path
    };
    split_seq(rest, |c: char| c == '/').filter(|s: Seq<char>| s.len() > 0)
}

/// How a recorded request is named: action, resource and the id it names.
pub open spec fn classify_spec(method: HttpMethod, path: Seq<char>) -> (Seq<char>, Seq<char>, Option<Seq<char>>) {
    let segs = path_segments(path);
    let first = if segs.len() > 0 {
        segs[0]
    } else {
        Seq::<char>::empty()
    };
    let resource = resource_name_spec(first);
    let id = if segs.len() > 1 {
        Some(segs[1])
    } else {
        None
    };
    if segs.len() > 0 && segs[0] == "login"@ {
        ("登录"@, "会话"@, None)
    } else if segs.len() > 0 && segs[0] == "logout"@ {
        ("退出"@, "会话"@, None)
    } else if segs.len() > 2 && segs[2] == "renew"@ {
        ("续签"@, resource, id)
    } else {
        let action = match method {
            HttpMethod::Post => if id is None {
                "创建"@
            } else {
                "操作"@
            },
            HttpMethod::Put | HttpMethod::Patch => "更新"@,
            HttpMethod::Delete => "删除"@,
            _ => "操作"@,
        };
        (action, resource, id)
    }
}

fn nonempty_segments(path: &str) -> (r: Vec<String>)
    ensures
        views(r@) == path_segments(path@),
{
    let pc = chars_of(path);
    let prefix = chars_of("/api/");
    proof {
        reveal_strlit("/api/");
    }
    let rest = if starts_with(&pc, &prefix) {
        crate::text::slice_chars(&pc, 5, pc.len())
    } else {
        pc
    };
    let ghost rest_spec = if "/api/"@.is_prefix_of(path@) {
        path@.skip(5)
    } else {
        path@
    };
    assert(rest@ == rest_spec);
    let pieces = split_on(&rest, '/');
    let ghost all = views(pieces@);
    let mut out: Vec<String> = Vec::new();
    let mut i: usize = 0;
    while i < pieces.len()
        invariant
            i <= pieces@.len(),
            all == views(pieces@),
            views(out@) == all.take(i as int).filter(|s: Seq<char>| s.len() > 0),
        decreases pieces.len() - i,
    {
        let ghost prev = all.take(i as int);
        assert(all.take(i + 1) == prev.push(all[i as int]));
        proof {
            prev.lemma_filter_push(all[i as int], |s: Seq<char>| s.len() > 0);
        }
        if crate::text::str_byte_len(&pieces[i]) > 0 {
            let ghost before = out@;
            out.push(pieces[i].clone());
            proof {
                crate::text::lemma_views_push(before, pieces@[i as int]);
            }
        }
        i = i + 1;
    }
    assert(all.take(i as int) == all);
    out
}

/// See [`classify_spec`].
pub fn classify(method: HttpMethod, path: &str) -> (r: (&'static str, &'static str, Option<String>))
    ensures
        r.0@ == classify_spec(method, path@).0,
        r.1@ == classify_spec(method, path@).1,
        match r.2 {
            Some(x) => classify_spec(method, path@).2 == Some(x@),
            None => classify_spec(method, path@).2 is None,
        },
{
    let segs = nonempty_segments(path);
    let ghost sv = views(segs@);
    let resource = if segs.len() > 0 {
        resource_name(segs[0].as_str())
    } else {
        resource_name("")
    };
    proof {
        reveal_strlit("");
    }
    assert(""@ =~= Seq::<char>::empty());
    assert(segs@.len() > 0 ==> sv[0] == segs@[0]@);
    assert(resource@ == resource_name_spec(if sv.len() > 0 { sv[0] } else { Seq::<char>::empty() }));
    if segs.len() > 0 && str_eq(segs[0].as_str(), "login") {
        return ("登录", "会话", None);
    }
    if segs.len() > 0 && str_eq(segs[0].as_str(), "logout") {
        return ("退出", "会话", None);
    }
    let id = if segs.len() > 1 {
        Some(segs[1].clone())
    } else {
        None
    };
    if segs.len() > 2 && str_eq(segs[2].as_str(), "renew") {
        return ("续签", resource, id);
    }
    let action = match method {
        HttpMethod::Post => if id.is_none() {
            "创建"
        } else {
            "操作"
        },
        HttpMethod::Put | HttpMethod::Patch => "更新",
        HttpMethod::Delete => "删除",
        _ => "操作",
    };
    (action, resource, id)
}

/// Who a recorded request is put down to: for a login, the user name sent
/// (`-` when missing or empty); for a refused (401) request, `-`; else the
/// administrator.
pub open spec fn audit_user_spec(path: Seq<char>, status: u16, username: Option<Seq<char>>, admin_user: Seq<char>) -> Seq<char> {
    if path == "/api/login"@ {
        match username {
            Some(u) if u.len() > 0 => u,
            _ => "-"@,
        }
    } else if status == 401 {
        "-"@
    } else {
        admin_user
    }
}

/// See [`audit_user_spec`]; `username` is the `username` text of the
/// request body, if it has one.
pub fn audit_user(path: &str, status: u16, username: Option<String>, admin_user: &str) -> (r: String)
    ensures
        r@ == audit_user_spec(
            path@,
            status,
            match username {
                Some(u) => Some(u@),
                None => None,
            },
            admin_user@,
        ),
{
    if str_eq(path, "/api/login") {
        return match username {
            Some(u) => if crate::text::str_byte_len(&u) > 0 {
                u
            } else {
                owned("-")
            },
            None => owned("-"),
        };
    }
    if status == 401 {
        return owned("-");
    }
    owned(admin_user)
}

/// A key is secret when, in lower case and without underscores, it is one
/// of the credential names.
pub open spec fn is_secret_spec(key: Seq<char>) -> bool {
    let k = lower_seq(key).filter(|c: char| c != '_');
    k == "password"@ || k == "token"@ || k == "certpem"@ || k == "keypem"@ || k == "accesssecret"@ || k
        == "jwtsecret"@ || k == "authorization"@
}

/// See [`is_secret_spec`].
pub fn is_secret(key: &str) -> (r: bool)
    ensures
        r == is_secret_spec(key@),
{
    let lc = chars_of(to_lower(key).as_str());
    let mut kept: Vec<char> = Vec::new();
    let mut i: usize = 0;
    while i < lc.len()
        invariant
            i <= lc@.len(),
            lc@ == lower_seq(key@),
            kept@ == lc@.take(i as int).filter(|c: char| c != '_'),
        decreases lc.len() - i,
    {
        proof {
            assert(lc@.take(i + 1) == lc@.take(i as int).push(lc@[i as int]));
            lc@.take(i as int).lemma_filter_push(lc@[i as int], |c: char| c != '_');
        }
        if lc[i] != '_' {
            kept.push(lc[i]);
        }
        i = i + 1;
    }
    assert(lc@.take(i as int) == lc@);
    let k = crate::text::string_from(&kept);
    str_eq(k.as_str(), "password") || str_eq(k.as_str(), "token") || str_eq(k.as_str(), "certpem")
        || str_eq(k.as_str(), "keypem") || str_eq(k.as_str(), "accesssecret") || str_eq(
        k.as_str(),
        "jwtsecret",
    ) || str_eq(k.as_str(), "authorization")
}

/// The client a request is put down to: the first `X-Forwarded-For` entry,
/// trimmed, when there is a non-blank one; else the peer's address, or `-`.
pub open spec fn client_addr_spec(forwarded_for: Option<Seq<char>>, peer_ip: Option<Seq<char>>) -> Seq<char> {
    match forwarded_for {
        Some(x) if trim_seq(until_char(x, ',')).len() > 0 => trim_seq(until_char(x, ',')),
        _ => match peer_ip {
            Some(p) => p,
            None => "-"@,
        },
    }
}

/// See [`client_addr_spec`].
pub fn client_addr(forwarded_for: Option<&str>, peer_ip: Option<String>) -> (r: String)
    ensures
        r@ == client_addr_spec(
            match forwarded_for {
                Some(x) => Some(x@),
                None => None,
            },
            match peer_ip {
                Some(p) => Some(p@),
                None => None,
            },
        ),
{
    if let Some(x) = forwarded_for {
        let xc = chars_of(x);
        let n = until_len(&xc, ',');
        let first = crate::text::slice_chars(&xc, 0, n);
        let (lo, hi) = trim_bounds(&first);
        if lo < hi {
            return string_from_range(&first, lo, hi);
        }
    }
    match peer_ip {
        Some(p) => p,
        None => owned("-"),
    }
}


/// A JSON value as the operation log records it.
#[derive(Debug)]
pub enum Json {
    Null,
    Bool(bool),
    /// A number, in its JSON text.
    Number(String),
    Str(String),
    Array(Vec<Json>),
    /// Members in order.
    Object(Vec<(String, Json)>),
}

/// `b` is `a` with every member under a secret key replaced by `"***"`, at
/// every depth; nothing else changes.
pub open spec fn redacted(a: Json, b: Json) -> bool
    decreases a,
{
    match a {
        Json::Object(ea) => match b {
            Json::Object(eb) => ea@.len() == eb@.len() && forall|i: int|
                0 <= i < ea@.len() ==> #[trigger] eb@[i].0 == ea@[i].0 && if is_secret_spec(ea@[i].0@) {
                    eb@[i].1 matches Json::Str(t) && t@ == "***"@
                } else {
                    redacted(ea@[i].1, eb@[i].1)
                },
            _ => false,
        },
        Json::Array(xa) => match b {
            Json::Array(xb) => xa@.len() == xb@.len() && forall|i: int|
                0 <= i < xa@.len() ==> redacted(#[trigger] xa@[i], xb@[i]),
            _ => false,
        },
        _ => b == a,
    }
}

/// No member under a secret key shows anything but `"***"`, at any depth.
pub open spec fn secrets_hidden(j: Json) -> bool
    decreases j,
{
    match j {
        Json::Object(es) => forall|i: int|
            0 <= i < es@.len() ==> if is_secret_spec((#[trigger] es@[i]).0@) {
                es@[i].1 matches Json::Str(t) && t@ == "***"@
            } else {
                secrets_hidden(es@[i].1)
            },
        Json::Array(xs) => forall|i: int| 0 <= i < xs@.len() ==> secrets_hidden(#[trigger] xs@[i]),
        _ => true,
    }
}

/// Law: whatever a body held, once it is masked (as the operation log
/// records it) no secret member shows its value, at any depth.
pub proof fn redaction_hides_secrets(a: Json, b: Json)
    requires
        redacted(a, b),
    ensures
        secrets_hidden(b),
    decreases a,
{
    match a {
        Json::Object(ea) => {
            if let Json::Object(eb) = b {
                assert forall|i: int| 0 <= i < eb@.len() implies if is_secret_spec((#[trigger] eb@[i]).0@) {
                    eb@[i].1 matches Json::Str(t) && t@ == "***"@
                } else {
                    secrets_hidden(eb@[i].1)
                } by {
                    assert(eb@[i].0 == ea@[i].0);
                    if !is_secret_spec(ea@[i].0@) {
                        assert(decreases_to!(a => ea@[i].1));
                        redaction_hides_secrets(ea@[i].1, eb@[i].1);
                    }
                }
            }
        },
        Json::Array(xa) => {
            if let Json::Array(xb) = b {
                assert forall|i: int| 0 <= i < xb@.len() implies secrets_hidden(#[trigger] xb@[i]) by {
                    assert(decreases_to!(a => xa@[i]));
                    redaction_hides_secrets(xa@[i], xb@[i]);
                }
            }
        },
        _ => {},
    }
}

/// A JSON value with secrets masked; see [`redacted`].
pub fn redact(value: Json) -> (r: Json)
    ensures
        redacted(value, r),
    decreases value,
{
    match value {
        Json::Object(entries) => {
            let ghost ea = entries@;
            let mut out: Vec<(String, Json)> = Vec::new();
            let mut rest = entries;
            assert(ea.skip(0) =~= ea);
            while rest.len() > 0
                invariant
                    value matches Json::Object(e) && e@ == ea,
                    out@.len() + rest@.len() == ea.len(),
                    rest@ == ea.skip(out@.len() as int),
                    forall|i: int|
                        0 <= i < out@.len() ==> #[trigger] out@[i].0 == ea[i].0 && if is_secret_spec(ea[i].0@) {
                            out@[i].1 matches Json::Str(t) && t@ == "***"@
                        } else {
                            redacted(ea[i].1, out@[i].1)
                        },
                decreases rest.len(),
            {
                let ghost n: int = out@.len() as int;
                let (k, v) = rest.remove(0);
                assert((k, v) == ea[n]);
                let nv = if is_secret(k.as_str()) {
                    Json::Str(owned("***"))
                } else {
                    assert(decreases_to!(value => v)) by {
                        assert(ea[n] == (k, v));
                    }
                    redact(v)
                };
                let ghost before = out@;
                out.push((k, nv));
                assert(rest@ =~= ea.skip(n + 1));
                assert forall|i: int| 0 <= i < out@.len() implies #[trigger] out@[i].0 == ea[i].0 && if is_secret_spec(
                    ea[i].0@,
                ) {
                    out@[i].1 matches Json::Str(t) && t@ == "***"@
                } else {
                    redacted(ea[i].1, out@[i].1)
                } by {
                    if i < before.len() {
                        assert(out@[i] == before[i]);
                    }
                }
            }
            Json::Object(out)
        },
        Json::Array(items) => {
            let ghost xa = items@;
            let mut out: Vec<Json> = Vec::new();
            let mut rest = items;
            assert(xa.skip(0) =~= xa);
            while rest.len() > 0
                invariant
                    value matches Json::Array(e) && e@ == xa,
                    out@.len() + rest@.len() == xa.len(),
                    rest@ == xa.skip(out@.len() as int),
                    forall|i: int| 0 <= i < out@.len() ==> redacted(#[trigger] xa[i], out@[i]),
                decreases rest.len(),
            {
                let ghost n: int = out@.len() as int;
                let v = rest.remove(0);
                assert(v == xa[n]);
                assert(decreases_to!(value => v)) by {
                    assert(xa[n] == v);
                }
                let nv = redact(v);
                let ghost before = out@;
                out.push(nv);
                assert(rest@ =~= xa.skip(n + 1));
                assert forall|i: int| 0 <= i < out@.len() implies redacted(#[trigger] xa[i], out@[i]) by {
                    if i < before.len() {
                        assert(out@[i] == before[i]);
                    }
                }
            }
            Json::Array(out)
        },
        other => other,
    }
}

/// A parsed request or answer body, with secrets masked; nothing when the
/// body was empty or not JSON.
pub fn redact_parsed(parsed: Option<Json>) -> (r: Json)
    ensures
        match parsed {
            Some(v) => redacted(v, r),
            None => r is Null,
        },
{
    match parsed {
        Some(v) => redact(v),
        None => Json::Null,
    }
}

/// The members a recorded result leaves out.
pub open spec fn slim_key(k: Seq<char>) -> bool {
    k == "certPem"@ || k == "keyPem"@ || k == "accessSecret"@ || k == "token"@
}

/// A result as recorded: an object loses its key material and tokens;
/// other values stay as they are.
pub open spec fn slimmed(a: Json, b: Json) -> bool {
    match a {
        Json::Object(ea) => b matches Json::Object(eb) && eb@ == ea@.filter(
            |e: (String, Json)| !slim_key(e.0@),
        ),
        _ => b == a,
    }
}

/// See [`slimmed`].
pub fn slim_result(value: Json) -> (r: Json)
    ensures
        slimmed(value, r),
{
    match value {
        Json::Object(entries) => {
            let ghost ea = entries@;
            let mut out: Vec<(String, Json)> = Vec::new();
            let mut rest = entries;
            assert(ea.skip(0) =~= ea);
            assert(ea.take(0) =~= Seq::<(String, Json)>::empty());
            while rest.len() > 0
                invariant
                    rest@.len() <= ea.len(),
                    rest@ == ea.skip(ea.len() - rest@.len()),
                    out@ == ea.take(ea.len() - rest@.len()).filter(|e: (String, Json)| !slim_key(e.0@)),
                decreases rest.len(),
            {
                let ghost n: int = ea.len() - rest@.len();
                let e = rest.remove(0);
                assert(e == ea[n]);
                assert(ea.take(n + 1) == ea.take(n).push(e));
                proof {
                    ea.take(n).lemma_filter_push(e, |e: (String, Json)| !slim_key(e.0@));
                }
                let k = &e.0;
                let drop = str_eq(k.as_str(), "certPem") || str_eq(k.as_str(), "keyPem") || str_eq(
                    k.as_str(),
                    "accessSecret",
                ) || str_eq(k.as_str(), "token");
                if !drop {
                    out.push(e);
                }
                assert(rest@ =~= ea.skip(n + 1));
            }
            assert(ea.take(ea.len() as int) =~= ea);
            Json::Object(out)
        },
        other => other,
    }
}

/// The value of the first member named `key` of an object.
pub open spec fn member(j: Json, key: Seq<char>) -> Option<Json> {
    match j {
        Json::Object(es) => if exists|i: int| 0 <= i < es@.len() && es@[i].0@ == key {
            Some(
                es@[choose|i: int|
                    0 <= i < es@.len() && es@[i].0@ == key && forall|k: int| 0 <= k < i ==> es@[k].0@ != key].1,
            )
        } else {
            None
        },
        _ => None,
    }
}

proof fn lemma_member(j: Json, key: Seq<char>, i: int)
    requires
        j matches Json::Object(es) && 0 <= i < es@.len() && es@[i].0@ == key && forall|k: int|
            0 <= k < i ==> es@[k].0@ != key,
    ensures
        j matches Json::Object(es) && member(j, key) == Some(es@[i].1),
{
    if let Json::Object(es) = j {
        let c = choose|c: int|
            0 <= c < es@.len() && es@[c].0@ == key && forall|k: int| 0 <= k < c ==> es@[k].0@ != key;
        assert(0 <= c < es@.len() && es@[c].0@ == key && forall|k: int| 0 <= k < c ==> es@[k].0@ != key);
        if c < i {
            assert(es@[c].0@ != key);
        }
        if i < c {
            assert(es@[i].0@ != key);
        }
    }
}

/// The value of member `key` of an object, if it has one.
pub fn get<'a>(j: &'a Json, key: &str) -> (r: Option<&'a Json>)
    ensures
        match r {
            Some(v) => member(*j, key@) == Some(*v),
            None => member(*j, key@) is None,
        },
{
    match j {
        Json::Object(es) => {
            let mut i: usize = 0;
            while i < es.len()
                invariant
                    i <= es@.len(),
                    *j == Json::Object(*es),
                    forall|k: int| 0 <= k < i ==> es@[k].0@ != key@,
                decreases es.len() - i,
            {
                if str_eq(es[i].0.as_str(), key) {
                    proof {
                        lemma_member(*j, key@, i as int);
                    }
                    return Some(&es[i].1);
                }
                i = i + 1;
            }
            None
        },
        _ => None,
    }
}

/// The `username` text of a login request, if it has one.
pub fn request_username(request: &Json) -> (r: Option<String>)
    ensures
        match member(*request, "username"@) {
            Some(Json::Str(u)) => r == Some(u),
            _ => r is None,
        },
{
    match get(request, "username") {
        Some(Json::Str(u)) => Some(u.clone()),
        _ => None,
    }
}

/// Whether a status counts as success in the log (200 to 399).
pub open spec fn status_ok(status: u16) -> bool {
    200 <= status < 400
}

/// What a log record says of a request besides when and who.
#[derive(Debug)]
pub struct AuditFacts {
    pub ts: String,
    pub user: String,
    pub ip: String,
    pub action: String,
    pub resource: String,
    pub method: String,
    pub path: String,
    pub status: u16,
    pub id: Option<String>,
}

/// The error message of a refused request: its answer's `message` text.
pub open spec fn answer_message(result: Json) -> Option<Seq<char>> {
    match member(result, "message"@) {
        Some(Json::Str(m)) => Some(m@),
        _ => None,
    }
}

/// What a member after the fixed ones holds: the id, the request body,
/// the answer's error message, or the slimmed answer.
pub open spec fn tail_member_ok(k: Seq<char>, v: Json, facts: AuditFacts, request: Json, result: Json) -> bool {
    if k == "id"@ {
        match v {
            Json::Str(t) => facts.id == Some(t),
            _ => false,
        }
    } else if k == "request"@ {
        v == request
    } else if k == "error"@ {
        match v {
            Json::Str(t) => answer_message(result) == Some(t@),
            _ => false,
        }
    } else if k == "result"@ {
        slimmed(result, v)
    } else {
        false
    }
}

/// The log record of a request: the facts, the request body when there is
/// one, and for a refused request the error message of the answer, for an
/// accepted one the slimmed answer (never for a logout).
pub fn audit_event(facts: AuditFacts, request: Json, result: Json) -> (r: Json)
    ensures
        r matches Json::Object(es) && {
            let keys = es@.map_values(|e: (String, Json)| e.0@);
            &&& keys.take(9) == seq![
                "ts"@,
                "user"@,
                "ip"@,
                "action"@,
                "resource"@,
                "method"@,
                "path"@,
                "status"@,
                "ok"@,
            ]
            &&& es@[0].1 matches Json::Str(t) && t == facts.ts
            &&& es@[1].1 matches Json::Str(t) && t == facts.user
            &&& es@[2].1 matches Json::Str(t) && t == facts.ip
            &&& es@[3].1 matches Json::Str(t) && t == facts.action
            &&& es@[4].1 matches Json::Str(t) && t == facts.resource
            &&& es@[5].1 matches Json::Str(t) && t == facts.method
            &&& es@[6].1 matches Json::Str(t) && t == facts.path
            &&& es@[7].1 matches Json::Number(t) && t@ == crate::text::decimal(facts.status as nat)
            &&& es@[8].1 == Json::Bool(status_ok(facts.status))
            &&& keys.skip(9) == (if facts.id is Some {
                seq!["id"@]
            } else {
                Seq::empty()
            }) + (if request !is Null {
                seq!["request"@]
            } else {
                Seq::empty()
            }) + (if facts.status >= 400 {
                if answer_message(result) is Some {
                    seq!["error"@]
                } else {
                    Seq::empty()
                }
            } else if result !is Null && facts.path@ != "/api/logout"@ {
                seq!["result"@]
            } else {
                Seq::empty()
            })
            &&& forall|i: int| 9 <= i < es@.len() ==> tail_member_ok(#[trigger] keys[i], es@[i].1, facts, request, result)
        },
{
    proof {
        reveal_strlit("id");
        reveal_strlit("request");
        reveal_strlit("error");
        reveal_strlit("result");
    }
    let mut status_text = String::new();
    crate::text::push_decimal(&mut status_text, facts.status as u64);
    let ok = 200 <= facts.status && facts.status < 400;
    let message = match get(&result, "message") {
        Some(Json::Str(m)) => Some(m.clone()),
        _ => None,
    };
    assert(match message {
        Some(m) => answer_message(result) == Some(m@),
        None => answer_message(result) is None,
    });
    let mut es: Vec<(String, Json)> = Vec::new();
    es.push((owned("ts"), Json::Str(facts.ts)));
    es.push((owned("user"), Json::Str(facts.user)));
    es.push((owned("ip"), Json::Str(facts.ip)));
    es.push((owned("action"), Json::Str(facts.action)));
    es.push((owned("resource"), Json::Str(facts.resource)));
    es.push((owned("method"), Json::Str(facts.method)));
    let logout = str_eq(facts.path.as_str(), "/api/logout");
    es.push((owned("path"), Json::Str(facts.path)));
    es.push((owned("status"), Json::Number(status_text)));
    es.push((owned("ok"), Json::Bool(ok)));
    let ghost head = es@;
    let ghost has_id = facts.id is Some;
    let ghost fid = facts.id;
    if let Some(id) = facts.id {
        es.push((owned("id"), Json::Str(id)));
    }
    let ghost after_id = es@;
    assert(has_id ==> after_id.len() == 10 && after_id[9].0@ == "id"@ && after_id[9].1 == Json::Str(
        fid.unwrap(),
    ));
    assert(!has_id ==> after_id == head);
    let has_request = match request {
        Json::Null => false,
        _ => true,
    };
    let ghost req = request;
    if has_request {
        es.push((owned("request"), request));
    }
    let ghost after_request = es@;
    assert(has_request ==> after_request.len() == after_id.len() + 1 && after_request.last().0@
        == "request"@ && after_request.last().1 == req);
    assert(!has_request ==> after_request == after_id);
    assert(has_request == (req !is Null));
    let ghost res = result;
    let ghost slim_res: Json;
    if facts.status >= 400 {
        if let Some(m) = message {
            es.push((owned("error"), Json::Str(m)));
            assert(es@.last().0@ == "error"@);
            assert(es@.last().1 == Json::Str(m));
            assert(answer_message(res) == Some(m@));
            assert(tail_member_ok("error"@, es@.last().1, facts, req, res));
        }
    } else {
        let has_result = match result {
            Json::Null => false,
            _ => true,
        };
        if has_result && !logout {
            let sr = slim_result(result);
            proof {
                slim_res = sr;
            }
            es.push((owned("result"), sr));
            assert(es@.last().0@ == "result"@);
            assert(slimmed(res, es@.last().1));
        }
    }
    assert(es@.len() == after_request.len() || (es@.len() == after_request.len() + 1 && (
    (facts.status >= 400 && es@.last().0@ == "error"@ && tail_member_ok("error"@, es@.last().1, facts, req, res))
        || (facts.status < 400 && es@.last().0@ == "result"@ && slimmed(res, es@.last().1)))));
    assert(forall|i: int| 0 <= i < after_request.len() ==> es@[i] == after_request[i]);
    let ghost keys = es@.map_values(|e: (String, Json)| e.0@);
    assert(keys.take(9) =~= head.map_values(|e: (String, Json)| e.0@));
    assert forall|i: int| 0 <= i < 9 implies es@[i] == head[i] by {
        assert(after_id[i] == head[i]);
        assert(after_request[i] == after_id[i]);
    }
    assert(keys.skip(9) =~= (if has_id {
        seq!["id"@]
    } else {
        Seq::empty()
    }) + (if req !is Null {
        seq!["request"@]
    } else {
        Seq::empty()
    }) + (if facts.status >= 400 {
        if answer_message(res) is Some {
            seq!["error"@]
        } else {
            Seq::empty()
        }
    } else if res !is Null && facts.path@ != "/api/logout"@ {
        seq!["result"@]
    } else {
        Seq::empty()
    }));
    assert forall|i: int| 9 <= i < es@.len() implies tail_member_ok(
        #[trigger] keys[i],
        es@[i].1,
        facts,
        req,
        res,
    ) by {
        if i < after_id.len() {
            assert(es@[i] == after_id[i]);
            assert(i == 9 && has_id);
        } else if i < after_request.len() {
            assert(es@[i] == after_request[i]);
            assert(has_request && i == after_request.len() - 1);
        } else {
            assert(i == es@.len() - 1);
        }
    }
    Json::Object(es)
}
} // verus!
