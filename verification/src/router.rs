//! Request routing: which host serves a request, which route of that host
//! matches, how the URI is rewritten and which backend receives it.
use vstd::prelude::*;
use vstd::string::StrSliceExecFns;

use crate::model::{
    clone_headers, effective_port_spec, hostnames_of, parse_hostnames, ConfigData, HeaderRewrite,
    Host, MatchType, Route, Upstream, UpstreamProtocol, UpstreamServer,
};
use crate::template::{expand_from, expand_template, VarMap};
use crate::text::{
    byte_len, chars_eq, chars_of, decimal, ends_with, find_char, lower_chars, lower_seq, owned, push_decimal, push_str,
    starts_with, str_byte_len, string_from_range, trim_bounds, trim_end_char, trim_end_len,
    trim_seq, until_char, until_len, views,
};

verus! {

/// The host part of a `Host` header value: an IPv6 literal `[..]` loses its
/// brackets, anything else loses everything from the first `:`.
pub open spec fn host_part(h: Seq<char>) -> Seq<char> {
    if h.len() > 0 && h[0] == '[' {
        until_char(h.drop_first(), ']')
    } else {
        until_char(h, ':')
    }
}

/// Removes the port from a `Host` header value (and the brackets around an
/// IPv6 address).
pub fn strip_host_port(host: &str) -> (r: &str)
    ensures
        r@ == host_part(host@),
{
    let cs = chars_of(host);
    if cs.len() > 0 && cs[0] == '[' {
        let mut rest: Vec<char> = Vec::new();
        let mut i: usize = 1;
        while i < cs.len()
            invariant
                1 <= i <= cs@.len(),
                rest@ == cs@.subrange(1, i as int),
            decreases cs.len() - i,
        {
            rest.push(cs[i]);
            i = i + 1;
        }
        assert(rest@ == host@.drop_first());
        let n = until_len(&rest, ']');
        let r = host.substring_char(1, 1 + n);
        assert(r@ =~= rest@.take(n as int));
        r
    } else {
        let n = until_len(&cs, ':');
        let r = host.substring_char(0, n);
        assert(r@ =~= cs@.take(n as int));
        r
    }
}

/// `suffix` covers `h` as a wildcard: `h` is some label(s), a dot, then `suffix`.
pub open spec fn wildcard_covers(suffix: Seq<char>, h: Seq<char>) -> bool {
    &&& suffix.is_suffix_of(h)
    &&& h.len() > suffix.len()
    &&& h[h.len() - suffix.len() - 1] == '.'
}

/// Whether a host-name pattern matches a request host. Both sides are
/// compared case-insensitively, the request host without its port. An empty
/// pattern matches everything; `*.suffix` matches names below `suffix` but
/// not `suffix` itself; any other pattern must be equal.
pub open spec fn host_matches_spec(pattern: Seq<char>, hostname: Seq<char>) -> bool {
    let h = lower_seq(host_part(hostname));
    let p = lower_seq(trim_seq(pattern));
    if p.len() == 0 {
        true
    } else if p == h {
        true
    } else if "*."@.is_prefix_of(p) {
        let suffix = p.skip(2);
        if h == suffix {
            false
        } else {
            wildcard_covers(suffix, h)
        }
    } else {
        false
    }
}

/// A blank pattern (the catch-all host) matches every request host.
pub proof fn blank_pattern_matches_all(pattern: Seq<char>, hostname: Seq<char>)
    requires
        trim_seq(pattern).len() == 0,
    ensures
        host_matches_spec(pattern, hostname),
{
    assert(lower_seq(trim_seq(pattern)).len() == 0);
}

/// A wildcard pattern never matches the bare name it is a wildcard of.
pub proof fn wildcard_excludes_apex(pattern: Seq<char>, hostname: Seq<char>)
    requires
        lower_seq(trim_seq(pattern)) == "*."@ + lower_seq(host_part(hostname)),
    ensures
        !host_matches_spec(pattern, hostname),
{
    let h = lower_seq(host_part(hostname));
    let p = lower_seq(trim_seq(pattern));
    reveal_strlit("*.");
    assert(p.len() == h.len() + 2);
    assert("*."@.is_prefix_of(p)) by {
        assert(p.subrange(0, 2) =~= "*."@);
    }
    assert(p.skip(2) =~= h);
}

/// A wildcard pattern matches every name one or more labels below its
/// suffix.
pub proof fn wildcard_covers_subdomains(pattern: Seq<char>, hostname: Seq<char>, label: Seq<char>)
    requires
        lower_seq(host_part(hostname)) == label + "."@ + lower_seq(trim_seq(pattern)).skip(2),
        "*."@.is_prefix_of(lower_seq(trim_seq(pattern))),
        label.len() > 0,
    ensures
        host_matches_spec(pattern, hostname),
{
    let h = lower_seq(host_part(hostname));
    let p = lower_seq(trim_seq(pattern));
    let suffix = p.skip(2);
    reveal_strlit(".");
    reveal_strlit("*.");
    assert(h.len() == label.len() + 1 + suffix.len());
    assert(h != suffix);
    assert(suffix.is_suffix_of(h)) by {
        assert(h.subrange(h.len() - suffix.len(), h.len() as int) =~= suffix);
    }
    assert(h[h.len() - suffix.len() - 1] == '.');
}

/// An exact pattern (non-blank, not starting with `*.`) matches a request
/// host exactly when its trimmed, lower-cased text equals the lower-cased
/// host without its port: a name that merely ends with the pattern, such as
/// `shop.example.com` for `example.com`, is not matched.
pub proof fn exact_pattern_matches_only_itself(pattern: Seq<char>, hostname: Seq<char>)
    requires
        trim_seq(pattern).len() > 0,
        !"*."@.is_prefix_of(lower_seq(trim_seq(pattern))),
    ensures
        host_matches_spec(pattern, hostname) <==> lower_seq(trim_seq(pattern)) == lower_seq(
            host_part(hostname),
        ),
{
    assert(lower_seq(trim_seq(pattern)).len() == trim_seq(pattern).len());
}

/// How `trim_end_char(s, '/')` looks: a prefix of `s` that is empty or
/// does not end with `/`, with only slashes after it.
proof fn lemma_trim_end_slashes(s: Seq<char>)
    ensures
        ({
            let m = trim_end_char(s, '/').len() as int;
            &&& 0 <= m <= s.len()
            &&& trim_end_char(s, '/') == s.take(m)
            &&& forall|k: int| m <= k < s.len() ==> s[k] == '/'
            &&& (m == 0 || s[m - 1] != '/')
        }),
    decreases s.len(),
{
    if s.len() > 0 && s.last() == '/' {
        lemma_trim_end_slashes(s.drop_last());
        let m = trim_end_char(s, '/').len() as int;
        assert(s.drop_last().take(m) =~= s.take(m));
        assert forall|k: int| m <= k < s.len() implies s[k] == '/' by {
            if k < s.len() - 1 {
                assert(s.drop_last()[k] == s[k]);
            }
        }
        if m > 0 {
            assert(s.drop_last()[m - 1] == s[m - 1]);
        }
    } else {
        assert(s.take(s.len() as int) =~= s);
    }
}

/// A prefix route with a `$`-free template forwards the template with its
/// trailing slashes removed, followed by the part of the path after the
/// matched prefix: the forwarded URI is `t[..m]` + rest, where everything
/// of `t` from `m` on is `/` and `t[..m]` is empty or does not end with `/`
/// (so `/svc/` and `/api/v1` under prefix `/api` give `/svc/v1`).
pub proof fn prefix_rewrite_joins_without_double_slash(path: Seq<char>, route: Route, caps: Seq<Seq<char>>)
    requires
        route.match_type == MatchType::Prefix,
        route.rewrite_uri is Some,
        !route.rewrite_uri->0@.contains('$'),
        route.pattern@.is_prefix_of(path),
    ensures
        ({
            let t = route.rewrite_uri->0@;
            let rest = path.skip(route.pattern@.len() as int);
            let r = rewrite_spec(path, route, caps);
            let m = r.len() - rest.len();
            &&& 0 <= m <= t.len()
            &&& r == t.take(m) + rest
            &&& forall|k: int| m <= k < t.len() ==> t[k] == '/'
            &&& (m == 0 || t[m - 1] != '/')
        }),
{
    let t = route.rewrite_uri->0@;
    lemma_trim_end_slashes(t);
}

/// A route without a rewrite template forwards the path unchanged, and a
/// regex route with a `$`-free template forwards the template itself.
pub proof fn rewrite_keeps_path_or_template(path: Seq<char>, route: Route, caps: Seq<Seq<char>>)
    ensures
        route.rewrite_uri is None ==> rewrite_spec(path, route, caps) == path,
        (route.rewrite_uri is Some && !route.rewrite_uri->0@.contains('$') && route.match_type
            == MatchType::Regex) ==> rewrite_spec(path, route, caps) == route.rewrite_uri->0@,
{
}

/// Whether `pattern` matches `hostname`; see [`host_matches_spec`].
pub fn host_matches(pattern: &str, hostname: &str) -> (r: bool)
    ensures
        r == host_matches_spec(pattern@, hostname@),
{
    let stripped = strip_host_port(hostname);
    let hc = chars_of(stripped);
    let h = lower_chars(&hc);
    let pc = chars_of(pattern);
    let (lo, hi) = trim_bounds(&pc);
    let mut t: Vec<char> = Vec::new();
    let mut k: usize = lo;
    while k < hi
        invariant
            lo <= k <= hi <= pc@.len(),
            t@ == pc@.subrange(lo as int, k as int),
        decreases hi - k,
    {
        t.push(pc[k]);
        k = k + 1;
    }
    let p = lower_chars(&t);
    if p.len() == 0 {
        return true;
    }
    if chars_eq(&p, &h) {
        return true;
    }
    let star = chars_of("*.");
    proof {
        reveal_strlit("*.");
    }
    if starts_with(&p, &star) {
        let mut suffix: Vec<char> = Vec::new();
        let mut j: usize = 2;
        while j < p.len()
            invariant
                2 <= j <= p@.len(),
                suffix@ == p@.subrange(2, j as int),
            decreases p.len() - j,
        {
            suffix.push(p[j]);
            j = j + 1;
        }
        assert(suffix@ == p@.skip(2));
        if chars_eq(&h, &suffix) {
            return false;
        }
        if !ends_with(&h, &suffix) {
            return false;
        }
        if h.len() <= suffix.len() {
            return false;
        }
        h[h.len() - suffix.len() - 1] == '.'
    } else {
        false
    }
}

/// How specific a host-name pattern is: the catch-all scores 1, wildcards
/// 100 plus their length in bytes, exact names 10 000 plus their length.
pub open spec fn specificity(pattern: Seq<char>) -> int {
    let p = trim_seq(pattern);
    if p.len() == 0 {
        1
    } else if p.contains('*') {
        100 + ((byte_len(p) as usize) as u32)
    } else {
        10_000 + ((byte_len(p) as usize) as u32)
    }
}

/// The score of a pattern stays within `u32` (true of any realistic name).
pub open spec fn score_fits(pattern: Seq<char>) -> bool {
    10_000 + ((byte_len(trim_seq(pattern)) as usize) as u32) <= u32::MAX
}

/// The specificity of a host-name pattern; see [`specificity`].
pub fn host_specificity(pattern: &str) -> (r: u32)
    requires
        score_fits(pattern@),
    ensures
        r == specificity(pattern@),
{
    let pc = chars_of(pattern);
    let (lo, hi) = trim_bounds(&pc);
    let t = crate::text::string_from_range(&pc, lo, hi);
    if lo == hi {
        return 1;
    }
    let n = str_byte_len(&t) as u32;
    let tc = chars_of(t.as_str());
    match find_char(&tc, '*', 0) {
        Some(i) => {
            assert(tc@[i as int] == '*');
            100 + n
        },
        None => 10_000 + n,
    }
}

/// The best score a host's name list gives a request host: the largest
/// specificity among the patterns that match, 0 when none does.
pub open spec fn score_over(patterns: Seq<Seq<char>>, hostname: Seq<char>) -> int
    decreases patterns.len(),
{
    if patterns.len() == 0 {
        0
    } else {
        let acc = score_over(patterns.drop_last(), hostname);
        let p = patterns.last();
        if host_matches_spec(p, hostname) && specificity(p) > acc {
            specificity(p)
        } else {
            acc
        }
    }
}

/// The score of a host for a request host (already stripped of its port).
pub open spec fn host_score(host: Host, hostname: Seq<char>) -> int {
    score_over(hostnames_of(host.hostname@), hostname)
}

/// Every name of the host has a score that fits in `u32`.
pub open spec fn host_names_fit(host: Host) -> bool {
    forall|k: int|
        0 <= k < hostnames_of(host.hostname@).len() ==> score_fits(
            #[trigger] hostnames_of(host.hostname@)[k],
        )
}

/// The position of the host chosen among `hosts`: the first one with the
/// highest positive score.
pub open spec fn best_host(hosts: Seq<Host>, hostname: Seq<char>) -> Option<int>
    decreases hosts.len(),
{
    if hosts.len() == 0 {
        None
    } else {
        let prev = best_host(hosts.drop_last(), hostname);
        let s = host_score(hosts.last(), hostname);
        match prev {
            None => if s > 0 {
                Some(hosts.len() - 1)
            } else {
                None
            },
            Some(i) => if s > host_score(hosts[i], hostname) {
                Some(hosts.len() - 1)
            } else {
                Some(i)
            },
        }
    }
}

/// The chosen position lies within the list.
pub proof fn lemma_best_host_in_range(hosts: Seq<Host>, hostname: Seq<char>)
    ensures
        best_host(hosts, hostname) matches Some(i) ==> 0 <= i < hosts.len(),
    decreases hosts.len(),
{
    if hosts.len() > 0 {
        lemma_best_host_in_range(hosts.drop_last(), hostname);
    }
}

fn host_score_exec(host: &Host, hostname: &str) -> (r: u32)
    requires
        host_names_fit(*host),
    ensures
        r == host_score(*host, hostname@),
{
    let names = parse_hostnames(host.hostname.as_str());
    let ghost pats = hostnames_of(host.hostname@);
    let mut score: u32 = 0;
    let mut i: usize = 0;
    while i < names.len()
        invariant
            i <= names@.len(),
            views(names@) == pats,
            pats == hostnames_of(host.hostname@),
            host_names_fit(*host),
            score == score_over(pats.take(i as int), hostname@),
        decreases names.len() - i,
    {
        assert(pats.take(i + 1).drop_last() == pats.take(i as int));
        assert(pats.take(i + 1).last() == names@[i as int]@);
        assert(score_fits(pats[i as int]));
        if host_matches(names[i].as_str(), hostname) {
            let s = host_specificity(names[i].as_str());
            if s > score {
                score = s;
            }
        }
        i = i + 1;
    }
    assert(pats.take(names@.len() as int) == pats);
    score
}

/// The host that serves a request for `hostname`: the host whose names match
/// it most specifically (the first such host on a tie), or none when no
/// host's names match.
pub fn find_host<'a>(data: &'a ConfigData, hostname: &str) -> (r: Option<&'a Host>)
    requires
        forall|i: int| 0 <= i < data.hosts@.len() ==> host_names_fit(#[trigger] data.hosts@[i]),
    ensures
        r == match best_host(data.hosts@, host_part(hostname@)) {
            Some(i) => Some(&data.hosts@[i]),
            None => None::<&Host>,
        },
{
    let name = strip_host_port(hostname);
    let ghost hs = data.hosts@;
    let mut best: Option<usize> = None;
    let mut best_score: u32 = 0;
    let mut i: usize = 0;
    while i < data.hosts.len()
        invariant
            i <= hs.len(),
            hs == data.hosts@,
            name@ == host_part(hostname@),
            forall|j: int| 0 <= j < hs.len() ==> host_names_fit(#[trigger] hs[j]),
            match best_host(hs.take(i as int), name@) {
                Some(b) => 0 <= b < i && best == Some(b as usize) && best_score == host_score(
                    hs[b],
                    name@,
                ) && best_score > 0,
                None => best.is_none() && best_score == 0,
            },
        decreases hs.len() - i,
    {
        assert(hs.take(i + 1).drop_last() == hs.take(i as int));
        assert(hs.take(i + 1).last() == hs[i as int]);
        proof {
            lemma_best_host_in_range(hs.take(i as int), name@);
        }
        let score = host_score_exec(&data.hosts[i], name);
        if score > best_score {
            best_score = score;
            best = Some(i);
        }
        proof {
            match best_host(hs.take(i as int), name@) {
                Some(b) => {
                    assert(hs.take(i + 1)[b] == hs[b]);
                },
                None => {},
            }
        }
        i = i + 1;
    }
    assert(hs.take(hs.len() as int) == hs);
    proof {
        lemma_best_host_in_range(hs, name@);
    }
    match best {
        Some(b) => Some(&data.hosts[b]),
        None => None,
    }
}


/// Scores are never negative.
pub proof fn lemma_score_nonneg(patterns: Seq<Seq<char>>, hostname: Seq<char>)
    ensures
        score_over(patterns, hostname) >= 0,
    decreases patterns.len(),
{
    if patterns.len() > 0 {
        lemma_score_nonneg(patterns.drop_last(), hostname);
    }
}

/// Law: the host chosen for a request is the first of the hosts with the
/// highest score, and no host is chosen exactly when no host's names match
/// (every score is 0).
pub proof fn find_host_picks_most_specific(hosts: Seq<Host>, hostname: Seq<char>)
    ensures
        best_host(hosts, hostname) is None <==> forall|j: int|
            0 <= j < hosts.len() ==> host_score(#[trigger] hosts[j], hostname) == 0,
        best_host(hosts, hostname) matches Some(b) ==> {
            &&& 0 <= b < hosts.len()
            &&& host_score(hosts[b], hostname) > 0
            &&& forall|j: int|
                0 <= j < hosts.len() ==> host_score(#[trigger] hosts[j], hostname) <= host_score(
                    hosts[b],
                    hostname,
                )
            &&& forall|j: int|
                0 <= j < b ==> host_score(#[trigger] hosts[j], hostname) < host_score(
                    hosts[b],
                    hostname,
                )
        },
    decreases hosts.len(),
{
    if hosts.len() > 0 {
        let init = hosts.drop_last();
        let n = hosts.len() - 1;
        find_host_picks_most_specific(init, hostname);
        assert(hosts.last() == hosts[n]);
        assert forall|j: int| 0 <= j < hosts.len() implies host_score(#[trigger] hosts[j], hostname)
            >= 0 by {
            lemma_score_nonneg(hostnames_of(hosts[j].hostname@), hostname);
        }
        assert forall|j: int| 0 <= j < n implies #[trigger] hosts[j] == init[j] by {}
        let last = host_score(hosts[n], hostname);
        match best_host(init, hostname) {
            Some(b) => {
                assert(init[b] == hosts[b]);
                let sb = host_score(hosts[b], hostname);
                if last > sb {
                    assert(best_host(hosts, hostname) == Some(n));
                    assert forall|j: int| 0 <= j < hosts.len() implies host_score(
                        #[trigger] hosts[j],
                        hostname,
                    ) <= last by {
                        if j < n {
                            assert(host_score(init[j], hostname) <= sb);
                        }
                    }
                    assert forall|j: int| 0 <= j < n implies host_score(
                        #[trigger] hosts[j],
                        hostname,
                    ) < last by {
                        assert(host_score(init[j], hostname) <= sb);
                    }
                } else {
                    assert(best_host(hosts, hostname) == Some(b));
                    assert forall|j: int| 0 <= j < hosts.len() implies host_score(
                        #[trigger] hosts[j],
                        hostname,
                    ) <= sb by {
                        if j < n {
                            assert(host_score(init[j], hostname) <= sb);
                        }
                    }
                    assert forall|j: int| 0 <= j < b implies host_score(
                        #[trigger] hosts[j],
                        hostname,
                    ) < sb by {
                        assert(host_score(init[j], hostname) < sb);
                    }
                }
            },
            None => {
                assert forall|j: int| 0 <= j < n implies host_score(#[trigger] hosts[j], hostname)
                    == 0 by {
                    assert(host_score(init[j], hostname) == 0);
                }
                if last > 0 {
                    assert(best_host(hosts, hostname) == Some(n));
                    assert forall|j: int| 0 <= j < hosts.len() implies host_score(
                        #[trigger] hosts[j],
                        hostname,
                    ) <= last by {}
                } else {
                    assert(best_host(hosts, hostname) is None);
                }
            },
        }
    }
}


/// What `regex::Regex::new(pattern)` followed by `.captures(text)` gives:
/// `None` when the pattern does not compile or does not match `text`, else
/// every capture group in order (group 0, the whole match, first), `None`
/// for a group that took no part in the match.
pub uninterp spec fn regex_captures(pattern: Seq<char>, text: Seq<char>) -> Option<Seq<Option<Seq<char>>>>;

/// The views of a list of optional strings.
pub open spec fn opt_views(v: Seq<Option<String>>) -> Seq<Option<Seq<char>>> {
    v.map_values(|o: Option<String>| match o {
        Some(s) => Some(s@),
        None => None,
    })
}

/// Compiles `pattern` with `regex::Regex::new` and searches `text` with
/// `Regex::captures`, returning the text of every group.
/// Claimed: the result is [`regex_captures`] of the two arguments, and a
/// successful search has at least group 0.
#[verifier::external_body]
fn regex_search(pattern: &str, text: &str) -> (r: Option<Vec<Option<String>>>)
    ensures
        match r {
            Some(g) => regex_captures(pattern@, text@) == Some(opt_views(g@)) && g@.len() >= 1,
            None => regex_captures(pattern@, text@) is None,
        },
{
    let re = regex::Regex::new(pattern).ok()?;
    let caps = re.captures(text)?;
    Some(caps.iter().map(|m| m.map(|v| v.as_str().to_string())).collect())
}

/// The captures a route hands on: groups 1.. of a match, a group that took
/// no part being the empty string.
pub open spec fn captures_of(groups: Seq<Option<Seq<char>>>) -> Seq<Seq<char>> {
    groups.skip(1).map_values(|o: Option<Seq<char>>| cap_text(o))
}

/// The text of a capture group; empty when the group took no part.
pub open spec fn cap_text(o: Option<Seq<char>>) -> Seq<char> {
    match o {
        Some(s) => s,
        None => Seq::<char>::empty(),
    }
}

/// How a route's pattern matches a path: a prefix pattern gives no captures,
/// a regex pattern gives its groups; `None` when it does not match.
pub open spec fn match_path_spec(route: Route, path: Seq<char>) -> Option<Seq<Seq<char>>> {
    match route.match_type {
        MatchType::Prefix => if route.pattern@.is_prefix_of(path) {
            Some(Seq::<Seq<char>>::empty())
        } else {
            None
        },
        MatchType::Regex => match regex_captures(route.pattern@, path) {
            Some(g) => if g.len() >= 1 {
                Some(captures_of(g))
            } else {
                None
            },
            None => None,
        },
    }
}

/// Matches a route's pattern against a path; see [`match_path_spec`].
pub fn match_path(route: &Route, path: &str) -> (r: Option<Vec<String>>)
    ensures
        match r {
            Some(c) => match_path_spec(*route, path@) == Some(views(c@)),
            None => match_path_spec(*route, path@) is None,
        },
{
    match route.match_type {
        MatchType::Prefix => {
            let pc = chars_of(path);
            let pat = chars_of(route.pattern.as_str());
            if starts_with(&pc, &pat) {
                let v: Vec<String> = Vec::new();
                assert(views(v@) =~= Seq::<Seq<char>>::empty());
                Some(v)
            } else {
                None
            }
        },
        MatchType::Regex => {
            let groups = regex_search(route.pattern.as_str(), path);
            match groups {
                Some(g) => {
                    let mut out: Vec<String> = Vec::new();
                    let mut i: usize = 1;
                    let ghost want = captures_of(opt_views(g@));
                    while i < g.len()
                        invariant
                            1 <= i <= g@.len(),
                            want == captures_of(opt_views(g@)),
                            out@.len() == i - 1,
                            want.len() == g@.len() - 1,
                            forall|k: int| 0 <= k < i - 1 ==> (#[trigger] out@[k])@ == want[k],
                        decreases g.len() - i,
                    {
                        assert(opt_views(g@).skip(1)[i - 1] == opt_views(g@)[i as int]);
                        let s = match &g[i] {
                            Some(v) => {
                                assert(opt_views(g@)[i as int] == Some(v@));
                                v.clone()
                            },
                            None => {
                                assert(opt_views(g@)[i as int] == None::<Seq<char>>);
                                String::new()
                            },
                        };
                        assert(want[i - 1] == cap_text(opt_views(g@).skip(1)[i - 1]));
                        assert(want[i - 1] == s@);
                        out.push(s);
                        i = i + 1;
                    }
                    assert(views(out@) =~= want);
                    Some(out)
                },
                None => None,
            }
        },
    }
}

/// Whether a request method is allowed by a route's method list: an empty
/// list allows every method, else one entry must equal it ignoring ASCII case.
pub open spec fn method_allowed_spec(methods: Seq<String>, method: Seq<char>) -> bool {
    methods.len() == 0 || exists|i: int|
        0 <= i < methods.len() && lower_seq(#[trigger] methods[i]@) == lower_seq(method)
}

/// See [`method_allowed_spec`].
pub fn method_allowed(methods: &[String], method: &str) -> (r: bool)
    ensures
        r == method_allowed_spec(methods@, method@),
{
    if methods.len() == 0 {
        return true;
    }
    let mc = chars_of(method);
    let ml = lower_chars(&mc);
    let mut i: usize = 0;
    while i < methods.len()
        invariant
            i <= methods@.len(),
            ml@ == lower_seq(method@),
            forall|k: int| 0 <= k < i ==> lower_seq(#[trigger] methods@[k]@) != lower_seq(method@),
        decreases methods.len() - i,
    {
        let c = chars_of(methods[i].as_str());
        let l = lower_chars(&c);
        if chars_eq(&l, &ml) {
            assert(lower_seq(methods@[i as int]@) == lower_seq(method@));
            return true;
        }
        i = i + 1;
    }
    false
}

/// The URI a matched request is forwarded with. Without a rewrite template
/// the path is kept. A template holding `$` is expanded (captures, `$uri`).
/// Otherwise a prefix route swaps the matched prefix for the template
/// (without its trailing slashes) and a regex route uses the template as is.
pub open spec fn rewrite_spec(path: Seq<char>, route: Route, caps: Seq<Seq<char>>) -> Seq<char> {
    match route.rewrite_uri {
        None => path,
        Some(t) => if t@.contains('$') {
            expand_from(
                vstd::utf8::encode_utf8(t@),
                0,
                path,
                caps,
                Map::<Seq<char>, Seq<char>>::empty(),
            )
        } else {
            match route.match_type {
                MatchType::Prefix => trim_end_char(t@, '/') + (if route.pattern@.is_prefix_of(path) {
                    path.skip(route.pattern@.len() as int)
                } else {
                    Seq::<char>::empty()
                }),
                MatchType::Regex => t@,
            }
        },
    }
}

/// See [`rewrite_spec`].
pub fn rewrite_uri(path: &str, route: &Route, captures: &[String]) -> (r: String)
    ensures
        r@ == rewrite_spec(path@, *route, views(captures@)),
{
    let template = match &route.rewrite_uri {
        Some(t) => t,
        None => {
            return owned(path);
        },
    };
    let tc = chars_of(template.as_str());
    match find_char(&tc, '$', 0) {
        Some(k) => {
            assert(tc@[k as int] == '$');
            let vars = VarMap::new();
            return expand_template(template.as_str(), path, captures, &vars);
        },
        None => {},
    }
    match route.match_type {
        MatchType::Prefix => {
            let n = trim_end_len(&tc, '/');
            let mut out = string_from_range(&tc, 0, n);
            assert(tc@.subrange(0, n as int) == tc@.take(n as int));
            let pc = chars_of(path);
            let pat = chars_of(route.pattern.as_str());
            if starts_with(&pc, &pat) {
                let rest = string_from_range(&pc, pat.len(), pc.len());
                push_str(&mut out, rest.as_str());
            } else {
                assert(out@ + Seq::<char>::empty() == out@);
            }
            out
        },
        MatchType::Regex => template.clone(),
    }
}

/// The outcome of routing a request within a host.
#[derive(Debug)]
pub struct SelectedRoute {
    pub upstream_id: String,
    pub uri: String,
    pub request_headers: Vec<HeaderRewrite>,
    pub response_headers: Vec<HeaderRewrite>,
    pub captures: Vec<String>,
}

/// A route applies to a request when its methods allow the method and its
/// pattern matches the path.
pub open spec fn route_applies(route: Route, method: Seq<char>, path: Seq<char>) -> bool {
    method_allowed_spec(route.methods@, method) && match_path_spec(route, path) is Some
}

/// The first route that applies, if any.
pub open spec fn first_route(routes: Seq<Route>, method: Seq<char>, path: Seq<char>) -> Option<int> {
    if exists|i: int| 0 <= i < routes.len() && route_applies(routes[i], method, path) {
        Some(
            choose|i: int|
                0 <= i < routes.len() && route_applies(routes[i], method, path) && forall|k: int|
                    0 <= k < i ==> !route_applies(routes[k], method, path),
        )
    } else {
        None
    }
}

proof fn lemma_first_route(routes: Seq<Route>, method: Seq<char>, path: Seq<char>, i: int)
    requires
        0 <= i < routes.len(),
        route_applies(routes[i], method, path),
        forall|k: int| 0 <= k < i ==> !route_applies(routes[k], method, path),
    ensures
        first_route(routes, method, path) == Some(i),
{
    let j = choose|j: int|
        0 <= j < routes.len() && route_applies(routes[j], method, path) && forall|k: int|
            0 <= k < j ==> !route_applies(routes[k], method, path);
    assert(0 <= j < routes.len() && route_applies(routes[j], method, path) && forall|k: int|
        0 <= k < j ==> !route_applies(routes[k], method, path));
    if j < i {
        assert(!route_applies(routes[j], method, path));
    }
    if i < j {
        assert(!route_applies(routes[i], method, path));
    }
}

/// Routes a request within a host: the first route whose methods and
/// pattern fit decides the upstream, the rewritten URI, the header rewrites
/// and the captures; when none fits, the host's default upstream gets the
/// path unchanged with no rewrites.
pub fn match_route(host: &Host, method: &str, path: &str) -> (r: SelectedRoute)
    ensures
        match first_route(host.routes@, method@, path@) {
            Some(i) => {
                let route = host.routes@[i];
                let caps = match_path_spec(route, path@)->0;
                &&& r.upstream_id@ == route.upstream_id@
                &&& r.uri@ == rewrite_spec(path@, route, caps)
                &&& r.request_headers@ == route.request_headers@
                &&& r.response_headers@ == route.response_headers@
                &&& views(r.captures@) == caps
            },
            None => {
                &&& r.upstream_id@ == host.default_upstream_id@
                &&& r.uri@ == path@
                &&& r.request_headers@.len() == 0
                &&& r.response_headers@.len() == 0
                &&& r.captures@.len() == 0
            },
        },
{
    let mut i: usize = 0;
    while i < host.routes.len()
        invariant
            i <= host.routes@.len(),
            forall|k: int| 0 <= k < i ==> !route_applies(host.routes@[k], method@, path@),
        decreases host.routes.len() - i,
    {
        let route = &host.routes[i];
        if method_allowed(route.methods.as_slice(), method) {
            if let Some(captures) = match_path(route, path) {
                proof {
                    lemma_first_route(host.routes@, method@, path@, i as int);
                }
                let uri = rewrite_uri(path, route, captures.as_slice());
                return SelectedRoute {
                    upstream_id: route.upstream_id.clone(),
                    uri,
                    request_headers: clone_headers(&route.request_headers),
                    response_headers: clone_headers(&route.response_headers),
                    captures,
                };
            }
        }
        i = i + 1;
    }
    SelectedRoute {
        upstream_id: host.default_upstream_id.clone(),
        uri: owned(path),
        request_headers: Vec::new(),
        response_headers: Vec::new(),
        captures: Vec::new(),
    }
}


/// The number of tickets a backend holds: its weight, at least 1.
pub open spec fn ticket_weight(s: UpstreamServer) -> nat {
    if s.weight >= 1 {
        s.weight as nat
    } else {
        1
    }
}

/// The tickets held by the first `n` backends together.
pub open spec fn tickets_before(servers: Seq<UpstreamServer>, n: int) -> nat
    decreases n,
{
    if n <= 0 {
        0
    } else {
        tickets_before(servers, n - 1) + ticket_weight(servers[n - 1])
    }
}

/// The tickets held by backends `0..=i`: where backend `i`'s block ends.
pub open spec fn block_end(servers: Seq<UpstreamServer>, i: int) -> nat {
    tickets_before(servers, i + 1)
}

/// All tickets of a backend list.
pub open spec fn total_tickets(servers: Seq<UpstreamServer>) -> nat {
    tickets_before(servers, servers.len() as int)
}

/// The backend a ticket draws: the first whose tickets reach past it (the
/// last backend for a ticket beyond all of them).
pub open spec fn ticket_owner(servers: Seq<UpstreamServer>, ticket: nat) -> int {
    if exists|i: int| 0 <= i < servers.len() && ticket < block_end(servers, i) {
        choose|i: int|
            0 <= i < servers.len() && ticket < block_end(servers, i) && forall|k: int|
                0 <= k < i ==> ticket >= block_end(servers, k)
    } else {
        servers.len() - 1
    }
}

/// The ticket counts grow along the list.
pub proof fn lemma_tickets_monotone(servers: Seq<UpstreamServer>, a: int, b: int)
    requires
        0 <= a <= b <= servers.len(),
    ensures
        tickets_before(servers, a) <= tickets_before(servers, b),
        a < b ==> tickets_before(servers, a) < tickets_before(servers, b),
    decreases b - a,
{
    if a < b {
        lemma_tickets_monotone(servers, a, b - 1);
    }
}

proof fn lemma_ticket_owner(servers: Seq<UpstreamServer>, ticket: nat, i: int)
    requires
        0 <= i < servers.len(),
        ticket < block_end(servers, i),
        forall|k: int| 0 <= k < i ==> ticket >= block_end(servers, k),
    ensures
        ticket_owner(servers, ticket) == i,
{
    let j = choose|j: int|
        0 <= j < servers.len() && ticket < block_end(servers, j) && forall|k: int|
            0 <= k < j ==> ticket >= block_end(servers, k);
    assert(0 <= j < servers.len() && ticket < block_end(servers, j) && forall|k: int|
        0 <= k < j ==> ticket >= block_end(servers, k));
    if j < i {
        assert(ticket >= block_end(servers, j));
    }
    if i < j {
        assert(ticket >= block_end(servers, i));
    }
}

/// Law: every backend owns exactly the block of tickets between the tickets
/// of the backends before it and those before its successor, so a uniform
/// ticket picks each backend with a chance proportional to its weight.
pub proof fn ticket_blocks(servers: Seq<UpstreamServer>, ticket: nat, i: int)
    requires
        0 <= i < servers.len(),
        ticket < total_tickets(servers),
    ensures
        ticket_owner(servers, ticket) == i <==> tickets_before(servers, i) <= ticket
            < block_end(servers, i),
        block_end(servers, i) - tickets_before(servers, i) == ticket_weight(servers[i]),
{
    let n = servers.len() as int;
    lemma_tickets_monotone(servers, 0, n);
    // the owner is the first block that reaches past the ticket
    let o = choose|o: int| 0 <= o < n && ticket < block_end(servers, o) && forall|k: int|
        0 <= k < o ==> ticket >= block_end(servers, k);
    assert(exists|o: int|
        0 <= o < n && ticket < block_end(servers, o) && forall|k: int|
            0 <= k < o ==> ticket >= block_end(servers, k)) by {
        lemma_first_block(servers, ticket, n - 1);
    }
    assert(ticket_owner(servers, ticket) == o) by {
        lemma_ticket_owner(servers, ticket, o);
    }
    if o > 0 {
        assert(ticket >= block_end(servers, o - 1));
        assert(block_end(servers, o - 1) == tickets_before(servers, o));
    }
    if o < i {
        lemma_tickets_monotone(servers, o + 1, i);
    }
    if i < o {
        assert(ticket >= block_end(servers, i));
    }
}

proof fn lemma_first_block(servers: Seq<UpstreamServer>, ticket: nat, m: int)
    requires
        0 <= m < servers.len(),
        ticket < block_end(servers, m),
    ensures
        exists|o: int|
            0 <= o < servers.len() && ticket < block_end(servers, o) && forall|k: int|
                0 <= k < o ==> ticket >= block_end(servers, k),
    decreases m,
{
    if exists|k: int| 0 <= k < m && ticket < block_end(servers, k) {
        let k = choose|k: int| 0 <= k < m && ticket < block_end(servers, k);
        lemma_first_block(servers, ticket, k);
    } else {
        assert(forall|k: int| 0 <= k < m ==> ticket >= block_end(servers, k));
    }
}

/// The backend list's tickets fit in `u32`, so summing them cannot overflow.
pub open spec fn tickets_fit(servers: Seq<UpstreamServer>) -> bool {
    total_tickets(servers) <= u32::MAX
}

/// The backend that holds `ticket`: walks the list subtracting each weight
/// (at least 1) until the ticket falls within one; past the end, the last.
pub fn pick_backend_with(servers: &[UpstreamServer], ticket: u32) -> (r: Option<&UpstreamServer>)
    ensures
        servers@.len() == 0 ==> r is None,
        servers@.len() > 0 ==> r == Some(&servers@[ticket_owner(servers@, ticket as nat)]),
{
    if servers.len() == 0 {
        return None;
    }
    let ghost sv = servers@;
    let mut t: u32 = ticket;
    let mut i: usize = 0;
    while i < servers.len()
        invariant
            sv == servers@,
            i <= sv.len(),
            t + tickets_before(sv, i as int) == ticket,
            forall|k: int| 0 <= k < i ==> ticket >= block_end(sv, k),
        decreases servers.len() - i,
    {
        let w = if servers[i].weight >= 1 {
            servers[i].weight
        } else {
            1
        };
        if t < w {
            proof {
                lemma_ticket_owner(sv, ticket as nat, i as int);
            }
            return Some(&servers[i]);
        }
        t = t - w;
        i = i + 1;
    }
    assert(!(exists|k: int| 0 <= k < sv.len() && ticket < block_end(sv, k)));
    Some(&servers[servers.len() - 1])
}

/// A random number below `bound` (`rand::thread_rng().gen_range(0..bound)`).
/// Claimed: it is below `bound`; which number comes is left open.
#[verifier::external_body]
pub(crate) fn random_below(bound: u32) -> (r: u32)
    requires
        bound > 0,
    ensures
        r < bound,
{
    rand::Rng::gen_range(&mut rand::thread_rng(), 0..bound)
}

/// The sum of the backends' tickets.
pub fn total_weight(servers: &[UpstreamServer]) -> (r: u32)
    requires
        tickets_fit(servers@),
    ensures
        r == total_tickets(servers@),
{
    let mut total: u32 = 0;
    let mut i: usize = 0;
    while i < servers.len()
        invariant
            i <= servers@.len(),
            tickets_fit(servers@),
            total == tickets_before(servers@, i as int),
        decreases servers.len() - i,
    {
        proof {
            lemma_tickets_monotone(servers@, i + 1, servers@.len() as int);
        }
        let w = if servers[i].weight >= 1 {
            servers[i].weight
        } else {
            1
        };
        total = total + w;
        i = i + 1;
    }
    total
}

/// Picks a backend at random, each with a chance proportional to its weight
/// (at least 1); `None` for an empty list.
pub fn pick_backend(servers: &[UpstreamServer]) -> (r: Option<&UpstreamServer>)
    requires
        tickets_fit(servers@),
    ensures
        servers@.len() == 0 <==> r is None,
        r matches Some(s) ==> exists|t: nat|
            t < total_tickets(servers@) && s == &servers@[ticket_owner(servers@, t)],
{
    if servers.len() == 0 {
        return None;
    }
    let total = total_weight(servers);
    proof {
        lemma_tickets_monotone(servers@, 0, servers@.len() as int);
    }
    let ticket = random_below(total);
    let r = pick_backend_with(servers, ticket);
    assert(ticket < total_tickets(servers@));
    r
}

/// The `host:port` address a backend is dialled at; an IPv6 address is put
/// in brackets.
pub open spec fn socket_spec(address: Seq<char>, port: u16) -> Seq<char> {
    if address.contains(':') && !(address.len() > 0 && address[0] == '[') {
        "["@ + address + "]:"@ + decimal(port as nat)
    } else {
        address + ":"@ + decimal(port as nat)
    }
}

/// The socket address of a backend, with the port from
/// [`UpstreamServer::effective_port`].
pub fn backend_socket(server: &UpstreamServer, fallback: UpstreamProtocol) -> (r: String)
    ensures
        r@ == socket_spec(server.address@, effective_port_spec(*server, fallback)),
{
    let port = server.effective_port(fallback);
    let ac = chars_of(server.address.as_str());
    let colon = find_char(&ac, ':', 0);
    let bracket = ac.len() > 0 && ac[0] == '[';
    proof {
        reveal_strlit("[");
        reveal_strlit("]:");
        reveal_strlit(":");
    }
    let mut out = String::new();
    let has_colon = match colon {
        Some(k) => {
            assert(ac@[k as int] == ':');
            true
        },
        None => false,
    };
    if has_colon && !bracket {
        push_str(&mut out, "[");
        push_str(&mut out, server.address.as_str());
        push_str(&mut out, "]:");
    } else {
        push_str(&mut out, server.address.as_str());
        push_str(&mut out, ":");
    }
    push_decimal(&mut out, port as u64);
    out
}

/// The TLS server name used towards a backend: the upstream's SNI when set
/// and non-empty, else the backend address.
pub fn resolve_sni(upstream: &Upstream, server: &UpstreamServer) -> (r: String)
    ensures
        r@ == match upstream.sni {
            Some(s) if s@.len() > 0 => s@,
            _ => server.address@,
        },
{
    match &upstream.sni {
        Some(s) => {
            if !s.as_str().is_empty() {
                return s.clone();
            }
        },
        None => {},
    }
    server.address.clone()
}

} // verus!
