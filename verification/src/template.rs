//! Variable expansion in rewrite templates and header values (`$1`, `$uri`,
//! `${http_host}`, ...), and the variable tables built from request and
//! response headers.
use vstd::prelude::*;

use crate::model::HeaderRewrite;
use crate::router::{host_part, strip_host_port};
use crate::text::{chars_of, lower_chars, lower_seq, owned, push_char, views};

verus! {

/// A table of variables, each name bound to one value (a later binding of a
/// name replaces the earlier one).
pub struct VarMap {
    entries: Vec<(String, String)>,
}

/// The names bound by a list of entries.
pub open spec fn entry_keys(es: Seq<(String, String)>) -> Seq<Seq<char>> {
    es.map_values(|e: (String, String)| e.0@)
}

impl VarMap {
    /// The names bound, in binding order.
    pub closed spec fn keys(&self) -> Seq<Seq<char>> {
        entry_keys(self.entries@)
    }

    #[verifier::type_invariant]
    closed spec fn wf(&self) -> bool {
        self.keys().no_duplicates()
    }
}

impl View for VarMap {
    type V = Map<Seq<char>, Seq<char>>;

    closed spec fn view(&self) -> Map<Seq<char>, Seq<char>> {
        Map::new(
            |k: Seq<char>| self.keys().contains(k),
            |k: Seq<char>| self.entries@[self.keys().index_of(k)].1@,
        )
    }
}

proof fn lemma_index_of_unique(s: Seq<Seq<char>>, k: Seq<char>, j: int)
    requires
        s.no_duplicates(),
        0 <= j < s.len(),
        s[j] == k,
    ensures
        s.index_of(k) == j,
{
    let i = s.index_of(k);
    assert(s.contains(k));
    assert(0 <= i < s.len() && s[i] == k);
}

impl VarMap {
    /// An empty table.
    pub fn new() -> (r: Self)
        ensures
            r@ == Map::<Seq<char>, Seq<char>>::empty(),
    {
        let r = VarMap { entries: Vec::new() };
        assert(r@ =~= Map::<Seq<char>, Seq<char>>::empty());
        r
    }

    /// Binds `key` to `value`, replacing an earlier binding of `key`.
    pub fn insert(&mut self, key: String, value: String)
        ensures
            final(self)@ == old(self)@.insert(key@, value@),
    {
        proof {
            use_type_invariant(&*self);
        }
        let ghost old_keys = old(self).keys();
        let ghost old_map = old(self)@;
        let mut i: usize = 0;
        while i < self.entries.len()
            invariant
                i <= self.entries@.len(),
                old_keys == entry_keys(self.entries@),
                old_keys.no_duplicates(),
                old_map == old(self)@,
                self.entries@ == old(self).entries@,
                old_keys == old(self).keys(),
                forall|q: int| 0 <= q < i ==> old_keys[q] != key@,
            decreases self.entries.len() - i,
        {
            if self.entries[i].0 == key {
                let ghost j = i as int;
                let ghost pair = (key, value);
                let mut es = Vec::new();
                std::mem::swap(&mut es, &mut self.entries);
                es.set(i, (key, value));
                proof {
                    assert(entry_keys(es@) =~= old_keys);
                }
                self.entries = es;
                proof {
                    assert(entry_keys(self.entries@) =~= old_keys);
                    assert(old_keys[j] == key@);
                    assert(old_keys.contains(key@));
                    assert forall|k: Seq<char>| #[trigger]
                        self@.contains_key(k) == old_map.insert(key@, value@).contains_key(k) by {
                        assert(self@.contains_key(k) == self.keys().contains(k));
                        assert(old_map.contains_key(k) == old_keys.contains(k));
                        assert(self.keys() == old_keys);
                    }
                    assert forall|k: Seq<char>| self@.contains_key(k) implies #[trigger] self@[k]
                        == old_map.insert(key@, value@)[k] by {
                        let q = old_keys.index_of(k);
                        assert(old_keys.contains(k));
                        if k == key@ {
                            lemma_index_of_unique(old_keys, k, j);
                        }
                    }
                    assert(self@ =~= old_map.insert(key@, value@));
                }
                return ;
            }
            i = i + 1;
        }
        let ghost kv = key@;
        let ghost vv = value@;
        let mut es = Vec::new();
        std::mem::swap(&mut es, &mut self.entries);
        es.push((key, value));
        proof {
            let nk = entry_keys(es@);
            assert(nk =~= old_keys.push(kv));
            assert(!old_keys.contains(kv));
            assert forall|a: int, b: int| 0 <= a < nk.len() && 0 <= b < nk.len() && a != b implies nk[a] != nk[b] by {
                if b == nk.len() - 1 {
                    assert(nk[a] == old_keys[a]);
                } else if a == nk.len() - 1 {
                    assert(nk[b] == old_keys[b]);
                }
            }
        }
        self.entries = es;
        proof {
            let nk = entry_keys(self.entries@);
            assert(nk =~= old_keys.push(kv));
            assert(nk[nk.len() - 1] == kv);
            assert(nk.contains(kv));
            assert forall|k: Seq<char>| #[trigger]
                self@.contains_key(k) == old_map.insert(kv, vv).contains_key(k) by {
                if old_keys.contains(k) {
                    let q = old_keys.index_of(k);
                    assert(nk[q] == k);
                }
                if nk.contains(k) && k != kv {
                    let q = nk.index_of(k);
                    assert(q < old_keys.len());
                    assert(old_keys[q] == k);
                }
            }
            assert forall|k: Seq<char>| self@.contains_key(k) implies #[trigger] self@[k]
                == old_map.insert(kv, vv)[k] by {
                if k == kv {
                    lemma_index_of_unique(nk, k, nk.len() - 1);
                } else {
                    let q = old_keys.index_of(k);
                    assert(old_keys.contains(k)) by {
                        let p = nk.index_of(k);
                        assert(p < old_keys.len());
                        assert(old_keys[p] == k);
                    }
                    lemma_index_of_unique(nk, k, q);
                }
            }
            assert(self@ =~= old_map.insert(kv, vv));
        }
    }

    /// The value bound to the name whose UTF-8 encoding is `key`.
    pub fn get_bytes(&self, key: &[u8]) -> (r: Option<&String>)
        ensures
            match r {
                Some(v) => exists|k: Seq<char>|
                    #![trigger self@[k]]
                    self@.contains_key(k) && vstd::utf8::encode_utf8(k) == key@ && self@[k]
                        == v@,
                None => forall|k: Seq<char>|
                    self@.contains_key(k) ==> vstd::utf8::encode_utf8(k) != key@,
            },
    {
        proof {
            use_type_invariant(self);
        }
        let ghost ks = self.keys();
        let mut i: usize = 0;
        while i < self.entries.len()
            invariant
                i <= self.entries@.len(),
                ks == entry_keys(self.entries@),
                ks.no_duplicates(),
                forall|q: int| 0 <= q < i ==> vstd::utf8::encode_utf8(ks[q]) != key@,
            decreases self.entries.len() - i,
        {
            let b = self.entries[i].0.as_str().as_bytes();
            if bytes_eq(b, key) {
                proof {
                    let k = ks[i as int];
                    assert(ks.contains(k));
                    lemma_index_of_unique(ks, k, i as int);
                    assert(self@.contains_key(k));
                    assert(self@[k] == self.entries@[i as int].1@);
                }
                return Some(&self.entries[i].1);
            }
            i = i + 1;
        }
        proof {
            assert forall|k: Seq<char>| self@.contains_key(k) implies vstd::utf8::encode_utf8(k)
                != key@ by {
                let q = ks.index_of(k);
                assert(ks.contains(k));
            }
        }
        None
    }
}

/// Whether two byte slices are equal.
pub fn bytes_eq(a: &[u8], b: &[u8]) -> (r: bool)
    ensures
        r == (a@ == b@),
{
    if a.len() != b.len() {
        return false;
    }
    let mut i: usize = 0;
    while i < a.len()
        invariant
            a@.len() == b@.len(),
            i <= a@.len(),
            forall|k: int| 0 <= k < i ==> a@[k] == b@[k],
        decreases a.len() - i,
    {
        if a[i] != b[i] {
            return false;
        }
        i = i + 1;
    }
    assert(a@ =~= b@);
    true
}


/// Letters, digits and `_`: the bytes a `$name` variable is made of.
pub open spec fn is_ident_byte(b: u8) -> bool {
    (97 <= b <= 122) || (65 <= b <= 90) || (48 <= b <= 57) || b == 95
}

/// The length of the run of identifier bytes at the start of `s`.
pub open spec fn ident_len(s: Seq<u8>) -> nat
    decreases s.len(),
{
    if s.len() > 0 && is_ident_byte(s[0]) {
        1 + ident_len(s.drop_first())
    } else {
        0
    }
}

/// `ident_len` is the end of the leading run of identifier bytes.
pub proof fn lemma_ident_len(s: Seq<u8>, n: int)
    requires
        0 <= n <= s.len(),
        forall|k: int| 0 <= k < n ==> is_ident_byte(#[trigger] s[k]),
        n < s.len() ==> !is_ident_byte(s[n]),
    ensures
        ident_len(s) == n,
    decreases n,
{
    if n > 0 {
        assert forall|k: int| 0 <= k < n - 1 implies is_ident_byte(#[trigger] s.drop_first()[k]) by {
            assert(s.drop_first()[k] == s[k + 1]);
        }
        if n - 1 < s.drop_first().len() {
            assert(s.drop_first()[n - 1] == s[n]);
        }
        lemma_ident_len(s.drop_first(), n - 1);
    }
}

/// The run of identifier bytes ends within `s`.
pub proof fn lemma_ident_len_bound(s: Seq<u8>)
    ensures
        ident_len(s) <= s.len(),
    decreases s.len(),
{
    if s.len() > 0 && is_ident_byte(s[0]) {
        lemma_ident_len_bound(s.drop_first());
    }
}

/// `s` holds the byte `b`.
pub open spec fn has_byte(s: Seq<u8>, b: u8) -> bool {
    exists|e: int| 0 <= e < s.len() && s[e] == b
}

/// When `s` holds `b`, it holds a first `b`.
pub proof fn lemma_first_byte(s: Seq<u8>, b: u8, e: int)
    requires
        0 <= e < s.len(),
        s[e] == b,
    ensures
        exists|f: int| 0 <= f < s.len() && s[f] == b && forall|k: int| 0 <= k < f ==> s[k] != b,
    decreases e,
{
    if exists|k: int| 0 <= k < e && s[k] == b {
        let k = choose|k: int| 0 <= k < e && s[k] == b;
        lemma_first_byte(s, b, k);
    } else {
        assert(forall|k: int| 0 <= k < e ==> s[k] != b);
    }
}

/// The first position of `b` in `s` (meaningful when `has_byte(s, b)`).
pub open spec fn first_byte(s: Seq<u8>, b: u8) -> int {
    choose|e: int| 0 <= e < s.len() && s[e] == b && forall|k: int| 0 <= k < e ==> s[k] != b
}

/// Decimal digits.
pub open spec fn is_digit_byte(b: u8) -> bool {
    48 <= b <= 57
}

/// The number written by a run of decimal digits.
pub open spec fn digits_value(s: Seq<u8>) -> nat
    decreases s.len(),
{
    if s.len() == 0 {
        0
    } else {
        digits_value(s.drop_last()) * 10 + (s.last() - 48) as nat
    }
}

/// The text after an optional leading `+`.
pub open spec fn strip_plus(s: Seq<u8>) -> Seq<u8> {
    if s.len() > 0 && s[0] == 43 {
        s.drop_first()
    } else {
        s
    }
}

/// Every byte is a decimal digit.
pub open spec fn all_digits(d: Seq<u8>) -> bool {
    forall|k: int| 0 <= k < d.len() ==> is_digit_byte(#[trigger] d[k])
}

/// `str::parse::<usize>`: an optional `+`, then one or more decimal digits
/// whose value fits in `usize`.
pub open spec fn parse_usize_spec(s: Seq<u8>) -> Option<nat> {
    let d = strip_plus(s);
    if d.len() > 0 && all_digits(d) && digits_value(d) <= usize::MAX {
        Some(digits_value(d))
    } else {
        None
    }
}

/// ASCII lower-casing of bytes.
pub open spec fn lower_byte(b: u8) -> u8 {
    if 65 <= b <= 90 {
        (b + 32) as u8
    } else {
        b
    }
}

/// ASCII lower-casing of a byte string.
pub open spec fn lower_bytes(s: Seq<u8>) -> Seq<u8> {
    s.map_values(|b: u8| lower_byte(b))
}

/// Some variable name of `vars` is spelled by `key`.
pub open spec fn var_named(vars: Map<Seq<char>, Seq<char>>, key: Seq<u8>) -> bool {
    exists|k: Seq<char>| vars.contains_key(k) && vstd::utf8::encode_utf8(k) == key
}

/// The value of the variable spelled by `key`.
pub open spec fn var_value(vars: Map<Seq<char>, Seq<char>>, key: Seq<u8>) -> Seq<char> {
    vars[choose|k: Seq<char>| vars.contains_key(k) && vstd::utf8::encode_utf8(k) == key]
}

/// What a variable reference expands to: `$N` is the N-th regex capture
/// (when there is one), `uri` and `request_uri` (any case) the URI, then the
/// table entry of that name, then the entry of its lower-cased name, else
/// nothing.
pub open spec fn lookup_spec(
    key: Seq<u8>,
    uri: Seq<char>,
    caps: Seq<Seq<char>>,
    vars: Map<Seq<char>, Seq<char>>,
) -> Seq<char> {
    let idx = parse_usize_spec(key);
    if idx is Some && idx->0 >= 1 && idx->0 - 1 < caps.len() {
        caps[idx->0 - 1]
    } else if lower_bytes(key) == seq![117u8, 114, 105] || lower_bytes(key) == seq![
        114u8,
        101,
        113,
        117,
        101,
        115,
        116,
        95,
        117,
        114,
        105,
    ] {
        uri
    } else if var_named(vars, key) {
        var_value(vars, key)
    } else if var_named(vars, lower_bytes(key)) {
        var_value(vars, lower_bytes(key))
    } else {
        Seq::<char>::empty()
    }
}

/// The expansion of the template bytes `t` from position `i` on. `${name}`
/// and `$name` are replaced by their values; every other byte is copied as
/// the character with that code.
#[verifier::opaque]
pub open spec fn expand_from(
    t: Seq<u8>,
    i: int,
    uri: Seq<char>,
    caps: Seq<Seq<char>>,
    vars: Map<Seq<char>, Seq<char>>,
) -> Seq<char>
    decreases t.len() - i,
{
    if i < 0 || i >= t.len() {
        Seq::<char>::empty()
    } else if t[i] == 36 && i + 1 < t.len() && t[i + 1] == 123 && has_byte(t.skip(i + 2), 125) {
        let end = first_byte(t.skip(i + 2), 125);
        proof {
            let rest = t.skip(i + 2);
            let e = choose|e: int| 0 <= e < rest.len() && #[trigger] rest[e] == 125;
            lemma_first_byte(rest, 125, e);
        }
        lookup_spec(t.subrange(i + 2, i + 2 + end), uri, caps, vars) + expand_from(
            t,
            i + 3 + end,
            uri,
            caps,
            vars,
        )
    } else if t[i] == 36 && !(i + 1 < t.len() && t[i + 1] == 123) && ident_len(t.skip(i + 1))
        > 0 {
        let n = ident_len(t.skip(i + 1));
        proof {
            lemma_ident_len_bound(t.skip(i + 1));
        }
        lookup_spec(t.subrange(i + 1, i + 1 + n), uri, caps, vars) + expand_from(
            t,
            i + 1 + n,
            uri,
            caps,
            vars,
        )
    } else {
        seq![t[i] as char] + expand_from(t, i + 1, uri, caps, vars)
    }
}

/// Length of the run of identifier bytes at `s[from..]`.
pub fn take_ident(s: &[u8], from: usize) -> (r: usize)
    requires
        from <= s@.len(),
    ensures
        from + r <= s@.len(),
        r == ident_len(s@.skip(from as int)),
{
    let mut k: usize = from;
    while k < s.len() && (s[k] >= 97 && s[k] <= 122 || s[k] >= 65 && s[k] <= 90 || s[k] >= 48
        && s[k] <= 57 || s[k] == 95)
        invariant
            from <= k <= s@.len(),
            forall|q: int| from <= q < k ==> is_ident_byte(#[trigger] s@[q]),
        decreases s.len() - k,
    {
        k = k + 1;
    }
    proof {
        let t = s@.skip(from as int);
        assert forall|q: int| 0 <= q < k - from implies is_ident_byte(#[trigger] t[q]) by {
            assert(t[q] == s@[q + from]);
        }
        if k - from < t.len() {
            assert(t[k - from] == s@[k as int]);
        }
        lemma_ident_len(t, k - from);
    }
    k - from
}

/// `str::parse::<usize>` on the bytes `s[lo..hi]`.
pub fn parse_index(s: &[u8], lo: usize, hi: usize) -> (r: Option<usize>)
    requires
        lo <= hi <= s@.len(),
    ensures
        r == match parse_usize_spec(s@.subrange(lo as int, hi as int)) {
            Some(n) => Some(n as usize),
            None => None::<usize>,
        },
{
    let ghost full = s@.subrange(lo as int, hi as int);
    let mut start = lo;
    if start < hi && s[start] == 43 {
        start = start + 1;
    }
    let ghost d = s@.subrange(start as int, hi as int);
    assert(d == strip_plus(full));
    if start == hi {
        return None;
    }
    let mut acc: usize = 0;
    let mut k: usize = start;
    while k < hi
        invariant
            lo <= start <= k <= hi <= s@.len(),
            d == s@.subrange(start as int, hi as int),
            full == s@.subrange(lo as int, hi as int),
            d == strip_plus(full),
            acc == digits_value(d.take(k - start)),
            forall|q: int| 0 <= q < k - start ==> is_digit_byte(#[trigger] d[q]),
        decreases hi - k,
    {
        let b = s[k];
        assert(d[k - start] == b);
        assert(d.take(k - start + 1).drop_last() == d.take(k - start));
        assert(d.take(k - start + 1).last() == b);
        if b < 48 || b > 57 {
            assert(!is_digit_byte(d[k - start]));
            assert(!all_digits(d));
            return None;
        }
        assert(digits_value(d.take(k - start + 1)) == acc * 10 + (b - 48));
        let next = acc.checked_mul(10);
        match next {
            Some(m) => {
                let n2 = m.checked_add((b - 48) as usize);
                match n2 {
                    Some(v) => {
                        acc = v;
                    },
                    None => {
                        proof {
                            lemma_digits_grow(d, k - start + 1);
                        }
                        return None;
                    },
                }
            },
            None => {
                proof {
                    lemma_digits_grow(d, k - start + 1);
                }
                return None;
            },
        }
        k = k + 1;
    }
    assert(d.take(hi - start) == d);
    Some(acc)
}

/// The value of a digit run only grows as digits are added.
pub proof fn lemma_digits_grow(d: Seq<u8>, i: int)
    requires
        0 <= i <= d.len(),
    ensures
        digits_value(d.take(i)) <= digits_value(d),
    decreases d.len() - i,
{
    if i < d.len() {
        lemma_digits_grow(d, i + 1);
        assert(d.take(i + 1).drop_last() == d.take(i));
    } else {
        assert(d.take(i) == d);
    }
}


/// Different names are spelled differently in UTF-8, so the name spelled by
/// `key` is the one found.
pub proof fn lemma_var_value(vars: Map<Seq<char>, Seq<char>>, key: Seq<u8>, k: Seq<char>)
    requires
        vars.contains_key(k),
        vstd::utf8::encode_utf8(k) == key,
    ensures
        var_named(vars, key),
        var_value(vars, key) == vars[k],
{
    broadcast use vstd::utf8::encode_utf8_decode_utf8;

    let k2 = choose|k2: Seq<char>| vars.contains_key(k2) && vstd::utf8::encode_utf8(k2) == key;
    assert(vstd::utf8::decode_utf8(vstd::utf8::encode_utf8(k2)) == k2);
    assert(vstd::utf8::decode_utf8(vstd::utf8::encode_utf8(k)) == k);
}

/// The first position of a byte is unique.
pub proof fn lemma_first_byte_unique(s: Seq<u8>, b: u8, f: int)
    requires
        0 <= f < s.len(),
        s[f] == b,
        forall|k: int| 0 <= k < f ==> s[k] != b,
    ensures
        has_byte(s, b),
        first_byte(s, b) == f,
{
    let g = first_byte(s, b);
    assert(0 <= g < s.len() && s[g] == b && forall|k: int| 0 <= k < g ==> s[k] != b);
    if g < f {
        assert(s[g] != b);
    }
    if f < g {
        assert(s[f] != b);
    }
}

/// First position at or after `from` holding the byte `b`.
pub fn find_byte(s: &[u8], b: u8, from: usize) -> (r: Option<usize>)
    requires
        from <= s@.len(),
    ensures
        match r {
            Some(p) => from <= p < s@.len() && s@[p as int] == b && forall|k: int|
                from <= k < p ==> s@[k] != b,
            None => forall|k: int| from <= k < s@.len() ==> s@[k] != b,
        },
{
    let mut i: usize = from;
    while i < s.len()
        invariant
            from <= i <= s@.len(),
            forall|k: int| from <= k < i ==> s@[k] != b,
        decreases s.len() - i,
    {
        if s[i] == b {
            return Some(i);
        }
        i = i + 1;
    }
    None
}

fn lower_byte_exec(b: u8) -> (r: u8)
    ensures
        r == lower_byte(b),
{
    if b >= 65 && b <= 90 {
        b + 32
    } else {
        b
    }
}

fn copy_bytes(s: &[u8], lo: usize, hi: usize, lower: bool) -> (r: Vec<u8>)
    requires
        lo <= hi <= s@.len(),
    ensures
        lower ==> r@ == lower_bytes(s@.subrange(lo as int, hi as int)),
        !lower ==> r@ == s@.subrange(lo as int, hi as int),
{
    let mut out: Vec<u8> = Vec::new();
    let mut i: usize = lo;
    while i < hi
        invariant
            lo <= i <= hi <= s@.len(),
            lower ==> out@ == lower_bytes(s@.subrange(lo as int, i as int)),
            !lower ==> out@ == s@.subrange(lo as int, i as int),
        decreases hi - i,
    {
        if lower {
            out.push(lower_byte_exec(s[i]));
        } else {
            out.push(s[i]);
        }
        assert(lower_bytes(s@.subrange(lo as int, i + 1)) =~= lower_bytes(
            s@.subrange(lo as int, i as int),
        ).push(lower_byte(s@[i as int])));
        assert(s@.subrange(lo as int, i + 1) =~= s@.subrange(lo as int, i as int).push(
            s@[i as int],
        ));
        i = i + 1;
    }
    out
}

/// The value of the variable named by the template bytes `t[lo..hi]`;
/// see [`lookup_spec`].
pub fn lookup_var(
    t: &[u8],
    lo: usize,
    hi: usize,
    uri: &str,
    captures: &[String],
    vars: &VarMap,
) -> (r: String)
    requires
        lo <= hi <= t@.len(),
    ensures
        r@ == lookup_spec(t@.subrange(lo as int, hi as int), uri@, views(captures@), vars@),
{
    let ghost key = t@.subrange(lo as int, hi as int);
    if let Some(idx) = parse_index(t, lo, hi) {
        if idx >= 1 && idx - 1 < captures.len() {
            return captures[idx - 1].clone();
        }
    }
    let lk = copy_bytes(t, lo, hi, true);
    let mut u: Vec<u8> = Vec::new();
    u.push(117);
    u.push(114);
    u.push(105);
    assert(u@ =~= seq![117u8, 114, 105]);
    let mut ru: Vec<u8> = Vec::new();
    ru.push(114);
    ru.push(101);
    ru.push(113);
    ru.push(117);
    ru.push(101);
    ru.push(115);
    ru.push(116);
    ru.push(95);
    ru.push(117);
    ru.push(114);
    ru.push(105);
    assert(ru@ =~= seq![114u8, 101, 113, 117, 101, 115, 116, 95, 117, 114, 105]);
    if bytes_eq(lk.as_slice(), u.as_slice()) || bytes_eq(lk.as_slice(), ru.as_slice()) {
        return uri.to_owned();
    }
    let raw = copy_bytes(t, lo, hi, false);
    match vars.get_bytes(raw.as_slice()) {
        Some(v) => {
            proof {
                let k = choose|k: Seq<char>|
                    #![trigger vars@[k]]
                    vars@.contains_key(k) && vstd::utf8::encode_utf8(k) == key && vars@[k] == v@;
                lemma_var_value(vars@, key, k);
            }
            return v.clone();
        },
        None => {},
    }
    match vars.get_bytes(lk.as_slice()) {
        Some(v) => {
            proof {
                let k = choose|k: Seq<char>|
                    #![trigger vars@[k]]
                    vars@.contains_key(k) && vstd::utf8::encode_utf8(k) == lower_bytes(key)
                        && vars@[k] == v@;
                lemma_var_value(vars@, lower_bytes(key), k);
            }
            v.clone()
        },
        None => String::new(),
    }
}

/// A `${name}` reference expands to the value of `name`.
pub proof fn lemma_expand_brace(
    tb: Seq<u8>,
    i: int,
    p: int,
    uri: Seq<char>,
    caps: Seq<Seq<char>>,
    vars: Map<Seq<char>, Seq<char>>,
)
    requires
        0 <= i,
        i + 2 <= p < tb.len(),
        tb[i] == 36,
        tb[i + 1] == 123,
        tb[p] == 125,
        forall|k: int| i + 2 <= k < p ==> tb[k] != 125,
    ensures
        expand_from(tb, i, uri, caps, vars) == lookup_spec(tb.subrange(i + 2, p), uri, caps, vars)
            + expand_from(tb, p + 1, uri, caps, vars),
{
    let rest = tb.skip(i + 2);
    assert(rest[p - (i + 2)] == 125);
    assert forall|k: int| 0 <= k < p - (i + 2) implies rest[k] != 125 by {
        assert(rest[k] == tb[k + i + 2]);
    }
    lemma_first_byte_unique(rest, 125, p - (i + 2));
    assert(tb.subrange(i + 2, i + 2 + (p - (i + 2))) == tb.subrange(i + 2, p));
    reveal(expand_from);
}

/// A `$name` reference expands to the value of `name`.
pub proof fn lemma_expand_ident(
    tb: Seq<u8>,
    i: int,
    n: int,
    uri: Seq<char>,
    caps: Seq<Seq<char>>,
    vars: Map<Seq<char>, Seq<char>>,
)
    requires
        0 <= i < tb.len(),
        tb[i] == 36,
        !(i + 1 < tb.len() && tb[i + 1] == 123),
        n == ident_len(tb.skip(i + 1)),
        n > 0,
    ensures
        expand_from(tb, i, uri, caps, vars) == lookup_spec(
            tb.subrange(i + 1, i + 1 + n),
            uri,
            caps,
            vars,
        ) + expand_from(tb, i + 1 + n, uri, caps, vars),
{
    reveal(expand_from);
}

/// Past the end nothing is left to expand.
pub proof fn lemma_expand_end(
    tb: Seq<u8>,
    i: int,
    uri: Seq<char>,
    caps: Seq<Seq<char>>,
    vars: Map<Seq<char>, Seq<char>>,
)
    requires
        i >= tb.len(),
    ensures
        expand_from(tb, i, uri, caps, vars) == Seq::<char>::empty(),
{
    reveal(expand_from);
}

/// Any other byte is copied as a character.
pub proof fn lemma_expand_plain(
    tb: Seq<u8>,
    i: int,
    uri: Seq<char>,
    caps: Seq<Seq<char>>,
    vars: Map<Seq<char>, Seq<char>>,
)
    requires
        0 <= i < tb.len(),
        tb[i] == 36 ==> (if i + 1 < tb.len() && tb[i + 1] == 123 {
            forall|k: int| i + 2 <= k < tb.len() ==> tb[k] != 125
        } else {
            ident_len(tb.skip(i + 1)) == 0
        }),
    ensures
        expand_from(tb, i, uri, caps, vars) == seq![tb[i] as char] + expand_from(
            tb,
            i + 1,
            uri,
            caps,
            vars,
        ),
{
    if tb[i] == 36 && i + 1 < tb.len() && tb[i + 1] == 123 {
        let rest = tb.skip(i + 2);
        assert forall|k: int| 0 <= k < rest.len() implies rest[k] != 125 by {
            assert(rest[k] == tb[k + i + 2]);
        }
        assert(!has_byte(rest, 125));
    }
    reveal(expand_from);
}

/// Expands the variables of `template`: `$N` / `${N}` (regex captures),
/// `$uri`, and names from `vars`; see [`expand_from`].
pub fn expand_template(template: &str, uri: &str, captures: &[String], vars: &VarMap) -> (r:
    String)
    ensures
        r@ == expand_from(vstd::utf8::encode_utf8(template@), 0, uri@, views(captures@), vars@),
{
    let t = template.as_bytes();
    let ghost tb = t@;
    let ghost caps = views(captures@);
    let ghost total = expand_from(tb, 0, uri@, caps, vars@);
    let mut out = String::new();
    let mut i: usize = 0;
    while i < t.len()
        invariant
            tb == t@,
            caps == views(captures@),
            total == expand_from(tb, 0, uri@, caps, vars@),
            i <= tb.len(),
            out@ + expand_from(tb, i as int, uri@, caps, vars@) == total,
        decreases t.len() - i,
    {
        let ghost before = out@;
        if t[i] == 36 {
            if i + 1 < t.len() && t[i + 1] == 123 {
                if let Some(p) = find_byte(t, 125, i + 2) {
                    proof {
                        lemma_expand_brace(tb, i as int, p as int, uri@, caps, vars@);
                    }
                    let v = lookup_var(t, i + 2, p, uri, captures, vars);
                    crate::text::push_str(&mut out, v.as_str());
                    proof {
                        let a = v@;
                        let rest = expand_from(tb, p + 1, uri@, caps, vars@);
                        assert((before + a) + rest =~= before + (a + rest));
                    }
                    i = p + 1;
                    continue ;
                }
            } else {
                let n = take_ident(t, i + 1);
                if n > 0 {
                    proof {
                        lemma_expand_ident(tb, i as int, n as int, uri@, caps, vars@);
                    }
                    let v = lookup_var(t, i + 1, i + 1 + n, uri, captures, vars);
                    crate::text::push_str(&mut out, v.as_str());
                    proof {
                        let a = v@;
                        let rest = expand_from(tb, i + 1 + n, uri@, caps, vars@);
                        assert((before + a) + rest =~= before + (a + rest));
                    }
                    i = i + 1 + n;
                    continue ;
                }
            }
        }
        proof {
            lemma_expand_plain(tb, i as int, uri@, caps, vars@);
        }
        push_char(&mut out, t[i] as char);
        proof {
            let a = seq![tb[i as int] as char];
            let rest = expand_from(tb, i + 1, uri@, caps, vars@);
            assert(before.push(tb[i as int] as char) =~= before + a);
            assert((before + a) + rest =~= before + (a + rest));
        }
        i = i + 1;
    }
    proof {
        lemma_expand_end(tb, i as int, uri@, caps, vars@);
    }
    assert(out@ + Seq::<char>::empty() =~= out@);
    out
}

/// The header list with every value expanded by [`expand_template`].
pub open spec fn expanded_headers(
    headers: Seq<HeaderRewrite>,
    uri: Seq<char>,
    caps: Seq<Seq<char>>,
    vars: Map<Seq<char>, Seq<char>>,
) -> Seq<(Seq<char>, Seq<char>)> {
    headers.map_values(
        |h: HeaderRewrite|
            (h.name@, expand_from(vstd::utf8::encode_utf8(h.value@), 0, uri, caps, vars)),
    )
}

/// The views of a header list: (name, value) pairs.
pub open spec fn header_views(headers: Seq<HeaderRewrite>) -> Seq<(Seq<char>, Seq<char>)> {
    headers.map_values(|h: HeaderRewrite| (h.name@, h.value@))
}

/// Copies the headers with their values expanded.
pub fn expand_headers(
    headers: &[HeaderRewrite],
    uri: &str,
    captures: &[String],
    vars: &VarMap,
) -> (r: Vec<HeaderRewrite>)
    ensures
        header_views(r@) == expanded_headers(headers@, uri@, views(captures@), vars@),
{
    let ghost e = expanded_headers(headers@, uri@, views(captures@), vars@);
    let mut out: Vec<HeaderRewrite> = Vec::new();
    let mut i: usize = 0;
    while i < headers.len()
        invariant
            i <= headers@.len(),
            e == expanded_headers(headers@, uri@, views(captures@), vars@),
            out@.len() == i,
            forall|k: int| 0 <= k < i ==> (#[trigger] out@[k]).name@ == e[k].0 && out@[k].value@ == e[k].1,
        decreases headers.len() - i,
    {
        let h = &headers[i];
        let value = expand_template(h.value.as_str(), uri, captures, vars);
        out.push(HeaderRewrite { name: h.name.clone(), value });
        i = i + 1;
    }
    assert(header_views(out@) =~= e);
    out
}


/// `-` becomes `_`.
pub open spec fn dash_to_underscore(s: Seq<char>) -> Seq<char> {
    s.map_values(|c: char| if c == '-' { '_' } else { c })
}

/// The variable name a header is bound to: the prefix, then the header name
/// lower-cased with `-` turned into `_`.
pub open spec fn header_var_name(prefix: Seq<char>, name: Seq<char>) -> Seq<char> {
    prefix + dash_to_underscore(lower_seq(name))
}

/// Binds each header, in order, under its variable name.
pub open spec fn bind_headers(
    m: Map<Seq<char>, Seq<char>>,
    headers: Seq<(String, String)>,
    prefix: Seq<char>,
) -> Map<Seq<char>, Seq<char>>
    decreases headers.len(),
{
    if headers.len() == 0 {
        m
    } else {
        bind_headers(m, headers.drop_last(), prefix).insert(
            header_var_name(prefix, headers.last().0@),
            headers.last().1@,
        )
    }
}

fn header_var_key(prefix: &str, name: &str) -> (r: String)
    ensures
        r@ == header_var_name(prefix@, name@),
{
    let cs = chars_of(name);
    let lc = lower_chars(&cs);
    let mut out = owned(prefix);
    let mut i: usize = 0;
    while i < lc.len()
        invariant
            i <= lc@.len(),
            lc@ == lower_seq(name@),
            out@ == prefix@ + dash_to_underscore(lc@.take(i as int)),
        decreases lc.len() - i,
    {
        let c = lc[i];
        push_char(&mut out, if c == '-' { '_' } else { c });
        assert(dash_to_underscore(lc@.take(i + 1)) =~= dash_to_underscore(lc@.take(i as int)).push(
            if c == '-' { '_' } else { c },
        ));
        i = i + 1;
    }
    assert(lc@.take(i as int) == lc@);
    out
}

fn bind_all(vars: &mut VarMap, headers: &[(String, String)], prefix: &str)
    ensures
        final(vars)@ == bind_headers(old(vars)@, headers@, prefix@),
{
    let ghost start = vars@;
    let mut i: usize = 0;
    while i < headers.len()
        invariant
            i <= headers@.len(),
            start == old(vars)@,
            vars@ == bind_headers(start, headers@.take(i as int), prefix@),
        decreases headers.len() - i,
    {
        let key = header_var_key(prefix, headers[i].0.as_str());
        vars.insert(key, headers[i].1.clone());
        assert(headers@.take(i + 1).drop_last() == headers@.take(i as int));
        i = i + 1;
    }
    assert(headers@.take(i as int) == headers@);
}

/// The variables available to request-header templates: `host` (without
/// port), `request_method`, `uri`, `request_uri`, and `http_<name>` for
/// every request header.
pub fn request_header_vars(host: &str, method: &str, uri: &str, headers: &[(String, String)]) -> (r:
    VarMap)
    ensures
        r@ == bind_headers(
            Map::<Seq<char>, Seq<char>>::empty().insert("host"@, host_part(host@)).insert(
                "request_method"@,
                method@,
            ).insert("uri"@, uri@).insert("request_uri"@, uri@),
            headers@,
            "http_"@,
        ),
{
    let mut vars = VarMap::new();
    vars.insert(owned("host"), owned(strip_host_port(host)));
    vars.insert(owned("request_method"), owned(method));
    vars.insert(owned("uri"), owned(uri));
    vars.insert(owned("request_uri"), owned(uri));
    bind_all(&mut vars, headers, "http_");
    vars
}

/// The variables available to response-header templates:
/// `upstream_http_<name>` for every response header.
pub fn response_header_vars(headers: &[(String, String)]) -> (r: VarMap)
    ensures
        r@ == bind_headers(Map::<Seq<char>, Seq<char>>::empty(), headers@, "upstream_http_"@),
{
    let mut vars = VarMap::new();
    bind_all(&mut vars, headers, "upstream_http_");
    vars
}

} // verus!
