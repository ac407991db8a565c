//! Character-level string tools shared by the rest of the library.
//!
//! Strings are modelled by their view, a `Seq<char>`. The executable helpers
//! here move between `&str` / `String` and `Vec<char>` and implement the few
//! ASCII-oriented operations (lower-casing, trimming, searching) that the
//! routing and certificate logic relies on.
use vstd::prelude::*;
use vstd::std_specs::iter::IteratorSpec;

verus! {

/// Appends one character to a string (std's `String::push`).
/// Claimed: the new contents are the old contents followed by `c`.
#[verifier::external_body]
pub(crate) fn push_char(s: &mut String, c: char)
    ensures
        final(s)@ == old(s)@.push(c),
{
    s.push(c);
}

/// The characters of a string slice, in order.
pub fn chars_of(s: &str) -> (r: Vec<char>)
    ensures
        r@ == s@,
{
    broadcast use vstd::string::group_string_axioms;

    let mut out: Vec<char> = Vec::new();
    let mut it = s.chars();
    loop
        invariant
            it.obeys_prophetic_iter_laws(),
            out@ + it.remaining() == s@,
            it.decrease() is Some,
        ensures
            out@ == s@,
        decreases it.decrease()->0,
    {
        match it.next() {
            Some(c) => {
                out.push(c);
            },
            None => {
                assert(out@ + it.remaining() == s@);
                break ;
            },
        }
    }
    out
}

/// Builds a string from the characters `v[lo..hi]`.
pub fn string_from_range(v: &Vec<char>, lo: usize, hi: usize) -> (r: String)
    requires
        lo <= hi <= v@.len(),
    ensures
        r@ == v@.subrange(lo as int, hi as int),
{
    let mut s = String::new();
    let mut i: usize = lo;
    while i < hi
        invariant
            lo <= i <= hi <= v@.len(),
            s@ == v@.subrange(lo as int, i as int),
        decreases hi - i,
    {
        push_char(&mut s, v[i]);
        assert(v@.subrange(lo as int, i + 1) == v@.subrange(lo as int, i as int).push(v@[i as int]));
        i = i + 1;
    }
    s
}

/// Builds a string from all characters of `v`.
pub fn string_from(v: &Vec<char>) -> (r: String)
    ensures
        r@ == v@,
{
    let r = string_from_range(v, 0, v.len());
    assert(v@.subrange(0, v@.len() as int) == v@);
    r
}

/// Appends a string slice to a string.
pub fn push_str(s: &mut String, t: &str)
    ensures
        final(s)@ == old(s)@ + t@,
{
    let cs = chars_of(t);
    let mut i: usize = 0;
    while i < cs.len()
        invariant
            i <= cs@.len(),
            cs@ == t@,
            s@ == old(s)@ + t@.subrange(0, i as int),
        decreases cs.len() - i,
    {
        push_char(s, cs[i]);
        assert(t@.subrange(0, i + 1) == t@.subrange(0, i as int).push(t@[i as int]));
        i = i + 1;
    }
    assert(t@.subrange(0, t@.len() as int) == t@);
}

/// ASCII upper-case letters.
pub open spec fn is_ascii_upper(c: char) -> bool {
    'A' <= c <= 'Z'
}

/// `char::to_ascii_lowercase`: upper-case ASCII letters map to lower case,
/// every other character is unchanged.
pub open spec fn lower_char(c: char) -> char {
    if is_ascii_upper(c) {
        ((c as u32) + 32) as char
    } else {
        c
    }
}

/// `str::to_ascii_lowercase` on a character sequence.
pub open spec fn lower_seq(s: Seq<char>) -> Seq<char> {
    s.map_values(|c: char| lower_char(c))
}

/// The Unicode `White_Space` property, which is what `char::is_whitespace`
/// and `str::trim` test.
pub open spec fn is_space(c: char) -> bool {
    ||| ('\u{9}' <= c <= '\u{d}')
    ||| c == ' '
    ||| c == '\u{85}'
    ||| c == '\u{a0}'
    ||| c == '\u{1680}'
    ||| ('\u{2000}' <= c <= '\u{200a}')
    ||| c == '\u{2028}'
    ||| c == '\u{2029}'
    ||| c == '\u{202f}'
    ||| c == '\u{205f}'
    ||| c == '\u{3000}'
}

/// Executable `char::to_ascii_lowercase`.
pub fn ascii_lower(c: char) -> (r: char)
    ensures
        r == lower_char(c),
{
    if 'A' <= c && c <= 'Z' {
        ((c as u8) + 32) as char
    } else {
        c
    }
}

/// Executable whitespace test.
pub fn space(c: char) -> (r: bool)
    ensures
        r == is_space(c),
{
    ('\u{9}' <= c && c <= '\u{d}') || c == ' ' || c == '\u{85}' || c == '\u{a0}' || c
        == '\u{1680}' || ('\u{2000}' <= c && c <= '\u{200a}') || c == '\u{2028}' || c
        == '\u{2029}' || c == '\u{202f}' || c == '\u{205f}' || c == '\u{3000}'
}

/// ASCII lower-casing of a character vector.
pub fn lower_chars(v: &Vec<char>) -> (r: Vec<char>)
    ensures
        r@ == lower_seq(v@),
{
    let mut out: Vec<char> = Vec::new();
    let mut i: usize = 0;
    while i < v.len()
        invariant
            i <= v@.len(),
            out@ == lower_seq(v@.subrange(0, i as int)),
        decreases v.len() - i,
    {
        out.push(ascii_lower(v[i]));
        assert(lower_seq(v@.subrange(0, i + 1)) == lower_seq(v@.subrange(0, i as int)).push(
            lower_char(v@[i as int]),
        ));
        i = i + 1;
    }
    assert(v@.subrange(0, v@.len() as int) == v@);
    out
}

/// `str::to_ascii_lowercase`.
pub fn to_lower(s: &str) -> (r: String)
    ensures
        r@ == lower_seq(s@),
{
    let cs = chars_of(s);
    let lc = lower_chars(&cs);
    string_from(&lc)
}

/// `str::trim_start`.
pub open spec fn trim_start_seq(s: Seq<char>) -> Seq<char>
    decreases s.len(),
{
    if s.len() > 0 && is_space(s[0]) {
        trim_start_seq(s.drop_first())
    } else {
        s
    }
}

/// `str::trim_end`.
pub open spec fn trim_end_seq(s: Seq<char>) -> Seq<char>
    decreases s.len(),
{
    if s.len() > 0 && is_space(s.last()) {
        trim_end_seq(s.drop_last())
    } else {
        s
    }
}

/// `str::trim`: whitespace removed at both ends.
pub open spec fn trim_seq(s: Seq<char>) -> Seq<char> {
    trim_end_seq(trim_start_seq(s))
}

/// Trimming from the front only ever drops leading whitespace.
pub proof fn lemma_trim_start_skip(s: Seq<char>, i: int)
    requires
        0 <= i <= s.len(),
        forall|k: int| 0 <= k < i ==> is_space(#[trigger] s[k]),
    ensures
        trim_start_seq(s) == trim_start_seq(s.subrange(i, s.len() as int)),
    decreases i,
{
    if i > 0 {
        assert(s.drop_first().subrange(i - 1, s.drop_first().len() as int) == s.subrange(
            i,
            s.len() as int,
        ));
        assert forall|k: int| 0 <= k < i - 1 implies is_space(#[trigger] s.drop_first()[k]) by {
            assert(s.drop_first()[k] == s[k + 1]);
        }
        lemma_trim_start_skip(s.drop_first(), i - 1);
    } else {
        assert(s.subrange(0, s.len() as int) == s);
    }
}

/// Trimming from the back only ever drops trailing whitespace.
pub proof fn lemma_trim_end_skip(s: Seq<char>, j: int)
    requires
        0 <= j <= s.len(),
        forall|k: int| j <= k < s.len() ==> is_space(#[trigger] s[k]),
    ensures
        trim_end_seq(s) == trim_end_seq(s.subrange(0, j)),
    decreases s.len() - j,
{
    if j < s.len() {
        assert(s.drop_last().subrange(0, j) == s.subrange(0, j));
        lemma_trim_end_skip(s.drop_last(), j);
    } else {
        assert(s.subrange(0, s.len() as int) == s);
    }
}

/// The bounds `(lo, hi)` such that `v[lo..hi]` is `v` trimmed.
pub fn trim_bounds(v: &Vec<char>) -> (r: (usize, usize))
    ensures
        r.0 <= r.1 <= v@.len(),
        v@.subrange(r.0 as int, r.1 as int) == trim_seq(v@),
{
    let mut lo: usize = 0;
    while lo < v.len() && space(v[lo])
        invariant
            lo <= v@.len(),
            forall|k: int| 0 <= k < lo ==> is_space(#[trigger] v@[k]),
        decreases v.len() - lo,
    {
        lo = lo + 1;
    }
    proof {
        lemma_trim_start_skip(v@, lo as int);
    }
    let ghost rest = v@.subrange(lo as int, v@.len() as int);
    assert(trim_start_seq(rest) == rest);
    let mut hi: usize = v.len();
    while hi > lo && space(v[hi - 1])
        invariant
            lo <= hi <= v@.len(),
            rest == v@.subrange(lo as int, v@.len() as int),
            forall|k: int| hi <= k < v@.len() ==> is_space(#[trigger] v@[k]),
        decreases hi,
    {
        hi = hi - 1;
    }
    proof {
        assert forall|k: int| (hi - lo) <= k < rest.len() implies is_space(#[trigger] rest[k]) by {
            assert(rest[k] == v@[k + lo]);
        }
        lemma_trim_end_skip(rest, hi - lo);
        assert(rest.subrange(0, hi - lo) == v@.subrange(lo as int, hi as int));
        let t = v@.subrange(lo as int, hi as int);
        if t.len() > 0 {
            assert(t.last() == v@[hi - 1]);
        }
        assert(trim_end_seq(t) == t);
    }
    (lo, hi)
}

/// `str::trim`, as an owned string.
pub fn trim(s: &str) -> (r: String)
    ensures
        r@ == trim_seq(s@),
{
    let cs = chars_of(s);
    let (lo, hi) = trim_bounds(&cs);
    string_from_range(&cs, lo, hi)
}

/// Whether `v` starts with `p`.
pub fn starts_with(v: &Vec<char>, p: &Vec<char>) -> (r: bool)
    ensures
        r == p@.is_prefix_of(v@),
{
    if p.len() > v.len() {
        return false;
    }
    let mut i: usize = 0;
    while i < p.len()
        invariant
            p@.len() <= v@.len(),
            i <= p@.len(),
            forall|k: int| 0 <= k < i ==> p@[k] == v@[k],
        decreases p.len() - i,
    {
        if p[i] != v[i] {
            return false;
        }
        i = i + 1;
    }
    assert(p@ =~= v@.subrange(0, p@.len() as int));
    true
}

/// Whether `v[at..]` starts with `p`.
pub fn matches_at(v: &Vec<char>, at: usize, p: &Vec<char>) -> (r: bool)
    requires
        at <= v@.len(),
    ensures
        r == (at + p@.len() <= v@.len() && v@.subrange(at as int, at + p@.len()) == p@),
{
    if p.len() > v.len() - at {
        return false;
    }
    let end = at + p.len();
    let mut j: usize = at;
    while j < end
        invariant
            end == at + p@.len(),
            end <= v@.len(),
            at <= j <= end,
            forall|k: int| 0 <= k < j - at ==> p@[k] == v@[at + k],
        decreases end - j,
    {
        if p[j - at] != v[j] {
            assert(v@.subrange(at as int, at + p@.len())[j - at] != p@[j - at]);
            return false;
        }
        j = j + 1;
    }
    assert(v@.subrange(at as int, at + p@.len()) =~= p@);
    true
}

/// Whether `v` ends with `p`.
pub fn ends_with(v: &Vec<char>, p: &Vec<char>) -> (r: bool)
    ensures
        r == p@.is_suffix_of(v@),
{
    if p.len() > v.len() {
        return false;
    }
    let r = matches_at(v, v.len() - p.len(), p);
    assert(r == (v@.subrange(v@.len() - p@.len(), v@.len() as int) =~= p@));
    r
}

/// `s` holds `p` as a contiguous piece starting at `i`.
pub open spec fn occurs_at(s: Seq<char>, p: Seq<char>, i: int) -> bool {
    0 <= i && i + p.len() <= s.len() && s.subrange(i, i + p.len()) == p
}

/// `str::contains` with a string pattern.
pub open spec fn has_sub(s: Seq<char>, p: Seq<char>) -> bool {
    exists|i: int| occurs_at(s, p, i)
}

/// First position at or after `from` where `p` occurs in `v`.
pub fn find_sub(v: &Vec<char>, p: &Vec<char>, from: usize) -> (r: Option<usize>)
    requires
        from <= v@.len(),
    ensures
        match r {
            Some(i) => from <= i && occurs_at(v@, p@, i as int) && forall|k: int|
                from <= k < i ==> !occurs_at(v@, p@, k),
            None => forall|k: int| from <= k ==> !occurs_at(v@, p@, k),
        },
{
    let mut i: usize = from;
    loop
        invariant
            from <= i <= v@.len(),
            forall|k: int| from <= k < i ==> !occurs_at(v@, p@, k),
        decreases v.len() - i,
    {
        if matches_at(v, i, p) {
            return Some(i);
        }
        if i == v.len() {
            assert forall|k: int| from <= k implies !occurs_at(v@, p@, k) by {
                if k > i {
                    assert(k + p@.len() > v@.len());
                }
            }
            return None;
        }
        i = i + 1;
    }
}

/// `str::contains` with a string pattern.
pub fn contains_sub(v: &Vec<char>, p: &Vec<char>) -> (r: bool)
    ensures
        r == has_sub(v@, p@),
{
    match find_sub(v, p, 0) {
        Some(i) => {
            assert(occurs_at(v@, p@, i as int));
            true
        },
        None => {
            assert forall|k: int| !occurs_at(v@, p@, k) by {
                if k < 0 {
                }
            }
            false
        },
    }
}

/// First position at or after `from` holding `c`.
pub fn find_char(v: &Vec<char>, c: char, from: usize) -> (r: Option<usize>)
    requires
        from <= v@.len(),
    ensures
        match r {
            Some(i) => from <= i < v@.len() && v@[i as int] == c && forall|k: int|
                from <= k < i ==> v@[k] != c,
            None => forall|k: int| from <= k < v@.len() ==> v@[k] != c,
        },
{
    let mut i: usize = from;
    while i < v.len()
        invariant
            from <= i <= v@.len(),
            forall|k: int| from <= k < i ==> v@[k] != c,
        decreases v.len() - i,
    {
        if v[i] == c {
            return Some(i);
        }
        i = i + 1;
    }
    None
}

/// Whether two character sequences are equal.
pub fn chars_eq(a: &Vec<char>, b: &Vec<char>) -> (r: bool)
    ensures
        r == (a@ == b@),
{
    if a.len() != b.len() {
        return false;
    }
    let r = matches_at(a, 0, b);
    assert(a@.subrange(0, b@.len() as int) =~= a@);
    r
}

/// Whether two string slices are equal.
pub fn str_eq(a: &str, b: &str) -> (r: bool)
    ensures
        r == (a@ == b@),
{
    let x = chars_of(a);
    let y = chars_of(b);
    chars_eq(&x, &y)
}

/// A copy of a string slice.
pub fn owned(s: &str) -> (r: String)
    ensures
        r@ == s@,
{
    s.to_owned()
}


/// The views of a sequence of strings.
pub open spec fn views(v: Seq<String>) -> Seq<Seq<char>> {
    v.map_values(|s: String| s@)
}

/// Appending a string appends its view.
pub proof fn lemma_views_push(v: Seq<String>, s: String)
    ensures
        views(v.push(s)) == views(v).push(s@),
{
    assert(views(v.push(s)) =~= views(v).push(s@));
}

/// `str::split` with a character predicate: the pieces between separators,
/// in order; an empty input gives one empty piece.
pub open spec fn split_seq(s: Seq<char>, sep: spec_fn(char) -> bool) -> Seq<Seq<char>>
    decreases s.len(),
{
    if s.len() == 0 {
        seq![Seq::<char>::empty()]
    } else {
        let prev = split_seq(s.drop_last(), sep);
        if sep(s.last()) {
            prev.push(Seq::<char>::empty())
        } else {
            prev.update(prev.len() - 1, prev.last().push(s.last()))
        }
    }
}

/// Splitting always yields at least one piece.
pub proof fn lemma_split_nonempty(s: Seq<char>, sep: spec_fn(char) -> bool)
    ensures
        split_seq(s, sep).len() >= 1,
    decreases s.len(),
{
    if s.len() > 0 {
        lemma_split_nonempty(s.drop_last(), sep);
    }
}

/// One more character extends the split: a separator opens a new piece,
/// any other character is appended to the last piece.
pub proof fn lemma_split_step(s: Seq<char>, i: int, sep: spec_fn(char) -> bool)
    requires
        0 <= i < s.len(),
    ensures
        split_seq(s.take(i), sep).len() >= 1,
        split_seq(s.take(i + 1), sep) == (if sep(s[i]) {
            split_seq(s.take(i), sep).push(Seq::<char>::empty())
        } else {
            split_seq(s.take(i), sep).update(
                split_seq(s.take(i), sep).len() - 1,
                split_seq(s.take(i), sep).last().push(s[i]),
            )
        }),
{
    lemma_split_nonempty(s.take(i), sep);
    assert(s.take(i + 1).drop_last() == s.take(i));
    assert(s.take(i + 1).last() == s[i]);
}

/// `pieces.join(sep)`.
pub open spec fn seq_join(pieces: Seq<Seq<char>>, sep: Seq<char>) -> Seq<char>
    decreases pieces.len(),
{
    if pieces.len() == 0 {
        Seq::<char>::empty()
    } else if pieces.len() == 1 {
        pieces[0]
    } else {
        seq_join(pieces.drop_last(), sep) + sep + pieces.last()
    }
}

proof fn lemma_join_update_last(ps: Seq<Seq<char>>, sep: Seq<char>, c: char)
    requires
        ps.len() >= 1,
    ensures
        seq_join(ps.update(ps.len() - 1, ps.last().push(c)), sep) == seq_join(ps, sep).push(c),
{
    let u = ps.update(ps.len() - 1, ps.last().push(c));
    if ps.len() == 1 {
        assert(u[0] == ps[0].push(c));
    } else {
        assert(u.drop_last() =~= ps.drop_last());
        assert(u.last() == ps.last().push(c));
        assert(seq_join(u, sep) == seq_join(ps.drop_last(), sep) + sep + ps.last().push(c));
        assert(seq_join(u, sep) =~= seq_join(ps, sep).push(c));
    }
}

/// Splitting on a character and joining the pieces with it gives the text
/// back.
pub proof fn split_join_inverse(s: Seq<char>, d: char)
    ensures
        seq_join(split_seq(s, |c: char| c == d), seq![d]) == s,
    decreases s.len(),
{
    let f = |c: char| c == d;
    if s.len() > 0 {
        let t = s.drop_last();
        split_join_inverse(t, d);
        lemma_split_nonempty(t, f);
        let pt = split_seq(t, f);
        if s.last() == d {
            let ps = pt.push(Seq::<char>::empty());
            assert(ps.drop_last() =~= pt);
            assert(seq_join(ps, seq![d]) =~= t + seq![d]);
            assert(t + seq![d] =~= s);
        } else {
            lemma_join_update_last(pt, seq![d], s.last());
            assert(t.push(s.last()) =~= s);
        }
    } else {
        assert(split_seq(s, f) =~= seq![Seq::<char>::empty()]);
    }
}

/// Joining a list equals joining a front part and the rest with the
/// separator between them.
pub proof fn join_split_at(ps: Seq<Seq<char>>, sep: Seq<char>, k: int)
    requires
        0 < k < ps.len(),
    ensures
        seq_join(ps, sep) == seq_join(ps.take(k), sep) + sep + seq_join(ps.skip(k), sep),
    decreases ps.len(),
{
    if k == ps.len() - 1 {
        assert(ps.take(k) =~= ps.drop_last());
        assert(ps.skip(k) =~= seq![ps.last()]);
    } else {
        let d = ps.drop_last();
        join_split_at(d, sep, k);
        assert(d.take(k) =~= ps.take(k));
        assert(ps.skip(k).drop_last() =~= d.skip(k));
        assert(ps.skip(k).last() == ps.last());
        assert(seq_join(ps.skip(k), sep) == seq_join(d.skip(k), sep) + sep + ps.last());
        assert(seq_join(ps, sep) =~= seq_join(ps.take(k), sep) + sep + seq_join(ps.skip(k), sep));
    }
}

/// `pieces.join(sep)` for strings.
pub fn join_strings(pieces: &[String], sep: &str) -> (r: String)
    ensures
        r@ == seq_join(views(pieces@), sep@),
{
    let mut out = String::new();
    let mut i: usize = 0;
    while i < pieces.len()
        invariant
            i <= pieces@.len(),
            out@ == seq_join(views(pieces@).take(i as int), sep@),
        decreases pieces.len() - i,
    {
        let ghost before = views(pieces@).take(i as int);
        if i > 0 {
            push_str(&mut out, sep);
        }
        push_str(&mut out, pieces[i].as_str());
        proof {
            let after = views(pieces@).take(i + 1);
            assert(after.drop_last() == before);
            assert(after.last() == pieces@[i as int]@);
            if i == 0 {
                assert(after.len() == 1);
            }
        }
        i = i + 1;
    }
    assert(views(pieces@).take(pieces@.len() as int) == views(pieces@));
    out
}


/// The text of `s` before the first `c` (all of `s` when there is none).
pub open spec fn until_char(s: Seq<char>, c: char) -> Seq<char>
    decreases s.len(),
{
    if s.len() == 0 {
        s
    } else if s[0] == c {
        Seq::<char>::empty()
    } else {
        seq![s[0]] + until_char(s.drop_first(), c)
    }
}

/// `until_char` is the prefix up to the first occurrence of `c`.
pub proof fn lemma_until_char(s: Seq<char>, c: char, i: int)
    requires
        0 <= i <= s.len(),
        forall|k: int| 0 <= k < i ==> s[k] != c,
        i < s.len() ==> s[i] == c,
    ensures
        until_char(s, c) == s.take(i),
    decreases i,
{
    if i == 0 {
        if s.len() > 0 {
            assert(s[0] == c);
        }
        assert(s.take(0) =~= Seq::<char>::empty());
    } else {
        assert forall|k: int| 0 <= k < i - 1 implies s.drop_first()[k] != c by {
            assert(s.drop_first()[k] == s[k + 1]);
        }
        lemma_until_char(s.drop_first(), c, i - 1);
        assert(seq![s[0]] + s.drop_first().take(i - 1) =~= s.take(i));
    }
}

/// Length of the text before the first `c` in `v`.
pub fn until_len(v: &Vec<char>, c: char) -> (r: usize)
    ensures
        r <= v@.len(),
        until_char(v@, c) == v@.take(r as int),
{
    match find_char(v, c, 0) {
        Some(i) => {
            proof {
                lemma_until_char(v@, c, i as int);
            }
            i
        },
        None => {
            proof {
                lemma_until_char(v@, c, v@.len() as int);
            }
            v.len()
        },
    }
}

/// The number of bytes of the UTF-8 encoding of `s`.
pub open spec fn byte_len(s: Seq<char>) -> nat {
    vstd::utf8::encode_utf8(s).len()
}

/// The byte length of a string.
pub fn str_byte_len(s: &String) -> (r: usize)
    ensures
        r == byte_len(s@),
{
    let b = s.as_str().as_bytes();
    b.len()
}


/// The decimal digit character for `d < 10`.
pub open spec fn digit_char(d: nat) -> char {
    ((48 + d) as u32) as char
}

/// The decimal representation of `n`, without leading zeros.
pub open spec fn decimal(n: nat) -> Seq<char>
    decreases n,
{
    if n < 10 {
        seq![digit_char(n)]
    } else {
        decimal(n / 10).push(digit_char(n % 10))
    }
}

/// Appends the decimal representation of `n` (`format!("{n}")`).
pub fn push_decimal(s: &mut String, n: u64)
    ensures
        final(s)@ == old(s)@ + decimal(n as nat),
    decreases n,
{
    if n >= 10 {
        push_decimal(s, n / 10);
    }
    let d = (n % 10) as u8;
    push_char(s, (48 + d) as char);
    proof {
        assert(((48 + d) as char) == digit_char((n % 10) as nat));
        if n >= 10 {
            assert(decimal(n as nat) == decimal((n / 10) as nat).push(digit_char((n % 10) as nat)));
        }
    }
}

/// Removes every trailing `c` (`str::trim_end_matches(c)`).
pub open spec fn trim_end_char(s: Seq<char>, c: char) -> Seq<char>
    decreases s.len(),
{
    if s.len() > 0 && s.last() == c {
        trim_end_char(s.drop_last(), c)
    } else {
        s
    }
}

/// Length of `v` without its trailing `c` characters.
pub fn trim_end_len(v: &Vec<char>, c: char) -> (r: usize)
    ensures
        r <= v@.len(),
        trim_end_char(v@, c) == v@.take(r as int),
{
    let mut n: usize = v.len();
    assert(v@.take(v@.len() as int) == v@);
    while n > 0 && v[n - 1] == c
        invariant
            n <= v@.len(),
            trim_end_char(v@, c) == trim_end_char(v@.take(n as int), c),
        decreases n,
    {
        assert(v@.take(n as int).drop_last() == v@.take(n - 1));
        n = n - 1;
    }
    assert(v@.take(v@.len() as int) == v@);
    n
}


/// Splits `v` at every `sep` (`str::split(sep)`), as strings.
pub fn split_on(v: &Vec<char>, sep: char) -> (r: Vec<String>)
    ensures
        views(r@) == split_seq(v@, |c: char| c == sep),
        r@.len() >= 1,
{
    let ghost f = |c: char| c == sep;
    let mut parts: Vec<String> = Vec::new();
    let mut cur: Vec<char> = Vec::new();
    let mut i: usize = 0;
    assert(v@.take(0) == Seq::<char>::empty());
    while i < v.len()
        invariant
            i <= v@.len(),
            f == (|c: char| c == sep),
            split_seq(v@.take(i as int), f).len() >= 1,
            cur@ == split_seq(v@.take(i as int), f).last(),
            views(parts@) == split_seq(v@.take(i as int), f).drop_last(),
        decreases v.len() - i,
    {
        proof {
            lemma_split_step(v@, i as int, f);
        }
        let ghost prev = split_seq(v@.take(i as int), f);
        if v[i] == sep {
            let ghost old_parts = parts@;
            parts.push(string_from(&cur));
            cur = Vec::new();
            proof {
                let next = split_seq(v@.take(i + 1), f);
                assert(views(parts@) =~= views(old_parts).push(prev.last()));
                assert(prev.drop_last().push(prev.last()) =~= prev);
                assert(next.drop_last() =~= prev);
            }
        } else {
            cur.push(v[i]);
            proof {
                let next = split_seq(v@.take(i + 1), f);
                assert(next.drop_last() =~= prev.drop_last());
            }
        }
        i = i + 1;
    }
    let ghost all = split_seq(v@.take(i as int), f);
    let ghost old_parts = parts@;
    parts.push(string_from(&cur));
    assert(v@.take(i as int) == v@);
    assert(views(parts@) =~= views(old_parts).push(all.last()));
    assert(all.drop_last().push(all.last()) =~= all);
    parts
}

/// The first position where `p` occurs in `s`, if any.
#[verifier::opaque]
pub open spec fn first_occ(s: Seq<char>, p: Seq<char>) -> Option<int> {
    if has_sub(s, p) {
        Some(choose|i: int| occurs_at(s, p, i) && forall|k: int| 0 <= k < i ==> !occurs_at(s, p, k))
    } else {
        None
    }
}

proof fn lemma_min_occ(s: Seq<char>, p: Seq<char>, e: int)
    requires
        occurs_at(s, p, e),
    ensures
        exists|f: int| occurs_at(s, p, f) && forall|k: int| 0 <= k < f ==> !occurs_at(s, p, k),
    decreases e,
{
    if exists|k: int| 0 <= k < e && occurs_at(s, p, k) {
        let k = choose|k: int| 0 <= k < e && occurs_at(s, p, k);
        lemma_min_occ(s, p, k);
    } else {
        assert(forall|k: int| 0 <= k < e ==> !occurs_at(s, p, k));
    }
}

/// `first_occ` names the first occurrence.
pub proof fn lemma_first_occ(s: Seq<char>, p: Seq<char>, i: int)
    requires
        occurs_at(s, p, i),
        forall|k: int| 0 <= k < i ==> !occurs_at(s, p, k),
    ensures
        first_occ(s, p) == Some(i),
{
    reveal(first_occ);
    lemma_min_occ(s, p, i);
    let j = choose|j: int| occurs_at(s, p, j) && forall|k: int| 0 <= k < j ==> !occurs_at(s, p, k);
    assert(occurs_at(s, p, j) && forall|k: int| 0 <= k < j ==> !occurs_at(s, p, k));
    if j < i {
        assert(!occurs_at(s, p, j));
    }
    if i < j {
        assert(!occurs_at(s, p, i));
    }
}

/// `str::find`: the first position of `p` in `v`.
pub fn find_first(v: &Vec<char>, p: &Vec<char>) -> (r: Option<usize>)
    ensures
        match r {
            Some(i) => first_occ(v@, p@) == Some(i as int) && i + p@.len() <= v@.len(),
            None => first_occ(v@, p@) is None,
        },
{
    match find_sub(v, p, 0) {
        Some(i) => {
            proof {
                lemma_first_occ(v@, p@, i as int);
            }
            Some(i)
        },
        None => {
            assert(!has_sub(v@, p@)) by {
                if has_sub(v@, p@) {
                    let k = choose|k: int| occurs_at(v@, p@, k);
                }
            }
            proof {
                reveal(first_occ);
            }
            None
        },
    }
}

/// A copy of `v[lo..hi]`.
pub fn slice_chars(v: &Vec<char>, lo: usize, hi: usize) -> (r: Vec<char>)
    requires
        lo <= hi <= v@.len(),
    ensures
        r@ == v@.subrange(lo as int, hi as int),
{
    let mut out: Vec<char> = Vec::new();
    let mut k: usize = lo;
    while k < hi
        invariant
            lo <= k <= hi <= v@.len(),
            out@ == v@.subrange(lo as int, k as int),
        decreases hi - k,
    {
        out.push(v[k]);
        k = k + 1;
    }
    out
}

} // verus!
