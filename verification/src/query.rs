//! Request parameters kept in ascending key order, as a signed query needs
//! them; a key occurs at most once and a later value replaces an earlier.
use vstd::prelude::*;

use crate::text::{chars_of, owned};

verus! {

/// String order: lexicographic by character (which is also the byte order
/// of the UTF-8 encodings).
pub open spec fn seq_lt(a: Seq<char>, b: Seq<char>) -> bool
    decreases a.len(),
{
    if a.len() == 0 {
        b.len() > 0
    } else if b.len() == 0 {
        false
    } else if a[0] != b[0] {
        (a[0] as int) < (b[0] as int)
    } else {
        seq_lt(a.skip(1), b.skip(1))
    }
}

/// `seq_lt` is irreflexive and asymmetric.
pub proof fn lemma_lt_asym(a: Seq<char>, b: Seq<char>)
    ensures
        seq_lt(a, b) ==> !seq_lt(b, a),
        !seq_lt(a, a),
    decreases a.len(),
{
    if a.len() > 0 && b.len() > 0 && a[0] == b[0] {
        lemma_lt_asym(a.skip(1), b.skip(1));
    }
    if a.len() > 0 {
        lemma_lt_asym(a.skip(1), a.skip(1));
    }
}

/// `seq_lt` is transitive.
pub proof fn lemma_lt_trans(a: Seq<char>, b: Seq<char>, c: Seq<char>)
    requires
        seq_lt(a, b),
        seq_lt(b, c),
    ensures
        seq_lt(a, c),
    decreases a.len(),
{
    if a.len() > 0 && b.len() > 0 && c.len() > 0 && a[0] == b[0] && b[0] == c[0] {
        lemma_lt_trans(a.skip(1), b.skip(1), c.skip(1));
    }
}

/// Two different strings are ordered one way or the other.
pub proof fn lemma_lt_total(a: Seq<char>, b: Seq<char>)
    requires
        a != b,
    ensures
        seq_lt(a, b) || seq_lt(b, a),
    decreases a.len(),
{
    if a.len() > 0 && b.len() > 0 {
        if a[0] == b[0] {
            assert(a =~= seq![a[0]] + a.skip(1));
            assert(b =~= seq![b[0]] + b.skip(1));
            if a.skip(1) =~= b.skip(1) {
                assert(a =~= b);
            }
            lemma_lt_total(a.skip(1), b.skip(1));
        } else {
            assert((a[0] as int) != (b[0] as int));
        }
    }
    if a.len() == 0 && b.len() == 0 {
        assert(a =~= b);
    }
}

/// `a < b` on strings.
pub fn str_lt(a: &str, b: &str) -> (r: bool)
    ensures
        r == seq_lt(a@, b@),
{
    let x = chars_of(a);
    let y = chars_of(b);
    let mut i: usize = 0;
    assert(a@.skip(0) =~= a@);
    assert(b@.skip(0) =~= b@);
    while i < x.len() && i < y.len() && x[i] == y[i]
        invariant
            i <= x@.len(),
            i <= y@.len(),
            x@ == a@,
            y@ == b@,
            seq_lt(a@, b@) == seq_lt(a@.skip(i as int), b@.skip(i as int)),
        decreases x.len() - i,
    {
        assert(a@.skip(i as int).skip(1) == a@.skip(i + 1));
        assert(b@.skip(i as int).skip(1) == b@.skip(i + 1));
        i = i + 1;
    }
    if i == x.len() {
        i < y.len()
    } else if i == y.len() {
        false
    } else {
        x[i] < y[i]
    }
}

/// Keys strictly ascending.
pub open spec fn sorted_keys(s: Seq<(Seq<char>, Seq<char>)>) -> bool {
    forall|i: int, j: int| 0 <= i < j < s.len() ==> seq_lt(#[trigger] s[i].0, #[trigger] s[j].0)
}

/// The entries as a map from key to value.
pub open spec fn entries_map(s: Seq<(Seq<char>, Seq<char>)>) -> Map<Seq<char>, Seq<char>>
    decreases s.len(),
{
    if s.len() == 0 {
        Map::empty()
    } else {
        entries_map(s.drop_last()).insert(s.last().0, s.last().1)
    }
}

/// Sorted insertion: the entry for `k` gets `v`, in key order.
pub open spec fn insert_sorted(s: Seq<(Seq<char>, Seq<char>)>, k: Seq<char>, v: Seq<char>) -> Seq<(Seq<char>, Seq<char>)>
    decreases s.len(),
{
    if s.len() == 0 {
        seq![(k, v)]
    } else if s[0].0 == k {
        seq![(k, v)] + s.skip(1)
    } else if seq_lt(k, s[0].0) {
        seq![(k, v)] + s
    } else {
        seq![s[0]] + insert_sorted(s.skip(1), k, v)
    }
}

proof fn lemma_insert_sorted_shape(s: Seq<(Seq<char>, Seq<char>)>, k: Seq<char>, v: Seq<char>)
    requires
        sorted_keys(s),
    ensures
        sorted_keys(insert_sorted(s, k, v)),
        insert_sorted(s, k, v).len() > 0,
        forall|i: int|
            0 <= i < insert_sorted(s, k, v).len() ==> (#[trigger] insert_sorted(s, k, v)[i].0 == k
                || exists|j: int| 0 <= j < s.len() && s[j] == insert_sorted(s, k, v)[i]),
        s.len() > 0 ==> (insert_sorted(s, k, v)[0].0 == k || insert_sorted(s, k, v)[0] == s[0]),
    decreases s.len(),
{
    let r = insert_sorted(s, k, v);
    if s.len() == 0 {
    } else if s[0].0 == k {
        assert forall|i: int, j: int| 0 <= i < j < r.len() implies seq_lt(#[trigger] r[i].0, #[trigger] r[j].0) by {
            assert(s[j].0 == r[j].0);
            if i > 0 {
                assert(s[i].0 == r[i].0);
            }
        }
        assert forall|i: int| 0 <= i < r.len() implies (#[trigger] r[i].0 == k || exists|j: int|
            0 <= j < s.len() && s[j] == r[i]) by {
            if i > 0 {
                assert(s[i] == r[i]);
            }
        }
    } else if seq_lt(k, s[0].0) {
        assert forall|i: int, j: int| 0 <= i < j < r.len() implies seq_lt(#[trigger] r[i].0, #[trigger] r[j].0) by {
            assert(r[j] == s[j - 1]);
            if i > 0 {
                assert(r[i] == s[i - 1]);
            } else if j - 1 > 0 {
                assert(seq_lt(s[0].0, s[j - 1].0));
                lemma_lt_trans(k, s[0].0, s[j - 1].0);
            }
        }
        assert forall|i: int| 0 <= i < r.len() implies (#[trigger] r[i].0 == k || exists|j: int|
            0 <= j < s.len() && s[j] == r[i]) by {
            if i > 0 {
                assert(s[i - 1] == r[i]);
            }
        }
    } else {
        let t = s.skip(1);
        assert(sorted_keys(t)) by {
            assert forall|i: int, j: int| 0 <= i < j < t.len() implies seq_lt(#[trigger] t[i].0, #[trigger] t[j].0) by {
                assert(t[i] == s[i + 1]);
                assert(t[j] == s[j + 1]);
            }
        }
        lemma_insert_sorted_shape(t, k, v);
        let rt = insert_sorted(t, k, v);
        assert(r == seq![s[0]] + rt);
        lemma_lt_total(k, s[0].0);
        lemma_lt_asym(k, s[0].0);
        assert forall|i: int| 0 <= i < rt.len() implies seq_lt(s[0].0, #[trigger] rt[i].0) by {
            if rt[i].0 == k {
            } else {
                let j = choose|j: int| 0 <= j < t.len() && t[j] == rt[i];
                assert(t[j] == s[j + 1]);
            }
        }
        assert forall|i: int, j: int| 0 <= i < j < r.len() implies seq_lt(#[trigger] r[i].0, #[trigger] r[j].0) by {
            assert(r[j] == rt[j - 1]);
            if i > 0 {
                assert(r[i] == rt[i - 1]);
            }
        }
        assert forall|i: int| 0 <= i < r.len() implies (#[trigger] r[i].0 == k || exists|j: int|
            0 <= j < s.len() && s[j] == r[i]) by {
            if i == 0 {
                assert(s[0] == r[0]);
            } else {
                assert(r[i] == rt[i - 1]);
                if rt[i - 1].0 != k {
                    let j = choose|j: int| 0 <= j < t.len() && t[j] == rt[i - 1];
                    assert(s[j + 1] == r[i]);
                }
            }
        }
    }
}

proof fn lemma_map_prepend(e: (Seq<char>, Seq<char>), s: Seq<(Seq<char>, Seq<char>)>)
    requires
        forall|j: int| 0 <= j < s.len() ==> #[trigger] s[j].0 != e.0,
    ensures
        entries_map(seq![e] + s) == entries_map(s).insert(e.0, e.1),
    decreases s.len(),
{
    if s.len() == 0 {
        assert(seq![e] + s =~= seq![e]);
        assert(seq![e].drop_last() =~= Seq::<(Seq<char>, Seq<char>)>::empty());
        assert(seq![e].last() == e);
        assert(entries_map(seq![e]) == entries_map(Seq::<(Seq<char>, Seq<char>)>::empty()).insert(e.0, e.1));
        assert(entries_map(s) =~= Map::<Seq<char>, Seq<char>>::empty());
    } else {
        let d = s.drop_last();
        assert forall|j: int| 0 <= j < d.len() implies #[trigger] d[j].0 != e.0 by {
            assert(d[j] == s[j]);
        }
        lemma_map_prepend(e, d);
        assert((seq![e] + s).drop_last() =~= seq![e] + d);
        assert((seq![e] + s).last() == s.last());
        assert(s.last().0 != e.0);
        let l = s.last();
        assert(entries_map(seq![e] + s) == entries_map(seq![e] + d).insert(l.0, l.1));
        assert(entries_map(s) == entries_map(d).insert(l.0, l.1));
        assert(entries_map(seq![e] + s) =~= entries_map(s).insert(e.0, e.1));
    }
}

proof fn lemma_map_first(s: Seq<(Seq<char>, Seq<char>)>)
    requires
        sorted_keys(s),
        s.len() > 0,
    ensures
        entries_map(s) == entries_map(s.skip(1)).insert(s[0].0, s[0].1),
        forall|j: int| 0 <= j < s.skip(1).len() ==> #[trigger] s.skip(1)[j].0 != s[0].0,
{
    let t = s.skip(1);
    assert forall|j: int| 0 <= j < t.len() implies #[trigger] t[j].0 != s[0].0 by {
        assert(t[j] == s[j + 1]);
        assert(seq_lt(s[0].0, s[j + 1].0));
        lemma_lt_asym(s[0].0, s[0].0);
    }
    assert(s == seq![s[0]] + t);
    lemma_map_prepend(s[0], t);
}

/// What sorted insertion keeps: the keys stay strictly ascending, and as
/// a map the entries gain `k` with value `v` and keep every other key.
pub proof fn insert_sorted_laws(s: Seq<(Seq<char>, Seq<char>)>, k: Seq<char>, v: Seq<char>)
    requires
        sorted_keys(s),
    ensures
        sorted_keys(insert_sorted(s, k, v)),
        entries_map(insert_sorted(s, k, v)) == entries_map(s).insert(k, v),
    decreases s.len(),
{
    lemma_insert_sorted_shape(s, k, v);
    let r = insert_sorted(s, k, v);
    if s.len() == 0 {
        assert(r.drop_last() =~= Seq::<(Seq<char>, Seq<char>)>::empty());
        assert(r.last() == (k, v));
        assert(entries_map(r) == entries_map(r.drop_last()).insert(k, v));
        assert(entries_map(s) =~= Map::<Seq<char>, Seq<char>>::empty());
        assert(entries_map(r) =~= entries_map(s).insert(k, v));
    } else if s[0].0 == k {
        lemma_map_first(s);
        lemma_map_first(r);
        assert(r[0] == (k, v));
        assert(r.skip(1) =~= s.skip(1));
        assert(entries_map(r) =~= entries_map(s).insert(k, v));
    } else if seq_lt(k, s[0].0) {
        lemma_map_first(r);
        assert(r[0] == (k, v));
        assert(r.skip(1) =~= s);
        assert(entries_map(r) == entries_map(s).insert(k, v));
    } else {
        let t = s.skip(1);
        assert(sorted_keys(t)) by {
            assert forall|i: int, j: int| 0 <= i < j < t.len() implies seq_lt(#[trigger] t[i].0, #[trigger] t[j].0) by {
                assert(t[i] == s[i + 1]);
                assert(t[j] == s[j + 1]);
            }
        }
        insert_sorted_laws(t, k, v);
        lemma_map_first(s);
        lemma_map_first(r);
        assert(r.skip(1) == insert_sorted(t, k, v));
        assert(r[0] == s[0]);
        assert(entries_map(r) =~= entries_map(s).insert(k, v));
    }
}

/// Parameters in ascending key order, each key once.
#[derive(Debug)]
pub struct ParamMap {
    entries: Vec<(String, String)>,
}

/// The entries of a list of string pairs.
pub open spec fn entry_views(v: Seq<(String, String)>) -> Seq<(Seq<char>, Seq<char>)> {
    v.map_values(|p: (String, String)| (p.0@, p.1@))
}

impl View for ParamMap {
    type V = Seq<(Seq<char>, Seq<char>)>;

    closed spec fn view(&self) -> Seq<(Seq<char>, Seq<char>)> {
        entry_views(self.entries@)
    }
}

impl ParamMap {
    #[verifier::type_invariant]
    spec fn well_formed(self) -> bool {
        sorted_keys(entry_views(self.entries@))
    }

    /// No parameters.
    pub fn new() -> (r: Self)
        ensures
            r@ == Seq::<(Seq<char>, Seq<char>)>::empty(),
    {
        let r = ParamMap { entries: Vec::new() };
        assert(r@ =~= Seq::<(Seq<char>, Seq<char>)>::empty());
        r
    }

    /// Sets `key` to `value`, in key order.
    pub fn insert(&mut self, key: &str, value: String)
        ensures
            final(self)@ == insert_sorted(old(self)@, key@, value@),
    {
        proof {
            use_type_invariant(&*self);
        }
        let ghost s = self@;
        let mut p: usize = 0;
        assert(s.skip(0) =~= s);
        assert(s.take(0) + s =~= s);
        while p < self.entries.len() && str_lt(self.entries[p].0.as_str(), key)
            invariant
                p <= self.entries@.len(),
                s == entry_views(self.entries@),
                sorted_keys(s),
                insert_sorted(s, key@, value@) == s.take(p as int) + insert_sorted(s.skip(p as int), key@, value@),
            decreases self.entries.len() - p,
        {
            let ghost t = s.skip(p as int);
            assert(t[0] == s[p as int]);
            assert(seq_lt(s[p as int].0, key@));
            proof {
                lemma_lt_asym(s[p as int].0, key@);
            }
            assert(t.skip(1) == s.skip(p + 1));
            assert(insert_sorted(t, key@, value@) == seq![t[0]] + insert_sorted(s.skip(p + 1), key@, value@));
            assert(s.take(p + 1) == s.take(p as int) + seq![t[0]]);
            p = p + 1;
        }
        let mut entries = Vec::new();
        std::mem::swap(&mut entries, &mut self.entries);
        let ghost t = s.skip(p as int);
        let k = owned(key);
        if p < entries.len() && crate::text::str_eq(entries[p].0.as_str(), key) {
            assert(t[0].0 == key@);
            assert(t.skip(1) == s.skip(p + 1));
            entries.set(p, (k, value));
            assert(entry_views(entries@) =~= s.take(p as int) + (seq![(key@, value@)] + s.skip(p + 1)));
        } else {
            if p < entries.len() {
                proof {
                    lemma_lt_total(key@, t[0].0);
                }
                assert(seq_lt(key@, t[0].0));
            } else {
                assert(t.len() == 0);
            }
            entries.insert(p, (k, value));
            assert(entry_views(entries@) =~= s.take(p as int) + (seq![(key@, value@)] + t));
        }
        proof {
            insert_sorted_laws(s, key@, value@);
        }
        self.entries = entries;
    }

    /// The parameters, in key order.
    pub fn entries(&self) -> (r: &Vec<(String, String)>)
        ensures
            entry_views(r@) == self@,
            sorted_keys(self@),
    {
        proof {
            use_type_invariant(self);
        }
        &self.entries
    }
}

} // verus!
