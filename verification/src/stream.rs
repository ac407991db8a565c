//! TCP and UDP stream forwarding: listener and target addresses, when the
//! listeners are reloaded, and the table of UDP client sessions.
use vstd::prelude::*;

use crate::model::StreamConfig;
use crate::text::{decimal, owned, push_decimal, push_str, str_eq};

verus! {

/// The address a stream listens on: every interface, its port.
pub fn listen_address(stream: &StreamConfig) -> (r: String)
    ensures
        r@ == "0.0.0.0:"@ + decimal(stream.listen_port as nat),
{
    let mut out = owned("0.0.0.0:");
    push_decimal(&mut out, stream.listen_port as u64);
    out
}

/// The address a stream forwards to.
pub fn target_address(stream: &StreamConfig) -> (r: String)
    ensures
        r@ == stream.target_ip@ + ":"@ + decimal(stream.target_port as nat),
{
    let mut out = stream.target_ip.clone();
    push_str(&mut out, ":");
    push_decimal(&mut out, stream.target_port as u64);
    out
}

/// The listeners are rebuilt whenever the configuration generation moved.
pub fn needs_reload(known: u64, current: u64) -> (r: bool)
    ensures
        r == (known != current),
{
    known != current
}

/// How long a UDP client may stay silent before its session ends (ms).
pub const UDP_IDLE_MS: u64 = 60000;

/// The UDP clients of a stream and when each was last heard (ms).
#[derive(Debug)]
pub struct UdpSessions {
    seen: Vec<(String, u64)>,
}

/// The clients with their last activity, in the order they first came.
pub open spec fn seen_views(s: Seq<(String, u64)>) -> Seq<(Seq<char>, u64)> {
    s.map_values(|e: (String, u64)| (e.0@, e.1))
}

/// No client appears twice.
pub open spec fn distinct_clients(s: Seq<(Seq<char>, u64)>) -> bool {
    forall|i: int, j: int| 0 <= i < j < s.len() ==> #[trigger] s[i].0 != #[trigger] s[j].0
}

/// A client silent for more than a minute at `now`.
pub open spec fn stale(e: (Seq<char>, u64), now: u64) -> bool {
    now > e.1 && now - e.1 > UDP_IDLE_MS
}

/// Where `client` is listed, if it is.
pub open spec fn position_of(s: Seq<(Seq<char>, u64)>, client: Seq<char>) -> Option<int> {
    if exists|i: int| 0 <= i < s.len() && s[i].0 == client {
        Some(choose|i: int| 0 <= i < s.len() && s[i].0 == client)
    } else {
        None
    }
}

impl View for UdpSessions {
    type V = Seq<(Seq<char>, u64)>;

    closed spec fn view(&self) -> Seq<(Seq<char>, u64)> {
        seen_views(self.seen@)
    }
}

impl UdpSessions {
    #[verifier::type_invariant]
    spec fn well_formed(self) -> bool {
        distinct_clients(seen_views(self.seen@))
    }

    /// No clients.
    pub fn new() -> (r: Self)
        ensures
            r@ == Seq::<(Seq<char>, u64)>::empty(),
    {
        let r = UdpSessions { seen: Vec::new() };
        assert(r@ =~= Seq::<(Seq<char>, u64)>::empty());
        r
    }

    /// No client is listed twice.
    pub fn clients(&self) -> (r: usize)
        ensures
            r == self@.len(),
            distinct_clients(self@),
    {
        proof {
            use_type_invariant(self);
        }
        self.seen.len()
    }

    /// Notes a datagram from `client` at `now`: a known client's time is
    /// updated; a new one is added at the end, and the result says it needs
    /// its own upstream socket.
    pub fn touch(&mut self, client: &str, now: u64) -> (r: bool)
        ensures
            match position_of(old(self)@, client@) {
                Some(i) => !r && final(self)@ == old(self)@.update(i, (client@, now)),
                None => r && final(self)@ == old(self)@.push((client@, now)),
            },
    {
        proof {
            use_type_invariant(&*self);
        }
        let mut seen = Vec::new();
        std::mem::swap(&mut seen, &mut self.seen);
        let ghost s = seen_views(seen@);
        let mut i: usize = 0;
        while i < seen.len()
            invariant
                i <= seen@.len(),
                s == seen_views(seen@),
                s == old(self)@,
                distinct_clients(s),
                forall|k: int| 0 <= k < i ==> s[k].0 != client@,
            decreases seen.len() - i,
        {
            if str_eq(seen[i].0.as_str(), client) {
                let key = seen[i].0.clone();
                seen.set(i, (key, now));
                assert(seen_views(seen@) =~= s.update(i as int, (client@, now)));
                proof {
                    assert(s[i as int].0 == client@);
                    let c = choose|c: int| 0 <= c < s.len() && s[c].0 == client@;
                    assert(0 <= c < s.len() && s[c].0 == client@);
                    if c < i {
                        assert(s[c].0 != client@);
                    } else if c > i {
                        assert(s[i as int].0 != s[c].0);
                    }
                    assert(position_of(s, client@) == Some(i as int));
                }
                assert(distinct_clients(seen_views(seen@))) by {
                    assert forall|a: int, b: int| 0 <= a < b < seen@.len() implies #[trigger] seen_views(seen@)[a].0
                        != #[trigger] seen_views(seen@)[b].0 by {
                        assert(seen_views(seen@)[a].0 == s[a].0);
                        assert(seen_views(seen@)[b].0 == s[b].0);
                    }
                }
                self.seen = seen;
                return false;
            }
            i = i + 1;
        }
        seen.push((owned(client), now));
        assert(seen_views(seen@) =~= s.push((client@, now)));
        assert(distinct_clients(seen_views(seen@))) by {
            assert forall|a: int, b: int| 0 <= a < b < seen@.len() implies #[trigger] seen_views(seen@)[a].0
                != #[trigger] seen_views(seen@)[b].0 by {
                assert(seen_views(seen@)[a] == s.push((client@, now))[a]);
                assert(seen_views(seen@)[b] == s.push((client@, now))[b]);
            }
        }
        self.seen = seen;
        true
    }

    /// Ends the sessions of clients silent for more than a minute at `now`
    /// and gives their addresses, in order; the others stay in order.
    pub fn expire(&mut self, now: u64) -> (r: Vec<String>)
        ensures
            final(self)@ == old(self)@.filter(|e: (Seq<char>, u64)| !stale(e, now)),
            crate::text::views(r@) == old(self)@.filter(|e: (Seq<char>, u64)| stale(e, now)).map_values(
                |e: (Seq<char>, u64)| e.0,
            ),
    {
        proof {
            use_type_invariant(&*self);
        }
        let mut seen = Vec::new();
        std::mem::swap(&mut seen, &mut self.seen);
        let ghost s = seen_views(seen@);
        let ghost keep = |e: (Seq<char>, u64)| !stale(e, now);
        let ghost drop = |e: (Seq<char>, u64)| stale(e, now);
        let mut kept: Vec<(String, u64)> = Vec::new();
        let mut gone: Vec<String> = Vec::new();
        let mut rest = seen;
        assert(seen_views(rest@) =~= s.skip(0));
        assert(s.take(0) =~= Seq::<(Seq<char>, u64)>::empty());
        while rest.len() > 0
            invariant
                rest@.len() <= s.len(),
                seen_views(rest@) == s.skip(s.len() - rest@.len()),
                distinct_clients(s),
                keep == (|e: (Seq<char>, u64)| !stale(e, now)),
                drop == (|e: (Seq<char>, u64)| stale(e, now)),
                seen_views(kept@) == s.take(s.len() - rest@.len()).filter(keep),
                crate::text::views(gone@) == s.take(s.len() - rest@.len()).filter(drop).map_values(
                    |e: (Seq<char>, u64)| e.0,
                ),
            decreases rest.len(),
        {
            let ghost n: int = s.len() - rest@.len();
            let ghost before_rest = rest@;
            let e = rest.remove(0);
            assert(rest@ == before_rest.subrange(1, before_rest.len() as int));
            assert(seen_views(rest@) =~= seen_views(before_rest).skip(1));
            assert(seen_views(before_rest)[0] == (e.0@, e.1));
            assert((e.0@, e.1) == s[n]);
            assert(s.take(n + 1) == s.take(n).push(s[n]));
            proof {
                s.take(n).lemma_filter_push(s[n], keep);
                s.take(n).lemma_filter_push(s[n], drop);
            }
            let ghost kb = kept@;
            let ghost gb = gone@;
            if now > e.1 && now - e.1 > 60000 {
                gone.push(e.0);
                proof {
                    crate::text::lemma_views_push(gb, gone@.last());
                }
                assert(s.take(n + 1).filter(drop).map_values(|e: (Seq<char>, u64)| e.0) =~= s.take(n).filter(
                    drop,
                ).map_values(|e: (Seq<char>, u64)| e.0).push(s[n].0));
            } else {
                kept.push(e);
                assert(seen_views(kept@) =~= seen_views(kb).push(s[n]));
            }
            assert(seen_views(rest@) =~= s.skip(n + 1));
        }
        assert(s.take(s.len() as int) =~= s);
        let mut done = kept;
        assert(distinct_clients(seen_views(done@))) by {
            assert forall|a: int, b: int| 0 <= a < b < done@.len() implies #[trigger] seen_views(done@)[a].0
                != #[trigger] seen_views(done@)[b].0 by {
                lemma_filter_distinct(s, keep, a, b);
            }
        }
        self.seen = done;
        gone
    }
}

proof fn lemma_filter_distinct(s: Seq<(Seq<char>, u64)>, f: spec_fn((Seq<char>, u64)) -> bool, a: int, b: int)
    requires
        distinct_clients(s),
        0 <= a < b < s.filter(f).len(),
    ensures
        s.filter(f)[a].0 != s.filter(f)[b].0,
    decreases s.len(),
{
    broadcast use vstd::seq_lib::group_filter_ensures;

    let d = s.drop_last();
    assert(distinct_clients(d)) by {
        assert forall|x: int, y: int| 0 <= x < y < d.len() implies #[trigger] d[x].0 != #[trigger] d[y].0 by {
            assert(d[x] == s[x]);
            assert(d[y] == s[y]);
        }
    }
    assert(s == d.push(s.last()));
    d.lemma_filter_push(s.last(), f);
    if f(s.last()) && b == s.filter(f).len() - 1 {
        let x = s.filter(f)[a];
        assert(s.filter(f)[a] == d.filter(f)[a]);
        assert(d.filter(f).contains(x));
        d.lemma_filter_contains_rev(f, x);
        assert(d.contains(x));
        let k = choose|k: int| 0 <= k < d.len() && d[k] == x;
        assert(s[k] == d[k]);
        assert(s[k].0 != s[s.len() - 1].0);
    } else {
        assert(s.filter(f)[a] == d.filter(f)[a]);
        assert(s.filter(f)[b] == d.filter(f)[b]);
        lemma_filter_distinct(d, f, a, b);
    }
}

} // verus!
