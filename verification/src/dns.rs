//! DNS-01 challenge helpers: the record name, splitting a name into zone and
//! relative record, request encodings used by the DNS services, and the
//! reading of their answers.
use vstd::prelude::*;

use crate::model::{clone_opt, DnsProviderKind};
use crate::text::{
    byte_len, chars_eq, chars_of, contains_sub, ends_with, has_sub, find_first, first_occ, join_strings, lower_chars, lower_seq,
    lemma_views_push, owned, push_char, push_str, seq_join, slice_chars, split_on, split_seq, starts_with, string_from,
    str_byte_len, str_eq, string_from_range, to_lower, trim_bounds, trim_end_char, trim_end_len, trim_seq, views,
};

verus! {

/// The name of the TXT record that answers a DNS-01 challenge for `domain`;
/// a wildcard domain uses the record of its base name.
pub open spec fn challenge_fqdn_spec(domain: Seq<char>) -> Seq<char> {
    "_acme-challenge."@ + (if "*."@.is_prefix_of(domain) {
        domain.skip(2)
    } else {
        domain
    })
}

/// See [`challenge_fqdn_spec`].
pub fn challenge_fqdn(domain: &str) -> (r: String)
    ensures
        r@ == challenge_fqdn_spec(domain@),
{
    let dc = chars_of(domain);
    let star = chars_of("*.");
    let mut out = owned("_acme-challenge.");
    if starts_with(&dc, &star) {
        proof {
            reveal_strlit("*.");
        }
        let rest = string_from_range(&dc, 2, dc.len());
        push_str(&mut out, rest.as_str());
    } else {
        proof {
            reveal_strlit("*.");
        }
        push_str(&mut out, domain);
    }
    out
}

/// Two-label public suffixes under which a registrable zone has three labels.
pub open spec fn is_compound_suffix(s: Seq<char>) -> bool {
    s == "com.cn"@ || s == "net.cn"@ || s == "org.cn"@ || s == "gov.cn"@ || s == "ac.cn"@ || s
        == "com.hk"@ || s == "co.uk"@ || s == "org.uk"@ || s == "com.tw"@ || s == "co.jp"@
}

/// How many trailing labels make up the zone: three under a compound
/// suffix, else two (never more than there are).
pub open spec fn zone_labels_spec(labels: Seq<Seq<char>>) -> int {
    let n = labels.len() as int;
    if n >= 2 && is_compound_suffix(labels[n - 2] + "."@ + labels[n - 1]) {
        if n < 3 {
            n
        } else {
            3
        }
    } else {
        if n < 2 {
            n
        } else {
            2
        }
    }
}

fn is_compound(s: &str) -> (r: bool)
    ensures
        r == is_compound_suffix(s@),
{
    let x = chars_of(s);
    let list = ["com.cn", "net.cn", "org.cn", "gov.cn", "ac.cn", "com.hk", "co.uk", "org.uk", "com.tw", "co.jp"];
    proof {
        reveal_strlit("com.cn");
        reveal_strlit("net.cn");
        reveal_strlit("org.cn");
        reveal_strlit("gov.cn");
        reveal_strlit("ac.cn");
        reveal_strlit("com.hk");
        reveal_strlit("co.uk");
        reveal_strlit("org.uk");
        reveal_strlit("com.tw");
        reveal_strlit("co.jp");
    }
    let mut i: usize = 0;
    while i < 10
        invariant
            i <= 10,
            list@ == seq!["com.cn", "net.cn", "org.cn", "gov.cn", "ac.cn", "com.hk", "co.uk", "org.uk", "com.tw", "co.jp"],
            x@ == s@,
            forall|k: int| 0 <= k < i ==> list@[k]@ != s@,
        decreases 10 - i,
    {
        let y = chars_of(list[i]);
        if chars_eq(&x, &y) {
            return true;
        }
        i = i + 1;
    }
    assert(list@[0]@ == "com.cn"@);
    assert(list@[1]@ == "net.cn"@);
    assert(list@[2]@ == "org.cn"@);
    assert(list@[3]@ == "gov.cn"@);
    assert(list@[4]@ == "ac.cn"@);
    assert(list@[5]@ == "com.hk"@);
    assert(list@[6]@ == "co.uk"@);
    assert(list@[7]@ == "org.uk"@);
    assert(list@[8]@ == "com.tw"@);
    assert(list@[9]@ == "co.jp"@);
    false
}

/// How many trailing labels form the zone; see [`zone_labels_spec`].
pub fn root_zone_labels(labels: &[String]) -> (r: usize)
    ensures
        r == zone_labels_spec(views(labels@)),
{
    let n = labels.len();
    if n >= 2 {
        let mut last_two = labels[n - 2].clone();
        push_str(&mut last_two, ".");
        push_str(&mut last_two, labels[n - 1].as_str());
        if is_compound(last_two.as_str()) {
            return if n < 3 {
                n
            } else {
                3
            };
        }
    }
    if n < 2 {
        n
    } else {
        2
    }
}

/// The zone and the record relative to it for a fully qualified name: the
/// name loses trailing dots and is lower-cased; the zone is its last two
/// labels (three under a compound suffix), the record the labels before
/// them, or `@` when there are none.
pub open spec fn zone_and_rr_spec(fqdn: Seq<char>) -> (Seq<char>, Seq<char>) {
    let f = lower_seq(trim_end_char(fqdn, '.'));
    let labels = split_seq(f, |c: char| c == '.');
    let n = labels.len() as int;
    let z = zone_labels_spec(labels);
    (
        seq_join(labels.skip(n - z), "."@),
        if n > z {
            seq_join(labels.take(n - z), "."@)
        } else {
            "@"@
        },
    )
}

/// See [`zone_and_rr_spec`].
pub fn split_zone_and_rr(fqdn: &str) -> (r: (String, String))
    ensures
        r.0@ == zone_and_rr_spec(fqdn@).0,
        r.1@ == zone_and_rr_spec(fqdn@).1,
{
    let fc = chars_of(fqdn);
    let n = trim_end_len(&fc, '.');
    let t = slice_chars(&fc, 0, n);
    assert(t@ == fc@.take(n as int));
    let lc = lower_chars(&t);
    let labels = split_on(&lc, '.');
    let ghost lv = views(labels@);
    assert(lv == split_seq(lower_seq(trim_end_char(fqdn@, '.')), |c: char| c == '.'));
    let z = root_zone_labels(labels.as_slice());
    let len = labels.len();
    let cut = len - z;
    let mut head: Vec<String> = Vec::new();
    let mut tail: Vec<String> = Vec::new();
    let mut i: usize = 0;
    while i < len
        invariant
            i <= len == labels@.len(),
            cut <= len,
            lv == views(labels@),
            views(head@) == lv.take(if i < cut { i as int } else { cut as int }),
            views(tail@) == lv.subrange(cut as int, if i < cut { cut as int } else { i as int }),
        decreases len - i,
    {
        let ghost hb = head@;
        let ghost tb = tail@;
        if i < cut {
            head.push(labels[i].clone());
            assert(head@ == hb.push(labels@[i as int]));
            proof {
                lemma_views_push(hb, labels@[i as int]);
            }
            assert(lv[i as int] == labels@[i as int]@);
            assert(views(head@) =~= lv.take(i + 1));
        } else {
            tail.push(labels[i].clone());
            assert(tail@ == tb.push(labels@[i as int]));
            proof {
                lemma_views_push(tb, labels@[i as int]);
            }
            assert(lv[i as int] == labels@[i as int]@);
            assert(views(tail@) =~= lv.subrange(cut as int, i + 1));
        }
        i = i + 1;
    }
    assert(lv.subrange(cut as int, len as int) == lv.skip(cut as int));
    let zone = join_strings(tail.as_slice(), ".");
    let rr = if len > z {
        join_strings(head.as_slice(), ".")
    } else {
        owned("@")
    };
    (zone, rr)
}

/// The zone and the record together name what was split: the record, a
/// dot and the zone, or the zone alone when the record is `@`.
pub proof fn zone_and_rr_rebuild(fqdn: Seq<char>)
    ensures
        ({
            let (zone, rr) = zone_and_rr_spec(fqdn);
            let f = lower_seq(trim_end_char(fqdn, '.'));
            (rr == "@"@ && zone == f) || rr + "."@ + zone == f
        }),
{
    let f = lower_seq(trim_end_char(fqdn, '.'));
    let labels = split_seq(f, |c: char| c == '.');
    let n = labels.len() as int;
    let z = zone_labels_spec(labels);
    crate::text::split_join_inverse(f, '.');
    crate::text::lemma_split_nonempty(f, |c: char| c == '.');
    reveal_strlit(".");
    assert("."@ =~= seq!['.']);
    if n > z {
        assert(z >= 1);
        crate::text::join_split_at(labels, "."@, n - z);
    } else {
        assert(labels.skip(n - z) =~= labels);
    }
}

/// Under each of the listed two-label public suffixes (`com.cn`, `net.cn`,
/// `org.cn`, `gov.cn`, `ac.cn`, `com.hk`, `co.uk`, `org.uk`, `com.tw`,
/// `co.jp`) the zone of a name with three or more labels is its last three
/// labels, and the record is the labels before them (`@` when there are
/// none); so `_acme-challenge.shop.co.uk` lives in zone `shop.co.uk`.
pub proof fn compound_suffix_zone_has_three_labels(fqdn: Seq<char>)
    requires
        ({
            let labels = split_seq(lower_seq(trim_end_char(fqdn, '.')), |c: char| c == '.');
            let n = labels.len() as int;
            let s = labels[n - 2] + "."@ + labels[n - 1];
            &&& n >= 3
            &&& (s == "com.cn"@ || s == "net.cn"@ || s == "org.cn"@ || s == "gov.cn"@ || s == "ac.cn"@
                || s == "com.hk"@ || s == "co.uk"@ || s == "org.uk"@ || s == "com.tw"@ || s
                == "co.jp"@)
        }),
    ensures
        ({
            let labels = split_seq(lower_seq(trim_end_char(fqdn, '.')), |c: char| c == '.');
            let n = labels.len() as int;
            &&& zone_labels_spec(labels) == 3
            &&& zone_and_rr_spec(fqdn).0 == seq_join(labels.skip(n - 3), "."@)
            &&& zone_and_rr_spec(fqdn).1 == (if n > 3 {
                seq_join(labels.take(n - 3), "."@)
            } else {
                "@"@
            })
        }),
{
}

/// Outside the listed compound suffixes, the zone of a name with two or
/// more labels is its last two labels.
pub proof fn plain_suffix_zone_has_two_labels(fqdn: Seq<char>)
    requires
        ({
            let labels = split_seq(lower_seq(trim_end_char(fqdn, '.')), |c: char| c == '.');
            let n = labels.len() as int;
            let s = labels[n - 2] + "."@ + labels[n - 1];
            &&& n >= 2
            &&& !(s == "com.cn"@ || s == "net.cn"@ || s == "org.cn"@ || s == "gov.cn"@ || s == "ac.cn"@
                || s == "com.hk"@ || s == "co.uk"@ || s == "org.uk"@ || s == "com.tw"@ || s
                == "co.jp"@)
        }),
    ensures
        ({
            let labels = split_seq(lower_seq(trim_end_char(fqdn, '.')), |c: char| c == '.');
            let n = labels.len() as int;
            &&& zone_labels_spec(labels) == 2
            &&& zone_and_rr_spec(fqdn).0 == seq_join(labels.skip(n - 2), "."@)
        }),
{
}

/// A wildcard domain answers its challenge at the record of its base name.
pub proof fn wildcard_shares_challenge_record(domain: Seq<char>)
    requires
        !"*."@.is_prefix_of(domain),
    ensures
        challenge_fqdn_spec("*."@ + domain) == challenge_fqdn_spec(domain),
{
    reveal_strlit("*.");
    assert(("*."@ + domain).subrange(0, 2) =~= "*."@);
    assert(("*."@ + domain).skip(2) =~= domain);
}

/// Characters that URL encoding leaves as they are.
pub open spec fn is_unreserved(b: u8) -> bool {
    (65 <= b <= 90) || (97 <= b <= 122) || (48 <= b <= 57) || b == 45 || b == 95 || b == 46
        || b == 126
}

/// A hexadecimal digit for `d < 16`, upper or lower case.
pub open spec fn hex_digit(d: u8, upper: bool) -> char {
    if d < 10 {
        ((48 + d) as u32) as char
    } else if upper {
        ((55 + d) as u32) as char
    } else {
        ((87 + d) as u32) as char
    }
}

/// A byte as two hexadecimal digits.
pub open spec fn hex_pair(b: u8, upper: bool) -> Seq<char> {
    seq![hex_digit(b / 16, upper), hex_digit(b % 16, upper)]
}

/// Percent-encoding of bytes: unreserved bytes stay, every other byte
/// becomes `%` and two upper-case hex digits.
pub open spec fn percent_spec(bytes: Seq<u8>) -> Seq<char>
    decreases bytes.len(),
{
    if bytes.len() == 0 {
        Seq::<char>::empty()
    } else {
        percent_spec(bytes.drop_last()) + (if is_unreserved(bytes.last()) {
            seq![bytes.last() as char]
        } else {
            seq!['%'] + hex_pair(bytes.last(), true)
        })
    }
}

/// Lower-case hexadecimal of bytes.
pub open spec fn hex_spec(bytes: Seq<u8>) -> Seq<char>
    decreases bytes.len(),
{
    if bytes.len() == 0 {
        Seq::<char>::empty()
    } else {
        hex_spec(bytes.drop_last()) + hex_pair(bytes.last(), false)
    }
}

fn hex_digit_exec(d: u8, upper: bool) -> (r: char)
    requires
        d < 16,
    ensures
        r == hex_digit(d, upper),
{
    if d < 10 {
        (48 + d) as char
    } else if upper {
        (55 + d) as char
    } else {
        (87 + d) as char
    }
}

/// URL percent-encoding of a string's UTF-8 bytes (RFC 3986 unreserved
/// characters are kept).
pub fn percent_encode(s: &str) -> (r: String)
    ensures
        r@ == percent_spec(vstd::utf8::encode_utf8(s@)),
{
    let b = s.as_bytes();
    let mut out = String::new();
    let mut i: usize = 0;
    while i < b.len()
        invariant
            i <= b@.len(),
            b@ == vstd::utf8::encode_utf8(s@),
            out@ == percent_spec(b@.take(i as int)),
        decreases b.len() - i,
    {
        let x = b[i];
        let ghost before = out@;
        assert(b@.take(i + 1).drop_last() == b@.take(i as int));
        assert(b@.take(i + 1).last() == x);
        if (x >= 65 && x <= 90) || (x >= 97 && x <= 122) || (x >= 48 && x <= 57) || x == 45 || x
            == 95 || x == 46 || x == 126 {
            push_char(&mut out, x as char);
            assert(out@ =~= before + seq![x as char]);
        } else {
            push_char(&mut out, '%');
            push_char(&mut out, hex_digit_exec(x / 16, true));
            push_char(&mut out, hex_digit_exec(x % 16, true));
            assert(out@ =~= before + (seq!['%'] + hex_pair(x, true)));
        }
        i = i + 1;
    }
    assert(b@.take(i as int) == b@);
    out
}

/// Lower-case hexadecimal of bytes (`{:02x}` per byte).
pub fn hex_encode(bytes: &[u8]) -> (r: String)
    ensures
        r@ == hex_spec(bytes@),
{
    let mut out = String::new();
    let mut i: usize = 0;
    while i < bytes.len()
        invariant
            i <= bytes@.len(),
            out@ == hex_spec(bytes@.take(i as int)),
        decreases bytes.len() - i,
    {
        let x = bytes[i];
        let ghost before = out@;
        assert(bytes@.take(i + 1).drop_last() == bytes@.take(i as int));
        assert(bytes@.take(i + 1).last() == x);
        push_char(&mut out, hex_digit_exec(x / 16, false));
        push_char(&mut out, hex_digit_exec(x % 16, false));
        assert(out@ =~= before + hex_pair(x, false));
        i = i + 1;
    }
    assert(bytes@.take(i as int) == bytes@);
    out
}

/// XML escaping of one character.
pub open spec fn xml_escape_char(c: char) -> Seq<char> {
    if c == '&' {
        "&amp;"@
    } else if c == '<' {
        "&lt;"@
    } else if c == '>' {
        "&gt;"@
    } else if c == '"' {
        "&quot;"@
    } else {
        seq![c]
    }
}

/// XML escaping of a text: `&`, `<`, `>` and `"` become entities.
pub open spec fn xml_escape_spec(s: Seq<char>) -> Seq<char>
    decreases s.len(),
{
    if s.len() == 0 {
        Seq::<char>::empty()
    } else {
        xml_escape_spec(s.drop_last()) + xml_escape_char(s.last())
    }
}

/// See [`xml_escape_spec`].
pub fn xml_escape(s: &str) -> (r: String)
    ensures
        r@ == xml_escape_spec(s@),
{
    let cs = chars_of(s);
    let mut out = String::new();
    proof {
        reveal_strlit("&amp;");
        reveal_strlit("&lt;");
        reveal_strlit("&gt;");
        reveal_strlit("&quot;");
    }
    let mut i: usize = 0;
    while i < cs.len()
        invariant
            i <= cs@.len(),
            cs@ == s@,
            out@ == xml_escape_spec(cs@.take(i as int)),
        decreases cs.len() - i,
    {
        let c = cs[i];
        assert(cs@.take(i + 1).drop_last() == cs@.take(i as int));
        assert(cs@.take(i + 1).last() == c);
        if c == '&' {
            push_str(&mut out, "&amp;");
        } else if c == '<' {
            push_str(&mut out, "&lt;");
        } else if c == '>' {
            push_str(&mut out, "&gt;");
        } else if c == '"' {
            push_str(&mut out, "&quot;");
        } else {
            let ghost before = out@;
            push_char(&mut out, c);
            assert(out@ =~= before + seq![c]);
        }
        i = i + 1;
    }
    assert(cs@.take(i as int) == cs@);
    out
}

/// The trimmed text between the first `<tag>` and the next `</tag>`.
#[verifier::opaque]
pub open spec fn xml_text_spec(block: Seq<char>, tag: Seq<char>) -> Option<Seq<char>> {
    let open = "<"@ + tag + ">"@;
    let close = "</"@ + tag + ">"@;
    match first_occ(block, open) {
        None => None,
        Some(i) => {
            let st = i + open.len();
            match first_occ(block.skip(st), close) {
                None => None,
                Some(e) => Some(trim_seq(block.subrange(st, st + e))),
            }
        },
    }
}

fn tag_pair(tag: &str) -> (r: (Vec<char>, Vec<char>))
    ensures
        r.0@ == "<"@ + tag@ + ">"@,
        r.1@ == "</"@ + tag@ + ">"@,
{
    let mut open = owned("<");
    push_str(&mut open, tag);
    push_str(&mut open, ">");
    let mut close = owned("</");
    push_str(&mut close, tag);
    push_str(&mut close, ">");
    (chars_of(open.as_str()), chars_of(close.as_str()))
}

proof fn lemma_xml_text_cases(block: Seq<char>, tag: Seq<char>)
    ensures
        ({
            let open = "<"@ + tag + ">"@;
            let close = "</"@ + tag + ">"@;
            xml_text_spec(block, tag) == match first_occ(block, open) {
                None => None,
                Some(i) => match first_occ(block.skip(i + open.len()), close) {
                    None => None,
                    Some(e) => Some(
                        trim_seq(block.subrange(i + open.len(), i + open.len() + e)),
                    ),
                },
            }
        }),
{
    reveal(xml_text_spec);
}

/// See [`xml_text_spec`].
#[verifier::rlimit(40)]
pub fn xml_text(block: &str, tag: &str) -> (r: Option<String>)
    ensures
        match r {
            Some(t) => xml_text_spec(block@, tag@) == Some(t@),
            None => xml_text_spec(block@, tag@) is None,
        },
{
    proof {
        lemma_xml_text_cases(block@, tag@);
    }
    let bc = chars_of(block);
    let (oc, cc) = tag_pair(tag);
    let found = find_first(&bc, &oc);
    if found.is_none() {
        return None;
    }
    let i = found.unwrap();
    let ol = oc.len();
    let bl = bc.len();
    assert(i + ol <= bl);
    let st = i + ol;
    let rest = slice_chars(&bc, st, bc.len());
    assert(rest@ == bc@.skip(st as int));
    let found2 = find_first(&rest, &cc);
    if found2.is_none() {
        return None;
    }
    let e = found2.unwrap();
    let inner = slice_chars(&bc, st, st + e);
    let (lo, hi) = trim_bounds(&inner);
    Some(string_from_range(&inner, lo, hi))
}

/// The text after the last `c` (all of `s` when there is none), as
/// `s.rsplit(c).next()` gives it.
pub open spec fn after_last(s: Seq<char>, c: char) -> Seq<char>
    decreases s.len(),
{
    if s.len() == 0 {
        s
    } else if s.last() == c {
        Seq::<char>::empty()
    } else {
        after_last(s.drop_last(), c).push(s.last())
    }
}

fn after_last_exec(v: &Vec<char>, c: char) -> (r: String)
    ensures
        r@ == after_last(v@, c),
{
    let mut k: usize = v.len();
    while k > 0 && v[k - 1] != c
        invariant
            k <= v@.len(),
            forall|q: int| k <= q < v@.len() ==> v@[q] != c,
        decreases k,
    {
        k = k - 1;
    }
    proof {
        lemma_after_last(v@, c, k as int);
    }
    string_from_range(v, k, v.len())
}

proof fn lemma_after_last(s: Seq<char>, c: char, k: int)
    requires
        0 <= k <= s.len(),
        forall|q: int| k <= q < s.len() ==> s[q] != c,
        k > 0 ==> s[k - 1] == c,
    ensures
        after_last(s, c) == s.subrange(k, s.len() as int),
    decreases s.len(),
{
    if s.len() > 0 {
        if k == s.len() {
            assert(s.last() == c);
        } else {
            lemma_after_last(s.drop_last(), c, k);
            assert(s.drop_last().subrange(k, s.len() - 1).push(s.last()) =~= s.subrange(
                k,
                s.len() as int,
            ));
        }
    }
}

/// The next `<HostedZone>` block at or after `pos`, as its start and the
/// position of its closing tag.
pub open spec fn next_zone_block(xml: Seq<char>, pos: int) -> Option<(int, int)> {
    match first_occ(xml.skip(pos), "<HostedZone>"@) {
        None => None,
        Some(s) => match first_occ(xml.skip(pos + s), "</HostedZone>"@) {
            None => None,
            Some(e) => Some((pos + s, pos + s + e)),
        },
    }
}

/// The hosted zones listed in a Route53 `ListHostedZones` answer, from
/// position `pos` on: for each `<HostedZone>` block holding both an `Id`
/// and a `Name`, the id's last path segment and the name.
pub open spec fn zones_from(xml: Seq<char>, pos: int) -> Seq<(Seq<char>, Seq<char>)>
    decreases xml.len() - pos,
{
    if pos < 0 || pos > xml.len() {
        Seq::empty()
    } else {
        match next_zone_block(xml, pos) {
            None => Seq::empty(),
            Some((a, b)) => {
                let block = xml.subrange(a, b);
                let next = b + 13;
                let rest = if pos < next <= xml.len() {
                    zones_from(xml, next)
                } else {
                    Seq::empty()
                };
                match (xml_text_spec(block, "Id"@), xml_text_spec(block, "Name"@)) {
                    (Some(id), Some(name)) => seq![(after_last(id, '/'), name)] + rest,
                    _ => rest,
                }
            },
        }
    }
}

/// The pairs of a list of string pairs.
pub open spec fn pair_views(v: Seq<(String, String)>) -> Seq<(Seq<char>, Seq<char>)> {
    v.map_values(|p: (String, String)| (p.0@, p.1@))
}


/// An error of a DNS service call.
#[derive(Debug)]
pub enum DnsError {
    /// A message from the service, or one that describes what went wrong.
    Message(String),
}

/// An error that carries `m`.
pub open spec fn message_is(e: DnsError, m: Seq<char>) -> bool {
    match e {
        DnsError::Message(x) => x@ == m,
    }
}

/// The key pair of a DNS service account.
#[derive(Debug)]
pub struct DnsCredentials {
    pub access_key: String,
    pub access_secret: String,
}

impl Clone for DnsCredentials {
    fn clone(&self) -> (r: Self)
        ensures
            r == *self,
    {
        DnsCredentials { access_key: self.access_key.clone(), access_secret: self.access_secret.clone() }
    }
}

/// What is needed to remove a record added at Aliyun or Wanwang.
#[derive(Debug)]
pub struct AliyunHandle {
    pub creds: DnsCredentials,
    pub record_id: String,
}

/// What is needed to remove a record added at GoDaddy.
#[derive(Debug)]
pub struct GodaddyHandle {
    pub creds: DnsCredentials,
    pub zone: String,
    pub rr: String,
}

/// What is needed to remove a record added at Tencent Cloud.
#[derive(Debug)]
pub struct TencentHandle {
    pub creds: DnsCredentials,
    pub domain: String,
    pub record_id: u64,
}

/// What is needed to remove a record added at Xinnet.
#[derive(Debug)]
pub struct XinnetHandle {
    pub creds: DnsCredentials,
    pub domain: String,
    pub record_id: String,
}

/// What is needed to remove a record added at Cloudflare.
#[derive(Debug)]
pub struct CloudflareHandle {
    pub creds: DnsCredentials,
    pub zone_id: String,
    pub record_id: String,
}

/// What is needed to remove a record added at Route53.
#[derive(Debug)]
pub struct AmazonHandle {
    pub creds: DnsCredentials,
    pub hosted_zone_id: String,
    pub name: String,
    pub value: String,
}

/// A TXT record that was added, by service.
#[derive(Debug)]
pub enum TxtHandle {
    Aliyun(AliyunHandle),
    Godaddy(GodaddyHandle),
    Tencent(TencentHandle),
    Xinnet(XinnetHandle),
    Cloudflare(CloudflareHandle),
    Amazon(AmazonHandle),
}

/// The DNS service that a provider kind is served by: Wanwang shares
/// Aliyun's interface.
#[derive(Debug, Clone, Copy, PartialEq, Eq, Structural)]
pub enum DnsService {
    Aliyun,
    Godaddy,
    Tencent,
    Xinnet,
    Cloudflare,
    Amazon,
}

/// See [`DnsService`].
pub open spec fn service_of(kind: DnsProviderKind) -> DnsService {
    match kind {
        DnsProviderKind::Aliyun | DnsProviderKind::Wanwang => DnsService::Aliyun,
        DnsProviderKind::Godaddy => DnsService::Godaddy,
        DnsProviderKind::Tencent => DnsService::Tencent,
        DnsProviderKind::Xinnet => DnsService::Xinnet,
        DnsProviderKind::Cloudflare => DnsService::Cloudflare,
        DnsProviderKind::Amazon => DnsService::Amazon,
    }
}

/// Where a TXT record for `domain_name` goes: the service to call, the
/// zone and the record name relative to it.
pub fn txt_target(kind: DnsProviderKind, domain_name: &str) -> (r: (DnsService, String, String))
    ensures
        r.0 == service_of(kind),
        r.1@ == zone_and_rr_spec(domain_name@).0,
        r.2@ == zone_and_rr_spec(domain_name@).1,
{
    let (zone, rr) = split_zone_and_rr(domain_name);
    let service = match kind {
        DnsProviderKind::Aliyun | DnsProviderKind::Wanwang => DnsService::Aliyun,
        DnsProviderKind::Godaddy => DnsService::Godaddy,
        DnsProviderKind::Tencent => DnsService::Tencent,
        DnsProviderKind::Xinnet => DnsService::Xinnet,
        DnsProviderKind::Cloudflare => DnsService::Cloudflare,
        DnsProviderKind::Amazon => DnsService::Amazon,
    };
    (service, zone, rr)
}

/// The absolute name of a record: the zone itself for `@`, else the
/// record, a dot and the zone.
pub open spec fn full_name_spec(zone: Seq<char>, rr: Seq<char>) -> Seq<char> {
    if rr == "@"@ {
        zone
    } else {
        rr + "."@ + zone
    }
}

/// See [`full_name_spec`].
pub fn full_name(zone: &str, rr: &str) -> (r: String)
    ensures
        r@ == full_name_spec(zone@, rr@),
{
    if str_eq(rr, "@") {
        owned(zone)
    } else {
        let mut out = owned(rr);
        push_str(&mut out, ".");
        push_str(&mut out, zone);
        out
    }
}

/// The record name Route53 wants: the full name with a final dot.
pub fn record_name(zone: &str, rr: &str) -> (r: String)
    ensures
        r@ == full_name_spec(zone@, rr@) + "."@,
{
    let mut out = full_name(zone, rr);
    push_str(&mut out, ".");
    out
}

/// See [`zones_from`]: the `(id, name)` pairs of a `ListHostedZones` answer.
pub fn parse_zones(xml: &str) -> (r: Vec<(String, String)>)
    ensures
        pair_views(r@) == zones_from(xml@, 0),
{
    let xc = chars_of(xml);
    let open = chars_of("<HostedZone>");
    let close = chars_of("</HostedZone>");
    proof {
        reveal_strlit("</HostedZone>");
    }
    assert(close@.len() == 13);
    let len = xc.len();
    let mut out: Vec<(String, String)> = Vec::new();
    let mut pos: usize = 0;
    while pos <= len
        invariant
            pos <= len == xc@.len(),
            xc@ == xml@,
            open@ == "<HostedZone>"@,
            close@ == "</HostedZone>"@,
            close@.len() == 13,
            pair_views(out@) + zones_from(xml@, pos as int) == zones_from(xml@, 0),
        ensures
            pair_views(out@) == zones_from(xml@, 0),
        decreases len + 1 - pos,
    {
        let rest = slice_chars(&xc, pos, len);
        assert(rest@ == xml@.skip(pos as int));
        let f1 = find_first(&rest, &open);
        if f1.is_none() {
            assert(zones_from(xml@, pos as int) == Seq::<(Seq<char>, Seq<char>)>::empty());
            assert(pair_views(out@) + Seq::<(Seq<char>, Seq<char>)>::empty() == pair_views(out@));
            break;
        }
        let s = f1.unwrap();
        let a = pos + s;
        let rest2 = slice_chars(&xc, a, len);
        assert(rest2@ == xml@.skip(a as int));
        let f2 = find_first(&rest2, &close);
        if f2.is_none() {
            assert(zones_from(xml@, pos as int) == Seq::<(Seq<char>, Seq<char>)>::empty());
            assert(pair_views(out@) + Seq::<(Seq<char>, Seq<char>)>::empty() == pair_views(out@));
            break;
        }
        let e = f2.unwrap();
        let b = a + e;
        assert(b + 13 <= len);
        let block = string_from_range(&xc, a, b);
        let ghost rest_spec = zones_from(xml@, b + 13);
        assert(next_zone_block(xml@, pos as int) == Some((a as int, b as int)));
        let id = xml_text(block.as_str(), "Id");
        let name = xml_text(block.as_str(), "Name");
        let ghost before = out@;
        match (id, name) {
            (Some(id), Some(name)) => {
                let ic = chars_of(id.as_str());
                let short = after_last_exec(&ic, '/');
                out.push((short, name));
                assert(pair_views(out@) =~= pair_views(before) + seq![(after_last(id@, '/'), name@)]);
                assert(zones_from(xml@, pos as int) == seq![(after_last(id@, '/'), name@)] + rest_spec);
                assert(pair_views(out@) + rest_spec =~= pair_views(before) + zones_from(xml@, pos as int));
            },
            (i2, n2) => {
                assert(zones_from(xml@, pos as int) == rest_spec);
            },
        }
        pos = b + 13;
    }
    out
}

/// The name Route53 should have for a zone: lower case, one final dot.
pub open spec fn wanted_zone(zone: Seq<char>) -> Seq<char> {
    lower_seq(trim_end_char(zone, '.')) + "."@
}

/// A hosted zone named `name` (lower case) serves `wanted`: it is that
/// name or a parent of it.
pub open spec fn zone_serves(wanted: Seq<char>, name: Seq<char>) -> bool {
    wanted == name || ("."@ + name).is_suffix_of(wanted)
}

/// The hosted zone chosen among `zones` for `wanted`: a serving zone with
/// the longest name (in bytes, lower-cased); the first such one in order.
/// The result carries the name's length and the zone's id.
pub open spec fn best_zone(zones: Seq<(Seq<char>, Seq<char>)>, wanted: Seq<char>) -> Option<(int, Seq<char>)>
    decreases zones.len(),
{
    if zones.len() == 0 {
        None
    } else {
        let prev = best_zone(zones.drop_last(), wanted);
        let name = lower_seq(zones.last().1);
        if zone_serves(wanted, name) && (prev is None || byte_len(name) > prev.unwrap().0) {
            Some((byte_len(name) as int, zones.last().0))
        } else {
            prev
        }
    }
}

/// The chosen zone serves the wanted name, and no serving zone has a
/// longer name.
pub proof fn best_zone_is_longest(zones: Seq<(Seq<char>, Seq<char>)>, wanted: Seq<char>)
    ensures
        match best_zone(zones, wanted) {
            Some((l, id)) => exists|i: int|
                0 <= i < zones.len() && zones[i].0 == id && zone_serves(wanted, lower_seq(zones[i].1))
                    && byte_len(lower_seq(zones[i].1)) == l,
            None => forall|i: int| 0 <= i < zones.len() ==> !zone_serves(wanted, lower_seq(#[trigger] zones[i].1)),
        },
        forall|i: int|
            0 <= i < zones.len() && zone_serves(wanted, lower_seq(#[trigger] zones[i].1))
                ==> best_zone(zones, wanted) is Some && byte_len(lower_seq(zones[i].1))
                <= best_zone(zones, wanted).unwrap().0,
    decreases zones.len(),
{
    if zones.len() > 0 {
        let d = zones.drop_last();
        let n = zones.len() - 1;
        best_zone_is_longest(d, wanted);
        assert forall|i: int| 0 <= i < d.len() implies #[trigger] d[i] == zones[i] by {}
        assert(zones[n] == zones.last());
        let prev = best_zone(d, wanted);
        let name = lower_seq(zones.last().1);
        let cond = zone_serves(wanted, name) && (prev is None || byte_len(name) > prev.unwrap().0);
        if cond {
            assert(best_zone(zones, wanted) == Some((byte_len(name) as int, zones.last().0)));
            assert(0 <= n < zones.len() && zones[n].0 == zones.last().0 && zone_serves(
                wanted,
                lower_seq(zones[n].1),
            ) && byte_len(lower_seq(zones[n].1)) == byte_len(name));
            assert forall|i: int|
                0 <= i < zones.len() && zone_serves(wanted, lower_seq(#[trigger] zones[i].1)) implies best_zone(
                zones,
                wanted,
            ) is Some && byte_len(lower_seq(zones[i].1)) <= best_zone(zones, wanted).unwrap().0 by {
                if i < n {
                    assert(zones[i] == d[i]);
                    assert(zone_serves(wanted, lower_seq(d[i].1)));
                }
            }
        } else {
            assert(best_zone(zones, wanted) == prev);
            match prev {
                Some((l2, id2)) => {
                    let i = choose|i: int|
                        0 <= i < d.len() && d[i].0 == id2 && zone_serves(wanted, lower_seq(d[i].1))
                            && byte_len(lower_seq(d[i].1)) == l2;
                    assert(zones[i] == d[i]);
                    assert(0 <= i < zones.len() && zones[i].0 == id2 && zone_serves(
                        wanted,
                        lower_seq(zones[i].1),
                    ) && byte_len(lower_seq(zones[i].1)) == l2);
                },
                None => {
                    assert forall|i: int| 0 <= i < zones.len() implies !zone_serves(
                        wanted,
                        lower_seq(#[trigger] zones[i].1),
                    ) by {
                        if i < n {
                            assert(zones[i] == d[i]);
                            assert(!zone_serves(wanted, lower_seq(d[i].1)));
                        }
                    }
                },
            }
            assert forall|i: int|
                0 <= i < zones.len() && zone_serves(wanted, lower_seq(#[trigger] zones[i].1)) implies best_zone(
                zones,
                wanted,
            ) is Some && byte_len(lower_seq(zones[i].1)) <= best_zone(zones, wanted).unwrap().0 by {
                if i < n {
                    assert(zones[i] == d[i]);
                    assert(zone_serves(wanted, lower_seq(d[i].1)));
                }
            }
        }
    }
}

fn zone_len_of(name: &String) -> (r: usize)
    ensures
        r == byte_len(name@),
{
    str_byte_len(name)
}

/// The id of the hosted zone that serves `zone`, chosen from a
/// `ListHostedZones` answer; an error naming the zone when none does.
pub fn select_hosted_zone(xml: &str, zone: &str) -> (r: Result<String, DnsError>)
    ensures
        match best_zone(zones_from(xml@, 0), wanted_zone(zone@)) {
            Some((_, id)) => r matches Ok(x) && x@ == id,
            None => r matches Err(e) && message_is(e, "Route53 未找到托管区 "@ + zone@),
        },
{
    let zc = chars_of(zone);
    let n = trim_end_len(&zc, '.');
    let t = slice_chars(&zc, 0, n);
    assert(t@ == zc@.take(n as int));
    let mut wanted_c = lower_chars(&t);
    wanted_c.push('.');
    let ghost w = wanted_zone(zone@);
    assert(wanted_c@ =~= w) by {
        reveal_strlit(".");
    }
    let zones = parse_zones(xml);
    let ghost zs = pair_views(zones@);
    let mut best: Option<(usize, String)> = None;
    let mut i: usize = 0;
    while i < zones.len()
        invariant
            i <= zones@.len(),
            zs == pair_views(zones@),
            wanted_c@ == w,
            match best_zone(zs.take(i as int), w) {
                Some((l, id)) => best matches Some(b) && b.0 == l && b.1@ == id,
                None => best is None,
            },
        decreases zones.len() - i,
    {
        let name = to_lower(zones[i].1.as_str());
        let nc = chars_of(name.as_str());
        let mut dotted = vec!['.'];
        let mut k: usize = 0;
        while k < nc.len()
            invariant
                k <= nc@.len(),
                dotted@ == seq!['.'] + nc@.take(k as int),
            decreases nc.len() - k,
        {
            dotted.push(nc[k]);
            assert(nc@.take(k + 1) == nc@.take(k as int).push(nc@[k as int]));
            k = k + 1;
        }
        assert(nc@.take(k as int) == nc@);
        assert(dotted@ =~= "."@ + nc@) by {
            reveal_strlit(".");
        }
        let serves = chars_eq(&wanted_c, &nc) || ends_with(&wanted_c, &dotted);
        let nl = zone_len_of(&name);
        let ghost prefix = zs.take(i as int);
        assert(zs.take(i + 1).drop_last() == prefix);
        assert(zs.take(i + 1).last() == zs[i as int]);
        assert(zs[i as int].1 == zones@[i as int].1@);
        let better = match &best {
            None => true,
            Some(b) => nl > b.0,
        };
        if serves && better {
            best = Some((nl, zones[i].0.clone()));
        }
        i = i + 1;
    }
    assert(zs.take(i as int) == zs);
    match best {
        Some(b) => Ok(b.1),
        None => {
            let mut m = owned("Route53 未找到托管区 ");
            push_str(&mut m, zone);
            Err(DnsError::Message(m))
        },
    }
}

/// An error carrying `m`.
fn fail(m: String) -> (r: DnsError)
    ensures
        message_is(r, m@),
{
    DnsError::Message(m)
}

/// The message of a Cloudflare answer that did not succeed: the first
/// error's message, else a fixed text.
pub open spec fn cf_error_message(errors: Option<Seq<Option<String>>>) -> Seq<char> {
    match errors {
        Some(es) => if es.len() > 0 && es[0] is Some {
            es[0].unwrap()@
        } else {
            "Cloudflare 接口调用失败"@
        },
        None => "Cloudflare 接口调用失败"@,
    }
}

/// A Cloudflare answer is accepted when it says it succeeded; otherwise
/// its first error message becomes the error.
pub fn ensure_ok(success: bool, errors: &Option<Vec<Option<String>>>) -> (r: Result<(), DnsError>)
    ensures
        success ==> r is Ok,
        !success ==> (r matches Err(e) && message_is(
            e,
            cf_error_message(
                match errors {
                    Some(v) => Some(v@),
                    None => None,
                },
            ),
        )),
{
    if success {
        return Ok(());
    }
    let msg = match errors {
        Some(v) => if v.len() > 0 && v[0].is_some() {
            clone_opt(&v[0]).unwrap()
        } else {
            owned("Cloudflare 接口调用失败")
        },
        None => owned("Cloudflare 接口调用失败"),
    };
    Err(fail(msg))
}

/// How requests to Cloudflare authenticate.
#[derive(Debug)]
pub enum CloudflareAuth {
    /// An API token, sent as a bearer token.
    Bearer(String),
    /// An account e-mail and global key, sent in their own headers.
    Key { email: String, key: String },
}

/// A token when the secret is blank, else the e-mail and key pair.
pub fn cloudflare_auth(creds: &DnsCredentials) -> (r: CloudflareAuth)
    ensures
        trim_seq(creds.access_secret@).len() == 0 ==> (r matches CloudflareAuth::Bearer(t) && t@
            == creds.access_key@),
        trim_seq(creds.access_secret@).len() != 0 ==> (r matches CloudflareAuth::Key { email, key }
            && email@ == creds.access_key@ && key@ == creds.access_secret@),
{
    let sc = chars_of(creds.access_secret.as_str());
    let (lo, hi) = trim_bounds(&sc);
    if lo == hi {
        CloudflareAuth::Bearer(creds.access_key.clone())
    } else {
        CloudflareAuth::Key { email: creds.access_key.clone(), key: creds.access_secret.clone() }
    }
}

/// The id of the first zone Cloudflare listed for `zone`, or an error
/// naming the zone.
pub fn cloudflare_zone_id(zone_ids: Option<Vec<String>>, zone: &str) -> (r: Result<String, DnsError>)
    ensures
        match zone_ids {
            Some(v) if v.len() > 0 => r matches Ok(id) && id == v[0],
            _ => r matches Err(e) && message_is(e, "Cloudflare 未找到域名 "@ + zone@),
        },
{
    match zone_ids {
        Some(v) => if v.len() > 0 {
            return Ok(v[0].clone());
        },
        None => {},
    }
    let mut m = owned("Cloudflare 未找到域名 ");
    push_str(&mut m, zone);
    Err(fail(m))
}

/// The id of a record Cloudflare created, or an error when it gave none.
pub fn cloudflare_record_id(id: Option<String>) -> (r: Result<String, DnsError>)
    ensures
        match id {
            Some(x) => r == Ok::<String, DnsError>(x),
            None => r matches Err(e) && message_is(e, "Cloudflare 未返回记录 ID"@),
        },
{
    match id {
        Some(x) => Ok(x),
        None => Err(fail(owned("Cloudflare 未返回记录 ID"))),
    }
}

/// The id of a record Aliyun added; without one, the answer's message,
/// else its code, else a fixed text is the error.
pub fn aliyun_record_id(record_id: Option<String>, message: Option<String>, code: Option<String>) -> (r: Result<String, DnsError>)
    ensures
        match record_id {
            Some(x) => r == Ok::<String, DnsError>(x),
            None => r matches Err(e) && message_is(
                e,
                match (message, code) {
                    (Some(m), _) => m@,
                    (None, Some(c)) => c@,
                    (None, None) => "阿里云/万网添加解析失败"@,
                },
            ),
        },
{
    match record_id {
        Some(x) => Ok(x),
        None => {
            let m = match (message, code) {
                (Some(m), _) => m,
                (None, Some(c)) => c,
                (None, None) => owned("阿里云/万网添加解析失败"),
            };
            Err(fail(m))
        },
    }
}

/// The error text of a Tencent Cloud error answer.
pub open spec fn tencent_message(code: Seq<char>, message: Seq<char>) -> Seq<char> {
    "腾讯云 "@ + code + " "@ + message
}

/// A Tencent Cloud answer with an `Error` (code, message) fails with both.
pub fn tencent_check(error: Option<(String, String)>) -> (r: Result<(), DnsError>)
    ensures
        match error {
            Some((c, m)) => r matches Err(e) && message_is(e, tencent_message(c@, m@)),
            None => r is Ok,
        },
{
    match error {
        Some((c, m)) => {
            let mut t = owned("腾讯云 ");
            push_str(&mut t, c.as_str());
            push_str(&mut t, " ");
            push_str(&mut t, m.as_str());
            Err(fail(t))
        },
        None => Ok(()),
    }
}

/// The id of a record Tencent Cloud created: an error answer fails first,
/// then a missing id.
pub fn tencent_record_id(error: Option<(String, String)>, record_id: Option<u64>) -> (r: Result<u64, DnsError>)
    ensures
        match (error, record_id) {
            (Some((c, m)), _) => r matches Err(e) && message_is(e, tencent_message(c@, m@)),
            (None, Some(id)) => r == Ok::<u64, DnsError>(id),
            (None, None) => r matches Err(e) && message_is(e, "腾讯云未返回记录 ID"@),
        },
{
    match tencent_check(error) {
        Err(e) => Err(e),
        Ok(()) => match record_id {
            Some(id) => Ok(id),
            None => Err(fail(owned("腾讯云未返回记录 ID"))),
        },
    }
}

/// A record id field of a Xinnet answer, by JSON kind.
#[derive(Debug)]
pub enum IdField {
    /// A JSON string.
    Text(String),
    /// A JSON number, in its decimal text.
    Number(String),
    /// Any other JSON value.
    Other,
}

/// The record id in a Xinnet answer's `data`: `recordId`, else `id`; a
/// non-empty string or a number counts.
pub open spec fn extract_id_spec(record_id: Option<IdField>, id: Option<IdField>) -> Option<Seq<char>> {
    let f = match record_id {
        Some(x) => Some(x),
        None => id,
    };
    match f {
        Some(IdField::Text(s)) => if s@.len() > 0 {
            Some(s@)
        } else {
            None
        },
        Some(IdField::Number(n)) => Some(n@),
        _ => None,
    }
}

/// See [`extract_id_spec`].
pub fn extract_id(record_id: Option<IdField>, id: Option<IdField>) -> (r: Option<String>)
    ensures
        match r {
            Some(x) => extract_id_spec(record_id, id) == Some(x@),
            None => extract_id_spec(record_id, id) is None,
        },
{
    let f = match record_id {
        Some(x) => Some(x),
        None => id,
    };
    match f {
        Some(IdField::Text(s)) => if str_byte_len(&s) > 0 {
            Some(s)
        } else {
            None
        },
        Some(IdField::Number(n)) => Some(n),
        _ => None,
    }
}

/// A Xinnet answer is accepted when it has no code, or code `0` or `200`.
pub open spec fn xinnet_ok(code: Option<Seq<char>>) -> bool {
    match code {
        None => true,
        Some(c) => c == "0"@ || c == "200"@,
    }
}

/// Accepts a Xinnet answer by its code; otherwise fails with its message,
/// or a fixed text.
pub fn xinnet_status(code: &Option<String>, message: &Option<String>) -> (r: Result<(), DnsError>)
    ensures
        xinnet_ok(
            match code {
                Some(c) => Some(c@),
                None => None,
            },
        ) ==> r is Ok,
        !xinnet_ok(
            match code {
                Some(c) => Some(c@),
                None => None,
            },
        ) ==> (r matches Err(e) && message_is(
            e,
            match message {
                Some(m) => m@,
                None => "新网接口调用失败"@,
            },
        )),
{
    let ok = match code {
        None => true,
        Some(c) => str_eq(c.as_str(), "0") || str_eq(c.as_str(), "200"),
    };
    if ok {
        return Ok(());
    }
    let m = match message {
        Some(m) => m.clone(),
        None => owned("新网接口调用失败"),
    };
    Err(fail(m))
}

/// The domain Xinnet knows the zone as: the name it reported, else the zone.
pub fn xinnet_domain(reported: Option<String>, zone: &str) -> (r: String)
    ensures
        match reported {
            Some(n) => r == n,
            None => r@ == zone@,
        },
{
    match reported {
        Some(n) => n,
        None => owned(zone),
    }
}

/// The record id Xinnet gave for a new record, or the creation answer's
/// message (or a fixed text) as the error.
pub fn xinnet_record_id(record_id: Option<String>, created_message: Option<String>) -> (r: Result<String, DnsError>)
    ensures
        match record_id {
            Some(x) => r == Ok::<String, DnsError>(x),
            None => r matches Err(e) && message_is(
                e,
                match created_message {
                    Some(m) => m@,
                    None => "新网添加解析失败"@,
                },
            ),
        },
{
    match record_id {
        Some(x) => Ok(x),
        None => Err(
            fail(
                match created_message {
                    Some(m) => m,
                    None => owned("新网添加解析失败"),
                },
            ),
        ),
    }
}

/// A Route53 change answer that reports an error: it holds `<Error>`, or
/// both `<Code>` and `Error`.
pub open spec fn route53_reports_error(xml: Seq<char>) -> bool {
    has_sub(xml, "<Error>"@) || (has_sub(xml, "<Code>"@) && has_sub(xml, "Error"@))
}

/// Accepts a Route53 change answer unless it reports an error; the error
/// then carries the answer's `Message`, or a fixed text.
pub fn route53_change_result(xml: &str) -> (r: Result<(), DnsError>)
    ensures
        !route53_reports_error(xml@) ==> r is Ok,
        route53_reports_error(xml@) ==> (r matches Err(e) && message_is(
            e,
            match xml_text_spec(xml@, "Message"@) {
                Some(m) => m,
                None => "Route53 接口调用失败"@,
            },
        )),
{
    let xc = chars_of(xml);
    let e1 = contains_sub(&xc, &chars_of("<Error>"));
    let c1 = contains_sub(&xc, &chars_of("<Code>"));
    let e2 = contains_sub(&xc, &chars_of("Error"));
    if e1 || (c1 && e2) {
        let m = match xml_text(xml, "Message") {
            Some(m) => m,
            None => owned("Route53 接口调用失败"),
        };
        return Err(fail(m));
    }
    Ok(())
}

/// Accepts a Route53 answer with a success status; otherwise its
/// `Message`, or the whole answer, is the error.
pub fn route53_response(success: bool, text: String) -> (r: Result<String, DnsError>)
    ensures
        success ==> r == Ok::<String, DnsError>(text),
        !success ==> (r matches Err(e) && message_is(
            e,
            match xml_text_spec(text@, "Message"@) {
                Some(m) => m,
                None => text@,
            },
        )),
{
    if success {
        return Ok(text);
    }
    let m = match xml_text(text.as_str(), "Message") {
        Some(m) => m,
        None => text,
    };
    Err(fail(m))
}

/// The body of a Route53 `ChangeResourceRecordSets` request that applies
/// `action` to the TXT record `name` with the quoted, escaped `value`.
pub open spec fn route53_change_body_spec(action: Seq<char>, name: Seq<char>, value: Seq<char>) -> Seq<char> {
    "<?xml version=\"1.0\" encoding=\"UTF-8\"?>\n<ChangeResourceRecordSetsRequest xmlns=\"https://route53.amazonaws.com/doc/2013-04-01/\">\n  <ChangeBatch>\n    <Changes>\n      <Change>\n        <Action>"@
        + action + "</Action>\n        <ResourceRecordSet>\n          <Name>"@ + name
        + "</Name>\n          <Type>TXT</Type>\n          <TTL>60</TTL>\n          <ResourceRecords>\n            <ResourceRecord>\n              <Value>\""@
        + xml_escape_spec(value)
        + "\"</Value>\n            </ResourceRecord>\n          </ResourceRecords>\n        </ResourceRecordSet>\n      </Change>\n    </Changes>\n  </ChangeBatch>\n</ChangeResourceRecordSetsRequest>"@
}

/// See [`route53_change_body_spec`].
pub fn route53_change_body(action: &str, name: &str, value: &str) -> (r: String)
    ensures
        r@ == route53_change_body_spec(action@, name@, value@),
{
    let mut out = owned(
        "<?xml version=\"1.0\" encoding=\"UTF-8\"?>\n<ChangeResourceRecordSetsRequest xmlns=\"https://route53.amazonaws.com/doc/2013-04-01/\">\n  <ChangeBatch>\n    <Changes>\n      <Change>\n        <Action>",
    );
    push_str(&mut out, action);
    push_str(&mut out, "</Action>\n        <ResourceRecordSet>\n          <Name>");
    push_str(&mut out, name);
    push_str(
        &mut out,
        "</Name>\n          <Type>TXT</Type>\n          <TTL>60</TTL>\n          <ResourceRecords>\n            <ResourceRecord>\n              <Value>\"",
    );
    let escaped = xml_escape(value);
    push_str(&mut out, escaped.as_str());
    push_str(
        &mut out,
        "\"</Value>\n            </ResourceRecord>\n          </ResourceRecords>\n        </ResourceRecordSet>\n      </Change>\n    </Changes>\n  </ChangeBatch>\n</ChangeResourceRecordSetsRequest>",
    );
    out
}

/// The GoDaddy address of the TXT records named `rr` in `zone`.
pub fn godaddy_url(zone: &str, rr: &str) -> (r: String)
    ensures
        r@ == "https://api.godaddy.com/v1/domains/"@ + zone@ + "/records/TXT/"@ + rr@,
{
    let mut out = owned("https://api.godaddy.com/v1/domains/");
    push_str(&mut out, zone);
    push_str(&mut out, "/records/TXT/");
    push_str(&mut out, rr);
    out
}

/// The GoDaddy `Authorization` header value.
pub fn godaddy_auth(creds: &DnsCredentials) -> (r: String)
    ensures
        r@ == "sso-key "@ + creds.access_key@ + ":"@ + creds.access_secret@,
{
    let mut out = owned("sso-key ");
    push_str(&mut out, creds.access_key.as_str());
    push_str(&mut out, ":");
    push_str(&mut out, creds.access_secret.as_str());
    out
}
} // verus!
