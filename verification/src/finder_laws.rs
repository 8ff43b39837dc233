//! What individual finders promise of every input: the prefilters let every
//! match through, bytes are classed by what they are, quotes pair up in
//! order, octets are judged by their value, and keywords stand alone.
use vstd::prelude::*;
use crate::finders::{CapsSplitter, captures_of, split_caps_spec, split_all_spec, matches_of};
use crate::finders::date_dash::DateDashFinder;
use crate::finders::date_time::DateTimeFinder;
use crate::finders::email::EmailFinder;
use crate::finders::ip_v4::IpV4Finder;
use crate::finders::ip_v6::IpV6Finder;
use crate::finders::jvm_stack::JvmStackFinder;
use crate::finders::key_value::KeyValueFinder;
use crate::finders::number::{NumberFinder, number_pushes};
use crate::finders::pointer::PointerFinder;
use crate::finders::uuid::{UuidFinder, classified_matches};
use crate::finders::unix_path::UnixPathFinder;
use crate::finders::unix_process::UnixProcessFinder;
use crate::finders::url::UrlFinder;
use crate::finders::classes::{HexClasses, classify_range};
use crate::finders::duration::DurationFinder;
use crate::finders::ip_v4::IpV4Split;
use crate::finders::quote::QuoteFinder;
use crate::finders::keyword::{KeywordFinder, comes_before, in_scan_order, kept, ordered};
use crate::matching::positions_of;
use crate::finders::numeric::dec_value;
use crate::span::plain;
use crate::text::bytes_of;

verus! {

/// `b[s..e]` is the text of a time unit: `ns`, `us`, `ms`, `s`, `m` or `h`.
pub open spec fn time_unit_at(b: Seq<u8>, s: int, e: int) -> bool {
    let t = b.subrange(s, e);
    ||| t == seq![0x6eu8, 0x73u8]
    ||| t == seq![0x75u8, 0x73u8]
    ||| t == seq![0x6du8, 0x73u8]
    ||| t == seq![0x73u8]
    ||| t == seq![0x6du8]
    ||| t == seq![0x68u8]
}

/// Every byte of `b[s..e]` is an ASCII digit, and there is at least one.
pub open spec fn digits_at(b: Seq<u8>, s: int, e: int) -> bool {
    0 <= s < e <= b.len() && forall|k: int| s <= k < e ==> 0x30 <= #[trigger] b[k] <= 0x39
}

/// The duration prefilter never hides a duration: when the input holds
/// digits, an optional `.` and more digits, then a time unit, the requests
/// are the parts of every capture of the duration pattern.
pub proof fn law_duration_prefilter_keeps_durations(f: DurationFinder, input: &str, s: int, d: int, u: int, e: int)
    requires
        digits_at(bytes_of(input), s, d),
        d == u || (bytes_of(input)[d] == 0x2e && digits_at(bytes_of(input), d + 1, u)),
        u < e <= bytes_of(input).len(),
        time_unit_at(bytes_of(input), u, e),
    ensures
        f.pushes(input) == split_caps_spec(f.split, bytes_of(input), captures_of(f.regex, input@)),
{
    let b = bytes_of(input);
    let t = b.subrange(u, e);
    assert(t[0] == b[u]);
    assert(0x30 <= b[u - 1] <= 0x39);
    assert(crate::finders::is_digit(b[u - 1]) && crate::finders::duration::is_unit_start(b[u - 1 + 1]));
}

/// Every byte of a classed range is styled by what it is: a digit by the
/// number style, one of the two extra bytes by the extra style, a hex
/// letter `a`-`f` or `A`-`F` by the letter style, each by a one-byte
/// request of its own; any other byte starts no request.
pub proof fn law_classify_each_byte(b: Seq<u8>, s: int, e: int, h: HexClasses, i: int)
    requires
        0 <= s <= i < e <= b.len(),
        b.len() <= usize::MAX,
    ensures
        0x30 <= b[i] <= 0x39 ==> classify_range(b, s, e, h).contains(plain(i, i + 1, h.number)),
        !(0x30 <= b[i] <= 0x39) && (b[i] == h.extra1 || b[i] == h.extra2) ==> classify_range(b, s, e, h).contains(
            plain(i, i + 1, h.extra),
        ),
        !(0x30 <= b[i] <= 0x39) && b[i] != h.extra1 && b[i] != h.extra2 && ((0x41 <= b[i] <= 0x46) || (0x61 <= b[i] <= 0x66))
            ==> classify_range(b, s, e, h).contains(plain(i, i + 1, h.letter)),
        !(0x30 <= b[i] <= 0x39) && b[i] != h.extra1 && b[i] != h.extra2 && !((0x41 <= b[i] <= 0x46) || (0x61 <= b[i] <= 0x66))
            ==> forall|k: int| 0 <= k < classify_range(b, s, e, h).len() ==> (#[trigger] classify_range(b, s, e, h)[k]).start != i,
    decreases e - s,
{
    lemma_classify_starts(b, s, e, h);
    let r = classify_range(b, s, e, h);
    let prev = classify_range(b, s, e - 1, h);
    if i < e - 1 {
        law_classify_each_byte(b, s, e - 1, h, i);
        assert forall|k: int| 0 <= k < prev.len() implies r[k] == prev[k] by {}
        if prev.len() < r.len() {
            assert(r[prev.len() as int].start == (e - 1) as usize);
        }
        assert forall|x| prev.contains(x) implies r.contains(x) by {
            let k = choose|k: int| 0 <= k < prev.len() && prev[k] == x;
            assert(r[k] == x);
        }
    } else {
        lemma_classify_starts(b, s, e - 1, h);
        assert forall|k: int| 0 <= k < prev.len() implies r[k] == prev[k] by {}
        if prev.len() < r.len() {
            assert(r[prev.len() as int] == r.last());
            assert(r.contains(r.last()));
        }
    }
}

/// Every request of a classed range starts inside it.
proof fn lemma_classify_starts(b: Seq<u8>, s: int, e: int, h: HexClasses)
    requires
        0 <= s <= e <= b.len(),
        b.len() <= usize::MAX,
    ensures
        forall|k: int| 0 <= k < classify_range(b, s, e, h).len() ==> s <= (#[trigger] classify_range(b, s, e, h)[k]).start < e,
    decreases e - s,
{
    if s < e {
        lemma_classify_starts(b, s, e - 1, h);
        let r = classify_range(b, s, e, h);
        let prev = classify_range(b, s, e - 1, h);
        assert forall|k: int| 0 <= k < r.len() implies s <= (#[trigger] r[k]).start < e by {
            if k < prev.len() {
                assert(r[k] == prev[k]);
            }
        }
    }
}

/// The digits of `b[g.0..g.1]` read as a decimal value of at most `max`.
pub open spec fn decimal_at_most(b: Seq<u8>, g: (usize, usize), max: nat) -> bool {
    &&& digits_at(b, g.0 as int, g.1 as int)
    &&& dec_value(b.subrange(g.0 as int, g.1 as int)) <= max
}

/// An IPv4 address is judged by the values of its octets: when each of the
/// four octets reads as a decimal value of at most 255, each of the first
/// three is followed by `.`, and the mask, if any, follows a `/` and reads
/// as at most 32, the address is highlighted, its first octet in the
/// number style and the dot after it in the separator style.
pub proof fn law_ipv4_octets_by_value(sp: IpV4Split, b: Seq<u8>, caps: Seq<Option<(usize, usize)>>, o1: (usize, usize), o2: (usize, usize), o3: (usize, usize), o4: (usize, usize))
    requires
        caps.len() > 5,
        caps[1] == Some(o1) && caps[2] == Some(o2) && caps[3] == Some(o3) && caps[4] == Some(o4),
        decimal_at_most(b, o1, 255) && decimal_at_most(b, o2, 255) && decimal_at_most(b, o3, 255) && decimal_at_most(b, o4, 255),
        o1.1 < b.len() && b[o1.1 as int] == 0x2e,
        o2.1 < b.len() && b[o2.1 as int] == 0x2e,
        o3.1 < b.len() && b[o3.1 as int] == 0x2e,
        caps[5] matches Some(m) ==> decimal_at_most(b, m, 32) && 1 <= m.0 && b[m.0 - 1] == 0x2f,
    ensures
        sp.split(b, caps).len() >= 7,
        sp.split(b, caps)[0] == plain(o1.0 as int, o1.1 as int, sp.number),
        sp.split(b, caps)[1] == plain(o1.1 as int, o1.1 + 1, sp.separator),
{
    lemma_decimal_reads(b, o1, 255);
    lemma_decimal_reads(b, o2, 255);
    lemma_decimal_reads(b, o3, 255);
    lemma_decimal_reads(b, o4, 255);
    if let Some(m) = caps[5] {
        lemma_decimal_reads(b, m, 32);
    }
}

/// An octet of more than 255 spoils the address: when the four octets are
/// there and one of them is digits reading as more than 255, nothing of the
/// address is highlighted.
pub proof fn law_ipv4_large_octet_rejected(sp: IpV4Split, b: Seq<u8>, caps: Seq<Option<(usize, usize)>>, g: int, o: (usize, usize))
    requires
        caps.len() > 5,
        caps[1] is Some && caps[2] is Some && caps[3] is Some && caps[4] is Some,
        1 <= g <= 4,
        caps[g] == Some(o),
        digits_at(b, o.0 as int, o.1 as int),
        dec_value(b.subrange(o.0 as int, o.1 as int)) > 255,
    ensures
        sp.split(b, caps) == Seq::<crate::span::Push>::empty(),
{
    let t = b.subrange(o.0 as int, o.1 as int);
    assert(t[0] == b[o.0 as int]);
    assert(!crate::finders::ip_v4::octet_ok(b, o));
}

/// Digits whose value is at most `max < 256` read as that byte value.
proof fn lemma_decimal_reads(b: Seq<u8>, g: (usize, usize), max: nat)
    requires
        decimal_at_most(b, g, max),
        max < 256,
    ensures
        crate::finders::numeric::parse_u8_spec(b.subrange(g.0 as int, g.1 as int)) == Some(
            dec_value(b.subrange(g.0 as int, g.1 as int)) as u8,
        ),
{
    let t = b.subrange(g.0 as int, g.1 as int);
    assert(t[0] == b[g.0 as int]);
    assert(crate::finders::numeric::all_digits(t)) by {
        assert forall|k: int| 0 <= k < t.len() implies crate::finders::is_digit(#[trigger] t[k]) by {
            assert(t[k] == b[g.0 + k]);
        }
    }
}

/// The positions of `q` in `h` are exactly the indices holding `q`, in
/// increasing order.
proof fn lemma_positions_exact(h: Seq<u8>, q: u8)
    requires
        h.len() <= usize::MAX,
    ensures
        forall|j: int| 0 <= j < positions_of(h, q).len() ==> (#[trigger] positions_of(h, q)[j]) < h.len()
            && h[positions_of(h, q)[j] as int] == q,
        forall|i: int, j: int| 0 <= i < j < positions_of(h, q).len() ==> #[trigger] positions_of(h, q)[i] < #[trigger] positions_of(h, q)[j],
        forall|i: int| 0 <= i < h.len() && h[i] == q ==> positions_of(h, q).contains(i as usize),
    decreases h.len(),
{
    if h.len() > 0 {
        let d = h.drop_last();
        lemma_positions_exact(d, q);
        let rest = positions_of(d, q);
        let p = positions_of(h, q);
        assert forall|j: int| 0 <= j < p.len() implies (#[trigger] p[j]) < h.len() && h[p[j] as int] == q by {
            if j < rest.len() {
                assert(p[j] == rest[j]);
                assert(d[rest[j] as int] == h[rest[j] as int]);
            }
        }
        assert forall|i: int, j: int| 0 <= i < j < p.len() implies #[trigger] p[i] < #[trigger] p[j] by {
            assert(p[i] == rest[i]);
            if j < rest.len() {
                assert(p[j] == rest[j]);
            }
        }
        assert forall|i: int| 0 <= i < h.len() && h[i] == q implies p.contains(i as usize) by {
            if i < h.len() - 1 {
                assert(d[i] == h[i]);
                let k = choose|k: int| 0 <= k < rest.len() && rest[k] == i as usize;
                assert(p[k] == rest[k]);
            } else {
                assert(p[p.len() - 1] == i as usize);
            }
        }
    }
}

/// Two increasing sequences with the same members are equal.
proof fn lemma_increasing_unique(a: Seq<usize>, c: Seq<usize>)
    requires
        forall|i: int, j: int| 0 <= i < j < a.len() ==> #[trigger] a[i] < #[trigger] a[j],
        forall|i: int, j: int| 0 <= i < j < c.len() ==> #[trigger] c[i] < #[trigger] c[j],
        forall|x: usize| a.contains(x) <==> c.contains(x),
    ensures
        a == c,
    decreases a.len(),
{
    if a.len() == 0 {
        if c.len() > 0 {
            assert(c.contains(c[0]));
        }
        assert(a =~= c);
    } else {
        assert(a.contains(a[0]));
        assert(c.len() > 0);
        assert(c.contains(c[0]));
        let j = choose|j: int| 0 <= j < c.len() && c[j] == a[0];
        let i = choose|i: int| 0 <= i < a.len() && a[i] == c[0];
        if j > 0 {
            assert(c[0] < c[j]);
            if i > 0 {
                assert(a[0] < a[i]);
            }
        }
        assert(a[0] == c[0]);
        let a1 = a.drop_first();
        let c1 = c.drop_first();
        assert forall|x: usize| a1.contains(x) <==> c1.contains(x) by {
            if a1.contains(x) {
                let k = choose|k: int| 0 <= k < a1.len() && a1[k] == x;
                assert(a[k + 1] == x);
                assert(a[0] < a[k + 1]);
                assert(a.contains(x));
                let m = choose|m: int| 0 <= m < c.len() && c[m] == x;
                assert(m != 0);
                assert(c1[m - 1] == x);
            }
            if c1.contains(x) {
                let k = choose|k: int| 0 <= k < c1.len() && c1[k] == x;
                assert(c[k + 1] == x);
                assert(c[0] < c[k + 1]);
                assert(c.contains(x));
                let m = choose|m: int| 0 <= m < a.len() && a[m] == x;
                assert(m != 0);
                assert(a1[m - 1] == x);
            }
        }
        assert forall|i: int, j: int| 0 <= i < j < a1.len() implies #[trigger] a1[i] < #[trigger] a1[j] by {
            assert(a1[i] == a[i + 1] && a1[j] == a[j + 1]);
        }
        assert forall|i: int, j: int| 0 <= i < j < c1.len() implies #[trigger] c1[i] < #[trigger] c1[j] by {
            assert(c1[i] == c[i + 1] && c1[j] == c[j + 1]);
        }
        lemma_increasing_unique(a1, c1);
        assert(a =~= seq![a[0]] + a1);
        assert(c =~= seq![c[0]] + c1);
    }
}

/// Quotes pair up in order: when an ASCII quote byte occurs an even number
/// `2k` of times, at positions `p[0] < ... < p[2k-1]`, the finder asks for
/// exactly `k` regions, the `i`-th from `p[2i]` through `p[2i+1]`.
pub proof fn law_quote_pairs(f: QuoteFinder, input: &str, p: Seq<usize>)
    requires
        f.quote_token < 0x80,
        bytes_of(input).len() <= usize::MAX,
        forall|i: int, j: int| 0 <= i < j < p.len() ==> #[trigger] p[i] < #[trigger] p[j],
        forall|j: int| 0 <= j < p.len() ==> (#[trigger] p[j]) < bytes_of(input).len() && bytes_of(input)[p[j] as int] == f.quote_token,
        forall|i: int| 0 <= i < bytes_of(input).len() && bytes_of(input)[i] == f.quote_token ==> p.contains(i as usize),
        p.len() % 2 == 0,
    ensures
        f.pushes(input).len() == p.len() / 2,
        forall|i: int| 0 <= i < p.len() / 2 ==> {
            &&& (#[trigger] f.pushes(input)[i]).start == p[2 * i]
            &&& f.pushes(input)[i].end == p[2 * i + 1] + 1
            &&& f.pushes(input)[i].style == f.style
        },
{
    let b = bytes_of(input);
    let q = f.quote_token;
    lemma_positions_exact(b, q);
    let pos = positions_of(b, q);
    assert forall|x: usize| pos.contains(x) <==> p.contains(x) by {
        if pos.contains(x) {
            let k = choose|k: int| 0 <= k < pos.len() && pos[k] == x;
            assert(b[x as int] == q);
        }
        if p.contains(x) {
            let k = choose|k: int| 0 <= k < p.len() && p[k] == x;
            assert(b[x as int] == q);
        }
    }
    lemma_increasing_unique(pos, p);
    assert(crate::text::is_ascii_byte(q));
}

/// Every possible occurrence of one of `words` starting before `s`: each
/// start, with each word ending where its length takes it.
spec fn candidates(words: Seq<Seq<u8>>, s: nat) -> Seq<(usize, usize, usize)>
    decreases s,
{
    if s == 0 {
        Seq::empty()
    } else {
        candidates(words, (s - 1) as nat) + Seq::new(
            words.len(),
            |w: int| ((s - 1) as usize, ((s - 1) + words[w].len()) as usize, w as usize),
        )
    }
}

proof fn lemma_candidates_contain(words: Seq<Seq<u8>>, s: nat, m: (usize, usize, usize))
    requires
        m.0 < s,
        m.2 < words.len(),
        m.1 == m.0 + words[m.2 as int].len(),
    ensures
        candidates(words, s).contains(m),
    decreases s,
{
    let prev = candidates(words, (s - 1) as nat);
    let c = candidates(words, s);
    if m.0 == s - 1 {
        let k = prev.len() + m.2;
        assert(c[k as int] == m);
    } else {
        lemma_candidates_contain(words, (s - 1) as nat, m);
        let k = choose|k: int| 0 <= k < prev.len() && prev[k] == m;
        assert(c[k] == m);
    }
}

/// The kept occurrences of keywords in a line are finitely many.
proof fn lemma_kept_finite(words: Seq<Seq<u8>>, b: Seq<u8>)
    ensures
        Set::new(|m: (usize, usize, usize)| kept(words, b, m)).finite(),
{
    let all = Set::new(|m: (usize, usize, usize)| kept(words, b, m));
    let c = candidates(words, b.len() + 1);
    assert forall|m: (usize, usize, usize)| all.contains(m) implies c.to_set().contains(m) by {
        lemma_candidates_contain(words, b.len() + 1, m);
    }
    vstd::seq_lib::seq_to_set_is_finite(c);
    vstd::set_lib::lemma_len_subset(all, c.to_set());
}

/// Scan order, or equality.
spec fn scan_leq(a: (usize, usize, usize), c: (usize, usize, usize)) -> bool {
    a == c || comes_before(a, c)
}

proof fn lemma_scan_total()
    ensures
        vstd::relations::total_ordering(|a: (usize, usize, usize), c: (usize, usize, usize)| scan_leq(a, c)),
{
}

/// A finite set of occurrences can be listed in scan order.
proof fn lemma_scan_list_exists(all: Set<(usize, usize, usize)>)
    requires
        all.finite(),
    ensures
        exists|t: Seq<(usize, usize, usize)>| in_scan_order(t) && forall|m: (usize, usize, usize)| #[trigger] t.contains(m) <==> all.contains(m),
    decreases all.len(),
{
    vstd::set_lib::lemma_set_empty_equivalency_len(all);
    if all.len() == 0 {
        let t = Seq::<(usize, usize, usize)>::empty();
        assert(in_scan_order(t) && forall|m: (usize, usize, usize)| #[trigger] t.contains(m) <==> all.contains(m));
    } else {
        let leq = |a: (usize, usize, usize), c: (usize, usize, usize)| scan_leq(a, c);
        lemma_scan_total();
        all.find_unique_maximal_ensures(leq);
        let mx = all.find_unique_maximal(leq);
        all.lemma_maximal_equivalent_greatest(leq, mx);
        let rest = all.remove(mx);
        lemma_scan_list_exists(rest);
        let t0 = choose|t: Seq<(usize, usize, usize)>| in_scan_order(t) && forall|m: (usize, usize, usize)| #[trigger] t.contains(m) <==> rest.contains(m);
        let t = t0.push(mx);
        assert forall|i: int, j: int| 0 <= i < j < t.len() implies comes_before(#[trigger] t[i], #[trigger] t[j]) by {
            if j < t0.len() {
                assert(t[i] == t0[i] && t[j] == t0[j]);
            } else {
                assert(t[i] == t0[i]);
                assert(t0.contains(t0[i]));
                assert(rest.contains(t0[i]));
                assert(all.contains(t0[i]));
                assert(leq(t0[i], mx));
                assert(t0[i] != mx);
            }
        }
        assert forall|m: (usize, usize, usize)| #[trigger] t.contains(m) <==> all.contains(m) by {
            if t.contains(m) && m != mx {
                let k = choose|k: int| 0 <= k < t.len() && t[k] == m;
                assert(t0[k] == m);
                assert(t0.contains(m));
            }
            if all.contains(m) {
                if m == mx {
                    assert(t[t0.len() as int] == mx);
                } else {
                    assert(rest.contains(m));
                    assert(t0.contains(m));
                    let k = choose|k: int| 0 <= k < t0.len() && t0[k] == m;
                    assert(t[k] == m);
                }
            }
        }
        assert(in_scan_order(t) && forall|m: (usize, usize, usize)| #[trigger] t.contains(m) <==> all.contains(m));
    }
}

/// Keywords stand alone: every region a keyword finder asks for, on any
/// line, has no ASCII letter, digit or `_` right before or right after it,
/// and each region ends before the next begins; so a keyword inside a
/// longer word, such as `null` in `null_value`, is never highlighted.
pub proof fn law_keywords_stand_alone(f: KeywordFinder, input: &str)
    ensures
        forall|k: int| 0 <= k < f.pushes(input).len() ==> {
            let p = #[trigger] f.pushes(input)[k];
            let b = bytes_of(input);
            &&& (p.start == 0 || !((0x41 <= b[p.start - 1] <= 0x5a) || (0x61 <= b[p.start - 1] <= 0x7a)
                || (0x30 <= b[p.start - 1] <= 0x39) || b[p.start - 1] == 0x5f))
            &&& (p.end == b.len() || !((0x41 <= b[p.end as int] <= 0x5a) || (0x61 <= b[p.end as int] <= 0x7a)
                || (0x30 <= b[p.end as int] <= 0x39) || b[p.end as int] == 0x5f))
        },
        forall|k: int| 0 <= k < f.pushes(input).len() - 1 ==> (#[trigger] f.pushes(input)[k]).end <= f.pushes(input)[k + 1].start,
{
    let b = bytes_of(input);
    let words = f.keywords.words();
    let all = Set::new(|m: (usize, usize, usize)| kept(words, b, m));
    lemma_kept_finite(words, b);
    lemma_scan_list_exists(all);
    let w = choose|t: Seq<(usize, usize, usize)>| in_scan_order(t) && forall|m: (usize, usize, usize)| #[trigger] t.contains(m) <==> all.contains(m);
    assert(in_scan_order(w) && forall|m: (usize, usize, usize)| #[trigger] w.contains(m) <==> kept(words, b, m));
    let t = ordered(words, b);
    assert(in_scan_order(t) && forall|m: (usize, usize, usize)| #[trigger] t.contains(m) <==> kept(words, b, m));
    f.lemma_selection(b, t, 0);
}

/// The date prefilter lets every date through: a line holding `-` or `/`
/// gets the requests of every date match.
pub proof fn law_date_prefilter(f: DateDashFinder, input: &str, i: int)
    requires
        0 <= i < bytes_of(input).len(),
        bytes_of(input)[i] == 0x2d || bytes_of(input)[i] == 0x2f,
    ensures
        f.pushes(input) == split_all_spec(f.split, bytes_of(input), matches_of(f.regex, input@)),
{
    assert(bytes_of(input)[i] == bytes_of(input)[i]);
}

/// The time prefilter lets every time through: a line holding `:` gets the
/// requests of every time match.
pub proof fn law_time_prefilter(f: DateTimeFinder, input: &str, i: int)
    requires
        0 <= i < bytes_of(input).len(),
        bytes_of(input)[i] == 0x3a,
    ensures
        f.pushes(input) == split_all_spec(f.split, bytes_of(input), matches_of(f.regex, input@)),
{
    assert(bytes_of(input)[i] == 0x3a);
}

/// The email prefilter lets every address through: a line holding `@` gets
/// the requests of every email match.
pub proof fn law_email_prefilter(f: EmailFinder, input: &str, i: int)
    requires
        0 <= i < bytes_of(input).len(),
        bytes_of(input)[i] == 0x40,
    ensures
        f.pushes(input) == split_all_spec(f.split, bytes_of(input), matches_of(f.regex, input@)),
{
    assert(bytes_of(input)[i] == 0x40);
}

/// The IPv4 prefilter lets every address through: a line holding `.` gets
/// the requests of every capture of the address pattern.
pub proof fn law_ipv4_prefilter(f: IpV4Finder, input: &str, i: int)
    requires
        0 <= i < bytes_of(input).len(),
        bytes_of(input)[i] == 0x2e,
    ensures
        f.pushes(input) == split_caps_spec(f.split, bytes_of(input), captures_of(f.regex, input@)),
{
    assert(bytes_of(input)[i] == 0x2e);
}

/// The IPv6 prefilter lets every address through: a line holding `:` gets
/// the requests of every capture of the address pattern.
pub proof fn law_ipv6_prefilter(f: IpV6Finder, input: &str, i: int)
    requires
        0 <= i < bytes_of(input).len(),
        bytes_of(input)[i] == 0x3a,
    ensures
        f.pushes(input) == split_caps_spec(f.split, bytes_of(input), captures_of(f.regex, input@)),
{
    assert(bytes_of(input)[i] == 0x3a);
}

/// The stack-trace prefilter lets every trace line through: a line holding
/// `.` gets the markers, headers, frames and `more` lines of its captures.
pub proof fn law_jvm_prefilter(f: JvmStackFinder, input: &str, i: int)
    requires
        0 <= i < bytes_of(input).len(),
        bytes_of(input)[i] == 0x2e,
    ensures
        f.pushes(input) == split_caps_spec(f.marker, bytes_of(input), captures_of(f.marker_regex, input@))
            + split_caps_spec(f.header, bytes_of(input), captures_of(f.header_regex, input@))
            + split_caps_spec(f.frames, bytes_of(input), captures_of(f.frame_regex, input@))
            + split_caps_spec(f.more, bytes_of(input), captures_of(f.more_regex, input@)),
{
    assert(bytes_of(input)[i] == 0x2e);
}

/// The key-value prefilter lets every pair through: a line holding `=`
/// gets the requests of every pair match.
pub proof fn law_key_value_prefilter(f: KeyValueFinder, input: &str, i: int)
    requires
        0 <= i < bytes_of(input).len(),
        bytes_of(input)[i] == 0x3d,
    ensures
        f.pushes(input) == split_all_spec(f.split, bytes_of(input), matches_of(f.regex, input@)),
{
    assert(bytes_of(input)[i] == 0x3d);
}

/// The number prefilter lets every number through: a line holding an ASCII
/// digit gets a request for every number match.
pub proof fn law_number_prefilter(f: NumberFinder, input: &str, i: int)
    requires
        0 <= i < bytes_of(input).len(),
        0x30 <= bytes_of(input)[i] <= 0x39,
    ensures
        f.pushes(input) == number_pushes(matches_of(f.regex, input@), f.style),
{
    assert(crate::finders::is_digit(bytes_of(input)[i]));
}

/// The pointer prefilter lets every pointer through: a line holding `x` or
/// `X` gets the classed bytes of every pointer match.
pub proof fn law_pointer_prefilter(f: PointerFinder, input: &str, i: int)
    requires
        0 <= i < bytes_of(input).len(),
        bytes_of(input)[i] == 0x78 || bytes_of(input)[i] == 0x58,
    ensures
        f.pushes(input) == classified_matches(bytes_of(input), matches_of(f.regex, input@), f.classes),
{
    assert(bytes_of(input)[i] == bytes_of(input)[i]);
}

/// The path prefilter lets every path through: a line holding `/` gets the
/// requests of every path match.
pub proof fn law_path_prefilter(f: UnixPathFinder, input: &str, i: int)
    requires
        0 <= i < bytes_of(input).len(),
        bytes_of(input)[i] == 0x2f,
    ensures
        f.pushes(input) == split_all_spec(f.split, bytes_of(input), matches_of(f.regex, input@)),
{
    assert(bytes_of(input)[i] == 0x2f);
}

/// The process prefilter lets every process through: a line holding `[`
/// gets the requests of every process match.
pub proof fn law_process_prefilter(f: UnixProcessFinder, input: &str, i: int)
    requires
        0 <= i < bytes_of(input).len(),
        bytes_of(input)[i] == 0x5b,
    ensures
        f.pushes(input) == split_all_spec(f.split, bytes_of(input), matches_of(f.regex, input@)),
{
    assert(bytes_of(input)[i] == 0x5b);
}

/// The URL prefilter lets every URL through: a line holding `://` gets the
/// requests of every capture of the URL pattern.
pub proof fn law_url_prefilter(f: UrlFinder, input: &str, j: int)
    requires
        0 <= j && j + 3 <= bytes_of(input).len(),
        bytes_of(input).subrange(j, j + 3) == seq![0x3au8, 0x2fu8, 0x2fu8],
    ensures
        f.pushes(input) == split_caps_spec(f.split, bytes_of(input), captures_of(f.regex, input@)),
{
    reveal_strlit("://");
    let sep = bytes_of(crate::finders::url::SCHEME_SEPARATOR);
    assert(crate::finders::url::SCHEME_SEPARATOR@ =~= seq![':', '/', '/']);
    vstd::utf8::is_ascii_chars_encode_utf8(seq![':', '/', '/']);
    assert(sep =~= seq![0x3au8, 0x2fu8, 0x2fu8]);
    assert(crate::matching::occurs_at(bytes_of(input), sep, j));
}

/// The UUID prefilter lets every UUID through: a line holding four `-` gets
/// the classed bytes of every UUID match.
pub proof fn law_uuid_prefilter(f: UuidFinder, input: &str, i1: int, i2: int, i3: int, i4: int)
    requires
        0 <= i1 < i2 < i3 < i4 < bytes_of(input).len(),
        bytes_of(input).len() <= usize::MAX,
        bytes_of(input)[i1] == 0x2d && bytes_of(input)[i2] == 0x2d,
        bytes_of(input)[i3] == 0x2d && bytes_of(input)[i4] == 0x2d,
    ensures
        f.pushes(input) == classified_matches(bytes_of(input), matches_of(f.regex, input@), f.classes),
{
    let b = bytes_of(input);
    lemma_positions_exact(b, 0x2d);
    let p = positions_of(b, 0x2d);
    assert(p.contains(i1 as usize) && p.contains(i2 as usize) && p.contains(i3 as usize) && p.contains(i4 as usize));
    let k1 = choose|k: int| 0 <= k < p.len() && p[k] == i1 as usize;
    let k2 = choose|k: int| 0 <= k < p.len() && p[k] == i2 as usize;
    let k3 = choose|k: int| 0 <= k < p.len() && p[k] == i3 as usize;
    let k4 = choose|k: int| 0 <= k < p.len() && p[k] == i4 as usize;
    if k2 <= k1 {
        if k2 < k1 {
            assert(p[k2] < p[k1]);
        }
    }
    if k3 <= k2 {
        if k3 < k2 {
            assert(p[k3] < p[k2]);
        }
    }
    if k4 <= k3 {
        if k4 < k3 {
            assert(p[k4] < p[k3]);
        }
    }
    assert(p.len() >= 4);
}

} // verus!
