//! One finder per pattern kind. A finder scans the unstyled input and asks
//! for `(start, end, style)` byte ranges; finders never see each other's
//! spans.
use vstd::prelude::*;
use crate::matching::{Pattern, find_byte, compile, regex_compiles, regex_matches, regex_captures, range_ok, groups_ok};
use vstd::utf8::valid_utf8;
use crate::palette::StyleId;
use crate::span::{Push, Span, push_all};
use crate::text::on_boundary;

pub mod number;
pub mod quote;
pub mod classes;
pub mod uuid;
pub mod pointer;
pub mod key_value;
pub mod unix_process;
pub mod email;
pub mod date_dash;
pub mod date_time;
pub mod numeric;
pub mod duration;
pub mod ip_v4;
pub mod ip_v6;
pub mod jvm_stack;
pub mod unix_path;
pub mod url;
pub mod json;
pub mod user_regex;
pub mod keyword;

verus! {

/// A non-empty push request has both ends on character boundaries of `b`.
pub open spec fn push_ok(b: Seq<u8>, p: Push) -> bool {
    p.start < p.end ==> on_boundary(b, p.start as int) && on_boundary(b, p.end as int)
}

/// Every push request is fine for `b`.
pub open spec fn pushes_ok(b: Seq<u8>, ps: Seq<Push>) -> bool {
    forall|k: int| 0 <= k < ps.len() ==> push_ok(b, #[trigger] ps[k])
}

/// Every push request uses one of `ids`.
pub open spec fn styles_in(ps: Seq<Push>, ids: Seq<StyleId>) -> bool {
    forall|k: int| 0 <= k < ps.len() ==> ids.contains((#[trigger] ps[k]).style)
}

/// Every span is non-empty with both ends on character boundaries of `b`.
pub open spec fn spans_ok(b: Seq<u8>, spans: Seq<Span>) -> bool {
    forall|k: int|
        0 <= k < spans.len() ==> (#[trigger] spans[k]).start < spans[k].end && on_boundary(b, spans[k].start as int)
            && on_boundary(b, spans[k].end as int)
}

/// Every span's style is one of `ids`.
pub open spec fn span_styles_in(spans: Seq<Span>, ids: Seq<StyleId>) -> bool {
    forall|k: int| 0 <= k < spans.len() ==> ids.contains((#[trigger] spans[k]).style)
}

/// Pushing fine requests keeps the spans fine.
pub proof fn lemma_push_all_ok(b: Seq<u8>, spans: Seq<Span>, ps: Seq<Push>, ids: Seq<StyleId>)
    requires
        spans_ok(b, spans),
        pushes_ok(b, ps),
        span_styles_in(spans, ids),
        styles_in(ps, ids),
    ensures
        spans_ok(b, push_all(spans, ps)),
        span_styles_in(push_all(spans, ps), ids),
    decreases ps.len(),
{
    if ps.len() > 0 {
        let d = ps.drop_last();
        assert forall|k: int| 0 <= k < d.len() implies push_ok(b, #[trigger] d[k]) && ids.contains(d[k].style) by {
            assert(d[k] == ps[k]);
        }
        lemma_push_all_ok(b, spans, d, ids);
        let p = ps.last();
        assert(push_ok(b, ps[ps.len() - 1]) && ids.contains(ps[ps.len() - 1].style));
    }
}

/// The push requests of a sequence of items, each item giving its own.
pub open spec fn flat<A>(items: Seq<A>, f: spec_fn(A) -> Seq<Push>) -> Seq<Push>
    decreases items.len(),
{
    if items.len() == 0 {
        Seq::empty()
    } else {
        flat(items.drop_last(), f) + f(items.last())
    }
}

/// One more item appends its requests.
pub proof fn lemma_flat_step<A>(items: Seq<A>, f: spec_fn(A) -> Seq<Push>, k: int)
    requires
        0 <= k < items.len(),
    ensures
        flat(items.take(k + 1), f) == flat(items.take(k), f) + f(items[k]),
{
    assert(items.take(k + 1).drop_last() =~= items.take(k));
}

/// The matches of an optional hard-coded expression: none without one.
pub open spec fn matches_of(p: Option<Pattern>, haystack: Seq<char>) -> Seq<(usize, usize)> {
    match p {
        Some(p) => regex_matches(p.source(), p.unicode(), haystack),
        None => Seq::empty(),
    }
}

/// The byte-mode expression built from a hard-coded pattern, if it builds.
pub open spec fn built(p: Option<Pattern>, pattern: Seq<char>) -> bool {
    &&& p is Some <==> regex_compiles(pattern, false)
    &&& p matches Some(q) ==> q.source() == pattern && !q.unicode()
}

/// Builds a hard-coded finder expression in byte mode, so that `\w`, `\d`,
/// `\s` and `\b` are ASCII-only.
pub fn build_regex(pattern: &str) -> (p: Option<Pattern>)
    ensures
        built(p, pattern@),
{
    match compile(pattern, false) {
        Ok(p) => Some(p),
        Err(_) => None,
    }
}

/// Appends a plain request that is fine for `b` and uses one of `ids`.
pub fn add_push(v: &mut Vec<Push>, b: Ghost<Seq<u8>>, ids: Ghost<Seq<StyleId>>, start: usize, end: usize, style: StyleId)
    requires
        pushes_ok(b@, old(v)@),
        styles_in(old(v)@, ids@),
        push_ok(b@, crate::span::plain(start as int, end as int, style)),
        ids@.contains(style),
    ensures
        final(v)@ == old(v)@.push(crate::span::plain(start as int, end as int, style)),
        pushes_ok(b@, final(v)@),
        styles_in(final(v)@, ids@),
{
    let ghost before = v@;
    v.push(Push { start, end, style, padded: false });
    proof {
        assert forall|k: int| 0 <= k < v@.len() implies push_ok(b@, #[trigger] v@[k]) && ids@.contains(v@[k].style) by {
            if k < before.len() {
                assert(v@[k] == before[k]);
            }
        }
    }
}

/// Each element of a short style list is in it.
pub proof fn lemma_in_styles(ids: Seq<StyleId>)
    ensures
        forall|k: int| 0 <= k < ids.len() ==> ids.contains(#[trigger] ids[k]),
{
}

/// Turns one match into push requests.
pub trait Splitter {
    /// What the splitter needs of its own configuration.
    spec fn wf(&self) -> bool;

    /// The styles it uses.
    spec fn ids(&self) -> Seq<StyleId>;

    /// The requests for match `m` of `b`.
    spec fn split(&self, b: Seq<u8>, m: (usize, usize)) -> Seq<Push>;

    /// Appends the requests for match `m`.
    fn split_into(&self, b: &[u8], m: (usize, usize), v: &mut Vec<Push>)
        requires
            self.wf(),
            valid_utf8(b@),
            range_ok(b@, m),
            pushes_ok(b@, old(v)@),
            styles_in(old(v)@, self.ids()),
        ensures
            final(v)@ == old(v)@ + self.split(b@, m),
            pushes_ok(b@, final(v)@),
            styles_in(final(v)@, self.ids()),
    ;
}

/// The requests of every match, in order.
pub open spec fn split_all_spec<S: Splitter>(s: S, b: Seq<u8>, ms: Seq<(usize, usize)>) -> Seq<Push> {
    flat(ms, |m: (usize, usize)| s.split(b, m))
}

/// The requests of every match, in order.
pub fn split_all<S: Splitter>(s: &S, b: &[u8], ms: &[(usize, usize)]) -> (v: Vec<Push>)
    requires
        s.wf(),
        valid_utf8(b@),
        forall|k: int| 0 <= k < ms@.len() ==> range_ok(b@, #[trigger] ms@[k]),
    ensures
        v@ == split_all_spec(*s, b@, ms@),
        pushes_ok(b@, v@),
        styles_in(v@, s.ids()),
{
    let mut v: Vec<Push> = Vec::new();
    let mut k: usize = 0;
    while k < ms.len()
        invariant
            0 <= k <= ms@.len(),
            s.wf(),
            valid_utf8(b@),
            forall|j: int| 0 <= j < ms@.len() ==> range_ok(b@, #[trigger] ms@[j]),
            v@ == split_all_spec(*s, b@, ms@.take(k as int)),
            pushes_ok(b@, v@),
            styles_in(v@, s.ids()),
        decreases ms@.len() - k,
    {
        let m = ms[k];
        assert(range_ok(b@, ms@[k as int]));
        proof {
            lemma_flat_step(ms@, |m: (usize, usize)| s.split(b@, m), k as int);
        }
        s.split_into(b, m, &mut v);
        k = k + 1;
    }
    assert(ms@.take(ms@.len() as int) =~= ms@);
    v
}

/// Turns the capture groups of one match into push requests.
pub trait CapsSplitter {
    /// What the splitter needs of its own configuration.
    spec fn wf(&self) -> bool;

    /// The styles it uses.
    spec fn ids(&self) -> Seq<StyleId>;

    /// The requests for the groups of one match of `b`.
    spec fn split(&self, b: Seq<u8>, caps: Seq<Option<(usize, usize)>>) -> Seq<Push>;

    /// Appends the requests for the groups of one match of `input`, whose
    /// bytes are `b`.
    fn split_into(&self, input: &str, b: &[u8], caps: &[Option<(usize, usize)>], v: &mut Vec<Push>)
        requires
            self.wf(),
            b@ == crate::text::bytes_of(input),
            valid_utf8(b@),
            groups_ok(b@, caps@),
            pushes_ok(b@, old(v)@),
            styles_in(old(v)@, self.ids()),
        ensures
            final(v)@ == old(v)@ + self.split(b@, caps@),
            pushes_ok(b@, final(v)@),
            styles_in(final(v)@, self.ids()),
    ;
}

/// The requests of every match's groups, in order.
pub open spec fn split_caps_spec<S: CapsSplitter>(s: S, b: Seq<u8>, all: Seq<Seq<Option<(usize, usize)>>>) -> Seq<Push> {
    flat(all, |c: Seq<Option<(usize, usize)>>| s.split(b, c))
}

/// The requests of every match's groups, in order.
pub fn split_caps<S: CapsSplitter>(s: &S, input: &str, b: &[u8], all: &Vec<Vec<Option<(usize, usize)>>>) -> (v: Vec<Push>)
    requires
        s.wf(),
        b@ == crate::text::bytes_of(input),
        valid_utf8(b@),
        forall|k: int| 0 <= k < all@.len() ==> groups_ok(b@, (#[trigger] all@[k])@),
    ensures
        v@ == split_caps_spec(*s, b@, all@.map_values(|c: Vec<Option<(usize, usize)>>| c@)),
        pushes_ok(b@, v@),
        styles_in(v@, s.ids()),
{
    let ghost views = all@.map_values(|c: Vec<Option<(usize, usize)>>| c@);
    let mut v: Vec<Push> = Vec::new();
    let mut k: usize = 0;
    while k < all.len()
        invariant
            0 <= k <= all@.len(),
            views == all@.map_values(|c: Vec<Option<(usize, usize)>>| c@),
            s.wf(),
            b@ == crate::text::bytes_of(input),
            valid_utf8(b@),
            forall|j: int| 0 <= j < all@.len() ==> groups_ok(b@, (#[trigger] all@[j])@),
            v@ == split_caps_spec(*s, b@, views.take(k as int)),
            pushes_ok(b@, v@),
            styles_in(v@, s.ids()),
        decreases all@.len() - k,
    {
        let caps = &all[k];
        assert(groups_ok(b@, all@[k as int]@));
        proof {
            lemma_flat_step(views, |c: Seq<Option<(usize, usize)>>| s.split(b@, c), k as int);
        }
        s.split_into(input, b, caps.as_slice(), &mut v);
        k = k + 1;
    }
    assert(views.take(views.len() as int) =~= views);
    v
}

/// The capture groups of an optional hard-coded expression: none without one.
pub open spec fn captures_of(p: Option<Pattern>, haystack: Seq<char>) -> Seq<Seq<Option<(usize, usize)>>> {
    match p {
        Some(p) => regex_captures(p.source(), p.unicode(), haystack),
        None => Seq::empty(),
    }
}

/// The group `g` of a match, when present.
pub fn group(caps: &[Option<(usize, usize)>], g: usize) -> (r: Option<(usize, usize)>)
    ensures
        r == group_of(caps@, g as int),
{
    if g < caps.len() {
        caps[g]
    } else {
        None
    }
}

/// The group `g` of a match, when present.
pub open spec fn group_of(caps: Seq<Option<(usize, usize)>>, g: int) -> Option<(usize, usize)> {
    if 0 <= g < caps.len() {
        caps[g]
    } else {
        None
    }
}

/// A pair of groups, when both are present.
pub open spec fn both(x: Option<(usize, usize)>, y: Option<(usize, usize)>) -> Option<((usize, usize), (usize, usize))> {
    match (x, y) {
        (Some(a), Some(c)) => Some((a, c)),
        _ => None,
    }
}

/// The first index in `[i, e)` holding `x`, or `e` when there is none.
pub open spec fn next_or_end(b: Seq<u8>, i: int, e: int, x: u8) -> int
    decreases e - i,
{
    if i >= e {
        e
    } else if b[i] == x {
        i
    } else {
        next_or_end(b, i + 1, e, x)
    }
}

/// `next_or_end` lies in `[i, e]`, skips no `x`, and points at `x` unless at `e`.
pub proof fn lemma_next_or_end(b: Seq<u8>, i: int, e: int, x: u8)
    requires
        i <= e,
    ensures
        i <= next_or_end(b, i, e, x) <= e,
        next_or_end(b, i, e, x) < e ==> b[next_or_end(b, i, e, x)] == x,
        forall|j: int| i <= j < next_or_end(b, i, e, x) ==> b[j] != x,
    decreases e - i,
{
    if i < e && b[i] != x {
        lemma_next_or_end(b, i + 1, e, x);
    }
}

/// The first index in `[s, e)` of `b` holding `x`, or `e`, found with
/// `memchr` on that part of `b`.
pub fn next_or_end_of(b: &[u8], s: usize, e: usize, x: u8) -> (r: usize)
    requires
        s <= e <= b@.len(),
    ensures
        r == next_or_end(b@, s as int, e as int, x),
{
    let part = &b[s..e];
    assert(part@ =~= b@.subrange(s as int, e as int));
    proof {
        lemma_next_or_end(b@, s as int, e as int, x);
    }
    match find_byte(x, part) {
        Some(i) => {
            proof {
                let n = next_or_end(b@, s as int, e as int, x);
                assert(b@[s + i] == x);
                if n < s + i {
                    assert(part@[n - s] == x);
                }
            }
            s + i
        },
        None => {
            proof {
                let n = next_or_end(b@, s as int, e as int, x);
                if n < e {
                    assert(part@[n - s] == x);
                }
            }
            e
        },
    }
}

/// An ASCII digit.
pub open spec fn is_digit(c: u8) -> bool {
    0x30 <= c <= 0x39
}

/// The end of the run of digits of `b` starting at `i`, within `[i, e)`.
pub open spec fn digits_end(b: Seq<u8>, i: int, e: int) -> int
    decreases e - i,
{
    if i >= e {
        e
    } else if !is_digit(b[i]) {
        i
    } else {
        digits_end(b, i + 1, e)
    }
}

/// `digits_end` lies in `[i, e]`, covers only digits and stops at a non-digit.
pub proof fn lemma_digits_end(b: Seq<u8>, i: int, e: int)
    requires
        i <= e,
    ensures
        i <= digits_end(b, i, e) <= e,
        digits_end(b, i, e) < e ==> !is_digit(b[digits_end(b, i, e)]),
        forall|j: int| i <= j < digits_end(b, i, e) ==> is_digit(#[trigger] b[j]),
    decreases e - i,
{
    if i < e && is_digit(b[i]) {
        lemma_digits_end(b, i + 1, e);
    }
}

/// The end of the run of digits of `b` starting at `i`, within `[i, e)`.
pub fn digits_end_of(b: &[u8], i: usize, e: usize) -> (r: usize)
    requires
        i <= e <= b@.len(),
    ensures
        r == digits_end(b@, i as int, e as int),
{
    let mut k: usize = i;
    while k < e && b[k] >= 0x30 && b[k] <= 0x39
        invariant
            i <= k <= e <= b@.len(),
            digits_end(b@, i as int, e as int) == digits_end(b@, k as int, e as int),
        decreases e - k,
    {
        k = k + 1;
    }
    k
}

/// The ranges of `b[i..e]` between the bytes `c`, in order; there is always
/// at least one, possibly empty.
pub open spec fn pieces(b: Seq<u8>, i: int, e: int, c: u8) -> Seq<(int, int)>
    decreases e - i + 1,
{
    let j = next_or_end(b, i, e, c);
    if i > e {
        Seq::empty()
    } else if j >= e {
        seq![(i, e)]
    } else {
        proof {
            lemma_next_or_end(b, i, e, c);
        }
        seq![(i, j)] + pieces(b, j + 1, e, c)
    }
}

/// Whether `b` holds `x`.
pub open spec fn has_byte(b: Seq<u8>, x: u8) -> bool {
    exists|i: int| 0 <= i < b.len() && b[i] == x
}

} // verus!
