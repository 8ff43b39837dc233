use vstd::prelude::*;
use crate::palette::StyleId;
use crate::span::{Span, covers};

verus! {

/// A resolved style assignment for a contiguous range. `padded` is set when
/// the fragment is exactly the range of a padded span.
#[derive(Debug, Clone, Copy, PartialEq, Eq, Structural)]
pub struct ResolvedSpan {
    pub start: usize,
    pub end: usize,
    pub style: StyleId,
    pub padded: bool,
}

/// The style and priority that win byte `i`: among the spans covering `i`,
/// the one with the lowest priority, the earliest of them on a tie.
pub open spec fn winner(spans: Seq<Span>, i: int) -> Option<(StyleId, u16)>
    decreases spans.len(),
{
    if spans.len() == 0 {
        None
    } else {
        let w = winner(spans.drop_last(), i);
        let s = spans.last();
        if covers(s, i) && (w is None || s.priority < w->Some_0.1) {
            Some((s.style, s.priority))
        } else {
            w
        }
    }
}

/// The winning style of byte `i`, if any span covers it.
pub open spec fn style_at(spans: Seq<Span>, i: int) -> Option<StyleId> {
    match winner(spans, i) {
        Some(w) => Some(w.0),
        None => None,
    }
}

/// Some padded span has exactly the range `[a, b)`.
pub open spec fn is_padded_range(spans: Seq<Span>, a: int, b: int) -> bool {
    padded_upto(spans, spans.len() as int, a, b)
}

/// Some padded span among the first `k` has exactly the range `[a, b)`.
pub open spec fn padded_upto(spans: Seq<Span>, k: int, a: int, b: int) -> bool {
    exists|m: int| 0 <= m < k && (#[trigger] spans[m]).padded && spans[m].start == a && spans[m].end == b
}

/// `i` is the start or end of some span.
pub open spec fn is_endpoint(spans: Seq<Span>, i: int) -> bool {
    exists|k: int| 0 <= k < spans.len() && ((#[trigger] spans[k]).start == i || spans[k].end == i)
}

/// Some fragment of `res` covers byte `i`.
pub open spec fn fragment_covers(res: Seq<ResolvedSpan>, i: int) -> bool {
    exists|k: int| 0 <= k < res.len() && (#[trigger] res[k]).start <= i < res[k].end
}

/// Every span lies within `[0, len]` and does not end before it starts.
pub open spec fn spans_in_bounds(spans: Seq<Span>, len: int) -> bool {
    forall|k: int| 0 <= k < spans.len() ==> (#[trigger] spans[k]).start <= spans[k].end <= len
}

/// `res` is the run-length encoding of the winning styles of `spans` over
/// `[0, len)`: sorted, non-overlapping fragments, each of one winning style
/// and maximal, covering every byte that some span covers, padded exactly
/// when the fragment is the range of a padded span.
pub open spec fn merged(len: int, spans: Seq<Span>, res: Seq<ResolvedSpan>) -> bool {
    &&& forall|k: int| 0 <= k < res.len() ==> (#[trigger] res[k]).start < res[k].end <= len
    &&& forall|k: int| 0 <= k < res.len() - 1 ==> (#[trigger] res[k]).end <= res[k + 1].start
    &&& forall|k: int, i: int|
        0 <= k < res.len() && res[k].start <= i < res[k].end ==> #[trigger] style_at(spans, i) == Some(
            #[trigger] res[k].style,
        )
    &&& forall|k: int|
        0 <= k < res.len() ==> (#[trigger] res[k]).start == 0 || style_at(spans, res[k].start - 1)
            != Some(res[k].style)
    &&& forall|k: int|
        0 <= k < res.len() ==> (#[trigger] res[k]).end == len || style_at(spans, res[k].end as int)
            != Some(res[k].style)
    &&& forall|i: int| 0 <= i < len && (#[trigger] style_at(spans, i)) is Some ==> fragment_covers(res, i)
    &&& forall|k: int|
        0 <= k < res.len() ==> (#[trigger] res[k]).padded == is_padded_range(
            spans,
            res[k].start as int,
            res[k].end as int,
        )
}

/// Fragment boundaries are span endpoints, or the ends of the input.
pub open spec fn boundaries_from_spans(len: int, spans: Seq<Span>, res: Seq<ResolvedSpan>) -> bool {
    forall|k: int|
        0 <= k < res.len() ==> ((#[trigger] res[k]).start == 0 || is_endpoint(spans, res[k].start as int))
            && (res[k].end == len || is_endpoint(spans, res[k].end as int))
}

proof fn lemma_winner_step(spans: Seq<Span>, k: int, i: int)
    requires
        0 <= k < spans.len(),
    ensures
        winner(spans.take(k + 1), i) == ({
            let w = winner(spans.take(k), i);
            let s = spans[k];
            if covers(s, i) && (w is None || s.priority < w->Some_0.1) {
                Some((s.style, s.priority))
            } else {
                w
            }
        }),
{
    assert(spans.take(k + 1).drop_last() =~= spans.take(k));
}

/// A byte that some span covers has a winner.
pub proof fn lemma_covered_has_winner(spans: Seq<Span>, k: int, i: int)
    requires
        0 <= k < spans.len(),
        covers(spans[k], i),
    ensures
        winner(spans, i) is Some,
    decreases spans.len(),
{
    if k < spans.len() - 1 {
        lemma_covered_has_winner(spans.drop_last(), k, i);
    }
}

/// A winning style is the style of some span.
pub proof fn lemma_winner_from_span(spans: Seq<Span>, i: int)
    requires
        winner(spans, i) is Some,
    ensures
        exists|k: int| 0 <= k < spans.len() && (#[trigger] spans[k]).style == winner(spans, i)->Some_0.0,
    decreases spans.len(),
{
    let d = spans.drop_last();
    if winner(d, i) is Some && winner(spans, i) == winner(d, i) {
        lemma_winner_from_span(d, i);
        let k = choose|k: int| 0 <= k < d.len() && (#[trigger] d[k]).style == winner(d, i)->Some_0.0;
        assert(spans[k] == d[k]);
    } else {
        assert(spans[spans.len() - 1].style == winner(spans, i)->Some_0.0);
    }
}

/// Away from every span endpoint, neighbouring bytes have the same winner.
proof fn lemma_winner_continuous(spans: Seq<Span>, i: int)
    requires
        !is_endpoint(spans, i),
    ensures
        winner(spans, i - 1) == winner(spans, i),
    decreases spans.len(),
{
    if spans.len() > 0 {
        let d = spans.drop_last();
        assert forall|k: int| 0 <= k < d.len() implies !(#[trigger] d[k].start == i || d[k].end == i) by {
            assert(d[k] == spans[k]);
        }
        lemma_winner_continuous(d, i);
        assert(spans.last() == spans[spans.len() - 1]);
    }
}

/// A byte whose winner differs from its predecessor's sits on a span endpoint.
proof fn lemma_change_is_endpoint(spans: Seq<Span>, i: int)
    requires
        style_at(spans, i - 1) != style_at(spans, i),
    ensures
        is_endpoint(spans, i),
{
    if !is_endpoint(spans, i) {
        lemma_winner_continuous(spans, i);
    }
}

/// Whether a byte's winner has style `style`.
fn has_style(slot: Option<(StyleId, u16)>, style: StyleId) -> (b: bool)
    ensures
        b == (slot is Some && slot->Some_0.0 == style),
{
    match slot {
        Some((s, _)) => s == style,
        None => false,
    }
}

/// Merges overlapping spans into non-overlapping resolved fragments; lower
/// priority wins each byte, and a fragment keeps padding only when it is
/// exactly the range of a padded span.
pub fn merge_spans(input_len: usize, spans: &[Span]) -> (res: Vec<ResolvedSpan>)
    requires
        spans_in_bounds(spans@, input_len as int),
    ensures
        merged(input_len as int, spans@, res@),
        boundaries_from_spans(input_len as int, spans@, res@),
{
    if spans.len() == 0 {
        return Vec::new();
    }
    let ghost sp = spans@;
    // Phase 1: the winning style and priority of each byte.
    let mut style_map: Vec<Option<(StyleId, u16)>> = vec![None; input_len];
    let mut k: usize = 0;
    while k < spans.len()
        invariant
            sp == spans@,
            spans_in_bounds(sp, input_len as int),
            0 <= k <= sp.len(),
            style_map@.len() == input_len,
            forall|i: int| 0 <= i < input_len ==> #[trigger] style_map@[i] == winner(sp.take(k as int), i),
        decreases sp.len() - k,
    {
        let span = spans[k];
        let mut j: usize = span.start;
        while j < span.end
            invariant
                sp == spans@,
                span == sp[k as int],
                0 <= k < sp.len(),
                span.start <= j <= span.end <= input_len,
                style_map@.len() == input_len,
                forall|i: int|
                    0 <= i < input_len ==> #[trigger] style_map@[i] == if span.start <= i < j {
                        winner(sp.take(k + 1), i)
                    } else {
                        winner(sp.take(k as int), i)
                    },
            decreases span.end - j,
        {
            proof {
                lemma_winner_step(sp, k as int, j as int);
            }
            let slot = style_map[j];
            match slot {
                None => {
                    style_map.set(j, Some((span.style, span.priority)));
                },
                Some((_, existing)) => {
                    if span.priority < existing {
                        style_map.set(j, Some((span.style, span.priority)));
                    }
                },
            }
            j = j + 1;
        }
        proof {
            assert forall|i: int| 0 <= i < input_len implies #[trigger] style_map@[i] == winner(sp.take(k + 1), i) by {
                lemma_winner_step(sp, k as int, i);
            }
        }
        k = k + 1;
    }
    assert(sp.take(sp.len() as int) =~= sp);
    // The padded ranges, for the exact-match lookup below.
    let mut padded_ranges: Vec<(usize, usize)> = Vec::new();
    let mut k: usize = 0;
    while k < spans.len()
        invariant
            sp == spans@,
            0 <= k <= sp.len(),
            forall|a: usize, b: usize|
                #[trigger] padded_ranges@.contains((a, b)) <==> padded_upto(sp, k as int, a as int, b as int),
        decreases sp.len() - k,
    {
        let span = spans[k];
        let ghost before = padded_ranges@;
        if span.padded {
            padded_ranges.push((span.start, span.end));
        }
        proof {
            assert forall|a: usize, b: usize|
                #[trigger] padded_ranges@.contains((a, b)) <==> padded_upto(sp, k + 1, a as int, b as int) by {
                if padded_ranges@.contains((a, b)) {
                    if !before.contains((a, b)) {
                        assert(sp[k as int].padded && sp[k as int].start == a && sp[k as int].end == b);
                    } else {
                        let m = choose|m: int| 0 <= m < k && (#[trigger] sp[m]).padded && sp[m].start == a && sp[m].end == b;
                    }
                }
                if padded_upto(sp, k + 1, a as int, b as int) {
                    let m = choose|m: int| 0 <= m < k + 1 && (#[trigger] sp[m]).padded && sp[m].start == a && sp[m].end == b;
                    if m == k {
                        assert(padded_ranges@.last() == (a, b));
                        assert(padded_ranges@.contains((a, b)));
                    } else {
                        assert(padded_upto(sp, k as int, a as int, b as int));
                        assert(before.contains((a, b)));
                        let q = choose|q: int| 0 <= q < before.len() && before[q] == (a, b);
                        assert(padded_ranges@[q] == before[q]);
                    }
                }
            }
        }
        k = k + 1;
    }
    // Phase 2: run-length encode the winning styles.
    let mut result: Vec<ResolvedSpan> = Vec::new();
    let mut i: usize = 0;
    while i < input_len
        invariant
            sp == spans@,
            0 <= i <= input_len,
            style_map@.len() == input_len,
            forall|x: int| 0 <= x < input_len ==> #[trigger] style_map@[x] == winner(sp, x),
            forall|a: usize, b: usize|
                #[trigger] padded_ranges@.contains((a, b)) <==> padded_upto(sp, sp.len() as int, a as int, b as int),
            forall|k: int| 0 <= k < result@.len() ==> (#[trigger] result@[k]).start < result@[k].end <= i,
            forall|k: int| 0 <= k < result@.len() - 1 ==> (#[trigger] result@[k]).end <= result@[k + 1].start,
            forall|k: int, x: int|
                0 <= k < result@.len() && result@[k].start <= x < result@[k].end ==> #[trigger] style_at(sp, x) == Some(
                    #[trigger] result@[k].style,
                ),
            forall|k: int|
                0 <= k < result@.len() ==> (#[trigger] result@[k]).start == 0 || style_at(sp, result@[k].start - 1)
                    != Some(result@[k].style),
            forall|k: int|
                0 <= k < result@.len() ==> (#[trigger] result@[k]).end == input_len || style_at(sp, result@[k].end as int)
                    != Some(result@[k].style),
            forall|x: int| 0 <= x < i && (#[trigger] style_at(sp, x)) is Some ==> fragment_covers(result@, x),
            forall|k: int|
                0 <= k < result@.len() ==> (#[trigger] result@[k]).padded == is_padded_range(
                    sp,
                    result@[k].start as int,
                    result@[k].end as int,
                ),
            boundaries_from_spans(input_len as int, sp, result@),
            i == 0 || style_at(sp, i - 1) is None || (result@.len() > 0 && result@.last().end == i),
        decreases input_len - i,
    {
        let slot = style_map[i];
        match slot {
            Some((style, _)) => {
                let start = i;
                proof {
                    if start > 0 {
                        if style_at(sp, start - 1) is Some {
                            let k = result@.len() - 1;
                            assert(result@[k].start <= start - 1 < result@[k].end);
                        }
                        if style_at(sp, start - 1) != style_at(sp, start as int) {
                            lemma_change_is_endpoint(sp, start as int);
                        }
                    }
                }
                while i < input_len && has_style(style_map[i], style)
                    invariant
                        sp == spans@,
                        start < i <= input_len || (start == i && i < input_len),
                        style_map@.len() == input_len,
                        forall|x: int| 0 <= x < input_len ==> #[trigger] style_map@[x] == winner(sp, x),
                        style_at(sp, start as int) == Some(style),
                        forall|x: int| start <= x < i ==> style_at(sp, x) == Some(style),
                    decreases input_len - i,
                {
                    i = i + 1;
                }
                let mut padded = false;
                let mut q: usize = 0;
                while q < padded_ranges.len()
                    invariant
                        0 <= q <= padded_ranges@.len(),
                        padded == exists|m: int| 0 <= m < q && padded_ranges@[m] == (start, i),
                    decreases padded_ranges@.len() - q,
                {
                    if padded_ranges[q].0 == start && padded_ranges[q].1 == i {
                        padded = true;
                    }
                    q = q + 1;
                }
                proof {
                    assert(padded == padded_ranges@.contains((start, i)));
                    assert(padded_ranges@.contains((start, i)) == padded_upto(sp, sp.len() as int, start as int, i as int));
                    if i < input_len {
                        lemma_change_is_endpoint(sp, i as int);
                    }
                }
                let ghost before = result@;
                result.push(ResolvedSpan { start, end: i, style, padded });
                proof {
                    let n = result@.len() - 1;
                    assert(result@[n].start <= start < result@[n].end);
                    assert forall|x: int| 0 <= x < i && (#[trigger] style_at(sp, x)) is Some implies fragment_covers(result@, x) by {
                        if x < start {
                            assert(fragment_covers(before, x));
                            let k = choose|k: int| 0 <= k < before.len() && (#[trigger] before[k]).start <= x < before[k].end;
                            assert(result@[k] == before[k]);
                        } else {
                            assert(result@[n].start <= x < result@[n].end);
                        }
                    }
                    assert forall|k: int| 0 <= k < result@.len() implies ((#[trigger] result@[k]).start == 0 || is_endpoint(sp, result@[k].start as int))
                        && (result@[k].end == input_len || is_endpoint(sp, result@[k].end as int)) by {
                        if k < n {
                            assert(result@[k] == before[k]);
                        }
                    }
                }
            },
            None => {
                i = i + 1;
            },
        }
    }
    result
}

} // verus!
