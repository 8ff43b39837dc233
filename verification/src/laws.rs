//! Properties of the pipeline as a whole.
use vstd::prelude::*;
use crate::merge::{winner, style_at};
use crate::pipeline::{Finder, collected, finder_spans, highlighted};
use crate::merge::{ResolvedSpan, merged, is_padded_range};
use crate::render::{renderable, render_spec, strip_sgr, law_render_keeps_text};
use crate::style::sgr_like;
use crate::text::bytes_of;
use crate::span::{Span, Push, covers, push_all, push_spec, stamp, all_nonempty};
use crate::cli::{deduped, survives, surviving};
use crate::style::Style;
use crate::cli::Base;
use crate::cli_highlighter::expected_kinds;
use crate::highlighter::default_kinds;
use crate::pipeline::FinderKind;

verus! {

/// Some span of `spans` covers byte `i`.
pub open spec fn covered(spans: Seq<Span>, i: int) -> bool {
    exists|m: int| 0 <= m < spans.len() && covers(#[trigger] spans[m], i)
}

/// Every span has priority `p`.
pub open spec fn all_priority(spans: Seq<Span>, p: u16) -> bool {
    forall|m: int| 0 <= m < spans.len() ==> (#[trigger] spans[m]).priority == p
}

/// Every span has a priority below `p`.
pub open spec fn priorities_below(spans: Seq<Span>, p: int) -> bool {
    forall|m: int| 0 <= m < spans.len() ==> (#[trigger] spans[m]).priority < p
}

/// A winner exists exactly when some span covers the byte, and it has the
/// priority of such a span.
proof fn lemma_winner_covered(spans: Seq<Span>, i: int)
    ensures
        winner(spans, i) is Some <==> covered(spans, i),
        winner(spans, i) matches Some(w) ==> exists|m: int|
            0 <= m < spans.len() && covers(#[trigger] spans[m], i) && spans[m].priority == w.1,
    decreases spans.len(),
{
    if spans.len() > 0 {
        let d = spans.drop_last();
        lemma_winner_covered(d, i);
        let last = spans.len() - 1;
        if covered(d, i) {
            let m = choose|m: int| 0 <= m < d.len() && covers(#[trigger] d[m], i);
            assert(spans[m] == d[m]);
        }
        if covered(spans, i) {
            let m = choose|m: int| 0 <= m < spans.len() && covers(#[trigger] spans[m], i);
            if m < last {
                assert(d[m] == spans[m]);
            }
        }
        if winner(spans, i) is Some && winner(spans, i) == winner(d, i) {
            let m = choose|m: int| 0 <= m < d.len() && covers(#[trigger] d[m], i) && d[m].priority == winner(d, i)->Some_0.1;
            assert(spans[m] == d[m]);
        } else if winner(spans, i) is Some {
            assert(covers(spans[last], i));
        }
    }
}

/// Appending spans of one priority `p` to spans of lower priorities: a byte
/// the first part covers keeps its winner; any other byte is won as the
/// second part alone would win it.
proof fn lemma_winner_append(a: Seq<Span>, b: Seq<Span>, p: u16, i: int)
    requires
        priorities_below(a, p as int),
        all_priority(b, p),
    ensures
        winner(a + b, i) == if covered(a, i) { winner(a, i) } else { winner(b, i) },
    decreases b.len(),
{
    if b.len() == 0 {
        assert(a + b =~= a);
        lemma_winner_covered(a, i);
    } else {
        let d = b.drop_last();
        assert((a + b).drop_last() =~= a + d);
        assert((a + b).last() == b.last());
        lemma_winner_append(a, d, p, i);
        if covered(a, i) {
            lemma_winner_covered(a, i);
            let w = winner(a, i)->Some_0;
            let m = choose|m: int| 0 <= m < a.len() && covers(#[trigger] a[m], i) && a[m].priority == w.1;
            assert(b[b.len() - 1].priority == p);
        }
    }
}

/// Restamping spans of one priority keeps every byte's winning style.
proof fn lemma_winner_stamp(spans: Seq<Span>, q: u16, p: u16, i: int)
    requires
        all_priority(spans, q),
    ensures
        style_at(stamp(spans, p), i) == style_at(spans, i),
        all_priority(stamp(spans, p), p),
    decreases spans.len(),
{
    let st = stamp(spans, p);
    if spans.len() > 0 {
        let d = spans.drop_last();
        assert(st.drop_last() =~= stamp(d, p));
        lemma_winner_stamp(d, q, p, i);
        lemma_winner_covered(d, i);
        lemma_winner_covered(stamp(d, p), i);
        if winner(d, i) is Some {
            let m = choose|m: int| 0 <= m < d.len() && covers(#[trigger] d[m], i) && d[m].priority == winner(d, i)->Some_0.1;
        }
        if winner(stamp(d, p), i) is Some {
            let m = choose|m: int| 0 <= m < stamp(d, p).len() && covers(#[trigger] stamp(d, p)[m], i)
                && stamp(d, p)[m].priority == winner(stamp(d, p), i)->Some_0.1;
        }
    }
}

/// Spans built by pushes onto nothing all have priority 0.
proof fn lemma_pushed_priority(ps: Seq<Push>)
    ensures
        all_priority(push_all(Seq::empty(), ps), 0),
    decreases ps.len(),
{
    if ps.len() > 0 {
        lemma_pushed_priority(ps.drop_last());
        let s = push_all(Seq::empty(), ps.drop_last());
        let p = ps.last();
        let t = push_spec(s, p.start, p.end, p.style, p.padded);
        assert forall|m: int| 0 <= m < t.len() implies (#[trigger] t[m]).priority == 0 by {
            if m < s.len() {
                assert(s[m].priority == 0);
            }
        }
    }
}

/// The spans of the first `k` finders have priorities below `k`, and cover
/// a byte exactly when one of those finders' spans does.
proof fn lemma_collected(finders: Seq<Finder>, input: &str, k: int, i: int)
    requires
        0 <= k <= finders.len() <= 0x10000,
    ensures
        priorities_below(collected(finders, input, k), k),
        covered(collected(finders, input, k), i) <==> exists|j: int|
            0 <= j < k && covered(#[trigger] finder_spans(finders[j], input), i),
    decreases k,
{
    if k > 0 {
        lemma_collected(finders, input, k - 1, i);
        let a = collected(finders, input, k - 1);
        let f = finder_spans(finders[k - 1], input);
        lemma_pushed_priority(finders[k - 1].pushes(input));
        let b = stamp(f, (k - 1) as u16);
        lemma_winner_stamp(f, 0, (k - 1) as u16, i);
        let c = collected(finders, input, k);
        assert(c == a + b);
        assert forall|m: int| 0 <= m < c.len() implies (#[trigger] c[m]).priority < k by {
            if m < a.len() {
                assert(c[m] == a[m]);
            } else {
                assert(c[m] == b[m - a.len()]);
            }
        }
        if covered(c, i) {
            let m = choose|m: int| 0 <= m < c.len() && covers(#[trigger] c[m], i);
            if m < a.len() {
                assert(c[m] == a[m]);
                assert(covered(a, i));
                let j = choose|j: int| 0 <= j < k - 1 && covered(#[trigger] finder_spans(finders[j], input), i);
            } else {
                assert(c[m] == b[m - a.len()]);
                assert(covers(f[m - a.len()], i));
                assert(covered(finder_spans(finders[k - 1], input), i));
            }
        }
        if exists|j: int| 0 <= j < k && covered(#[trigger] finder_spans(finders[j], input), i) {
            let j = choose|j: int| 0 <= j < k && covered(#[trigger] finder_spans(finders[j], input), i);
            if j < k - 1 {
                assert(covered(a, i));
                let m = choose|m: int| 0 <= m < a.len() && covers(#[trigger] a[m], i);
                assert(c[m] == a[m]);
            } else {
                let m = choose|m: int| 0 <= m < f.len() && covers(#[trigger] f[m], i);
                assert(c[a.len() + m] == b[m]);
            }
        }
    }
}

/// The first finder wins: a byte that no earlier finder styles gets, in
/// the merged spans of all finders, the style that the first finder
/// covering it gives it on its own; a byte that no finder styles gets none.
pub proof fn law_first_finder_wins(finders: Seq<Finder>, input: &str, k: int, i: int)
    requires
        finders.len() <= 0x10000,
        0 <= k < finders.len(),
        covered(finder_spans(finders[k], input), i),
        forall|j: int| 0 <= j < k ==> !covered(#[trigger] finder_spans(finders[j], input), i),
    ensures
        style_at(collected(finders, input, finders.len() as int), i) == style_at(finder_spans(finders[k], input), i),
{
    lemma_first_wins_upto(finders, input, k, i, finders.len() as int);
}

/// A byte that no finder covers is left unstyled.
pub proof fn law_uncovered_unstyled(finders: Seq<Finder>, input: &str, i: int)
    requires
        finders.len() <= 0x10000,
        forall|j: int| 0 <= j < finders.len() ==> !covered(#[trigger] finder_spans(finders[j], input), i),
    ensures
        style_at(collected(finders, input, finders.len() as int), i) is None,
{
    lemma_collected(finders, input, finders.len() as int, i);
    lemma_winner_covered(collected(finders, input, finders.len() as int), i);
}

proof fn lemma_first_wins_upto(finders: Seq<Finder>, input: &str, k: int, i: int, n: int)
    requires
        finders.len() <= 0x10000,
        0 <= k < n <= finders.len(),
        covered(finder_spans(finders[k], input), i),
        forall|j: int| 0 <= j < k ==> !covered(#[trigger] finder_spans(finders[j], input), i),
    ensures
        style_at(collected(finders, input, n), i) == style_at(finder_spans(finders[k], input), i),
    decreases n,
{
    let a = collected(finders, input, n - 1);
    let f = finder_spans(finders[n - 1], input);
    lemma_pushed_priority(finders[n - 1].pushes(input));
    let b = stamp(f, (n - 1) as u16);
    lemma_winner_stamp(f, 0, (n - 1) as u16, i);
    lemma_collected(finders, input, n - 1, i);
    lemma_winner_append(a, b, (n - 1) as u16, i);
    assert(collected(finders, input, n) == a + b);
    if k < n - 1 {
        lemma_first_wins_upto(finders, input, k, i, n - 1);
        assert(covered(a, i));
    } else {
        assert(!covered(a, i));
    }
}

/// A collector only ever holds non-empty spans.
pub proof fn law_pushed_spans_nonempty(spans: Seq<Span>, ps: Seq<Push>)
    requires
        all_nonempty(spans),
    ensures
        all_nonempty(push_all(spans, ps)),
    decreases ps.len(),
{
    if ps.len() > 0 {
        law_pushed_spans_nonempty(spans, ps.drop_last());
        let s = push_all(spans, ps.drop_last());
        let p = ps.last();
        let t = push_spec(s, p.start, p.end, p.style, p.padded);
        assert forall|m: int| 0 <= m < t.len() implies (#[trigger] t[m]).start < t[m].end by {
            if m < s.len() {
                assert(s[m].start < s[m].end);
            }
        }
    }
}


/// Keyword configurations as their words and styles.
pub type Definitions = Seq<(Seq<Seq<char>>, Style)>;

/// Configuration `i` is the last of `cs` that has the word `w`.
pub open spec fn last_definition(cs: Definitions, w: Seq<char>, i: int) -> bool {
    &&& 0 <= i < cs.len()
    &&& cs[i].0.contains(w)
    &&& forall|i2: int| i < i2 < cs.len() ==> !(#[trigger] cs[i2].0).contains(w)
}

/// The last definition of `w` is among the first `k` configurations.
pub open spec fn defined_before(cs: Definitions, w: Seq<char>, k: int) -> bool {
    exists|i: int| 0 <= i < k && #[trigger] last_definition(cs, w, i)
}

/// Some configuration of `r` has the word `w` with the style `s`.
pub open spec fn defines(r: Definitions, w: Seq<char>, s: Style) -> bool {
    exists|a: int| 0 <= a < r.len() && (#[trigger] r[a]).0.contains(w) && r[a].1 == s
}

/// A word is among the survivors of the first `j` words of configuration
/// `i` exactly when one of those words, equal to it, survives.
proof fn lemma_surviving_contains(cs: Definitions, i: int, j: int, w: Seq<char>)
    requires
        0 <= i < cs.len(),
        0 <= j <= cs[i].0.len(),
    ensures
        surviving(cs, i, j).contains(w) <==> exists|j2: int| 0 <= j2 < j && cs[i].0[j2] == w && #[trigger] survives(cs, i, j2),
    decreases j,
{
    if j > 0 {
        lemma_surviving_contains(cs, i, j - 1, w);
        let prev = surviving(cs, i, j - 1);
        let tail = if survives(cs, i, j - 1) { seq![cs[i].0[j - 1]] } else { Seq::<Seq<char>>::empty() };
        assert(surviving(cs, i, j) == prev + tail);
        if surviving(cs, i, j).contains(w) {
            let k = choose|k: int| 0 <= k < surviving(cs, i, j).len() && surviving(cs, i, j)[k] == w;
            if k < prev.len() {
                assert(prev[k] == w);
            } else {
                assert(tail[k - prev.len()] == w);
                assert(survives(cs, i, j - 1));
            }
        }
        if exists|j2: int| 0 <= j2 < j && cs[i].0[j2] == w && #[trigger] survives(cs, i, j2) {
            let j2 = choose|j2: int| 0 <= j2 < j && cs[i].0[j2] == w && #[trigger] survives(cs, i, j2);
            if j2 < j - 1 {
                let k = choose|k: int| 0 <= k < prev.len() && prev[k] == w;
                assert((prev + tail)[k] == w);
            } else {
                assert((prev + tail)[prev.len() as int] == w);
            }
        }
    }
}

/// The survivors of a configuration hold no word twice.
proof fn lemma_surviving_distinct(cs: Definitions, i: int, j: int)
    requires
        0 <= i < cs.len(),
        0 <= j <= cs[i].0.len(),
    ensures
        surviving(cs, i, j).no_duplicates(),
    decreases j,
{
    if j > 0 {
        lemma_surviving_distinct(cs, i, j - 1);
        let prev = surviving(cs, i, j - 1);
        if survives(cs, i, j - 1) {
            let w = cs[i].0[j - 1];
            lemma_surviving_contains(cs, i, j - 1, w);
            assert(!prev.contains(w));
            let all = surviving(cs, i, j);
            assert(all == prev.push(w));
            assert forall|a: int, b: int| 0 <= a < all.len() && 0 <= b < all.len() && a != b implies all[a] != all[b] by {
                if a < prev.len() && b < prev.len() {
                } else if a < prev.len() {
                    assert(prev[a] != w);
                } else {
                    assert(prev[b] != w);
                }
            }
        } else {
            assert(surviving(cs, i, j) =~= prev);
        }
    }
}

/// A word that `ws` has occurs first at some position.
proof fn lemma_first_position(ws: Seq<Seq<char>>, w: Seq<char>) -> (j: int)
    requires
        ws.contains(w),
    ensures
        0 <= j < ws.len(),
        ws[j] == w,
        forall|j2: int| 0 <= j2 < j ==> ws[j2] != w,
    decreases ws.len(),
{
    if ws.drop_last().contains(w) {
        let j = lemma_first_position(ws.drop_last(), w);
        assert(ws[j] == ws.drop_last()[j]);
        assert forall|j2: int| 0 <= j2 < j implies ws[j2] != w by {
            assert(ws[j2] == ws.drop_last()[j2]);
        }
        j
    } else {
        let k = choose|k: int| 0 <= k < ws.len() && ws[k] == w;
        if k < ws.len() - 1 {
            assert(ws.drop_last()[k] == w);
        }
        assert forall|j2: int| 0 <= j2 < ws.len() - 1 implies ws[j2] != w by {
            assert(ws[j2] == ws.drop_last()[j2]);
        }
        ws.len() - 1
    }
}

/// A word survives in configuration `i` exactly when `i` is its last
/// definition.
proof fn lemma_survivor_is_last(cs: Definitions, i: int, w: Seq<char>)
    requires
        0 <= i < cs.len(),
    ensures
        surviving(cs, i, cs[i].0.len() as int).contains(w) <==> last_definition(cs, w, i),
{
    lemma_surviving_contains(cs, i, cs[i].0.len() as int, w);
    if surviving(cs, i, cs[i].0.len() as int).contains(w) {
        let j2 = choose|j2: int| 0 <= j2 < cs[i].0.len() && cs[i].0[j2] == w && #[trigger] survives(cs, i, j2);
        assert(cs[i].0.contains(w));
    }
    if last_definition(cs, w, i) {
        let j = lemma_first_position(cs[i].0, w);
        assert(survives(cs, i, j));
    }
}

/// The words of the first `k` deduplicated configurations, with their
/// styles: each has its last definition among the first `k`, with that
/// definition's style; and no word occurs twice.
proof fn lemma_deduped(cs: Definitions, k: int)
    requires
        0 <= k <= cs.len(),
    ensures
        forall|w: Seq<char>, s: Style| defines(#[trigger] deduped(cs, k), w, s)
            <==> exists|i: int| 0 <= i < k && #[trigger] last_definition(cs, w, i) && cs[i].1 == s,
        forall|a: int, x: int| #![trigger deduped(cs, k)[a].0[x]] 0 <= a < deduped(cs, k).len() && 0 <= x < deduped(cs, k)[a].0.len()
            ==> defined_before(cs, deduped(cs, k)[a].0[x], k),
        forall|a: int, x: int, b: int, y: int|
            0 <= a < deduped(cs, k).len() && 0 <= x < deduped(cs, k)[a].0.len()
            && 0 <= b < deduped(cs, k).len() && 0 <= y < deduped(cs, k)[b].0.len() && (a != b || x != y)
            ==> #[trigger] deduped(cs, k)[a].0[x] != #[trigger] deduped(cs, k)[b].0[y],
    decreases k,
{
    if k > 0 {
        lemma_deduped(cs, k - 1);
        let prev = deduped(cs, k - 1);
        let ws = surviving(cs, k - 1, cs[k - 1].0.len() as int);
        let style = cs[k - 1].1;
        let tail = if ws.len() > 0 { seq![(ws, style)] } else { Seq::<(Seq<Seq<char>>, Style)>::empty() };
        let r = deduped(cs, k);
        assert(r == prev + tail);
        lemma_surviving_distinct(cs, k - 1, cs[k - 1].0.len() as int);
        assert forall|w: Seq<char>| #[trigger] ws.contains(w) <==> last_definition(cs, w, k - 1) by {
            lemma_survivor_is_last(cs, k - 1, w);
        }
        assert forall|w: Seq<char>, s: Style| defines(r, w, s)
            <==> exists|i: int| 0 <= i < k && #[trigger] last_definition(cs, w, i) && cs[i].1 == s by {
            if defines(r, w, s) {
                let a = choose|a: int| 0 <= a < r.len() && (#[trigger] r[a]).0.contains(w) && r[a].1 == s;
                if a < prev.len() {
                    assert(prev[a] == r[a]);
                    assert(defines(prev, w, s));
                } else {
                    assert(r[a] == (ws, style));
                    assert(last_definition(cs, w, k - 1));
                }
            }
            if exists|i: int| 0 <= i < k && #[trigger] last_definition(cs, w, i) && cs[i].1 == s {
                let i = choose|i: int| 0 <= i < k && #[trigger] last_definition(cs, w, i) && cs[i].1 == s;
                if i < k - 1 {
                    assert(defines(prev, w, s));
                    let a = choose|a: int| 0 <= a < prev.len() && (#[trigger] prev[a]).0.contains(w) && prev[a].1 == s;
                    assert(r[a] == prev[a]);
                } else {
                    assert(ws.contains(w));
                    assert(r[prev.len() as int] == (ws, style));
                }
            }
        }
        assert forall|a: int, x: int| #![trigger deduped(cs, k)[a].0[x]] 0 <= a < deduped(cs, k).len() && 0 <= x < deduped(cs, k)[a].0.len()
            implies defined_before(cs, deduped(cs, k)[a].0[x], k) by {
            if a < prev.len() {
                assert(r[a] == prev[a]);
                let w = prev[a].0[x];
                assert(defined_before(cs, w, k - 1));
                let i = choose|i: int| 0 <= i < k - 1 && #[trigger] last_definition(cs, w, i);
                assert(last_definition(cs, r[a].0[x], i));
            } else {
                assert(r[a] == (ws, style));
                assert(ws.contains(ws[x]));
                assert(last_definition(cs, r[a].0[x], k - 1));
            }
        }
        assert forall|a: int, x: int, b: int, y: int|
            0 <= a < r.len() && 0 <= x < r[a].0.len()
            && 0 <= b < r.len() && 0 <= y < r[b].0.len() && (a != b || x != y)
            implies #[trigger] r[a].0[x] != #[trigger] r[b].0[y] by {
            if a < prev.len() && b < prev.len() {
                assert(r[a] == prev[a] && r[b] == prev[b]);
            } else if a >= prev.len() && b >= prev.len() {
                assert(r[a] == (ws, style) && r[b] == (ws, style));
            } else {
                let (o, p, n, q) = if a < prev.len() { (a, x, b, y) } else { (b, y, a, x) };
                assert(r[o] == prev[o]);
                assert(r[n] == (ws, style));
                let w = prev[o].0[p];
                assert(defined_before(cs, w, k - 1));
                let i = choose|i: int| 0 <= i < k - 1 && #[trigger] last_definition(cs, w, i);
                assert(ws.contains(ws[q]));
                assert(last_definition(cs, ws[q], k - 1));
                if w == ws[q] {
                    assert(cs[k - 1].0.contains(w));
                }
            }
        }
    } else {
        assert(deduped(cs, k).len() == 0);
    }
}

/// The last definition wins: after deduplication a word has a style exactly
/// when it is the style of the last configuration that defines the word,
/// and no word occurs twice.
pub proof fn law_last_definition_wins(cs: Definitions, w: Seq<char>, s: Style, a: int, x: int, b: int, y: int)
    ensures
        defines(deduped(cs, cs.len() as int), w, s) <==> exists|i: int| #[trigger] last_definition(cs, w, i) && cs[i].1 == s,
        ({
            let r = deduped(cs, cs.len() as int);
            0 <= a < r.len() && 0 <= x < r[a].0.len() && 0 <= b < r.len() && 0 <= y < r[b].0.len() && (a != b || x != y)
                ==> r[a].0[x] != r[b].0[y]
        }),
{
    lemma_deduped(cs, cs.len() as int);
    let r = deduped(cs, cs.len() as int);
    assert(defines(r, w, s) <==> exists|i: int| 0 <= i < cs.len() && #[trigger] last_definition(cs, w, i) && cs[i].1 == s);
    if 0 <= a < r.len() && 0 <= x < r[a].0.len() && 0 <= b < r.len() && 0 <= y < r[b].0.len() && (a != b || x != y) {
        assert(r[a].0[x] != r[b].0[y]);
    }
}

/// The default highlighter mirrors the command line's default: with every
/// group on, no extras and no regexes of the theme, the command line builds
/// the same finders in the same order of precedence, plus the keywords
/// just before the quotes.
pub proof fn law_default_mirrors_cli()
    ensures
        expected_kinds(Set::<Base>::full(), Set::empty(), 0) == default_kinds().insert(13, FinderKind::Keyword),
{
    assert(Seq::new(0, |i: int| FinderKind::Regex) =~= Seq::<FinderKind>::empty());
    assert(expected_kinds(Set::<Base>::full(), Set::empty(), 0) =~= default_kinds().insert(13, FinderKind::Keyword));
}

/// Highlighting only adds colour: when the input holds no escape byte and
/// no finder asks for padding, deleting every escape sequence `ESC [ ... m`
/// from the output gives back the input, text neither reordered, dropped
/// nor padded.
pub proof fn law_apply_keeps_text(finders: Seq<Finder>, palette: Seq<Seq<char>>, input: &str, out: Seq<u8>)
    requires
        highlighted(finders, palette, input, out),
        forall|i: int| 0 <= i < palette.len() ==> sgr_like(#[trigger] palette[i]),
        forall|i: int| 0 <= i < bytes_of(input).len() ==> bytes_of(input)[i] != 0x1b,
        forall|k: int| 0 <= k < collected(finders, input, finders.len() as int).len()
            ==> !(#[trigger] collected(finders, input, finders.len() as int)[k]).padded,
    ensures
        strip_sgr(out) == bytes_of(input),
{
    let b = bytes_of(input);
    let spans = collected(finders, input, finders.len() as int);
    let res = choose|res: Seq<ResolvedSpan>|
        merged(b.len() as int, spans, res) && renderable(b, res, palette.len() as int)
            && out == render_spec(b, res, palette);
    assert forall|k: int| 0 <= k < res.len() implies !(#[trigger] res[k]).padded by {
        if is_padded_range(spans, res[k].start as int, res[k].end as int) {
            let m = choose|m: int| 0 <= m < spans.len() && (#[trigger] spans[m]).padded && spans[m].start == res[k].start
                && spans[m].end == res[k].end;
            assert(!spans[m].padded);
        }
    }
    assert forall|k: int| 0 <= k < res.len() implies sgr_like(palette[(#[trigger] res[k]).style.0 as int]) by {
        assert((res[k].style.0 as int) < palette.len());
    }
    law_render_keeps_text(b, res, palette);
}

/// Spans that cover a common byte have different priorities.
pub open spec fn distinct_priorities(spans: Seq<Span>) -> bool {
    forall|j: int, k: int, i: int|
        0 <= j < spans.len() && 0 <= k < spans.len() && j != k && #[trigger] covers(spans[j], i) && #[trigger] covers(
            spans[k],
            i,
        ) ==> spans[j].priority != spans[k].priority
}

/// The winner of a byte is a covering span of the lowest priority.
proof fn lemma_winner_min(spans: Seq<Span>, i: int)
    ensures
        winner(spans, i) matches Some(w) ==> exists|m: int|
            0 <= m < spans.len() && covers(#[trigger] spans[m], i) && spans[m].style == w.0 && spans[m].priority == w.1
                && forall|j: int| 0 <= j < spans.len() && covers(#[trigger] spans[j], i) ==> w.1 <= spans[j].priority,
    decreases spans.len(),
{
    if spans.len() > 0 {
        let d = spans.drop_last();
        lemma_winner_min(d, i);
        lemma_winner_covered(d, i);
        let last = spans.len() - 1;
        let w = winner(d, i);
        if winner(spans, i) is Some {
            let ww = winner(spans, i)->Some_0;
            if covers(spans[last], i) && (w is None || spans[last].priority < w->Some_0.1) {
                assert forall|j: int| 0 <= j < spans.len() && covers(#[trigger] spans[j], i) implies ww.1 <= spans[j].priority by {
                    if j < last {
                        assert(d[j] == spans[j]);
                        assert(covered(d, i));
                    }
                }
                assert(covers(spans[last], i) && spans[last].style == ww.0 && spans[last].priority == ww.1);
            } else {
                let m = choose|m: int|
                    0 <= m < d.len() && covers(#[trigger] d[m], i) && d[m].style == ww.0 && d[m].priority == ww.1
                        && forall|j: int| 0 <= j < d.len() && covers(#[trigger] d[j], i) ==> ww.1 <= d[j].priority;
                assert(spans[m] == d[m]);
                assert forall|j: int| 0 <= j < spans.len() && covers(#[trigger] spans[j], i) implies ww.1 <= spans[j].priority by {
                    if j < last {
                        assert(d[j] == spans[j]);
                    }
                }
            }
        }
    }
}

/// Two lists holding the same spans, overlapping ones of different
/// priorities, give every byte the same winner.
proof fn lemma_winner_same(s1: Seq<Span>, s2: Seq<Span>, i: int)
    requires
        forall|x: Span| s1.contains(x) <==> s2.contains(x),
        distinct_priorities(s1),
    ensures
        winner(s1, i) == winner(s2, i),
{
    lemma_winner_covered(s1, i);
    lemma_winner_covered(s2, i);
    lemma_winner_min(s1, i);
    lemma_winner_min(s2, i);
    if covered(s1, i) {
        let m = choose|m: int| 0 <= m < s1.len() && covers(#[trigger] s1[m], i);
        assert(s1.contains(s1[m]));
        let m2 = choose|m2: int| 0 <= m2 < s2.len() && s2[m2] == s1[m];
        assert(covered(s2, i));
    }
    if covered(s2, i) {
        let m = choose|m: int| 0 <= m < s2.len() && covers(#[trigger] s2[m], i);
        assert(s2.contains(s2[m]));
        let m1 = choose|m1: int| 0 <= m1 < s1.len() && s1[m1] == s2[m];
        assert(covered(s1, i));
    }
    if covered(s1, i) {
        let w1 = winner(s1, i)->Some_0;
        let w2 = winner(s2, i)->Some_0;
        let a = choose|m: int|
            0 <= m < s1.len() && covers(#[trigger] s1[m], i) && s1[m].style == w1.0 && s1[m].priority == w1.1
                && forall|j: int| 0 <= j < s1.len() && covers(#[trigger] s1[j], i) ==> w1.1 <= s1[j].priority;
        let b = choose|m: int|
            0 <= m < s2.len() && covers(#[trigger] s2[m], i) && s2[m].style == w2.0 && s2[m].priority == w2.1
                && forall|j: int| 0 <= j < s2.len() && covers(#[trigger] s2[j], i) ==> w2.1 <= s2[j].priority;
        assert(s1.contains(s1[a]));
        assert(s2.contains(s2[b]));
        let a2 = choose|k: int| 0 <= k < s2.len() && s2[k] == s1[a];
        let b1 = choose|k: int| 0 <= k < s1.len() && s1[k] == s2[b];
        assert(w1.1 <= s1[b1].priority);
        assert(w2.1 <= s2[a2].priority);
        if a != b1 {
            assert(covers(s1[a], i) && covers(s1[b1], i));
            assert(s1[a].priority != s1[b1].priority);
        }
    }
}

proof fn lemma_sorted_before(n: int, s: Seq<Span>, r: Seq<ResolvedSpan>, j: int, m: int)
    requires
        merged(n, s, r),
        0 <= j < m < r.len(),
    ensures
        r[j].end <= r[m].start,
    decreases m - j,
{
    if j + 1 < m {
        lemma_sorted_before(n, s, r, j + 1, m);
        assert(r[j].end <= r[j + 1].start);
        assert(r[j + 1].start < r[j + 1].end);
    } else {
        assert(r[j].end <= r[j + 1].start);
    }
}

/// Two merge results that agree before fragment `k` agree on it.
proof fn lemma_merged_step(n: int, s: Seq<Span>, r1: Seq<ResolvedSpan>, r2: Seq<ResolvedSpan>, k: int)
    requires
        merged(n, s, r1),
        merged(n, s, r2),
        0 <= k < r1.len(),
        k < r2.len(),
        k > 0 ==> r1[k - 1] == r2[k - 1],
    ensures
        r1[k] == r2[k],
{
    let p: int = if k == 0 { 0 } else { r1[k - 1].end as int };
    if k > 0 {
        assert(r1[k - 1].end <= r1[k].start);
        assert(r2[k - 1].end <= r2[k].start);
    }
    let a1 = r1[k].start as int;
    let a2 = r2[k].start as int;
    assert(r1[k].start < r1[k].end <= n);
    assert(r2[k].start < r2[k].end <= n);
    assert(style_at(s, a1) == Some(r1[k].style));
    assert(style_at(s, a2) == Some(r2[k].style));
    if a1 < a2 {
        lemma_uncovered_before(n, s, r2, k, p, a1);
    }
    if a2 < a1 {
        lemma_uncovered_before(n, s, r1, k, p, a2);
    }
    assert(a1 == a2);
    let e1 = r1[k].end as int;
    let e2 = r2[k].end as int;
    if e1 < e2 {
        assert(style_at(s, e1) == Some(r2[k].style));
    }
    if e2 < e1 {
        assert(style_at(s, e2) == Some(r1[k].style));
    }
}

/// A byte at or after `p` (the end of fragment `k - 1`, or 0) and before
/// fragment `k` is unstyled.
proof fn lemma_uncovered_before(n: int, s: Seq<Span>, r: Seq<ResolvedSpan>, k: int, p: int, i: int)
    requires
        merged(n, s, r),
        0 <= k < r.len(),
        p == if k == 0 { 0 } else { r[k - 1].end as int },
        p <= i < r[k].start,
        i < n,
    ensures
        style_at(s, i) is None,
{
    if style_at(s, i) is None {
        return;
    }
    let m = choose|m: int| 0 <= m < r.len() && (#[trigger] r[m]).start <= i < r[m].end;
    if m < k {
        if m < k - 1 {
            lemma_sorted_before(n, s, r, m, k - 1);
            assert(r[k - 1].start < r[k - 1].end);
        }
    } else if m > k {
        lemma_sorted_before(n, s, r, k, m);
        assert(r[k].start < r[k].end);
    }
}

/// Two merge results that agree on their first `k` fragments.
proof fn lemma_merged_upto(n: int, s: Seq<Span>, r1: Seq<ResolvedSpan>, r2: Seq<ResolvedSpan>, k: int)
    requires
        merged(n, s, r1),
        merged(n, s, r2),
        0 <= k <= r1.len(),
        k <= r2.len(),
    ensures
        forall|j: int| 0 <= j < k ==> r1[j] == r2[j],
    decreases k,
{
    if k > 0 {
        lemma_merged_upto(n, s, r1, r2, k - 1);
        lemma_merged_step(n, s, r1, r2, k - 1);
    }
}

/// A merge result is determined by the spans: it is the sequence of maximal
/// runs of bytes of one winning style.
pub proof fn lemma_merged_unique(n: int, s: Seq<Span>, r1: Seq<ResolvedSpan>, r2: Seq<ResolvedSpan>)
    requires
        merged(n, s, r1),
        merged(n, s, r2),
    ensures
        r1 == r2,
{
    lemma_merged_no_longer(n, s, r1, r2);
    lemma_merged_no_longer(n, s, r2, r1);
    lemma_merged_upto(n, s, r1, r2, r1.len() as int);
    assert(r1 =~= r2);
}

proof fn lemma_merged_no_longer(n: int, s: Seq<Span>, r1: Seq<ResolvedSpan>, r2: Seq<ResolvedSpan>)
    requires
        merged(n, s, r1),
        merged(n, s, r2),
    ensures
        r2.len() <= r1.len(),
{
    if r1.len() < r2.len() {
        let l = r1.len() as int;
        lemma_merged_upto(n, s, r1, r2, l);
        let a = r2[l].start as int;
        assert(r2[l].start < r2[l].end <= n);
        assert(style_at(s, a) == Some(r2[l].style));
        let m = choose|m: int| 0 <= m < r1.len() && (#[trigger] r1[m]).start <= a < r1[m].end;
        assert(r1[m] == r2[m]);
        lemma_sorted_before(n, s, r2, m, l);
    }
}

/// Merging does not depend on the order of the spans: two lists holding the
/// same spans, where spans covering a common byte have different
/// priorities, merge into the same fragments.
pub proof fn law_merge_order_free(n: int, s1: Seq<Span>, s2: Seq<Span>, r1: Seq<ResolvedSpan>, r2: Seq<ResolvedSpan>)
    requires
        s1.to_multiset() == s2.to_multiset(),
        distinct_priorities(s1),
        merged(n, s1, r1),
        merged(n, s2, r2),
    ensures
        r1 == r2,
{
    assert forall|x: Span| s1.contains(x) <==> s2.contains(x) by {
        vstd::seq_lib::to_multiset_contains(s1, x);
        vstd::seq_lib::to_multiset_contains(s2, x);
    }
    assert forall|i: int| #[trigger] style_at(s1, i) == style_at(s2, i) by {
        lemma_winner_same(s1, s2, i);
    }
    assert forall|a: int, b: int| #[trigger] is_padded_range(s1, a, b) == is_padded_range(s2, a, b) by {
        if is_padded_range(s1, a, b) {
            let m = choose|m: int| 0 <= m < s1.len() && (#[trigger] s1[m]).padded && s1[m].start == a && s1[m].end == b;
            assert(s1.contains(s1[m]));
            let k = choose|k: int| 0 <= k < s2.len() && s2[k] == s1[m];
            assert(is_padded_range(s2, a, b));
        }
        if is_padded_range(s2, a, b) {
            let m = choose|m: int| 0 <= m < s2.len() && (#[trigger] s2[m]).padded && s2[m].start == a && s2[m].end == b;
            assert(s2.contains(s2[m]));
            let k = choose|k: int| 0 <= k < s1.len() && s1[k] == s2[m];
            assert(is_padded_range(s1, a, b));
        }
    }
    assert(merged(n, s1, r2));
    lemma_merged_unique(n, s1, r1, r2);
}

} // verus!
