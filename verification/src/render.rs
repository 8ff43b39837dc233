use vstd::prelude::*;
use vstd::utf8::*;
use std::borrow::Cow;
use crate::merge::ResolvedSpan;
use crate::palette::Palette;
use crate::style::{reset_code, sgr_like};
use crate::text::{bytes_of, on_boundary, substring, append_str, lemma_zero_on_boundary, str_len};

verus! {

broadcast use vstd::utf8::encode_utf8_valid_utf8;

/// One space when `padded`, nothing otherwise.
pub open spec fn pad(padded: bool) -> Seq<u8> {
    if padded {
        seq![0x20u8]
    } else {
        Seq::empty()
    }
}

/// Where the text before span `k` begins: the end of the previous span.
pub open spec fn gap_start(spans: Seq<ResolvedSpan>, k: int) -> int {
    if k == 0 {
        0
    } else {
        spans[k - 1].end as int
    }
}

/// The output for span `k`: the unstyled text since the previous span, the
/// style's prefix, the span text (inside spaces when padded), and a reset.
pub open spec fn piece(input: Seq<u8>, spans: Seq<ResolvedSpan>, prefixes: Seq<Seq<char>>, k: int) -> Seq<u8> {
    let s = spans[k];
    input.subrange(gap_start(spans, k), s.start as int) + encode_utf8(prefixes[s.style.0 as int]) + pad(
        s.padded,
    ) + input.subrange(s.start as int, s.end as int) + pad(s.padded) + encode_utf8(reset_code())
}

/// The output for the first `k` spans.
pub open spec fn render_upto(input: Seq<u8>, spans: Seq<ResolvedSpan>, prefixes: Seq<Seq<char>>, k: int) -> Seq<u8>
    decreases k,
{
    if k <= 0 {
        Seq::empty()
    } else {
        render_upto(input, spans, prefixes, k - 1) + piece(input, spans, prefixes, k - 1)
    }
}

/// The rendered bytes: every span styled in order, the remaining text
/// copied unchanged.
pub open spec fn render_spec(input: Seq<u8>, spans: Seq<ResolvedSpan>, prefixes: Seq<Seq<char>>) -> Seq<u8> {
    render_upto(input, spans, prefixes, spans.len() as int) + input.subrange(
        gap_start(spans, spans.len() as int),
        input.len() as int,
    )
}

/// Spans are sorted, disjoint, on character boundaries, and name palette
/// entries.
pub open spec fn renderable(input: Seq<u8>, spans: Seq<ResolvedSpan>, palette_len: int) -> bool {
    &&& forall|k: int| 0 <= k < spans.len() ==> (#[trigger] spans[k]).start <= spans[k].end <= input.len()
    &&& forall|k: int| 0 <= k < spans.len() - 1 ==> (#[trigger] spans[k]).end <= spans[k + 1].start
    &&& forall|k: int|
        0 <= k < spans.len() ==> on_boundary(input, (#[trigger] spans[k]).start as int) && on_boundary(
            input,
            spans[k].end as int,
        )
    &&& forall|k: int| 0 <= k < spans.len() ==> ((#[trigger] spans[k]).style.0 as int) < palette_len
}


/// The index of the first `m` in `b` at or after `i`, or -1 when there is
/// none.
pub open spec fn esc_end(b: Seq<u8>, i: int) -> int
    decreases b.len() - i,
{
    if i < 0 || i >= b.len() {
        -1
    } else if b[i] == 0x6d {
        i
    } else {
        esc_end(b, i + 1)
    }
}

pub proof fn lemma_esc_end(b: Seq<u8>, i: int)
    requires
        0 <= i,
    ensures
        esc_end(b, i) == -1 || (i <= esc_end(b, i) < b.len() && b[esc_end(b, i)] == 0x6d),
    decreases b.len() - i,
{
    if i < b.len() && b[i] != 0x6d {
        lemma_esc_end(b, i + 1);
    }
}

/// `b` starts an escape sequence `ESC [` that some `m` closes.
pub open spec fn starts_sgr(b: Seq<u8>) -> bool {
    b.len() >= 2 && b[0] == 0x1b && b[1] == 0x5b && esc_end(b, 2) >= 0
}

/// `b` with every escape sequence `ESC [ ... m` deleted.
pub open spec fn strip_sgr(b: Seq<u8>) -> Seq<u8>
    decreases b.len(),
{
    if b.len() == 0 {
        Seq::empty()
    } else if starts_sgr(b) {
        proof {
            lemma_esc_end(b, 2);
        }
        strip_sgr(b.subrange(esc_end(b, 2) + 1, b.len() as int))
    } else {
        seq![b[0]] + strip_sgr(b.drop_first())
    }
}

/// Deleting escape sequences from `b` never stops inside one, so what
/// follows `b` is read on its own.
pub open spec fn closed(b: Seq<u8>) -> bool
    decreases b.len(),
{
    if b.len() == 0 {
        true
    } else if starts_sgr(b) {
        proof {
            lemma_esc_end(b, 2);
        }
        closed(b.subrange(esc_end(b, 2) + 1, b.len() as int))
    } else {
        &&& b[0] != 0x1b
        &&& closed(b.drop_first())
    }
}

proof fn lemma_esc_end_prefix(a: Seq<u8>, c: Seq<u8>, i: int)
    requires
        0 <= i,
        esc_end(a, i) >= 0,
    ensures
        esc_end(a + c, i) == esc_end(a, i),
    decreases a.len() - i,
{
    lemma_esc_end(a, i);
    if a[i] != 0x6d {
        lemma_esc_end_prefix(a, c, i + 1);
    }
}

/// Deleting escape sequences from a closed text followed by another works
/// piece by piece, and closed texts stay closed when joined.
pub proof fn lemma_strip_concat(a: Seq<u8>, c: Seq<u8>)
    requires
        closed(a),
    ensures
        strip_sgr(a + c) == strip_sgr(a) + strip_sgr(c),
        closed(c) ==> closed(a + c),
    decreases a.len(),
{
    let ac = a + c;
    if a.len() == 0 {
        assert(ac =~= c);
    } else if starts_sgr(a) {
        lemma_esc_end(a, 2);
        lemma_esc_end_prefix(a, c, 2);
        let j = esc_end(a, 2);
        let rest = a.subrange(j + 1, a.len() as int);
        lemma_strip_concat(rest, c);
        assert(ac[0] == a[0] && ac[1] == a[1]);
        assert(starts_sgr(ac));
        assert(ac.subrange(j + 1, ac.len() as int) =~= rest + c);
    } else {
        let rest = a.drop_first();
        lemma_strip_concat(rest, c);
        assert(ac[0] == a[0]);
        assert(!starts_sgr(ac));
        assert(ac.drop_first() =~= rest + c);
        assert(strip_sgr(ac) == seq![a[0]] + strip_sgr(rest + c));
        assert(seq![a[0]] + (strip_sgr(rest) + strip_sgr(c)) =~= seq![a[0]] + strip_sgr(rest) + strip_sgr(c));
    }
}

/// A text without the escape byte is closed and kept whole.
pub proof fn lemma_strip_plain(t: Seq<u8>)
    requires
        forall|i: int| 0 <= i < t.len() ==> t[i] != 0x1b,
    ensures
        closed(t),
        strip_sgr(t) == t,
    decreases t.len(),
{
    if t.len() > 0 {
        let rest = t.drop_first();
        assert forall|i: int| 0 <= i < rest.len() implies rest[i] != 0x1b by {
            assert(rest[i] == t[i + 1]);
        }
        lemma_strip_plain(rest);
        assert(seq![t[0]] + rest =~= t);
    }
}

/// A style prefix is closed and deleted whole.
pub proof fn lemma_strip_prefix(p: Seq<char>)
    requires
        sgr_like(p),
    ensures
        closed(encode_utf8(p)),
        strip_sgr(encode_utf8(p)) == Seq::<u8>::empty(),
{
    let b = encode_utf8(p);
    if p.len() == 0 {
        assert(b.len() == 0) by {
            is_ascii_chars_encode_utf8(p);
        }
        assert(b =~= Seq::<u8>::empty());
    } else {
        let params = p.subrange(2, p.len() - 1);
        assert forall|i: int| 0 <= i < p.len() implies '\0' <= #[trigger] p[i] <= '\u{7f}' by {
            if 2 <= i < p.len() - 1 {
                assert(params[i - 2] == p[i]);
            }
        }
        is_ascii_chars_encode_utf8(p);
        assert(b[0] == 0x1b && b[1] == 0x5b);
        let n = p.len() - 1;
        assert(b[n] == 0x6d);
        assert forall|k: int| 2 <= k < n implies #[trigger] b[k] != 0x6d by {
            assert(params[k - 2] == p[k]);
            assert(b[k] == p[k] as u8);
        }
        lemma_esc_end_at(b, 2, n);
        assert(b.len() == p.len());
        assert(starts_sgr(b));
        let rest = b.subrange(n + 1, b.len() as int);
        assert(rest =~= Seq::<u8>::empty());
        assert(strip_sgr(rest) =~= Seq::<u8>::empty());
        assert(closed(rest));
    }
}

proof fn lemma_esc_end_at(b: Seq<u8>, i: int, j: int)
    requires
        0 <= i <= j < b.len(),
        b[j] == 0x6d,
        forall|k: int| i <= k < j ==> #[trigger] b[k] != 0x6d,
    ensures
        esc_end(b, i) == j,
    decreases j - i,
{
    if i < j {
        lemma_esc_end_at(b, i + 1, j);
    }
}

/// The reset sequence is closed and deleted whole.
pub proof fn lemma_strip_reset()
    ensures
        closed(encode_utf8(reset_code())),
        strip_sgr(encode_utf8(reset_code())) == Seq::<u8>::empty(),
{
    assert(sgr_like(reset_code())) by {
        assert(reset_code().subrange(2, 3) =~= seq!['0']);
    }
    lemma_strip_prefix(reset_code());
}

/// The spans are sorted, disjoint, within `input`, unpadded, and name
/// prefixes that are empty or one escape sequence.
pub open spec fn plain_spans(input: Seq<u8>, spans: Seq<ResolvedSpan>, prefixes: Seq<Seq<char>>) -> bool {
    &&& forall|k: int| 0 <= k < spans.len() ==> (#[trigger] spans[k]).start <= spans[k].end <= input.len()
    &&& forall|k: int| 0 <= k < spans.len() - 1 ==> (#[trigger] spans[k]).end <= spans[k + 1].start
    &&& forall|k: int| 0 <= k < spans.len() ==> !(#[trigger] spans[k]).padded
    &&& forall|k: int| 0 <= k < spans.len() ==> sgr_like(prefixes[(#[trigger] spans[k]).style.0 as int])
}

proof fn lemma_strip_upto(input: Seq<u8>, spans: Seq<ResolvedSpan>, prefixes: Seq<Seq<char>>, k: int)
    requires
        forall|i: int| 0 <= i < input.len() ==> input[i] != 0x1b,
        plain_spans(input, spans, prefixes),
        0 <= k <= spans.len(),
    ensures
        closed(render_upto(input, spans, prefixes, k)),
        strip_sgr(render_upto(input, spans, prefixes, k)) == input.subrange(0, gap_start(spans, k)),
        0 <= gap_start(spans, k) <= input.len(),
    decreases k,
{
    if k == 0 {
        assert(strip_sgr(Seq::<u8>::empty()) =~= input.subrange(0, 0));
    } else {
        lemma_strip_upto(input, spans, prefixes, k - 1);
        let sp = spans[k - 1];
        let gs = gap_start(spans, k - 1);
        if k >= 2 {
            assert(spans[k - 2].end <= spans[k - 1].start);
        }
        let g = input.subrange(gs, sp.start as int);
        let t = input.subrange(sp.start as int, sp.end as int);
        let pr = encode_utf8(prefixes[sp.style.0 as int]);
        let rs = encode_utf8(reset_code());
        assert forall|i: int| 0 <= i < g.len() implies g[i] != 0x1b by {
            assert(g[i] == input[gs + i]);
        }
        assert forall|i: int| 0 <= i < t.len() implies t[i] != 0x1b by {
            assert(t[i] == input[sp.start + i]);
        }
        lemma_strip_plain(g);
        lemma_strip_plain(t);
        lemma_strip_prefix(prefixes[sp.style.0 as int]);
        lemma_strip_reset();
        lemma_strip_concat(g, pr);
        lemma_strip_concat(g + pr, t);
        lemma_strip_concat(g + pr + t, rs);
        let pc = piece(input, spans, prefixes, k - 1);
        assert(pc =~= g + pr + t + rs);
        assert(strip_sgr(pc) =~= g + t);
        let before = render_upto(input, spans, prefixes, k - 1);
        lemma_strip_concat(before, pc);
        assert(render_upto(input, spans, prefixes, k) == before + pc);
        assert(input.subrange(0, gs) + (g + t) =~= input.subrange(0, sp.end as int));
    }
}

/// Rendering only adds escape sequences: when the input has no escape
/// byte and no span is padded, deleting every escape sequence `ESC [ ... m`
/// from the output gives back the input.
pub proof fn law_render_keeps_text(input: Seq<u8>, spans: Seq<ResolvedSpan>, prefixes: Seq<Seq<char>>)
    requires
        forall|i: int| 0 <= i < input.len() ==> input[i] != 0x1b,
        plain_spans(input, spans, prefixes),
    ensures
        strip_sgr(render_spec(input, spans, prefixes)) == input,
{
    let n = spans.len() as int;
    lemma_strip_upto(input, spans, prefixes, n);
    let gs = gap_start(spans, n);
    let tail = input.subrange(gs, input.len() as int);
    assert forall|i: int| 0 <= i < tail.len() implies tail[i] != 0x1b by {
        assert(tail[i] == input[gs + i]);
    }
    lemma_strip_plain(tail);
    lemma_strip_concat(render_upto(input, spans, prefixes, n), tail);
    assert(input.subrange(0, gs) + tail =~= input);
}

fn reset_str() -> (r: &'static str)
    ensures
        bytes_of(r) == encode_utf8(reset_code()),
{
    proof {
        reveal_strlit("\x1b[0m");
    }
    assert("\x1b[0m"@ =~= reset_code());
    "\x1b[0m"
}

fn space_str() -> (r: &'static str)
    ensures
        bytes_of(r) == pad(true),
{
    proof {
        reveal_strlit(" ");
    }
    assert(" "@ =~= seq![' ']);
    assert(encode_utf8(seq![' ']) =~= seq![0x20u8]) by {
        is_ascii_chars_encode_utf8(seq![' ']);
    }
    " "
}

/// Renders the input with resolved spans into ANSI-styled text; borrows the
/// input unchanged when there is no span.
pub fn render<'a>(input: &'a str, spans: &[ResolvedSpan], palette: &Palette) -> (out: Cow<'a, str>)
    requires
        renderable(bytes_of(input), spans@, palette@.len() as int),
    ensures
        encode_utf8(out@) == render_spec(bytes_of(input), spans@, palette@),
        (spans@.len() == 0) == (out matches Cow::Borrowed(_)),
{
    let ghost b = bytes_of(input);
    let ghost pv = palette@;
    if spans.len() == 0 {
        assert(b.subrange(0, b.len() as int) =~= b);
        assert(render_spec(b, spans@, pv) =~= b);
        return Cow::Borrowed(input);
    }
    let mut output = String::new();
    let mut pos: usize = 0;
    proof {
        lemma_zero_on_boundary(b);
    }
    let mut k: usize = 0;
    assert(encode_utf8(output@) =~= Seq::<u8>::empty());
    while k < spans.len()
        invariant
            b == bytes_of(input),
            pv == palette@,
            renderable(b, spans@, pv.len() as int),
            0 <= k <= spans@.len(),
            pos == gap_start(spans@, k as int),
            on_boundary(b, pos as int),
            k < spans@.len() ==> pos <= spans@[k as int].start,
            encode_utf8(output@) == render_upto(b, spans@, pv, k as int),
        decreases spans@.len() - k,
    {
        let span = spans[k];
        let ghost before = encode_utf8(output@);
        append_str(&mut output, substring(input, pos, span.start));
        append_str(&mut output, palette.prefix(span.style));
        if span.padded {
            append_str(&mut output, space_str());
        }
        append_str(&mut output, substring(input, span.start, span.end));
        if span.padded {
            append_str(&mut output, space_str());
        }
        append_str(&mut output, reset_str());
        proof {
            assert(encode_utf8(output@) =~= before + piece(b, spans@, pv, k as int));
        }
        pos = span.end;
        k = k + 1;
    }
    assert(pos <= b.len()) by {
        assert(spans@[spans@.len() - 1].end <= b.len());
    }
    let n = str_len(input);
    assert(on_boundary(b, n as int));
    append_str(&mut output, substring(input, pos, n));
    proof {
        assert(encode_utf8(output@) =~= render_spec(b, spans@, pv));
    }
    Cow::Owned(output)
}

} // verus!
