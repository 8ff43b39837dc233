use vstd::prelude::*;
use crate::config::QuoteConfig;
use crate::finders::{pushes_ok, push_ok, styles_in};
use crate::matching::{byte_positions, positions_of};
use crate::palette::{interned, can_intern, intern_spec, resolves, Palette, extends, StyleId};
use crate::span::{Collector, Push, push_all, plain};
use crate::text::{bytes_of, input_bytes, is_ascii_byte, lemma_after_ascii, lemma_ascii_on_boundary};
use vstd::utf8::valid_utf8;

verus! {

/// Finds regions between pairs of a quote byte.
#[derive(Debug)]
pub struct QuoteFinder {
    pub quote_token: u8,
    pub style: StyleId,
}

/// With an even number (at least two) of quote positions, one request per
/// consecutive pair, from the opening quote through the closing one;
/// otherwise none.
pub open spec fn quote_pushes(positions: Seq<usize>, style: StyleId) -> Seq<Push> {
    if positions.len() < 2 || positions.len() % 2 == 1 {
        Seq::empty()
    } else {
        Seq::new(positions.len() / 2, |i: int| plain(positions[2 * i] as int, positions[2 * i + 1] + 1, style))
    }
}

proof fn lemma_positions_of(haystack: Seq<u8>, needle: u8)
    requires
        haystack.len() <= usize::MAX,
    ensures
        forall|k: int| 0 <= k < positions_of(haystack, needle).len() ==> (#[trigger] positions_of(haystack, needle)[k]) < haystack.len()
            && haystack[positions_of(haystack, needle)[k] as int] == needle,
    decreases haystack.len(),
{
    if haystack.len() > 0 {
        let d = haystack.drop_last();
        lemma_positions_of(d, needle);
        let rest = positions_of(d, needle);
        let p = positions_of(haystack, needle);
        assert forall|k: int| 0 <= k < p.len() implies (#[trigger] p[k]) < haystack.len() && haystack[p[k] as int] == needle by {
            if k < rest.len() {
                assert(p[k] == rest[k]);
                assert(d[rest[k] as int] == haystack[rest[k] as int]);
            } else {
                assert(haystack.last() == needle);
                assert(p[k] == (haystack.len() - 1) as usize);
            }
        }
    }
}

impl QuoteFinder {
    /// The styles this finder uses.
    pub open spec fn styles(&self) -> Seq<StyleId> {
        seq![self.style]
    }

    /// The requests for `input`: one per pair of quote bytes when the quote
    /// is an ASCII byte; none for any other byte, since a one-byte span of a
    /// non-ASCII byte never lies on character boundaries.
    pub open spec fn pushes(&self, input: &str) -> Seq<Push> {
        if is_ascii_byte(self.quote_token) {
            quote_pushes(positions_of(bytes_of(input), self.quote_token), self.style)
        } else {
            Seq::empty()
        }
    }

    /// Built from `config`, with each configured style interned in `palette`.
    pub open spec fn made_from(&self, config: QuoteConfig, palette: Seq<Seq<char>>) -> bool {
        &&& self.quote_token == config.quote_token
        &&& resolves(palette, self.style, config.style)
    }

    /// A quote finder for the configured quote byte: the palette gains the
    /// style's prefix exactly when it did not have it.
    pub fn new(config: QuoteConfig, palette: &mut Palette) -> (f: QuoteFinder)
        requires
            old(palette).wf(),
            can_intern(old(palette)@, config.style),
        ensures
            final(palette).wf(),
            final(palette)@ == interned(old(palette)@, config.style),
            (final(palette)@, f.style.0 as int) == intern_spec(old(palette)@, config.style),
            f.made_from(config, final(palette)@),
            extends(final(palette)@, old(palette)@, 1),
            forall|k: int| 0 <= k < f.styles().len() ==> (f.styles()[k].0 as int) < final(palette)@.len(),
    {
        proof {
            reveal(interned);
        }
        let style = palette.intern(config.style);
        QuoteFinder { quote_token: config.quote_token, style }
    }

    /// Pushes one span per pair of quotes.
    pub fn find_spans(&self, input: &str, collector: &mut Collector)
        ensures
            final(collector)@ == push_all(old(collector)@, self.pushes(input)),
            pushes_ok(bytes_of(input), self.pushes(input)),
            styles_in(self.pushes(input), self.styles()),
    {
        if !(self.quote_token < 0x80) {
            collector.push_each(&[]);
            return;
        }
        let b = input_bytes(input);
        let positions = byte_positions(self.quote_token, b);
        let ps = quote_pushes_of(b, positions.as_slice(), self.quote_token, self.style);
        collector.push_each(ps.as_slice());
    }
}

/// The requests for the quote positions of `b`.
pub fn quote_pushes_of(b: &[u8], positions: &[usize], token: u8, style: StyleId) -> (v: Vec<Push>)
    requires
        positions@ == positions_of(b@, token),
        valid_utf8(b@),
        is_ascii_byte(token),
    ensures
        v@ == quote_pushes(positions@, style),
        pushes_ok(b@, v@),
        styles_in(v@, seq![style]),
{
    let n = positions.len();
    let blen = b.len();
    let mut v: Vec<Push> = Vec::new();
    if n < 2 || n % 2 == 1 {
        assert(v@ =~= quote_pushes(positions@, style));
        return v;
    }
    proof {
        lemma_positions_of(b@, token);
    }
    let mut k: usize = 0;
    while k < n / 2
        invariant
            n == positions@.len(),
            blen == b@.len(),
            n >= 2 && n % 2 == 0,
            0 <= k <= n / 2,
            positions@ == positions_of(b@, token),
            valid_utf8(b@),
            is_ascii_byte(token),
            forall|j: int| 0 <= j < n ==> (#[trigger] positions@[j]) < b@.len() && b@[positions@[j] as int] == token,
            v@ =~= quote_pushes(positions@, style).take(k as int),
            pushes_ok(b@, v@),
            styles_in(v@, seq![style]),
        decreases n / 2 - k,
    {
        let open = positions[2 * k];
        let close = positions[2 * k + 1];
        proof {
            assert(b@[open as int] == token && b@[close as int] == token);
            lemma_ascii_on_boundary(b@, open as int);
            lemma_after_ascii(b@, close as int);
            assert(seq![style][0] == style);
        }
        let ghost before = v@;
        v.push(Push { start: open, end: close + 1, style, padded: false });
        proof {
            assert forall|j: int| 0 <= j < v@.len() implies push_ok(b@, #[trigger] v@[j]) && seq![style].contains(v@[j].style) by {
                if j < before.len() {
                    assert(v@[j] == before[j]);
                }
            }
        }
        k = k + 1;
    }
    v
}

} // verus!
