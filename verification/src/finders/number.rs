use vstd::prelude::*;
use crate::config::NumberConfig;
use crate::finders::{build_regex, built, matches_of, pushes_ok, push_ok, styles_in, flat, lemma_flat_step};
use crate::matching::{Pattern, find_all, range_ok};
use crate::palette::{interned, resolves, Palette, extends, StyleId};
use crate::span::{Collector, Push, push_all, plain};
use crate::text::{bytes_of, input_bytes};

verus! {

/// A whole-word integer with an optional fractional part.
pub const NUMBER_PATTERN: &'static str = r"\b\d+(?:\.\d+)?\b";

/// An ASCII digit.
pub open spec fn is_digit(c: u8) -> bool {
    0x30 <= c <= 0x39
}

/// Whether some byte of `b` is an ASCII digit.
pub open spec fn has_digit(b: Seq<u8>) -> bool {
    exists|i: int| 0 <= i < b.len() && is_digit(b[i])
}

/// Whether some byte is an ASCII digit.
pub fn contains_digit(b: &[u8]) -> (r: bool)
    ensures
        r == has_digit(b@),
{
    let mut i: usize = 0;
    while i < b.len()
        invariant
            0 <= i <= b@.len(),
            forall|j: int| 0 <= j < i ==> !is_digit(b@[j]),
        decreases b@.len() - i,
    {
        if b[i] >= 0x30 && b[i] <= 0x39 {
            return true;
        }
        i = i + 1;
    }
    false
}

/// Finds numbers.
#[derive(Debug)]
pub struct NumberFinder {
    pub regex: Option<Pattern>,
    pub style: StyleId,
}

/// One plain request per match.
pub open spec fn number_pushes(matches: Seq<(usize, usize)>, style: StyleId) -> Seq<Push> {
    flat(matches, |m: (usize, usize)| seq![plain(m.0 as int, m.1 as int, style)])
}

/// One plain request per match, for each match of the number expression.
pub fn number_pushes_of(matches: &[(usize, usize)], style: StyleId) -> (v: Vec<Push>)
    ensures
        v@ == number_pushes(matches@, style),
{
    let mut v: Vec<Push> = Vec::new();
    let mut k: usize = 0;
    while k < matches.len()
        invariant
            0 <= k <= matches@.len(),
            v@ == number_pushes(matches@.take(k as int), style),
        decreases matches@.len() - k,
    {
        let m = matches[k];
        proof {
            lemma_flat_step(matches@, |m: (usize, usize)| seq![plain(m.0 as int, m.1 as int, style)], k as int);
        }
        v.push(Push { start: m.0, end: m.1, style, padded: false });
        assert(v@ =~= number_pushes(matches@.take(k + 1), style));
        k = k + 1;
    }
    assert(matches@.take(matches@.len() as int) =~= matches@);
    v
}

impl NumberFinder {
    /// The styles this finder uses.
    pub open spec fn styles(&self) -> Seq<StyleId> {
        seq![self.style]
    }

    /// The requests for `input`: none when it has no digit, otherwise one
    /// per match of the number expression.
    pub open spec fn pushes(&self, input: &str) -> Seq<Push> {
        if !has_digit(bytes_of(input)) {
            Seq::empty()
        } else {
            number_pushes(matches_of(self.regex, input@), self.style)
        }
    }

    /// Built from `config`, with each configured style interned in `palette`.
    pub open spec fn made_from(&self, config: NumberConfig, palette: Seq<Seq<char>>) -> bool {
        &&& built(self.regex, NUMBER_PATTERN@)
        &&& resolves(palette, self.style, config.style)
    }

    /// A number finder with the configured style.
    pub fn new(config: NumberConfig, palette: &mut Palette) -> (f: NumberFinder)
        requires
            old(palette).wf(),
            interned(old(palette)@, config.style).len() <= 0x10000,
        ensures
            final(palette).wf(),
            final(palette)@ == interned(old(palette)@, config.style),
            f.made_from(config, final(palette)@),
            extends(final(palette)@, old(palette)@, 1),
            forall|k: int| 0 <= k < f.styles().len() ==> (f.styles()[k].0 as int) < final(palette)@.len(),
    {
        proof {
            reveal(interned);
        }
        let style = palette.intern(config.style);
        NumberFinder { regex: build_regex(NUMBER_PATTERN), style }
    }

    /// Pushes one span per number in `input`.
    pub fn find_spans(&self, input: &str, collector: &mut Collector)
        ensures
            final(collector)@ == push_all(old(collector)@, self.pushes(input)),
            pushes_ok(bytes_of(input), self.pushes(input)),
            styles_in(self.pushes(input), self.styles()),
    {
        let ps = self.pushes_for(input);
        collector.push_each(ps.as_slice());
    }

    /// The requests for `input`.
    pub fn pushes_for(&self, input: &str) -> (v: Vec<Push>)
        ensures
            v@ == self.pushes(input),
            pushes_ok(bytes_of(input), v@),
            styles_in(v@, self.styles()),
    {
        let b = input_bytes(input);
        if !contains_digit(b) {
            return Vec::new();
        }
        match &self.regex {
            Some(p) => {
                let ms = find_all(p, input);
                let v = number_pushes_of(ms.as_slice(), self.style);
                proof {
                    lemma_number_pushes_ok(bytes_of(input), ms@, self.style);
                }
                v
            },
            None => Vec::new(),
        }
    }
}

proof fn lemma_number_pushes_ok(b: Seq<u8>, ms: Seq<(usize, usize)>, style: StyleId)
    requires
        forall|k: int| 0 <= k < ms.len() ==> range_ok(b, #[trigger] ms[k]),
    ensures
        pushes_ok(b, number_pushes(ms, style)),
        styles_in(number_pushes(ms, style), seq![style]),
    decreases ms.len(),
{
    if ms.len() > 0 {
        let d = ms.drop_last();
        assert forall|k: int| 0 <= k < d.len() implies range_ok(b, #[trigger] d[k]) by {
            assert(d[k] == ms[k]);
        }
        lemma_number_pushes_ok(b, d, style);
        assert(range_ok(b, ms[ms.len() - 1]));
        let ps = number_pushes(ms, style);
        assert(seq![style].contains(style)) by {
            assert(seq![style][0] == style);
        }
        assert forall|k: int| 0 <= k < ps.len() implies push_ok(b, #[trigger] ps[k]) && seq![style].contains(ps[k].style) by {
            if k < ps.len() - 1 {
                assert(ps[k] == number_pushes(d, style)[k]);
            }
        }
    }
}

} // verus!
