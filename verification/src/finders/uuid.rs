use vstd::prelude::*;
use crate::config::UuidConfig;
use crate::finders::{build_regex, built, matches_of, pushes_ok, styles_in, flat, lemma_flat_step};
use crate::finders::classes::{HexClasses, classify_range, classify_into, hex_styles};
use crate::matching::{Pattern, find_all, range_ok, byte_positions, positions_of};
use crate::palette::{interned, resolves, Palette, StyleId, extends};
use crate::span::{Collector, Push, push_all};
use crate::text::{bytes_of, input_bytes};

verus! {

/// A UUID of hex digits in five dash-separated groups.
pub const UUID_PATTERN: &'static str = r"\b[0-9a-fA-F]{8}-[0-9a-fA-F]{4}-[0-9a-fA-F]{4}-[0-9a-fA-F]{4}-[0-9a-fA-F]{12}\b";

/// Finds UUIDs, styling digits, hex letters and dashes.
#[derive(Debug)]
pub struct UuidFinder {
    pub regex: Option<Pattern>,
    pub classes: HexClasses,
}

/// The requests of every match: each byte styled by its class.
pub open spec fn classified_matches(b: Seq<u8>, matches: Seq<(usize, usize)>, h: HexClasses) -> Seq<Push> {
    flat(matches, |m: (usize, usize)| classify_range(b, m.0 as int, m.1 as int, h))
}

/// Styles every byte of every match by its class.
pub fn classify_matches(b: &[u8], matches: &[(usize, usize)], h: HexClasses) -> (v: Vec<Push>)
    requires
        vstd::utf8::valid_utf8(b@),
        crate::text::is_ascii_byte(h.extra1),
        crate::text::is_ascii_byte(h.extra2),
        forall|k: int| 0 <= k < matches@.len() ==> range_ok(b@, #[trigger] matches@[k]),
    ensures
        v@ == classified_matches(b@, matches@, h),
        pushes_ok(b@, v@),
        styles_in(v@, hex_styles(h)),
{
    let mut v: Vec<Push> = Vec::new();
    let mut k: usize = 0;
    while k < matches.len()
        invariant
            0 <= k <= matches@.len(),
            vstd::utf8::valid_utf8(b@),
            crate::text::is_ascii_byte(h.extra1),
            crate::text::is_ascii_byte(h.extra2),
            forall|j: int| 0 <= j < matches@.len() ==> range_ok(b@, #[trigger] matches@[j]),
            v@ == classified_matches(b@, matches@.take(k as int), h),
            pushes_ok(b@, v@),
            styles_in(v@, hex_styles(h)),
        decreases matches@.len() - k,
    {
        let m = matches[k];
        assert(range_ok(b@, matches@[k as int]));
        proof {
            lemma_flat_step(matches@, |m: (usize, usize)| classify_range(b@, m.0 as int, m.1 as int, h), k as int);
        }
        classify_into(b, m.0, m.1, h, &mut v);
        k = k + 1;
    }
    assert(matches@.take(matches@.len() as int) =~= matches@);
    v
}

impl UuidFinder {
    /// The styles this finder uses.
    pub open spec fn styles(&self) -> Seq<StyleId> {
        hex_styles(self.classes)
    }

    /// What the finder needs of its own configuration.
    pub open spec fn wf(&self) -> bool {
        self.classes.extra1 == 0x2d && self.classes.extra2 == 0x2d
    }

    /// The requests for `input`: none with fewer than four dashes, otherwise
    /// every byte of every match styled by its class.
    pub open spec fn pushes(&self, input: &str) -> Seq<Push> {
        if positions_of(bytes_of(input), 0x2d).len() < 4 {
            Seq::empty()
        } else {
            classified_matches(bytes_of(input), matches_of(self.regex, input@), self.classes)
        }
    }

    /// Built from `config`, with each configured style interned in `palette`.
    pub open spec fn made_from(&self, config: UuidConfig, palette: Seq<Seq<char>>) -> bool {
        &&& built(self.regex, UUID_PATTERN@)
        &&& resolves(palette, self.classes.number, config.number)
        &&& resolves(palette, self.classes.letter, config.letter)
        &&& resolves(palette, self.classes.extra, config.separator)
    }

    /// A UUID finder with the configured styles.
    pub fn new(config: UuidConfig, palette: &mut Palette) -> (f: UuidFinder)
        requires
            old(palette).wf(),
            interned(interned(interned(old(palette)@, config.number), config.letter), config.separator).len() <= 0x10000,
        ensures
            final(palette).wf(),
            final(palette)@ == interned(interned(interned(old(palette)@, config.number), config.letter), config.separator),
            f.made_from(config, final(palette)@),
            f.wf(),
            extends(final(palette)@, old(palette)@, 3),
            forall|k: int| 0 <= k < f.styles().len() ==> (f.styles()[k].0 as int) < final(palette)@.len(),
    {
        proof {
            reveal(interned);
        }
        let number = palette.intern(config.number);
        let letter = palette.intern(config.letter);
        let extra = palette.intern(config.separator);
        UuidFinder { regex: build_regex(UUID_PATTERN), classes: HexClasses { number, letter, extra1: 0x2d, extra2: 0x2d, extra } }
    }

    /// Pushes a span per styled byte of every UUID.
    pub fn find_spans(&self, input: &str, collector: &mut Collector)
        requires
            self.wf(),
        ensures
            final(collector)@ == push_all(old(collector)@, self.pushes(input)),
            pushes_ok(bytes_of(input), self.pushes(input)),
            styles_in(self.pushes(input), self.styles()),
    {
        let b = input_bytes(input);
        let dashes = byte_positions(0x2d, b);
        if dashes.len() < 4 {
            collector.push_each(&[]);
            return;
        }
        match &self.regex {
            Some(p) => {
                let ms = find_all(p, input);
                let v = classify_matches(b, ms.as_slice(), self.classes);
                collector.push_each(v.as_slice());
            },
            None => {
                collector.push_each(&[]);
            },
        }
    }
}

} // verus!
