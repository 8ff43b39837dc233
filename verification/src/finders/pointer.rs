use vstd::prelude::*;
use crate::config::PointerConfig;
use crate::finders::{build_regex, built, matches_of, pushes_ok, styles_in};
use crate::finders::classes::{HexClasses, hex_styles};
use crate::finders::uuid::{classified_matches, classify_matches};
use crate::matching::find_either_byte;
use crate::matching::{Pattern, find_all};
use crate::palette::{interned, resolves, Palette, StyleId, extends};
use crate::span::{Collector, Push, push_all};
use crate::text::{bytes_of, input_bytes};

verus! {

/// `0x` followed by 8 or 16 hex digits, case-insensitive.
pub const POINTER_PATTERN: &'static str = r"(?i)\b0x(?:[0-9a-f]{16}|[0-9a-f]{8})\b";

/// Finds memory pointers, styling digits, hex letters and the `x`.
#[derive(Debug)]
pub struct PointerFinder {
    pub regex: Option<Pattern>,
    pub classes: HexClasses,
}

impl PointerFinder {
    /// The styles this finder uses.
    pub open spec fn styles(&self) -> Seq<StyleId> {
        hex_styles(self.classes)
    }

    /// What the finder needs of its own configuration.
    pub open spec fn wf(&self) -> bool {
        self.classes.extra1 == 0x78 && self.classes.extra2 == 0x58
    }

    /// The requests for `input`: none without an `x` or `X`, otherwise
    /// every byte of every match styled by its class.
    pub open spec fn pushes(&self, input: &str) -> Seq<Push> {
        if !crate::finders::has_byte(bytes_of(input), 0x78) && !crate::finders::has_byte(bytes_of(input), 0x58) {
            Seq::empty()
        } else {
            classified_matches(bytes_of(input), matches_of(self.regex, input@), self.classes)
        }
    }

    /// Built from `config`, with each configured style interned in `palette`.
    pub open spec fn made_from(&self, config: PointerConfig, palette: Seq<Seq<char>>) -> bool {
        &&& built(self.regex, POINTER_PATTERN@)
        &&& resolves(palette, self.classes.number, config.number)
        &&& resolves(palette, self.classes.letter, config.letter)
        &&& resolves(palette, self.classes.extra, config.x)
    }

    /// A pointer finder with the configured styles.
    pub fn new(config: PointerConfig, palette: &mut Palette) -> (f: PointerFinder)
        requires
            old(palette).wf(),
            interned(interned(interned(old(palette)@, config.number), config.letter), config.x).len() <= 0x10000,
        ensures
            final(palette).wf(),
            final(palette)@ == interned(interned(interned(old(palette)@, config.number), config.letter), config.x),
            f.made_from(config, final(palette)@),
            f.wf(),
            extends(final(palette)@, old(palette)@, 3),
            forall|k: int| 0 <= k < f.styles().len() ==> (f.styles()[k].0 as int) < final(palette)@.len(),
    {
        proof {
            reveal(interned);
        }
        let number = palette.intern(config.number);
        let letter = palette.intern(config.letter);
        let extra = palette.intern(config.x);
        PointerFinder { regex: build_regex(POINTER_PATTERN), classes: HexClasses { number, letter, extra1: 0x78, extra2: 0x58, extra } }
    }

    /// Pushes a span per styled byte of every pointer.
    pub fn find_spans(&self, input: &str, collector: &mut Collector)
        requires
            self.wf(),
        ensures
            final(collector)@ == push_all(old(collector)@, self.pushes(input)),
            pushes_ok(bytes_of(input), self.pushes(input)),
            styles_in(self.pushes(input), self.styles()),
    {
        let b = input_bytes(input);
        if find_either_byte(0x78, 0x58, b).is_none() {
            collector.push_each(&[]);
            return;
        }
        match &self.regex {
            Some(p) => {
                let ms = find_all(p, input);
                let v = classify_matches(b, ms.as_slice(), self.classes);
                collector.push_each(v.as_slice());
            },
            None => {
                collector.push_each(&[]);
            },
        }
    }
}

} // verus!
