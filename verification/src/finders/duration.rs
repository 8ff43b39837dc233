use vstd::prelude::*;
use crate::config::DurationConfig;
use crate::finders::{CapsSplitter, split_caps, split_caps_spec, build_regex, built, captures_of, pushes_ok, styles_in, add_push, lemma_in_styles, group, group_of, is_digit};
use crate::matching::{Pattern, captures_all};
use crate::palette::{interned, resolves, Palette, StyleId, extends};
use crate::span::{Collector, Push, push_all, plain};
use crate::text::{bytes_of, input_bytes};

verus! {

/// Digits, an optional fraction, and a unit (`ns`, `us`, `ms`, `s`, `m`,
/// `h`) ending the word. Groups: 1 integer, 2 dot, 3 fraction, 4 unit.
pub const DURATION_PATTERN: &'static str = r"(?x)
            \b
            (?P<integer>\d+)                    # integer part
            (?:(?P<dot>\.)(?P<fraction>\d+))?   # optional fractional part
            (?P<unit>ns|us|ms|s|m|h)            # time unit
            \b
        ";

/// The first letter of a time unit.
pub open spec fn is_unit_start(c: u8) -> bool {
    c == 0x6e || c == 0x75 || c == 0x6d || c == 0x73 || c == 0x68
}

/// Some digit of `b` is directly followed by the first letter of a unit,
/// as every duration has.
pub open spec fn has_digit_then_unit(b: Seq<u8>) -> bool {
    exists|i: int| 0 <= i && i + 1 < b.len() && is_digit(#[trigger] b[i]) && is_unit_start(b[i + 1])
}

/// Whether some digit of `b` is directly followed by a unit letter.
pub fn digit_then_unit(b: &[u8]) -> (r: bool)
    ensures
        r == has_digit_then_unit(b@),
{
    let mut i: usize = 0;
    while b.len() > 0 && i < b.len() - 1
        invariant
            i <= b@.len(),
            forall|j: int| 0 <= j < i && j + 1 < b@.len() ==> !(is_digit(#[trigger] b@[j]) && is_unit_start(b@[j + 1])),
        decreases b@.len() - i,
    {
        let c = b[i];
        let d = b[i + 1];
        if c >= 0x30 && c <= 0x39 && (d == 0x6e || d == 0x75 || d == 0x6d || d == 0x73 || d == 0x68) {
            assert(is_digit(b@[i as int]) && is_unit_start(b@[i + 1]));
            return true;
        }
        i = i + 1;
    }
    false
}

/// Splits a duration's groups into value, separator and unit requests.
#[derive(Debug, Clone, Copy)]
pub struct DurationSplit {
    pub value: StyleId,
    pub separator: StyleId,
    pub unit: StyleId,
}

impl CapsSplitter for DurationSplit {
    open spec fn wf(&self) -> bool {
        true
    }

    open spec fn ids(&self) -> Seq<StyleId> {
        seq![self.value, self.separator, self.unit]
    }

    /// The integer as a value; the dot as separator and the fraction as a
    /// value when both are there; the unit.
    open spec fn split(&self, b: Seq<u8>, caps: Seq<Option<(usize, usize)>>) -> Seq<Push> {
        match (group_of(caps, 1), group_of(caps, 4)) {
            (Some(i), Some(u)) => {
                let frac = match (group_of(caps, 2), group_of(caps, 3)) {
                    (Some(d), Some(f)) => seq![
                        plain(d.0 as int, d.1 as int, self.separator),
                        plain(f.0 as int, f.1 as int, self.value),
                    ],
                    _ => Seq::empty(),
                };
                seq![plain(i.0 as int, i.1 as int, self.value)] + frac + seq![plain(u.0 as int, u.1 as int, self.unit)]
            },
            _ => Seq::empty(),
        }
    }

    fn split_into(&self, input: &str, b: &[u8], caps: &[Option<(usize, usize)>], v: &mut Vec<Push>) {
        let integer = group(caps, 1);
        let unit = group(caps, 4);
        match (integer, unit) {
            (Some(i), Some(u)) => {
                proof {
                    lemma_in_styles(self.ids());
                }
                let ghost start = v@;
                let ids = Ghost(self.ids());
                add_push(v, Ghost(b@), ids, i.0, i.1, self.value);
                match (group(caps, 2), group(caps, 3)) {
                    (Some(d), Some(f)) => {
                        add_push(v, Ghost(b@), ids, d.0, d.1, self.separator);
                        add_push(v, Ghost(b@), ids, f.0, f.1, self.value);
                    },
                    _ => {},
                }
                add_push(v, Ghost(b@), ids, u.0, u.1, self.unit);
                assert(v@ =~= start + self.split(b@, caps@));
            },
            _ => {
                assert(v@ =~= v@ + self.split(b@, caps@));
            },
        }
    }
}

/// Finds durations such as `150ms` or `2.5s`.
#[derive(Debug)]
pub struct DurationFinder {
    pub regex: Option<Pattern>,
    pub split: DurationSplit,
}

impl DurationFinder {
    /// The styles this finder uses.
    pub open spec fn styles(&self) -> Seq<StyleId> {
        self.split.ids()
    }

    /// The requests for `input`: none unless a digit is followed by a unit
    /// letter, otherwise the parts of every duration.
    pub open spec fn pushes(&self, input: &str) -> Seq<Push> {
        if !has_digit_then_unit(bytes_of(input)) {
            Seq::empty()
        } else {
            split_caps_spec(self.split, bytes_of(input), captures_of(self.regex, input@))
        }
    }

    /// Built from `config`, with each configured style interned in `palette`.
    pub open spec fn made_from(&self, config: DurationConfig, palette: Seq<Seq<char>>) -> bool {
        &&& built(self.regex, DURATION_PATTERN@)
        &&& resolves(palette, self.split.value, config.value)
        &&& resolves(palette, self.split.separator, config.separator)
        &&& resolves(palette, self.split.unit, config.unit)
    }

    /// A duration finder with the configured styles.
    pub fn new(config: DurationConfig, palette: &mut Palette) -> (f: DurationFinder)
        requires
            old(palette).wf(),
            interned(interned(interned(old(palette)@, config.value), config.separator), config.unit).len() <= 0x10000,
        ensures
            final(palette).wf(),
            final(palette)@ == interned(interned(interned(old(palette)@, config.value), config.separator), config.unit),
            f.made_from(config, final(palette)@),
            extends(final(palette)@, old(palette)@, 3),
            forall|k: int| 0 <= k < f.styles().len() ==> (f.styles()[k].0 as int) < final(palette)@.len(),
    {
        proof {
            reveal(interned);
        }
        let value = palette.intern(config.value);
        let separator = palette.intern(config.separator);
        let unit = palette.intern(config.unit);
        DurationFinder { regex: build_regex(DURATION_PATTERN), split: DurationSplit { value, separator, unit } }
    }

    /// Pushes the parts of every duration.
    pub fn find_spans(&self, input: &str, collector: &mut Collector)
        ensures
            final(collector)@ == push_all(old(collector)@, self.pushes(input)),
            pushes_ok(bytes_of(input), self.pushes(input)),
            styles_in(self.pushes(input), self.styles()),
    {
        let b = input_bytes(input);
        if !digit_then_unit(b) {
            collector.push_each(&[]);
            return;
        }
        match &self.regex {
            Some(p) => {
                let all = captures_all(p, input);
                let v = split_caps(&self.split, input, b, &all);
                collector.push_each(v.as_slice());
            },
            None => collector.push_each(&[]),
        }
    }
}

} // verus!
