use vstd::prelude::*;
use crate::finders::{Splitter, split_all, split_all_spec, build_regex, built, matches_of, pushes_ok, styles_in,
    add_push, lemma_in_styles, has_byte, next_or_end, next_or_end_of, lemma_next_or_end, is_digit, digits_end,
    digits_end_of, lemma_digits_end};
use crate::matching::{Pattern, find_all, find_byte};
use crate::palette::{interned, resolves, Palette, StyleId, extends};
use crate::span::{Collector, Push, push_all, plain};
use crate::config::DateTimeConfig;
use crate::text::{bytes_of, input_bytes, ascii_range, is_ascii_run, lemma_ascii_range_all};

verus! {

/// An optional `T` or whitespace, `H:MM:SS` or `HH:MM:SS` (hours up to 23),
/// an optional fraction after `.`, `,` or `:`, and an optional `Z`.
pub const DATE_TIME_PATTERN: &'static str = r"(?x)
            [T\s]?
            (?:[01]?\d|2[0-3]):
            [0-5]\d:
            [0-5]\d
            (?:[.,:]  \d+)?
            Z?
        ";

/// Splits a time into its numbers, separators and zone markers.
#[derive(Debug, Clone, Copy)]
pub struct TimeSplit {
    pub time: StyleId,
    pub zone: StyleId,
    pub separator: StyleId,
}

/// A byte that may introduce a fraction of a second: `.`, `,` or `:`.
pub open spec fn is_frac_sep(c: u8) -> bool {
    c == 0x2e || c == 0x2c || c == 0x3a
}

impl Splitter for TimeSplit {
    open spec fn wf(&self) -> bool {
        true
    }

    open spec fn ids(&self) -> Seq<StyleId> {
        seq![self.time, self.zone, self.separator]
    }

    /// An ASCII match: a leading non-digit (the `T` or space) as zone, the
    /// hours up to the first `:`, that `:`, two minute digits, `:`, two
    /// second digits; then, after a fraction separator, the separator and
    /// its digits; then a trailing `Z` as zone. A match too short for the
    /// minutes and seconds gives nothing.
    open spec fn split(&self, b: Seq<u8>, m: (usize, usize)) -> Seq<Push> {
        let (s, e) = (m.0 as int, m.1 as int);
        if !(s < e && ascii_range(b, s, e)) {
            Seq::empty()
        } else {
            let lead = !is_digit(b[s]);
            let p0: int = if lead { s + 1 } else { s };
            let c1 = next_or_end(b, p0, e, 0x3a);
            if c1 + 6 > e {
                Seq::empty()
            } else {
                let head = if lead { seq![plain(s, s + 1, self.zone)] } else { Seq::empty() };
                let clock = seq![
                    plain(p0, c1, self.time),
                    plain(c1, c1 + 1, self.separator),
                    plain(c1 + 1, c1 + 3, self.time),
                    plain(c1 + 3, c1 + 4, self.separator),
                    plain(c1 + 4, c1 + 6, self.time),
                ];
                let p: int = c1 + 6;
                let frac = p < e && is_frac_sep(b[p]);
                let q = if frac { digits_end(b, p + 1, e) } else { p };
                let fr = if frac {
                    seq![plain(p, p + 1, self.separator), plain(p + 1, q, self.time)]
                } else {
                    Seq::empty()
                };
                let z = if q < e && b[q] == 0x5a { seq![plain(q, q + 1, self.zone)] } else { Seq::empty() };
                head + clock + fr + z
            }
        }
    }

    fn split_into(&self, b: &[u8], m: (usize, usize), v: &mut Vec<Push>) {
        let (s, e) = m;
        if !(s < e && is_ascii_run(b, s, e)) {
            assert(v@ =~= v@ + self.split(b@, m));
            return;
        }
        let lead = !(b[s] >= 0x30 && b[s] <= 0x39);
        let p0: usize = if lead { s + 1 } else { s };
        let c1 = next_or_end_of(b, p0, e, 0x3a);
        proof {
            lemma_next_or_end(b@, p0 as int, e as int, 0x3a);
        }
        if e < 6 || c1 > e - 6 {
            assert(v@ =~= v@ + self.split(b@, m));
            return;
        }
        proof {
            lemma_in_styles(self.ids());
            lemma_ascii_range_all(b@, s as int, e as int);
        }
        let ghost start = v@;
        let ids = Ghost(self.ids());
        if lead {
            add_push(v, Ghost(b@), ids, s, s + 1, self.zone);
        }
        add_push(v, Ghost(b@), ids, p0, c1, self.time);
        add_push(v, Ghost(b@), ids, c1, c1 + 1, self.separator);
        add_push(v, Ghost(b@), ids, c1 + 1, c1 + 3, self.time);
        add_push(v, Ghost(b@), ids, c1 + 3, c1 + 4, self.separator);
        add_push(v, Ghost(b@), ids, c1 + 4, c1 + 6, self.time);
        let p: usize = c1 + 6;
        let frac = p < e && (b[p] == 0x2e || b[p] == 0x2c || b[p] == 0x3a);
        let mut q: usize = p;
        if frac {
            q = digits_end_of(b, p + 1, e);
            proof {
                lemma_digits_end(b@, p + 1, e as int);
            }
            add_push(v, Ghost(b@), ids, p, p + 1, self.separator);
            add_push(v, Ghost(b@), ids, p + 1, q, self.time);
        }
        if q < e && b[q] == 0x5a {
            add_push(v, Ghost(b@), ids, q, q + 1, self.zone);
        }
        assert(v@ =~= start + self.split(b@, m));
    }
}

/// Finds clock times.
#[derive(Debug)]
pub struct DateTimeFinder {
    pub regex: Option<Pattern>,
    pub split: TimeSplit,
}

impl DateTimeFinder {
    /// The styles this finder uses.
    pub open spec fn styles(&self) -> Seq<StyleId> {
        self.split.ids()
    }

    /// The requests for `input`: none without `:`, otherwise the parts of
    /// every time.
    pub open spec fn pushes(&self, input: &str) -> Seq<Push> {
        if !has_byte(bytes_of(input), 0x3a) {
            Seq::empty()
        } else {
            split_all_spec(self.split, bytes_of(input), matches_of(self.regex, input@))
        }
    }

    /// Built from `config`, with each configured style interned in `palette`.
    pub open spec fn made_from(&self, config: DateTimeConfig, palette: Seq<Seq<char>>) -> bool {
        &&& built(self.regex, DATE_TIME_PATTERN@)
        &&& resolves(palette, self.split.time, config.time)
        &&& resolves(palette, self.split.zone, config.zone)
        &&& resolves(palette, self.split.separator, config.separator)
    }

    /// A time finder using the configuration's time, zone and separator
    /// styles.
    pub fn new(config: DateTimeConfig, palette: &mut Palette) -> (f: DateTimeFinder)
        requires
            old(palette).wf(),
            interned(interned(interned(old(palette)@, config.time), config.zone), config.separator).len() <= 0x10000,
        ensures
            final(palette).wf(),
            final(palette)@ == interned(interned(interned(old(palette)@, config.time), config.zone), config.separator),
            f.made_from(config, final(palette)@),
            extends(final(palette)@, old(palette)@, 3),
            forall|k: int| 0 <= k < f.styles().len() ==> (f.styles()[k].0 as int) < final(palette)@.len(),
    {
        proof {
            reveal(interned);
        }
        let time = palette.intern(config.time);
        let zone = palette.intern(config.zone);
        let separator = palette.intern(config.separator);
        DateTimeFinder { regex: build_regex(DATE_TIME_PATTERN), split: TimeSplit { time, zone, separator } }
    }

    /// Pushes the parts of every time.
    pub fn find_spans(&self, input: &str, collector: &mut Collector)
        ensures
            final(collector)@ == push_all(old(collector)@, self.pushes(input)),
            pushes_ok(bytes_of(input), self.pushes(input)),
            styles_in(self.pushes(input), self.styles()),
    {
        let b = input_bytes(input);
        if find_byte(0x3a, b).is_none() {
            collector.push_each(&[]);
            return;
        }
        match &self.regex {
            Some(p) => {
                let ms = find_all(p, input);
                let v = split_all(&self.split, b, ms.as_slice());
                collector.push_each(v.as_slice());
            },
            None => collector.push_each(&[]),
        }
    }
}

} // verus!
