use vstd::prelude::*;
use crate::config::DateTimeConfig;
use crate::finders::{Splitter, split_all, split_all_spec, build_regex, built, matches_of, pushes_ok, styles_in,
    add_push, lemma_in_styles, has_byte};
use crate::matching::{Pattern, find_all, find_either_byte};
use crate::palette::{interned, resolves, Palette, StyleId, extends};
use crate::span::{Collector, Push, push_all, plain};
use crate::text::{bytes_of, input_bytes, ascii_range, is_ascii_run, lemma_ascii_range_all};

verus! {

/// `YYYY-MM-DD` or `DD-MM-YYYY` (with `-` or `/`), years 1900 to 2099,
/// after a word boundary. No trailing boundary, so the date half of an
/// ISO-8601 timestamp such as `2022-09-22T07:46:34` matches.
pub const DATE_DASH_PATTERN: &'static str = r"(?x)
            \b
            (?:
                (?: (?: 19\d{2} | 20\d{2} ) [-/] (?: 0[1-9] | [12]\d | 3[01] ) [-/] (?: 0[1-9] | [12]\d | 3[01] ) )
                |
                (?: (?: 0[1-9] | [12]\d | 3[01] ) [-/] (?: 0[1-9] | [12]\d | 3[01] ) [-/] (?: 19\d{2} | 20\d{2} ) )
            )
        ";

/// Splits a ten-byte date into its three numbers and two separators.
#[derive(Debug, Clone, Copy)]
pub struct DateSplit {
    pub date: StyleId,
    pub separator: StyleId,
}

/// A date separator byte: `-` or `/`.
pub open spec fn is_date_sep(c: u8) -> bool {
    c == 0x2d || c == 0x2f
}

impl Splitter for DateSplit {
    open spec fn wf(&self) -> bool {
        true
    }

    open spec fn ids(&self) -> Seq<StyleId> {
        seq![self.date, self.separator]
    }

    /// A ten-byte ASCII match: year first when its fifth byte is a
    /// separator (`4-2-2`), otherwise year last (`2-2-4`).
    open spec fn split(&self, b: Seq<u8>, m: (usize, usize)) -> Seq<Push> {
        let (s, e) = (m.0 as int, m.1 as int);
        if e == s + 10 && ascii_range(b, s, e) {
            if is_date_sep(b[s + 4]) {
                seq![
                    plain(s, s + 4, self.date),
                    plain(s + 4, s + 5, self.separator),
                    plain(s + 5, s + 7, self.date),
                    plain(s + 7, s + 8, self.separator),
                    plain(s + 8, s + 10, self.date),
                ]
            } else {
                seq![
                    plain(s, s + 2, self.date),
                    plain(s + 2, s + 3, self.separator),
                    plain(s + 3, s + 5, self.date),
                    plain(s + 5, s + 6, self.separator),
                    plain(s + 6, s + 10, self.date),
                ]
            }
        } else {
            Seq::empty()
        }
    }

    fn split_into(&self, b: &[u8], m: (usize, usize), v: &mut Vec<Push>) {
        let (s, e) = m;
        if e >= s && e - s == 10 && is_ascii_run(b, s, e) {
            proof {
                lemma_in_styles(self.ids());
                lemma_ascii_range_all(b@, s as int, e as int);
            }
            let ghost start = v@;
            let ids = Ghost(self.ids());
            if b[s + 4] == 0x2d || b[s + 4] == 0x2f {
                add_push(v, Ghost(b@), ids, s, s + 4, self.date);
                add_push(v, Ghost(b@), ids, s + 4, s + 5, self.separator);
                add_push(v, Ghost(b@), ids, s + 5, s + 7, self.date);
                add_push(v, Ghost(b@), ids, s + 7, s + 8, self.separator);
                add_push(v, Ghost(b@), ids, s + 8, s + 10, self.date);
            } else {
                add_push(v, Ghost(b@), ids, s, s + 2, self.date);
                add_push(v, Ghost(b@), ids, s + 2, s + 3, self.separator);
                add_push(v, Ghost(b@), ids, s + 3, s + 5, self.date);
                add_push(v, Ghost(b@), ids, s + 5, s + 6, self.separator);
                add_push(v, Ghost(b@), ids, s + 6, s + 10, self.date);
            }
            assert(v@ =~= start + self.split(b@, m));
        } else {
            assert(v@ =~= v@ + self.split(b@, m));
        }
    }
}

/// Finds dashed or slashed dates.
#[derive(Debug)]
pub struct DateDashFinder {
    pub regex: Option<Pattern>,
    pub split: DateSplit,
}

impl DateDashFinder {
    /// The styles this finder uses.
    pub open spec fn styles(&self) -> Seq<StyleId> {
        self.split.ids()
    }

    /// The requests for `input`: none without `-` or `/`, otherwise the
    /// parts of every date.
    pub open spec fn pushes(&self, input: &str) -> Seq<Push> {
        if !has_byte(bytes_of(input), 0x2d) && !has_byte(bytes_of(input), 0x2f) {
            Seq::empty()
        } else {
            split_all_spec(self.split, bytes_of(input), matches_of(self.regex, input@))
        }
    }

    /// Built from `config`, with each configured style interned in `palette`.
    pub open spec fn made_from(&self, config: DateTimeConfig, palette: Seq<Seq<char>>) -> bool {
        &&& built(self.regex, DATE_DASH_PATTERN@)
        &&& resolves(palette, self.split.date, config.date)
        &&& resolves(palette, self.split.separator, config.separator)
    }

    /// A date finder using the configuration's date and separator styles.
    pub fn new(config: DateTimeConfig, palette: &mut Palette) -> (f: DateDashFinder)
        requires
            old(palette).wf(),
            interned(interned(old(palette)@, config.date), config.separator).len() <= 0x10000,
        ensures
            final(palette).wf(),
            final(palette)@ == interned(interned(old(palette)@, config.date), config.separator),
            f.made_from(config, final(palette)@),
            extends(final(palette)@, old(palette)@, 2),
            forall|k: int| 0 <= k < f.styles().len() ==> (f.styles()[k].0 as int) < final(palette)@.len(),
    {
        proof {
            reveal(interned);
        }
        let date = palette.intern(config.date);
        let separator = palette.intern(config.separator);
        DateDashFinder { regex: build_regex(DATE_DASH_PATTERN), split: DateSplit { date, separator } }
    }

    /// Pushes the numbers and separators of every date.
    pub fn find_spans(&self, input: &str, collector: &mut Collector)
        ensures
            final(collector)@ == push_all(old(collector)@, self.pushes(input)),
            pushes_ok(bytes_of(input), self.pushes(input)),
            styles_in(self.pushes(input), self.styles()),
    {
        let b = input_bytes(input);
        if find_either_byte(0x2d, 0x2f, b).is_none() {
            collector.push_each(&[]);
            return;
        }
        match &self.regex {
            Some(p) => {
                let ms = find_all(p, input);
                let v = split_all(&self.split, b, ms.as_slice());
                collector.push_each(v.as_slice());
            },
            None => collector.push_each(&[]),
        }
    }
}

} // verus!
