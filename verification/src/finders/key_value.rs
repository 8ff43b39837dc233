use vstd::prelude::*;

use crate::config::KeyValueConfig;
use crate::finders::{Splitter, split_all, split_all_spec, build_regex, built, matches_of, pushes_ok, styles_in, add_push, lemma_in_styles, has_byte};
use crate::matching::{Pattern, find_all, find_byte};
use crate::palette::{interned, resolves, Palette, StyleId, extends};
use crate::span::{Collector, Push, push_all, plain};
use crate::text::{bytes_of, input_bytes, lemma_after_ascii, lemma_ascii_on_boundary};

verus! {

/// A word preceded by the start of the line or a whitespace byte, then `=`.
pub const KEY_VALUE_PATTERN: &'static str = r"(?:^|\s)\w+\b=";

/// An ASCII whitespace byte: space, tab, line feed, form feed or carriage return.
pub open spec fn is_ascii_ws(c: u8) -> bool {
    c == 0x20 || c == 0x09 || c == 0x0a || c == 0x0c || c == 0x0d
}

/// Whether `c` is an ASCII whitespace byte.
pub fn ascii_ws(c: u8) -> (r: bool)
    ensures
        r == is_ascii_ws(c),
{
    c == 0x20 || c == 0x09 || c == 0x0a || c == 0x0c || c == 0x0d
}

/// Splits `key=` into the key and the `=` separator.
#[derive(Debug, Clone, Copy)]
pub struct KeyValueSplit {
    pub key: StyleId,
    pub separator: StyleId,
}

impl Splitter for KeyValueSplit {
    open spec fn wf(&self) -> bool {
        true
    }

    open spec fn ids(&self) -> Seq<StyleId> {
        seq![self.key, self.separator]
    }

    /// A match that ends in `=`: the key (without a leading whitespace byte
    /// the match consumed) and the separator.
    open spec fn split(&self, b: Seq<u8>, m: (usize, usize)) -> Seq<Push> {
        if m.0 < m.1 && b[m.1 - 1] == 0x3d {
            let st = if is_ascii_ws(b[m.0 as int]) { m.0 + 1 } else { m.0 as int };
            seq![plain(st, m.1 - 1, self.key), plain(m.1 - 1, m.1 as int, self.separator)]
        } else {
            Seq::empty()
        }
    }

    fn split_into(&self, b: &[u8], m: (usize, usize), v: &mut Vec<Push>) {
        let (s, e) = m;
        if s < e && b[e - 1] == 0x3d {
            let st = if ascii_ws(b[s]) { s + 1 } else { s };
            proof {
                lemma_in_styles(self.ids());
                lemma_ascii_on_boundary(b@, e - 1);
                if st == s + 1 {
                    lemma_after_ascii(b@, s as int);
                }
            }
            let ghost start = v@;
            add_push(v, Ghost(b@), Ghost(self.ids()), st, e - 1, self.key);
            add_push(v, Ghost(b@), Ghost(self.ids()), e - 1, e, self.separator);
            assert(v@ =~= start + self.split(b@, m));
        } else {
            assert(v@ =~= v@ + self.split(b@, m));
        }
    }
}

/// Finds `key=` pairs.
#[derive(Debug)]
pub struct KeyValueFinder {
    pub regex: Option<Pattern>,
    pub split: KeyValueSplit,
}

impl KeyValueFinder {
    /// The styles this finder uses.
    pub open spec fn styles(&self) -> Seq<StyleId> {
        self.split.ids()
    }

    /// The requests for `input`: none without `=`, otherwise the key and
    /// separator of every match.
    pub open spec fn pushes(&self, input: &str) -> Seq<Push> {
        if !has_byte(bytes_of(input), 0x3d) {
            Seq::empty()
        } else {
            split_all_spec(self.split, bytes_of(input), matches_of(self.regex, input@))
        }
    }

    /// Built from `config`, with each configured style interned in `palette`.
    pub open spec fn made_from(&self, config: KeyValueConfig, palette: Seq<Seq<char>>) -> bool {
        &&& built(self.regex, KEY_VALUE_PATTERN@)
        &&& resolves(palette, self.split.key, config.key)
        &&& resolves(palette, self.split.separator, config.separator)
    }

    /// A key-value finder with the configured styles.
    pub fn new(config: KeyValueConfig, palette: &mut Palette) -> (f: KeyValueFinder)
        requires
            old(palette).wf(),
            interned(interned(old(palette)@, config.key), config.separator).len() <= 0x10000,
        ensures
            final(palette).wf(),
            final(palette)@ == interned(interned(old(palette)@, config.key), config.separator),
            f.made_from(config, final(palette)@),
            extends(final(palette)@, old(palette)@, 2),
            forall|k: int| 0 <= k < f.styles().len() ==> (f.styles()[k].0 as int) < final(palette)@.len(),
    {
        proof {
            reveal(interned);
        }
        let key = palette.intern(config.key);
        let separator = palette.intern(config.separator);
        KeyValueFinder { regex: build_regex(KEY_VALUE_PATTERN), split: KeyValueSplit { key, separator } }
    }

    /// Pushes the key and separator of every pair.
    pub fn find_spans(&self, input: &str, collector: &mut Collector)
        ensures
            final(collector)@ == push_all(old(collector)@, self.pushes(input)),
            pushes_ok(bytes_of(input), self.pushes(input)),
            styles_in(self.pushes(input), self.styles()),
    {
        let b = input_bytes(input);
        if find_byte(0x3d, b).is_none() {
            collector.push_each(&[]);
            return;
        }
        match &self.regex {
            Some(p) => {
                let ms = find_all(p, input);
                let v = split_all(&self.split, b, ms.as_slice());
                collector.push_each(v.as_slice());
            },
            None => collector.push_each(&[]),
        }
    }
}

} // verus!
