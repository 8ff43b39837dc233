//! User-supplied regular expressions.
use vstd::prelude::*;
use crate::finders::{CapsSplitter, split_caps, split_caps_spec, pushes_ok, styles_in, add_push, lemma_in_styles,
    group, group_of};
use crate::matching::{Pattern, captures_all, compile, group_count, regex_captures, regex_compiles, regex_group_count};
use crate::palette::{can_intern, intern_spec, Palette, StyleId, extends};
use crate::span::{Collector, Push, push_all, plain};
use crate::style::Style;
use crate::text::{bytes_of, input_bytes};

verus! {

/// Styles one match: its only capture group when the expression has exactly
/// one (the whole match when that group did not take part), otherwise the
/// whole match.
#[derive(Debug, Clone, Copy)]
pub struct MatchSplit {
    pub style: StyleId,
    pub single_capture_group: bool,
}

/// The part of a match that gets styled.
pub open spec fn styled_part(caps: Seq<Option<(usize, usize)>>, single: bool) -> Option<(usize, usize)> {
    if single {
        match group_of(caps, 1) {
            Some(g) => Some(g),
            None => group_of(caps, 0),
        }
    } else {
        group_of(caps, 0)
    }
}

impl CapsSplitter for MatchSplit {
    open spec fn wf(&self) -> bool {
        true
    }

    open spec fn ids(&self) -> Seq<StyleId> {
        seq![self.style]
    }

    open spec fn split(&self, b: Seq<u8>, caps: Seq<Option<(usize, usize)>>) -> Seq<Push> {
        match styled_part(caps, self.single_capture_group) {
            Some(m) => seq![plain(m.0 as int, m.1 as int, self.style)],
            None => Seq::empty(),
        }
    }

    fn split_into(&self, input: &str, b: &[u8], caps: &[Option<(usize, usize)>], v: &mut Vec<Push>) {
        let part = if self.single_capture_group {
            match group(caps, 1) {
                Some(g) => Some(g),
                None => group(caps, 0),
            }
        } else {
            group(caps, 0)
        };
        match part {
            Some(m) => {
                proof {
                    lemma_in_styles(self.ids());
                    assert(self.ids()[0] == self.style);
                }
                let ghost start = v@;
                add_push(v, Ghost(b@), Ghost(self.ids()), m.0, m.1, self.style);
                assert(v@ =~= start + self.split(b@, caps@));
            },
            None => {
                assert(v@ =~= v@ + self.split(b@, caps@));
            },
        }
    }
}

/// Finds the matches of a user-supplied regular expression (Unicode mode).
#[derive(Debug)]
pub struct RegexFinder {
    pub regex: Pattern,
    pub split: MatchSplit,
}

impl RegexFinder {
    /// The styles this finder uses.
    pub open spec fn styles(&self) -> Seq<StyleId> {
        self.split.ids()
    }

    /// The requests for `input`: the styled part of every match.
    pub open spec fn pushes(&self, input: &str) -> Seq<Push> {
        split_caps_spec(self.split, bytes_of(input), regex_captures(self.regex.source(), self.regex.unicode(), input@))
    }

    /// A finder for `pattern`: fails exactly when the pattern does not
    /// compile, and leaves the palette alone then; otherwise the palette
    /// gains the style's prefix exactly when it did not have it.
    pub fn new(pattern: &str, style: Style, palette: &mut Palette) -> (r: Result<RegexFinder, regex::Error>)
        requires
            old(palette).wf(),
            regex_compiles(pattern@, true) ==> can_intern(old(palette)@, style),
        ensures
            final(palette).wf(),
            r is Ok <==> regex_compiles(pattern@, true),
            r is Err ==> final(palette)@ == old(palette)@,
            r matches Ok(f) ==> {
                &&& f.regex.source() == pattern@
                &&& f.regex.unicode()
                &&& f.split.single_capture_group == (regex_group_count(pattern@, true) == 2)
                &&& (final(palette)@, f.split.style.0 as int) == intern_spec(old(palette)@, style)
                &&& extends(final(palette)@, old(palette)@, 1)
                &&& final(palette)@[f.split.style.0 as int] == crate::style::ansi_prefix(style)
                &&& (f.split.style.0 as int) < final(palette)@.len()
            },
    {
        match compile(pattern, true) {
            Ok(regex) => {
                let single_capture_group = group_count(&regex) == 2;
                let style = palette.intern(style);
                Ok(RegexFinder { regex, split: MatchSplit { style, single_capture_group } })
            },
            Err(e) => Err(e),
        }
    }

    /// Pushes the styled part of every match.
    pub fn find_spans(&self, input: &str, collector: &mut Collector)
        ensures
            final(collector)@ == push_all(old(collector)@, self.pushes(input)),
            pushes_ok(bytes_of(input), self.pushes(input)),
            styles_in(self.pushes(input), self.styles()),
    {
        let b = input_bytes(input);
        let all = captures_all(&self.regex, input);
        let v = split_caps(&self.split, input, b, &all);
        collector.push_each(v.as_slice());
    }
}

} // verus!
