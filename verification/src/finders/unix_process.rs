use vstd::prelude::*;
use crate::config::UnixProcessConfig;
use crate::finders::{Splitter, split_all, split_all_spec, build_regex, built, matches_of, pushes_ok, styles_in,
    add_push, lemma_in_styles, has_byte, next_or_end, next_or_end_of, lemma_next_or_end};
use crate::matching::{Pattern, find_all, find_byte};
use crate::palette::{interned, resolves, Palette, StyleId, extends};
use crate::span::{Collector, Push, push_all, plain};
use crate::text::{bytes_of, input_bytes, ascii_range, is_ascii_run, lemma_ascii_range_all};

verus! {

/// A process name (or a parenthesised one) followed by `[pid]`.
pub const UNIX_PROCESS_PATTERN: &'static str = r"(?:\([A-Za-z0-9._ +:/-]+\)|[A-Za-z0-9_/-]+)\[\d+]";

/// Splits `name[pid]` into name, brackets and id.
#[derive(Debug, Clone, Copy)]
pub struct ProcessSplit {
    pub name: StyleId,
    pub id: StyleId,
    pub bracket: StyleId,
}

impl Splitter for ProcessSplit {
    open spec fn wf(&self) -> bool {
        true
    }

    open spec fn ids(&self) -> Seq<StyleId> {
        seq![self.name, self.id, self.bracket]
    }

    /// An ASCII match `name[pid]`: the name up to the first `[`, that
    /// bracket, the id and the closing `]`.
    open spec fn split(&self, b: Seq<u8>, m: (usize, usize)) -> Seq<Push> {
        let (s, e) = (m.0 as int, m.1 as int);
        let bp = next_or_end(b, s, e, 0x5b);
        if s < e && ascii_range(b, s, e) && bp + 1 < e && b[e - 1] == 0x5d {
            seq![
                plain(s, bp, self.name),
                plain(bp, bp + 1, self.bracket),
                plain(bp + 1, e - 1, self.id),
                plain(e - 1, e, self.bracket),
            ]
        } else {
            Seq::empty()
        }
    }

    fn split_into(&self, b: &[u8], m: (usize, usize), v: &mut Vec<Push>) {
        let (s, e) = m;
        if s < e && is_ascii_run(b, s, e) {
            let bp = next_or_end_of(b, s, e, 0x5b);
            proof {
                lemma_next_or_end(b@, s as int, e as int, 0x5b);
            }
            if bp < e - 1 && b[e - 1] == 0x5d {
                proof {
                    lemma_in_styles(self.ids());
                    lemma_ascii_range_all(b@, s as int, e as int);
                }
                let ghost start = v@;
                add_push(v, Ghost(b@), Ghost(self.ids()), s, bp, self.name);
                add_push(v, Ghost(b@), Ghost(self.ids()), bp, bp + 1, self.bracket);
                add_push(v, Ghost(b@), Ghost(self.ids()), bp + 1, e - 1, self.id);
                add_push(v, Ghost(b@), Ghost(self.ids()), e - 1, e, self.bracket);
                assert(v@ =~= start + self.split(b@, m));
                return;
            }
        }
        assert(v@ =~= v@ + self.split(b@, m));
    }
}

/// Finds `name[pid]` process tags.
#[derive(Debug)]
pub struct UnixProcessFinder {
    pub regex: Option<Pattern>,
    pub split: ProcessSplit,
}

impl UnixProcessFinder {
    /// The styles this finder uses.
    pub open spec fn styles(&self) -> Seq<StyleId> {
        self.split.ids()
    }

    /// The requests for `input`: none without `[`, otherwise the parts of
    /// every match.
    pub open spec fn pushes(&self, input: &str) -> Seq<Push> {
        if !has_byte(bytes_of(input), 0x5b) {
            Seq::empty()
        } else {
            split_all_spec(self.split, bytes_of(input), matches_of(self.regex, input@))
        }
    }

    /// Built from `config`, with each configured style interned in `palette`.
    pub open spec fn made_from(&self, config: UnixProcessConfig, palette: Seq<Seq<char>>) -> bool {
        &&& built(self.regex, UNIX_PROCESS_PATTERN@)
        &&& resolves(palette, self.split.name, config.name)
        &&& resolves(palette, self.split.id, config.id)
        &&& resolves(palette, self.split.bracket, config.bracket)
    }

    /// A process finder with the configured styles.
    pub fn new(config: UnixProcessConfig, palette: &mut Palette) -> (f: UnixProcessFinder)
        requires
            old(palette).wf(),
            interned(interned(interned(old(palette)@, config.name), config.id), config.bracket).len() <= 0x10000,
        ensures
            final(palette).wf(),
            final(palette)@ == interned(interned(interned(old(palette)@, config.name), config.id), config.bracket),
            f.made_from(config, final(palette)@),
            extends(final(palette)@, old(palette)@, 3),
            forall|k: int| 0 <= k < f.styles().len() ==> (f.styles()[k].0 as int) < final(palette)@.len(),
    {
        proof {
            reveal(interned);
        }
        let name = palette.intern(config.name);
        let id = palette.intern(config.id);
        let bracket = palette.intern(config.bracket);
        UnixProcessFinder { regex: build_regex(UNIX_PROCESS_PATTERN), split: ProcessSplit { name, id, bracket } }
    }

    /// Pushes the name, brackets and id of every process tag.
    pub fn find_spans(&self, input: &str, collector: &mut Collector)
        ensures
            final(collector)@ == push_all(old(collector)@, self.pushes(input)),
            pushes_ok(bytes_of(input), self.pushes(input)),
            styles_in(self.pushes(input), self.styles()),
    {
        let b = input_bytes(input);
        if find_byte(0x5b, b).is_none() {
            collector.push_each(&[]);
            return;
        }
        match &self.regex {
            Some(p) => {
                let ms = find_all(p, input);
                let v = split_all(&self.split, b, ms.as_slice());
                collector.push_each(v.as_slice());
            },
            None => collector.push_each(&[]),
        }
    }
}

} // verus!
