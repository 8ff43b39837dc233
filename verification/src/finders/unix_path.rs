use vstd::prelude::*;
use crate::finders::{Splitter, split_all, split_all_spec, build_regex, built, matches_of, pushes_ok, styles_in,
    add_push, lemma_in_styles, has_byte, next_or_end, next_or_end_of, lemma_next_or_end};
use crate::matching::{Pattern, find_all, find_byte};
use crate::palette::{interned, resolves, Palette, StyleId, extends};
use crate::span::{Collector, Push, push_all, plain};
use crate::config::UnixPathConfig;
use crate::text::{bytes_of, input_bytes, ascii_range, is_ascii_run, lemma_ascii_range_all, on_boundary};

verus! {

/// The start of the line or one whitespace byte, a root (`./`, `~/`, `//`
/// or `/`), a segment, and one or more further `/segment`s.
pub const UNIX_PATH_PATTERN: &'static str = r"(?x)
            (?:^|\s)
            (?:\./|~/|//|/)
            [\w.-]+
            (?:/[\w.-]+)+
        ";

/// The requests for the path bytes `[i, e)` of `b`: every `/` as a
/// separator and every maximal run of other bytes as a segment, in order.
pub open spec fn path_pushes(b: Seq<u8>, i: int, e: int, segment: StyleId, separator: StyleId) -> Seq<Push>
    decreases e - i,
{
    if i >= e {
        Seq::empty()
    } else if b[i] == 0x2f {
        seq![plain(i, i + 1, separator)] + path_pushes(b, i + 1, e, segment, separator)
    } else {
        let j = next_or_end(b, i, e, 0x2f);
        proof {
            lemma_next_or_end(b, i, e, 0x2f);
            assert(j > i);
        }
        seq![plain(i, j, segment)] + path_pushes(b, j, e, segment, separator)
    }
}

/// A byte that can start a path root: `.`, `~` or `/`.
pub open spec fn is_root_start(c: u8) -> bool {
    c == 0x2e || c == 0x7e || c == 0x2f
}

/// Splits a path into segments and separators.
#[derive(Debug, Clone, Copy)]
pub struct PathSplit {
    pub segment: StyleId,
    pub separator: StyleId,
}

impl Splitter for PathSplit {
    open spec fn wf(&self) -> bool {
        true
    }

    open spec fn ids(&self) -> Seq<StyleId> {
        seq![self.segment, self.separator]
    }

    /// An ASCII match, without the whitespace byte it may start with: its
    /// segments and separators.
    open spec fn split(&self, b: Seq<u8>, m: (usize, usize)) -> Seq<Push> {
        let (s, e) = (m.0 as int, m.1 as int);
        if s < e && ascii_range(b, s, e) {
            let start = if is_root_start(b[s]) { s } else { s + 1 };
            path_pushes(b, start, e, self.segment, self.separator)
        } else {
            Seq::empty()
        }
    }

    fn split_into(&self, b: &[u8], m: (usize, usize), v: &mut Vec<Push>) {
        let (s, e) = m;
        if !(s < e && is_ascii_run(b, s, e)) {
            assert(v@ =~= v@ + self.split(b@, m));
            return;
        }
        proof {
            lemma_in_styles(self.ids());
            lemma_ascii_range_all(b@, s as int, e as int);
        }
        let c = b[s];
        let mut i: usize = if c == 0x2e || c == 0x7e || c == 0x2f { s } else { s + 1 };
        let ghost target = v@ + self.split(b@, m);
        assert(target =~= v@ + path_pushes(b@, i as int, e as int, self.segment, self.separator));
        while i < e
            invariant
                s <= i <= e <= b@.len(),
                forall|k: int| s <= k <= e ==> #[trigger] on_boundary(b@, k),
                forall|k: int| 0 <= k < self.ids().len() ==> self.ids().contains(#[trigger] self.ids()[k]),
                target == v@ + path_pushes(b@, i as int, e as int, self.segment, self.separator),
                pushes_ok(b@, v@),
                styles_in(v@, self.ids()),
            decreases e - i,
        {
            let ghost before = v@;
            if b[i] == 0x2f {
                add_push(v, Ghost(b@), Ghost(self.ids()), i, i + 1, self.separator);
                assert(v@ + path_pushes(b@, i + 1, e as int, self.segment, self.separator)
                    =~= before + path_pushes(b@, i as int, e as int, self.segment, self.separator));
                i = i + 1;
            } else {
                let j = next_or_end_of(b, i, e, 0x2f);
                proof {
                    lemma_next_or_end(b@, i as int, e as int, 0x2f);
                }
                add_push(v, Ghost(b@), Ghost(self.ids()), i, j, self.segment);
                assert(v@ + path_pushes(b@, j as int, e as int, self.segment, self.separator)
                    =~= before + path_pushes(b@, i as int, e as int, self.segment, self.separator));
                i = j;
            }
        }
        assert(path_pushes(b@, i as int, e as int, self.segment, self.separator) =~= Seq::<Push>::empty());
        assert(v@ =~= target);
    }
}

/// Finds Unix paths.
#[derive(Debug)]
pub struct UnixPathFinder {
    pub regex: Option<Pattern>,
    pub split: PathSplit,
}

impl UnixPathFinder {
    /// The styles this finder uses.
    pub open spec fn styles(&self) -> Seq<StyleId> {
        self.split.ids()
    }

    /// The requests for `input`: none without `/`, otherwise the segments
    /// and separators of every path.
    pub open spec fn pushes(&self, input: &str) -> Seq<Push> {
        if !has_byte(bytes_of(input), 0x2f) {
            Seq::empty()
        } else {
            split_all_spec(self.split, bytes_of(input), matches_of(self.regex, input@))
        }
    }

    /// Built from `config`, with each configured style interned in `palette`.
    pub open spec fn made_from(&self, config: UnixPathConfig, palette: Seq<Seq<char>>) -> bool {
        &&& built(self.regex, UNIX_PATH_PATTERN@)
        &&& resolves(palette, self.split.segment, config.segment)
        &&& resolves(palette, self.split.separator, config.separator)
    }

    /// A path finder with the configured styles.
    pub fn new(config: UnixPathConfig, palette: &mut Palette) -> (f: UnixPathFinder)
        requires
            old(palette).wf(),
            interned(interned(old(palette)@, config.segment), config.separator).len() <= 0x10000,
        ensures
            final(palette).wf(),
            final(palette)@ == interned(interned(old(palette)@, config.segment), config.separator),
            f.made_from(config, final(palette)@),
            extends(final(palette)@, old(palette)@, 2),
            forall|k: int| 0 <= k < f.styles().len() ==> (f.styles()[k].0 as int) < final(palette)@.len(),
    {
        proof {
            reveal(interned);
        }
        let segment = palette.intern(config.segment);
        let separator = palette.intern(config.separator);
        UnixPathFinder { regex: build_regex(UNIX_PATH_PATTERN), split: PathSplit { segment, separator } }
    }

    /// Pushes the segments and separators of every path.
    pub fn find_spans(&self, input: &str, collector: &mut Collector)
        ensures
            final(collector)@ == push_all(old(collector)@, self.pushes(input)),
            pushes_ok(bytes_of(input), self.pushes(input)),
            styles_in(self.pushes(input), self.styles()),
    {
        let b = input_bytes(input);
        if find_byte(0x2f, b).is_none() {
            collector.push_each(&[]);
            return;
        }
        match &self.regex {
            Some(p) => {
                let ms = find_all(p, input);
                let v = split_all(&self.split, b, ms.as_slice());
                collector.push_each(v.as_slice());
            },
            None => collector.push_each(&[]),
        }
    }
}

} // verus!
