use vstd::prelude::*;
use crate::config::EmailConfig;
use crate::finders::{Splitter, split_all, split_all_spec, build_regex, built, matches_of, pushes_ok, styles_in,
    add_push, lemma_in_styles, has_byte, next_or_end, next_or_end_of, lemma_next_or_end};
use crate::matching::{Pattern, find_all, find_byte};
use crate::palette::{interned, resolves, Palette, StyleId, extends};
use crate::span::{Collector, Push, push_all, plain};
use crate::text::{bytes_of, input_bytes, ascii_range, is_ascii_run, lemma_ascii_range_all};

verus! {

/// A local part, `@`, and a dotted domain ending in a letters-only label.
pub const EMAIL_PATTERN: &'static str = r"[a-zA-Z0-9._%+-]+@[a-zA-Z0-9.-]+\.[a-zA-Z]{2,}";

/// Splits `local@domain` into its parts.
#[derive(Debug, Clone, Copy)]
pub struct EmailSplit {
    pub local_part: StyleId,
    pub at_sign: StyleId,
    pub domain: StyleId,
    pub dot: StyleId,
}

/// The requests for the domain bytes `[i, e)` of `b`: each maximal run of
/// non-dot bytes, and the dot right after it; a dot that does not follow a
/// run (a leading or doubled dot) is left alone.
pub open spec fn domain_pushes(b: Seq<u8>, i: int, e: int, domain: StyleId, dot: StyleId) -> Seq<Push>
    decreases e - i,
{
    if i >= e {
        Seq::empty()
    } else if b[i] == 0x2e {
        domain_pushes(b, i + 1, e, domain, dot)
    } else {
        let j = next_or_end(b, i, e, 0x2e);
        proof {
            lemma_next_or_end(b, i, e, 0x2e);
        }
        if j < e {
            seq![plain(i, j, domain), plain(j, j + 1, dot)] + domain_pushes(b, j + 1, e, domain, dot)
        } else {
            seq![plain(i, j, domain)]
        }
    }
}

impl Splitter for EmailSplit {
    open spec fn wf(&self) -> bool {
        true
    }

    open spec fn ids(&self) -> Seq<StyleId> {
        seq![self.local_part, self.at_sign, self.domain, self.dot]
    }

    /// An ASCII match with an `@`: the local part before the first `@`, the
    /// `@`, then the domain's labels and dots.
    open spec fn split(&self, b: Seq<u8>, m: (usize, usize)) -> Seq<Push> {
        let (s, e) = (m.0 as int, m.1 as int);
        let at = next_or_end(b, s, e, 0x40);
        if s < e && ascii_range(b, s, e) && at < e {
            seq![plain(s, at, self.local_part), plain(at, at + 1, self.at_sign)]
                + domain_pushes(b, at + 1, e, self.domain, self.dot)
        } else {
            Seq::empty()
        }
    }

    fn split_into(&self, b: &[u8], m: (usize, usize), v: &mut Vec<Push>) {
        let (s, e) = m;
        if s < e && is_ascii_run(b, s, e) {
            let at = next_or_end_of(b, s, e, 0x40);
            if at < e {
                proof {
                    lemma_in_styles(self.ids());
                    lemma_ascii_range_all(b@, s as int, e as int);
                    lemma_next_or_end(b@, s as int, e as int, 0x40);
                }
                let ghost start = v@;
                let ghost target = start + self.split(b@, m);
                add_push(v, Ghost(b@), Ghost(self.ids()), s, at, self.local_part);
                add_push(v, Ghost(b@), Ghost(self.ids()), at, at + 1, self.at_sign);
                let mut i = at + 1;
                assert(target =~= v@ + domain_pushes(b@, i as int, e as int, self.domain, self.dot));
                while i < e
                    invariant
                        s <= at < i <= e <= b@.len(),
                        forall|k: int| s <= k <= e ==> #[trigger] crate::text::on_boundary(b@, k),
                        forall|k: int| 0 <= k < self.ids().len() ==> self.ids().contains(#[trigger] self.ids()[k]),
                        target == v@ + domain_pushes(b@, i as int, e as int, self.domain, self.dot),
                        pushes_ok(b@, v@),
                        styles_in(v@, self.ids()),
                    decreases e - i,
                {
                    if b[i] == 0x2e {
                        i = i + 1;
                    } else {
                        let j = next_or_end_of(b, i, e, 0x2e);
                        proof {
                            lemma_next_or_end(b@, i as int, e as int, 0x2e);
                        }
                        let ghost before = v@;
                        add_push(v, Ghost(b@), Ghost(self.ids()), i, j, self.domain);
                        if j < e {
                            add_push(v, Ghost(b@), Ghost(self.ids()), j, j + 1, self.dot);
                            assert(v@ + domain_pushes(b@, j + 1, e as int, self.domain, self.dot)
                                =~= before + domain_pushes(b@, i as int, e as int, self.domain, self.dot));
                            i = j + 1;
                        } else {
                            assert(domain_pushes(b@, e as int, e as int, self.domain, self.dot) =~= Seq::<Push>::empty());
                            assert(v@ + domain_pushes(b@, e as int, e as int, self.domain, self.dot)
                                =~= before + domain_pushes(b@, i as int, e as int, self.domain, self.dot));
                            i = e;
                        }
                    }
                }
                assert(v@ =~= target);
                return;
            }
        }
        assert(v@ =~= v@ + self.split(b@, m));
    }
}

/// Finds email addresses.
#[derive(Debug)]
pub struct EmailFinder {
    pub regex: Option<Pattern>,
    pub split: EmailSplit,
}

impl EmailFinder {
    /// The styles this finder uses.
    pub open spec fn styles(&self) -> Seq<StyleId> {
        self.split.ids()
    }

    /// The requests for `input`: none without `@`, otherwise the parts of
    /// every match.
    pub open spec fn pushes(&self, input: &str) -> Seq<Push> {
        if !has_byte(bytes_of(input), 0x40) {
            Seq::empty()
        } else {
            split_all_spec(self.split, bytes_of(input), matches_of(self.regex, input@))
        }
    }

    /// Built from `config`, with each configured style interned in `palette`.
    pub open spec fn made_from(&self, config: EmailConfig, palette: Seq<Seq<char>>) -> bool {
        &&& built(self.regex, EMAIL_PATTERN@)
        &&& resolves(palette, self.split.local_part, config.local_part)
        &&& resolves(palette, self.split.at_sign, config.at_sign)
        &&& resolves(palette, self.split.domain, config.domain)
        &&& resolves(palette, self.split.dot, config.dot)
    }

    /// An email finder with the configured styles.
    pub fn new(config: EmailConfig, palette: &mut Palette) -> (f: EmailFinder)
        requires
            old(palette).wf(),
            interned(interned(interned(interned(old(palette)@, config.local_part), config.at_sign), config.domain), config.dot).len() <= 0x10000,
        ensures
            final(palette).wf(),
            final(palette)@ == interned(interned(interned(interned(old(palette)@, config.local_part), config.at_sign), config.domain), config.dot),
            f.made_from(config, final(palette)@),
            extends(final(palette)@, old(palette)@, 4),
            forall|k: int| 0 <= k < f.styles().len() ==> (f.styles()[k].0 as int) < final(palette)@.len(),
    {
        proof {
            reveal(interned);
        }
        let local_part = palette.intern(config.local_part);
        let at_sign = palette.intern(config.at_sign);
        let domain = palette.intern(config.domain);
        let dot = palette.intern(config.dot);
        EmailFinder { regex: build_regex(EMAIL_PATTERN), split: EmailSplit { local_part, at_sign, domain, dot } }
    }

    /// Pushes the parts of every email address.
    pub fn find_spans(&self, input: &str, collector: &mut Collector)
        ensures
            final(collector)@ == push_all(old(collector)@, self.pushes(input)),
            pushes_ok(bytes_of(input), self.pushes(input)),
            styles_in(self.pushes(input), self.styles()),
    {
        let b = input_bytes(input);
        if find_byte(0x40, b).is_none() {
            collector.push_each(&[]);
            return;
        }
        match &self.regex {
            Some(p) => {
                let ms = find_all(p, input);
                let v = split_all(&self.split, b, ms.as_slice());
                collector.push_each(v.as_slice());
            },
            None => collector.push_each(&[]),
        }
    }
}

} // verus!
