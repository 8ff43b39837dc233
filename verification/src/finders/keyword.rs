//! Keywords: every configured word, found with one automaton, kept where
//! it stands as a whole word, and chosen left to right, longest first.
use vstd::prelude::*;

use aho_corasick::BuildError;
use crate::automaton::{Keywords, build_keywords, overlapping_matches, occurrence, automaton_builds, texts, word_bytes};
use crate::config::KeywordConfig;
use crate::finders::{pushes_ok, push_ok, styles_in};
use crate::palette::{interned, interned_all, lemma_interned_all_prefix, lemma_interned_grows, Palette, StyleId, extends};
use crate::span::{Collector, Push, push_all};
use crate::style::{Style, ansi_prefix};
use crate::text::{bytes_of, input_bytes, on_boundary};

verus! {

/// An ASCII letter, digit or underscore.
pub open spec fn is_word_byte(c: u8) -> bool {
    (0x41 <= c <= 0x5a) || (0x61 <= c <= 0x7a) || (0x30 <= c <= 0x39) || c == 0x5f
}

/// Whether `c` is an ASCII letter, digit or underscore.
pub fn word_byte(c: u8) -> (r: bool)
    ensures
        r == is_word_byte(c),
{
    (c >= 0x41 && c <= 0x5a) || (c >= 0x61 && c <= 0x7a) || (c >= 0x30 && c <= 0x39) || c == 0x5f
}

/// No word byte touches `b[s..e]` on either side.
pub open spec fn word_boundary(b: Seq<u8>, s: int, e: int) -> bool {
    &&& (s == 0 || !is_word_byte(b[s - 1]))
    &&& (e == b.len() || !is_word_byte(b[e]))
}

/// Whether no word byte touches `b[s..e]` on either side.
pub fn is_word_boundary(b: &[u8], s: usize, e: usize) -> (r: bool)
    requires
        s <= b@.len(),
        e <= b@.len(),
    ensures
        r == word_boundary(b@, s as int, e as int),
{
    let left_ok = s == 0 || !word_byte(b[s - 1]);
    let right_ok = e == b.len() || !word_byte(b[e]);
    left_ok && right_ok
}

/// An occurrence of a keyword that is a whole word on character boundaries.
pub open spec fn kept(words: Seq<Seq<u8>>, b: Seq<u8>, m: (usize, usize, usize)) -> bool {
    &&& occurrence(words, b, m)
    &&& word_boundary(b, m.0 as int, m.1 as int)
    &&& on_boundary(b, m.0 as int)
    &&& on_boundary(b, m.1 as int)
}

/// Occurrences in scan order: by start, then longest first, then by
/// pattern.
pub open spec fn comes_before(a: (usize, usize, usize), c: (usize, usize, usize)) -> bool {
    a.0 < c.0 || (a.0 == c.0 && (a.1 > c.1 || (a.1 == c.1 && a.2 < c.2)))
}

/// Whether `a` comes before `c` in scan order.
fn before(a: (usize, usize, usize), c: (usize, usize, usize)) -> (r: bool)
    ensures
        r == comes_before(a, c),
{
    a.0 < c.0 || (a.0 == c.0 && (a.1 > c.1 || (a.1 == c.1 && a.2 < c.2)))
}

/// Strictly in scan order.
pub open spec fn in_scan_order(t: Seq<(usize, usize, usize)>) -> bool {
    forall|i: int, j: int| 0 <= i < j < t.len() ==> comes_before(#[trigger] t[i], #[trigger] t[j])
}

/// The kept occurrences of `words` in `b`, in scan order.
pub open spec fn ordered(words: Seq<Seq<u8>>, b: Seq<u8>) -> Seq<(usize, usize, usize)> {
    choose|t: Seq<(usize, usize, usize)>| in_scan_order(t) && forall|m: (usize, usize, usize)| #[trigger] t.contains(m) <==> kept(words, b, m)
}

/// Two sequences in scan order with the same members are equal.
pub proof fn lemma_scan_order_unique(a: Seq<(usize, usize, usize)>, c: Seq<(usize, usize, usize)>)
    requires
        in_scan_order(a),
        in_scan_order(c),
        forall|m: (usize, usize, usize)| a.contains(m) <==> c.contains(m),
    ensures
        a == c,
    decreases a.len(),
{
    if a.len() == 0 {
        if c.len() > 0 {
            assert(c.contains(c[0]));
        }
        assert(a =~= c);
    } else {
        assert(a.contains(a[0]));
        assert(c.len() > 0);
        if a[0] != c[0] {
            assert(c.contains(a[0]));
            let j = choose|j: int| 0 <= j < c.len() && c[j] == a[0];
            assert(c.contains(c[0]));
            let i = choose|i: int| 0 <= i < a.len() && a[i] == c[0];
            assert(comes_before(c[0], c[j]));
            assert(comes_before(a[0], a[i]));
        }
        let a1 = a.drop_first();
        let c1 = c.drop_first();
        assert forall|m: (usize, usize, usize)| a1.contains(m) <==> c1.contains(m) by {
            if a1.contains(m) {
                let i = choose|i: int| 0 <= i < a1.len() && a1[i] == m;
                assert(a[i + 1] == m);
                assert(comes_before(a[0], a[i + 1]));
                assert(a.contains(m));
                let j = choose|j: int| 0 <= j < c.len() && c[j] == m;
                assert(j != 0);
                assert(c1[j - 1] == m);
            }
            if c1.contains(m) {
                let j = choose|j: int| 0 <= j < c1.len() && c1[j] == m;
                assert(c[j + 1] == m);
                assert(comes_before(c[0], c[j + 1]));
                assert(c.contains(m));
                let i = choose|i: int| 0 <= i < a.len() && a[i] == m;
                assert(i != 0);
                assert(a1[i - 1] == m);
            }
        }
        lemma_scan_order_unique(a1, c1);
        assert(a =~= seq![a[0]] + a1);
        assert(c =~= seq![c[0]] + c1);
    }
}

/// Each request is a whole word, and each ends before the next begins.
pub open spec fn whole_words_in_order(b: Seq<u8>, ps: Seq<Push>) -> bool {
    &&& forall|k: int| 0 <= k < ps.len() ==> word_boundary(b, (#[trigger] ps[k]).start as int, ps[k].end as int)
    &&& forall|k: int| 0 <= k < ps.len() - 1 ==> (#[trigger] ps[k]).end <= ps[k + 1].start
}

/// The words of a list of keyword configurations, in order.
pub open spec fn all_words(cs: Seq<KeywordConfig>) -> Seq<String>
    decreases cs.len(),
{
    if cs.len() == 0 {
        Seq::empty()
    } else {
        all_words(cs.drop_last()) + cs.last().words@
    }
}

/// The styles of `cs`, in order.
pub open spec fn config_styles(cs: Seq<KeywordConfig>) -> Seq<Style> {
    cs.map_values(|c: KeywordConfig| c.style)
}

/// The style of each word of `all_words(cs)`: its configuration's.
pub open spec fn word_styles(cs: Seq<KeywordConfig>) -> Seq<Style>
    decreases cs.len(),
{
    if cs.len() == 0 {
        Seq::empty()
    } else {
        word_styles(cs.drop_last()) + Seq::new(cs.last().words@.len(), |i: int| cs.last().style)
    }
}

/// Finds configured keywords.
#[derive(Debug)]
pub struct KeywordFinder {
    pub keywords: Keywords,
    pub styles: Vec<StyleId>,
    pub padded: Vec<bool>,
}

impl KeywordFinder {
    /// Each keyword has a style and a padding flag.
    pub open spec fn wf(&self) -> bool {
        &&& self.styles@.len() == self.keywords.words().len()
        &&& self.padded@.len() == self.styles@.len()
    }

    /// The styles this finder uses.
    pub open spec fn styles(&self) -> Seq<StyleId> {
        self.styles@
    }

    /// The request for an occurrence: its keyword's style, padded when that
    /// style has a background.
    pub open spec fn push_of(&self, m: (usize, usize, usize)) -> Push {
        Push { start: m.0, end: m.1, style: self.styles@[m.2 as int], padded: self.padded@[m.2 as int] }
    }

    /// The requests for occurrences `t` in scan order, each skipped when it
    /// starts before `next`, the end of the last one taken.
    pub open spec fn selection(&self, t: Seq<(usize, usize, usize)>, next: int) -> Seq<Push>
        decreases t.len(),
    {
        if t.len() == 0 {
            Seq::empty()
        } else if t[0].0 < next {
            self.selection(t.drop_first(), next)
        } else {
            seq![self.push_of(t[0])] + self.selection(t.drop_first(), t[0].1 as int)
        }
    }

    /// A selection from occurrences in scan order, all kept, consists of
    /// whole words that start at or after `next` and do not overlap.
    pub proof fn lemma_selection(&self, b: Seq<u8>, t: Seq<(usize, usize, usize)>, next: int)
        requires
            in_scan_order(t),
            forall|m: (usize, usize, usize)| #[trigger] t.contains(m) ==> kept(self.keywords.words(), b, m),
        ensures
            whole_words_in_order(b, self.selection(t, next)),
            forall|k: int| 0 <= k < self.selection(t, next).len() ==> (#[trigger] self.selection(t, next)[k]).start >= next,
        decreases t.len(),
    {
        if t.len() > 0 {
            let rest = t.drop_first();
            assert forall|m: (usize, usize, usize)| #[trigger] rest.contains(m) implies kept(self.keywords.words(), b, m) by {
                let i = choose|i: int| 0 <= i < rest.len() && rest[i] == m;
                assert(t[i + 1] == m);
                assert(t.contains(m));
            }
            assert(in_scan_order(rest)) by {
                assert forall|i: int, j: int| 0 <= i < j < rest.len() implies comes_before(#[trigger] rest[i], #[trigger] rest[j]) by {
                    assert(rest[i] == t[i + 1] && rest[j] == t[j + 1]);
                }
            }
            if t[0].0 < next {
                self.lemma_selection(b, rest, next);
            } else {
                self.lemma_selection(b, rest, t[0].1 as int);
                assert(t.contains(t[0]));
                let s = self.selection(t, next);
                let r = self.selection(rest, t[0].1 as int);
                assert(s == seq![self.push_of(t[0])] + r);
                assert forall|k: int| 0 <= k < s.len() implies word_boundary(b, (#[trigger] s[k]).start as int, s[k].end as int) by {
                    if k > 0 {
                        assert(s[k] == r[k - 1]);
                    }
                }
                assert forall|k: int| 0 <= k < s.len() - 1 implies (#[trigger] s[k]).end <= s[k + 1].start by {
                    assert(s[k + 1] == r[k]);
                    if k > 0 {
                        assert(s[k] == r[k - 1]);
                    }
                }
                assert forall|k: int| 0 <= k < s.len() implies (#[trigger] s[k]).start >= next by {
                    if k > 0 {
                        assert(s[k] == r[k - 1]);
                    }
                }
            }
        }
    }

    /// The requests for `input`: the whole-word occurrences, taken left to
    /// right, longest first at a start, and never overlapping one taken.
    pub open spec fn pushes(&self, input: &str) -> Seq<Push> {
        self.selection(ordered(self.keywords.words(), bytes_of(input)), 0)
    }

    /// A finder for every word of `configs`, each with its configuration's
    /// style: fails exactly when the automaton cannot be built. Either way the
    /// palette has interned the configurations' styles in order.
    pub fn new(configs: &[KeywordConfig], palette: &mut Palette) -> (r: Result<KeywordFinder, BuildError>)
        requires
            old(palette).wf(),
            interned_all(old(palette)@, config_styles(configs@)).len() <= 0x10000,
        ensures
            final(palette).wf(),
            final(palette)@ == interned_all(old(palette)@, config_styles(configs@)),
            extends(final(palette)@, old(palette)@, configs@.len()),
            r is Ok <==> automaton_builds(texts(all_words(configs@))),
            r matches Ok(f) ==> forall|k: int| 0 <= k < f.styles().len() ==> (f.styles()[k].0 as int) < final(palette)@.len(),
            r matches Ok(f) ==> {
                &&& f.wf()
                &&& f.keywords.words() == word_bytes(all_words(configs@))
                &&& forall|k: int| 0 <= k < f.styles@.len() ==> {
                    &&& (f.styles@[k].0 as int) < final(palette)@.len()
                    &&& final(palette)@[f.styles@[k].0 as int] == ansi_prefix(#[trigger] word_styles(configs@)[k])
                    &&& f.padded@[k] == (word_styles(configs@)[k].bg is Some)
                }
            },
    {
        proof {
            reveal(interned);
        }
        let ghost cs = configs@;
        let mut words: Vec<String> = Vec::new();
        let mut styles: Vec<StyleId> = Vec::new();
        let mut padded: Vec<bool> = Vec::new();
        let mut k: usize = 0;
        assert(cs.take(0) =~= Seq::<KeywordConfig>::empty());
        while k < configs.len()
            invariant
                cs == configs@,
                k <= cs.len(),
                palette.wf(),
                interned_all(old(palette)@, config_styles(cs)).len() <= 0x10000,
                extends(palette@, old(palette)@, k as nat),
                palette@ == interned_all(old(palette)@, config_styles(cs.take(k as int))),
                words@ == all_words(cs.take(k as int)),
                styles@.len() == words@.len(),
                padded@.len() == words@.len(),
                word_styles(cs.take(k as int)).len() == words@.len(),
                forall|i: int| 0 <= i < styles@.len() ==> (#[trigger] styles@[i].0 as int) < palette@.len(),
                forall|i: int| 0 <= i < styles@.len() ==> {
                    &&& (styles@[i].0 as int) < palette@.len()
                    &&& palette@[styles@[i].0 as int] == ansi_prefix(#[trigger] word_styles(cs.take(k as int))[i])
                    &&& padded@[i] == (word_styles(cs.take(k as int))[i].bg is Some)
                },
            decreases cs.len() - k,
        {
            let config = &configs[k];
            let ghost p_before = palette@;
            proof {
                let t = cs.take(k + 1);
                assert(t.drop_last() =~= cs.take(k as int));
                assert(config_styles(t).drop_last() =~= config_styles(cs.take(k as int)));
                assert(config_styles(t) + config_styles(cs.skip(k + 1)) =~= config_styles(cs)) by {
                    assert(cs =~= t + cs.skip(k + 1));
                }
                lemma_interned_all_prefix(old(palette)@, config_styles(t), config_styles(cs.skip(k + 1)));
                lemma_interned_grows(palette@, config.style);
            }
            let id = palette.intern(config.style);
            let pad = config.style.has_background();
            let ghost w0 = words@;
            let ghost s0 = styles@;
            let ghost p0 = padded@;
            let mut j: usize = 0;
            while j < config.words.len()
                invariant
                    j <= config.words@.len(),
                    words@ == w0 + config.words@.take(j as int),
                    styles@ == s0 + Seq::new(j as nat, |i: int| id),
                    padded@ == p0 + Seq::new(j as nat, |i: int| pad),
                decreases config.words@.len() - j,
            {
                words.push(config.words[j].clone());
                styles.push(id);
                padded.push(pad);
                assert(config.words@.take(j + 1) =~= config.words@.take(j as int).push(config.words@[j as int]));
                assert(Seq::new((j + 1) as nat, |i: int| id) =~= Seq::new(j as nat, |i: int| id).push(id));
                assert(Seq::new((j + 1) as nat, |i: int| pad) =~= Seq::new(j as nat, |i: int| pad).push(pad));
                j = j + 1;
            }
            proof {
                let t = cs.take(k + 1);
                assert(t.drop_last() =~= cs.take(k as int));
                assert(config_styles(t).drop_last() =~= config_styles(cs.take(k as int)));
                assert(config_styles(t).last() == config.style);
                reveal(interned);
                assert(t.last() == *config);
                assert(config.words@.take(j as int) =~= config.words@);
                let ws = word_styles(t);
                assert(ws =~= word_styles(cs.take(k as int)) + Seq::new(config.words@.len(), |i: int| config.style));
                assert forall|i: int| 0 <= i < styles@.len() implies {
                    &&& (styles@[i].0 as int) < palette@.len()
                    &&& palette@[styles@[i].0 as int] == ansi_prefix(#[trigger] ws[i])
                    &&& padded@[i] == (ws[i].bg is Some)
                } by {
                    if i < s0.len() {
                        assert(styles@[i] == s0[i]);
                        assert(ws[i] == word_styles(cs.take(k as int))[i]);
                    } else {
                        assert(styles@[i] == id);
                        assert(ws[i] == config.style);
                    }
                }
                assert forall|i: int| 0 <= i < styles@.len() implies (#[trigger] styles@[i].0 as int) < palette@.len() by {
                    if i < s0.len() {
                        assert(styles@[i] == s0[i]);
                    } else {
                        assert(styles@[i] == id);
                    }
                }
            }
            k = k + 1;
        }
        assert(cs.take(cs.len() as int) =~= cs);
        match build_keywords(words) {
            Ok(keywords) => Ok(KeywordFinder { keywords, styles, padded }),
            Err(e) => Err(e),
        }
    }

    /// The kept occurrences among `occ`.
    fn keep(&self, b: &[u8], occ: &Vec<(usize, usize, usize)>) -> (v: Vec<(usize, usize, usize)>)
        requires
            occ@.no_duplicates(),
            forall|m: (usize, usize, usize)| #[trigger] occ@.contains(m) ==> occurrence(self.keywords.words(), b@, m),
        ensures
            v@.no_duplicates(),
            forall|m: (usize, usize, usize)|
                #[trigger] v@.contains(m) <==> occ@.contains(m) && kept(self.keywords.words(), b@, m),
    {
        let ghost words = self.keywords.words();
        let n = b.len();
        let mut v: Vec<(usize, usize, usize)> = Vec::new();
        let mut k: usize = 0;
        while k < occ.len()
            invariant
                k <= occ@.len(),
                n == b@.len(),
                words == self.keywords.words(),
                occ@.no_duplicates(),
                forall|m: (usize, usize, usize)| #[trigger] occ@.contains(m) ==> occurrence(words, b@, m),
                v@.no_duplicates(),
                forall|m: (usize, usize, usize)|
                    #[trigger] v@.contains(m) <==> occ@.take(k as int).contains(m) && kept(words, b@, m),
            decreases occ@.len() - k,
        {
            let m = occ[k];
            assert(occ@.contains(m));
            let s = m.0;
            let e = m.1;
            let keep = is_word_boundary(b, s, e)
                && (s == n || !(b[s] >= 0x80 && b[s] <= 0xbf))
                && (e == n || !(b[e] >= 0x80 && b[e] <= 0xbf));
            let ghost before = v@;
            let ghost prefix = occ@.take(k + 1);
            assert(prefix =~= occ@.take(k as int).push(m));
            if keep {
                assert(!occ@.take(k as int).contains(m)) by {
                    if occ@.take(k as int).contains(m) {
                        let i = choose|i: int| 0 <= i < k && occ@.take(k as int)[i] == m;
                        assert(occ@[i] == occ@[k as int]);
                    }
                }
                v.push(m);
                assert(!before.contains(m));
                assert forall|i: int, j: int| 0 <= i < v@.len() && 0 <= j < v@.len() && i != j implies v@[i] != v@[j] by {
                    if i == before.len() {
                        assert(v@[j] == before[j]);
                    } else if j == before.len() {
                        assert(v@[i] == before[i]);
                    } else {
                        assert(v@[i] == before[i] && v@[j] == before[j]);
                    }
                }
                assert forall|x: (usize, usize, usize)| #[trigger] v@.contains(x) <==> occ@.take(k + 1).contains(x)
                    && kept(words, b@, x) by {
                    if v@.contains(x) && x != m {
                        let i = choose|i: int| 0 <= i < v@.len() && v@[i] == x;
                        assert(before[i] == x);
                        assert(before.contains(x));
                    }
                    if prefix.contains(x) && kept(words, b@, x) && x != m {
                        let i = choose|i: int| 0 <= i < prefix.len() && prefix[i] == x;
                        assert(occ@.take(k as int)[i] == x);
                        assert(before.contains(x));
                        let j = choose|j: int| 0 <= j < before.len() && before[j] == x;
                        assert(v@[j] == x);
                    }
                    if x == m {
                        assert(v@[before.len() as int] == m);
                        assert(prefix[k as int] == m);
                    }
                }
            } else {
                assert forall|x: (usize, usize, usize)| #[trigger] v@.contains(x) <==> occ@.take(k + 1).contains(x)
                    && kept(words, b@, x) by {
                    if prefix.contains(x) && x != m {
                        let i = choose|i: int| 0 <= i < prefix.len() && prefix[i] == x;
                        assert(occ@.take(k as int)[i] == x);
                    }
                }
            }
            k = k + 1;
        }
        assert(occ@.take(occ@.len() as int) =~= occ@);
        v
    }

    /// The pushes of the occurrences `t`, taken as `selection` does.
    fn select(&self, b: &[u8], t: &Vec<(usize, usize, usize)>) -> (v: Vec<Push>)
        requires
            self.wf(),
            forall|m: (usize, usize, usize)| #[trigger] t@.contains(m) ==> kept(self.keywords.words(), b@, m),
        ensures
            v@ == self.selection(t@, 0),
            pushes_ok(b@, v@),
            styles_in(v@, self.styles()),
    {
        let mut v: Vec<Push> = Vec::new();
        let mut next: usize = 0;
        let mut k: usize = 0;
        assert(t@.skip(0) =~= t@);
        while k < t.len()
            invariant
                k <= t@.len(),
                self.wf(),
                forall|m: (usize, usize, usize)| #[trigger] t@.contains(m) ==> kept(self.keywords.words(), b@, m),
                self.selection(t@, 0) == v@ + self.selection(t@.skip(k as int), next as int),
                pushes_ok(b@, v@),
                styles_in(v@, self.styles()),
            decreases t@.len() - k,
        {
            let m = t[k];
            assert(t@.contains(m));
            assert(t@.skip(k as int)[0] == m);
            assert(t@.skip(k as int).drop_first() =~= t@.skip(k + 1));
            if m.0 >= next {
                let ghost before = v@;
                let p = Push { start: m.0, end: m.1, style: self.styles[m.2], padded: self.padded[m.2] };
                v.push(p);
                proof {
                    assert(self.styles().contains(self.styles@[m.2 as int]));
                    assert forall|i: int| 0 <= i < v@.len() implies push_ok(b@, #[trigger] v@[i])
                        && self.styles().contains(v@[i].style) by {
                        if i < before.len() {
                            assert(v@[i] == before[i]);
                        }
                    }
                    assert(v@ + self.selection(t@.skip(k + 1), m.1 as int) =~= before + self.selection(
                        t@.skip(k as int),
                        next as int,
                    ));
                }
                next = m.1;
            }
            k = k + 1;
        }
        assert(self.selection(t@.skip(k as int), next as int) =~= Seq::<Push>::empty());
        v
    }

    /// Pushes the chosen keyword occurrences.
    pub fn find_spans(&self, input: &str, collector: &mut Collector)
        requires
            self.wf(),
        ensures
            final(collector)@ == push_all(old(collector)@, self.pushes(input)),
            pushes_ok(bytes_of(input), self.pushes(input)),
            styles_in(self.pushes(input), self.styles()),
            whole_words_in_order(bytes_of(input), self.pushes(input)),
    {
        let b = input_bytes(input);
        let occ = overlapping_matches(&self.keywords, b);
        let found = self.keep(b, &occ);
        let sorted = sort_in_scan_order(&found);
        proof {
            let words = self.keywords.words();
            assert forall|m: (usize, usize, usize)| #[trigger] sorted@.contains(m) <==> kept(words, bytes_of(input), m) by {
                if kept(words, bytes_of(input), m) {
                    assert(occurrence(words, b@, m));
                    assert(occ@.contains(m));
                }
            }
            let t = ordered(words, bytes_of(input));
            lemma_scan_order_unique(sorted@, t);
            self.lemma_selection(bytes_of(input), sorted@, 0);
        }
        let v = self.select(b, &sorted);
        collector.push_each(v.as_slice());
    }
}

/// The occurrences of `v` in scan order.
pub fn sort_in_scan_order(v: &Vec<(usize, usize, usize)>) -> (r: Vec<(usize, usize, usize)>)
    requires
        v@.no_duplicates(),
    ensures
        in_scan_order(r@),
        forall|m: (usize, usize, usize)| #[trigger] r@.contains(m) <==> v@.contains(m),
{
    let mut r: Vec<(usize, usize, usize)> = Vec::new();
    let mut k: usize = 0;
    while k < v.len()
        invariant
            k <= v@.len(),
            v@.no_duplicates(),
            in_scan_order(r@),
            forall|m: (usize, usize, usize)| #[trigger] r@.contains(m) <==> v@.take(k as int).contains(m),
        decreases v@.len() - k,
    {
        let x = v[k];
        assert(!v@.take(k as int).contains(x)) by {
            if v@.take(k as int).contains(x) {
                let i = choose|i: int| 0 <= i < k && v@.take(k as int)[i] == x;
                assert(v@[i] == v@[k as int]);
            }
        }
        let mut p: usize = 0;
        while p < r.len() && !before(x, r[p])
            invariant
                p <= r@.len(),
                forall|i: int| 0 <= i < p ==> !comes_before(x, #[trigger] r@[i]),
            decreases r@.len() - p,
        {
            p = p + 1;
        }
        let ghost old_r = r@;
        r.insert(p, x);
        proof {
            assert(!old_r.contains(x));
            assert forall|i: int, j: int| 0 <= i < j < r@.len() implies comes_before(#[trigger] r@[i], #[trigger] r@[j]) by {
                if j < p {
                    assert(r@[i] == old_r[i] && r@[j] == old_r[j]);
                } else if j == p {
                    assert(r@[i] == old_r[i]);
                    assert(!comes_before(x, old_r[i]));
                    assert(old_r.contains(old_r[i]));
                } else if i < p {
                    assert(r@[i] == old_r[i] && r@[j] == old_r[j - 1]);
                    assert(!comes_before(x, old_r[i]));
                    assert(old_r.contains(old_r[i]));
                    assert(comes_before(x, old_r[p as int]));
                    if (j - 1) > p {
                        assert(comes_before(old_r[p as int], old_r[j - 1]));
                    }
                } else if i == p {
                    assert(r@[j] == old_r[j - 1]);
                    assert(comes_before(x, old_r[p as int]));
                    if (j - 1) > p {
                        assert(comes_before(old_r[p as int], old_r[j - 1]));
                    }
                } else {
                    assert(r@[i] == old_r[i - 1] && r@[j] == old_r[j - 1]);
                }
            }
            let prefix = v@.take(k + 1);
            assert(prefix =~= v@.take(k as int).push(x));
            assert forall|m: (usize, usize, usize)| #[trigger] r@.contains(m) <==> prefix.contains(m) by {
                if r@.contains(m) {
                    let i = choose|i: int| 0 <= i < r@.len() && r@[i] == m;
                    if i < p {
                        assert(old_r[i] == m);
                        assert(old_r.contains(m));
                    } else if i > p {
                        assert(old_r[i - 1] == m);
                        assert(old_r.contains(m));
                    }
                    if m != x {
                        let j = choose|j: int| 0 <= j < k && v@.take(k as int)[j] == m;
                        assert(prefix[j] == m);
                    } else {
                        assert(prefix[k as int] == m);
                    }
                }
                if prefix.contains(m) {
                    let j = choose|j: int| 0 <= j < prefix.len() && prefix[j] == m;
                    if j < k {
                        assert(v@.take(k as int)[j] == m);
                        assert(old_r.contains(m));
                        let i = choose|i: int| 0 <= i < old_r.len() && old_r[i] == m;
                        if i < p {
                            assert(r@[i] == m);
                        } else {
                            assert(r@[i + 1] == m);
                        }
                    } else {
                        assert(r@[p as int] == x);
                    }
                }
            }
        }
        k = k + 1;
    }
    assert(v@.take(v@.len() as int) =~= v@);
    r
}

} // verus!
