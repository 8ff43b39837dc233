//! Merging keyword lists that share a style and border.
use vstd::prelude::*;
use crate::config_parser::Style;

verus! {

/// Words highlighted with one style, with or without a border.
#[derive(Debug, Clone, PartialEq, Eq)]
pub struct Keyword {
    pub style: Style,
    pub words: Vec<String>,
    pub border: bool,
}

/// The distinct `(style, border)` pairs of `ks`, in order of first use.
pub open spec fn distinct_keys(ks: Seq<Keyword>) -> Seq<(Style, bool)>
    decreases ks.len(),
{
    if ks.len() == 0 {
        Seq::empty()
    } else {
        let d = distinct_keys(ks.drop_last());
        let key = (ks.last().style, ks.last().border);
        if d.contains(key) { d } else { d.push(key) }
    }
}

/// The words of every list of `ks` with this style and border, in order.
pub open spec fn words_for(ks: Seq<Keyword>, key: (Style, bool)) -> Seq<Seq<char>>
    decreases ks.len(),
{
    if ks.len() == 0 {
        Seq::empty()
    } else {
        let k = ks.last();
        words_for(ks.drop_last(), key) + if (k.style, k.border) == key {
            k.words@.map_values(|w: String| w@)
        } else {
            Seq::empty()
        }
    }
}

/// The distinct pairs do not repeat.
proof fn lemma_distinct_keys(ks: Seq<Keyword>)
    ensures
        distinct_keys(ks).no_duplicates(),
        forall|key: (Style, bool)| #[trigger] distinct_keys(ks).contains(key) <==> exists|i: int|
            0 <= i < ks.len() && (ks[i].style, ks[i].border) == key,
    decreases ks.len(),
{
    if ks.len() > 0 {
        let d = ks.drop_last();
        lemma_distinct_keys(d);
        let key = (ks.last().style, ks.last().border);
        let r = distinct_keys(ks);
        assert forall|x: (Style, bool)| #[trigger] r.contains(x) <==> exists|i: int|
            0 <= i < ks.len() && (ks[i].style, ks[i].border) == x by {
            if r.contains(x) {
                if distinct_keys(d).contains(x) {
                    let i = choose|i: int| 0 <= i < d.len() && (d[i].style, d[i].border) == x;
                    assert(ks[i] == d[i]);
                } else {
                    let j = choose|j: int| 0 <= j < r.len() && r[j] == x;
                    assert(x == key);
                    assert((ks[ks.len() - 1].style, ks[ks.len() - 1].border) == x);
                }
            }
            if exists|i: int| 0 <= i < ks.len() && (ks[i].style, ks[i].border) == x {
                let i = choose|i: int| 0 <= i < ks.len() && (ks[i].style, ks[i].border) == x;
                if i < d.len() {
                    assert(d[i] == ks[i]);
                    assert(distinct_keys(d).contains(x));
                    let j = choose|j: int| 0 <= j < distinct_keys(d).len() && distinct_keys(d)[j] == x;
                    assert(r[j] == x);
                } else if !distinct_keys(d).contains(key) {
                    assert(r[r.len() - 1] == x);
                }
            }
        }
    }
}

/// The words of every list with this style and border, in order.
fn collect_words(keywords: &Vec<Keyword>, style: Style, border: bool) -> (v: Vec<String>)
    ensures
        v@.map_values(|w: String| w@) == words_for(keywords@, (style, border)),
{
    let mut v: Vec<String> = Vec::new();
    let mut i: usize = 0;
    assert(keywords@.take(0) =~= Seq::<Keyword>::empty());
    while i < keywords.len()
        invariant
            i <= keywords@.len(),
            v@.map_values(|w: String| w@) == words_for(keywords@.take(i as int), (style, border)),
        decreases keywords@.len() - i,
    {
        let k = &keywords[i];
        assert(keywords@.take(i + 1).drop_last() =~= keywords@.take(i as int));
        if k.style == style && k.border == border {
            let ghost base = v@.map_values(|w: String| w@);
            let mut j: usize = 0;
            while j < k.words.len()
                invariant
                    j <= k.words@.len(),
                    v@.map_values(|w: String| w@) == base + k.words@.take(j as int).map_values(|w: String| w@),
                decreases k.words@.len() - j,
            {
                let ghost before = v@;
                v.push(k.words[j].clone());
                assert(k.words@.take(j + 1).map_values(|w: String| w@) =~= k.words@.take(j as int).map_values(
                    |w: String| w@,
                ).push(k.words@[j as int]@));
                assert(v@.map_values(|w: String| w@) =~= before.map_values(|w: String| w@).push(k.words@[j as int]@));
                j = j + 1;
            }
            assert(k.words@.take(j as int) =~= k.words@);
        } else {
            assert(v@.map_values(|w: String| w@) =~= words_for(keywords@.take(i + 1), (style, border)));
        }
        i = i + 1;
    }
    assert(keywords@.take(keywords@.len() as int) =~= keywords@);
    v
}

/// Merges the lists that share a style and border: one list per distinct
/// pair, in order of first use, holding all their words in order.
pub fn consolidate_keywords(keywords: Vec<Keyword>) -> (r: Vec<Keyword>)
    ensures
        r@.len() == distinct_keys(keywords@).len(),
        forall|i: int| 0 <= i < r@.len() ==> {
            &&& (#[trigger] r@[i]).style == distinct_keys(keywords@)[i].0
            &&& r@[i].border == distinct_keys(keywords@)[i].1
            &&& r@[i].words@.map_values(|w: String| w@) == words_for(keywords@, distinct_keys(keywords@)[i])
        },
        forall|i: int, j: int|
            0 <= i < r@.len() && 0 <= j < r@.len() && i != j ==> (#[trigger] r@[i].style, r@[i].border) != (
            #[trigger] r@[j].style, r@[j].border),
        forall|m: int| 0 <= m < keywords@.len() ==> exists|i: int|
            0 <= i < r@.len() && (#[trigger] r@[i]).style == (#[trigger] keywords@[m]).style && r@[i].border == keywords@[m].border,
{
    proof {
        lemma_distinct_keys(keywords@);
    }
    let mut keys: Vec<(Style, bool)> = Vec::new();
    let mut i: usize = 0;
    assert(keywords@.take(0) =~= Seq::<Keyword>::empty());
    while i < keywords.len()
        invariant
            i <= keywords@.len(),
            keys@ == distinct_keys(keywords@.take(i as int)),
        decreases keywords@.len() - i,
    {
        let style = keywords[i].style;
        let border = keywords[i].border;
        let mut seen = false;
        let mut j: usize = 0;
        while j < keys.len()
            invariant
                j <= keys@.len(),
                seen == exists|m: int| 0 <= m < j && keys@[m] == (style, border),
            decreases keys@.len() - j,
        {
            if keys[j].0 == style && keys[j].1 == border {
                seen = true;
            }
            j = j + 1;
        }
        assert(keywords@.take(i + 1).drop_last() =~= keywords@.take(i as int));
        assert(keywords@.take(i + 1).last() == keywords@[i as int]);
        if !seen {
            keys.push((style, border));
        }
        i = i + 1;
    }
    assert(keywords@.take(keywords@.len() as int) =~= keywords@);
    let mut r: Vec<Keyword> = Vec::new();
    let mut k: usize = 0;
    while k < keys.len()
        invariant
            k <= keys@.len(),
            keys@ == distinct_keys(keywords@),
            r@.len() == k,
            forall|m: int| 0 <= m < k ==> {
                &&& (#[trigger] r@[m]).style == keys@[m].0
                &&& r@[m].border == keys@[m].1
                &&& r@[m].words@.map_values(|w: String| w@) == words_for(keywords@, keys@[m])
            },
        decreases keys@.len() - k,
    {
        let (style, border) = keys[k];
        let words = collect_words(&keywords, style, border);
        r.push(Keyword { style, words, border });
        k = k + 1;
    }
    proof {
        let d = distinct_keys(keywords@);
        assert forall|m: int| 0 <= m < keywords@.len() implies exists|i: int|
            0 <= i < r@.len() && (#[trigger] r@[i]).style == (#[trigger] keywords@[m]).style && r@[i].border == keywords@[m].border by {
            let key = (keywords@[m].style, keywords@[m].border);
            assert(d.contains(key));
            let i = choose|i: int| 0 <= i < d.len() && d[i] == key;
            assert(r@[i].style == key.0);
        }
    }
    r
}

} // verus!
