//! One keyword per word.
use vstd::prelude::*;
use crate::config_parser::{Keyword, Style};

verus! {

/// One word and its style.
#[derive(Debug, Clone, PartialEq, Eq)]
pub struct FlattenKeyword {
    pub keyword: String,
    pub style: Style,
}

/// The words of `keywords`, in order, each with its keyword's style.
pub open spec fn flattened(keywords: Seq<Keyword>) -> Seq<(Seq<char>, Style)>
    decreases keywords.len(),
{
    if keywords.len() == 0 {
        Seq::empty()
    } else {
        let k = keywords.last();
        flattened(keywords.drop_last()) + k.words@.map_values(|w: String| (w@, k.style))
    }
}

/// Splits keyword lists into one entry per word, in order, each with its
/// list's style.
pub fn flatten_keywords(keywords: Vec<Keyword>) -> (v: Vec<FlattenKeyword>)
    ensures
        v@.map_values(|f: FlattenKeyword| (f.keyword@, f.style)) == flattened(keywords@),
{
    let mut v: Vec<FlattenKeyword> = Vec::new();
    let mut i: usize = 0;
    assert(keywords@.take(0) =~= Seq::<Keyword>::empty());
    while i < keywords.len()
        invariant
            i <= keywords@.len(),
            v@.map_values(|f: FlattenKeyword| (f.keyword@, f.style)) == flattened(keywords@.take(i as int)),
        decreases keywords@.len() - i,
    {
        let keyword = &keywords[i];
        let ghost base = v@.map_values(|f: FlattenKeyword| (f.keyword@, f.style));
        let mut j: usize = 0;
        while j < keyword.words.len()
            invariant
                j <= keyword.words@.len(),
                v@.map_values(|f: FlattenKeyword| (f.keyword@, f.style))
                    == base + keyword.words@.take(j as int).map_values(|w: String| (w@, keyword.style)),
            decreases keyword.words@.len() - j,
        {
            let ghost before = v@;
            v.push(FlattenKeyword { keyword: keyword.words[j].clone(), style: keyword.style });
            assert(keyword.words@.take(j + 1).map_values(|w: String| (w@, keyword.style))
                =~= keyword.words@.take(j as int).map_values(|w: String| (w@, keyword.style)).push(
                (keyword.words@[j as int]@, keyword.style),
            ));
            assert(v@.map_values(|f: FlattenKeyword| (f.keyword@, f.style)) =~= before.map_values(
                |f: FlattenKeyword| (f.keyword@, f.style),
            ).push((keyword.words@[j as int]@, keyword.style)));
            j = j + 1;
        }
        assert(keyword.words@.take(j as int) =~= keyword.words@);
        assert(keywords@.take(i + 1).drop_last() =~= keywords@.take(i as int));
        i = i + 1;
    }
    assert(keywords@.take(keywords@.len() as int) =~= keywords@);
    v
}

} // verus!
