//! The keyword automaton of `aho_corasick`, behind trusted items whose
//! contracts state what the crate's documentation promises.
use vstd::prelude::*;
use vstd::utf8::encode_utf8;
use aho_corasick::{AhoCorasick, AhoCorasickBuilder, BuildError, MatchKind};
use crate::matching::occurs_at;

verus! {

#[verifier::external_type_specification]
#[verifier::external_body]
pub struct ExAhoCorasick(AhoCorasick);

#[verifier::external_type_specification]
#[verifier::external_body]
pub struct ExBuildError(BuildError);

/// Whether an automaton with standard match semantics builds for `words`.
pub uninterp spec fn automaton_builds(words: Seq<Seq<char>>) -> bool;

/// The texts of a list of words.
pub open spec fn texts(words: Seq<String>) -> Seq<Seq<char>> {
    words.map_values(|w: String| w@)
}

/// The UTF-8 bytes of a list of words.
pub open spec fn word_bytes(words: Seq<String>) -> Seq<Seq<u8>> {
    words.map_values(|w: String| encode_utf8(w@))
}

/// A keyword automaton, with the words it was built from.
#[derive(Debug)]
pub struct Keywords {
    ac: AhoCorasick,
    words: Vec<String>,
}

impl Keywords {
    /// The words, as bytes, in pattern order.
    pub closed spec fn words(&self) -> Seq<Seq<u8>> {
        word_bytes(self.words@)
    }
}

/// Pattern `m.2` occurs in `hay` from `m.0` to `m.1`.
pub open spec fn occurrence(words: Seq<Seq<u8>>, hay: Seq<u8>, m: (usize, usize, usize)) -> bool {
    &&& m.2 < words.len()
    &&& occurs_at(hay, words[m.2 as int], m.0 as int)
    &&& m.1 == m.0 + words[m.2 as int].len()
}

/// `AhoCorasickBuilder` with `MatchKind::Standard`: fails exactly when the
/// automaton cannot be built for these words, and otherwise keeps them as
/// its patterns, in order.
#[verifier::external_body]
pub(crate) fn build_keywords(words: Vec<String>) -> (r: Result<Keywords, BuildError>)
    ensures
        r is Ok <==> automaton_builds(texts(words@)),
        r matches Ok(k) ==> k.words() == word_bytes(words@),
{
    match AhoCorasickBuilder::new().match_kind(MatchKind::Standard).build(&words) {
        Ok(ac) => Ok(Keywords { ac, words }),
        Err(e) => Err(e),
    }
}

/// `AhoCorasick::find_overlapping_iter`: every match of every pattern at
/// every position, each once, as `(start, end, pattern)`; the order is left
/// open.
#[verifier::external_body]
pub(crate) fn overlapping_matches(k: &Keywords, hay: &[u8]) -> (v: Vec<(usize, usize, usize)>)
    ensures
        v@.no_duplicates(),
        forall|m: (usize, usize, usize)|
            #![trigger v@.contains(m)]
            #![trigger occurrence(k.words(), hay@, m)]
            v@.contains(m) <==> occurrence(k.words(), hay@, m),
{
    k.ac.find_overlapping_iter(hay).map(|m| (m.start(), m.end(), m.pattern().as_usize())).collect()
}

} // verus!
