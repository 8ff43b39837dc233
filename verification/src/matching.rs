//! The regular-expression and byte-search calls the finders make, each
//! behind a small trusted item whose contract states what the outside
//! crate's documentation promises.
use vstd::prelude::*;
use regex::{Regex, RegexBuilder};
use crate::text::{bytes_of, on_boundary};

verus! {

#[verifier::external_type_specification]
#[verifier::external_body]
pub struct ExRegex(Regex);

#[verifier::external_type_specification]
#[verifier::external_body]
pub struct ExRegexError(regex::Error);

/// Whether `pattern` compiles, with Unicode mode on or off.
pub uninterp spec fn regex_compiles(pattern: Seq<char>, unicode: bool) -> bool;

/// The successive non-overlapping matches of `pattern` in `haystack`, as
/// byte ranges.
pub uninterp spec fn regex_matches(pattern: Seq<char>, unicode: bool, haystack: Seq<char>) -> Seq<(usize, usize)>;

/// The capture groups of each successive match of `pattern` in
/// `haystack`; group 0 is the whole match.
pub uninterp spec fn regex_captures(pattern: Seq<char>, unicode: bool, haystack: Seq<char>) -> Seq<Seq<Option<(usize, usize)>>>;

/// The capture groups of the first match of `pattern` in `haystack`.
pub uninterp spec fn regex_first_captures(pattern: Seq<char>, unicode: bool, haystack: Seq<char>) -> Option<Seq<Option<(usize, usize)>>>;

/// The number of capture groups of `pattern`, the whole match included.
pub uninterp spec fn regex_group_count(pattern: Seq<char>, unicode: bool) -> nat;

/// A compiled regular expression, with the pattern and mode it was built from.
#[derive(Debug)]
pub struct Pattern {
    regex: Regex,
    source: String,
    unicode: bool,
}

impl Pattern {
    /// The pattern text this expression was compiled from.
    pub closed spec fn source(&self) -> Seq<char> {
        self.source@
    }

    /// Whether it was compiled in Unicode mode.
    pub closed spec fn unicode(&self) -> bool {
        self.unicode
    }
}

/// A byte range lies within `b` and on character boundaries.
pub open spec fn range_ok(b: Seq<u8>, r: (usize, usize)) -> bool {
    r.0 <= r.1 && on_boundary(b, r.0 as int) && on_boundary(b, r.1 as int)
}

/// Every present group is a range within `b` on character boundaries.
pub open spec fn groups_ok(b: Seq<u8>, groups: Seq<Option<(usize, usize)>>) -> bool {
    forall|g: int| 0 <= g < groups.len() && (#[trigger] groups[g]) is Some ==> range_ok(b, groups[g]->Some_0)
}

/// Builds a regular expression from `pattern` with `RegexBuilder` (Unicode
/// mode as given): fails exactly when the pattern does not compile, and
/// otherwise remembers the pattern and mode.
#[verifier::external_body]
pub(crate) fn compile(pattern: &str, unicode: bool) -> (r: Result<Pattern, regex::Error>)
    ensures
        r is Ok <==> regex_compiles(pattern@, unicode),
        r matches Ok(p) ==> p.source() == pattern@ && p.unicode() == unicode,
{
    match RegexBuilder::new(pattern).unicode(unicode).build() {
        Ok(regex) => Ok(Pattern { regex, source: pattern.to_string(), unicode }),
        Err(e) => Err(e),
    }
}

/// `Regex::find_iter`: the successive non-overlapping matches, each a byte
/// range on character boundaries of the haystack (the `Regex` documentation
/// guarantees every offset is a code point boundary).
#[verifier::external_body]
pub(crate) fn find_all(p: &Pattern, haystack: &str) -> (v: Vec<(usize, usize)>)
    ensures
        v@ == regex_matches(p.source(), p.unicode(), haystack@),
        forall|k: int| 0 <= k < v@.len() ==> range_ok(bytes_of(haystack), #[trigger] v@[k]),
{
    p.regex.find_iter(haystack).map(|m| (m.start(), m.end())).collect()
}

/// `Regex::captures_iter`: the groups of each successive match, each
/// present group a byte range on character boundaries of the haystack.
#[verifier::external_body]
pub(crate) fn captures_all(p: &Pattern, haystack: &str) -> (v: Vec<Vec<Option<(usize, usize)>>>)
    ensures
        v@.map_values(|c: Vec<Option<(usize, usize)>>| c@) == regex_captures(p.source(), p.unicode(), haystack@),
        forall|k: int| 0 <= k < v@.len() ==> groups_ok(bytes_of(haystack), (#[trigger] v@[k])@),
{
    p.regex.captures_iter(haystack).map(|c| c.iter().map(|g| g.map(|m| (m.start(), m.end()))).collect()).collect()
}

/// `Regex::captures`: the groups of the first match, if any.
#[verifier::external_body]
pub(crate) fn first_captures(p: &Pattern, haystack: &str) -> (r: Option<Vec<Option<(usize, usize)>>>)
    ensures
        match r {
            Some(c) => regex_first_captures(p.source(), p.unicode(), haystack@) == Some(c@) && groups_ok(bytes_of(haystack), c@),
            None => regex_first_captures(p.source(), p.unicode(), haystack@) is None,
        },
{
    p.regex.captures(haystack).map(|c| c.iter().map(|g| g.map(|m| (m.start(), m.end()))).collect())
}

/// `Regex::captures_len`: the number of groups, the implicit whole-match
/// group included.
#[verifier::external_body]
pub(crate) fn group_count(p: &Pattern) -> (n: usize)
    ensures
        n == regex_group_count(p.source(), p.unicode()),
{
    p.regex.captures_len()
}

/// `memchr::memchr`: the first index of `needle` in `haystack`.
#[verifier::external_body]
pub(crate) fn find_byte(needle: u8, haystack: &[u8]) -> (r: Option<usize>)
    ensures
        match r {
            Some(i) => i < haystack@.len() && haystack@[i as int] == needle && forall|j: int| 0 <= j < i ==> haystack@[j] != needle,
            None => forall|j: int| 0 <= j < haystack@.len() ==> haystack@[j] != needle,
        },
{
    memchr::memchr(needle, haystack)
}

/// `memchr::memchr2`: the first index of either needle in `haystack`.
#[verifier::external_body]
pub(crate) fn find_either_byte(n1: u8, n2: u8, haystack: &[u8]) -> (r: Option<usize>)
    ensures
        match r {
            Some(i) => i < haystack@.len() && (haystack@[i as int] == n1 || haystack@[i as int] == n2)
                && forall|j: int| 0 <= j < i ==> haystack@[j] != n1 && haystack@[j] != n2,
            None => forall|j: int| 0 <= j < haystack@.len() ==> haystack@[j] != n1 && haystack@[j] != n2,
        },
{
    memchr::memchr2(n1, n2, haystack)
}

/// The indices of `needle` in `haystack`, ascending.
pub open spec fn positions_of(haystack: Seq<u8>, needle: u8) -> Seq<usize>
    decreases haystack.len(),
{
    if haystack.len() == 0 {
        Seq::empty()
    } else {
        let rest = positions_of(haystack.drop_last(), needle);
        if haystack.last() == needle {
            rest.push((haystack.len() - 1) as usize)
        } else {
            rest
        }
    }
}

/// `memchr::memchr_iter`: every index of `needle` in `haystack`, ascending.
#[verifier::external_body]
pub(crate) fn byte_positions(needle: u8, haystack: &[u8]) -> (v: Vec<usize>)
    ensures
        v@ == positions_of(haystack@, needle),
{
    memchr::memchr_iter(needle, haystack).collect()
}

/// `needle` occurs in `haystack` at offset `j`.
pub open spec fn occurs_at(haystack: Seq<u8>, needle: Seq<u8>, j: int) -> bool {
    0 <= j && j + needle.len() <= haystack.len() && haystack.subrange(j, j + needle.len()) == needle
}

/// `memchr::memmem::find`: the first index at which `needle` occurs in
/// `haystack`.
#[verifier::external_body]
pub(crate) fn find_bytes(haystack: &[u8], needle: &[u8]) -> (r: Option<usize>)
    ensures
        match r {
            Some(i) => occurs_at(haystack@, needle@, i as int) && forall|j: int| 0 <= j < i ==> !#[trigger] occurs_at(haystack@, needle@, j),
            None => forall|j: int| !#[trigger] occurs_at(haystack@, needle@, j),
        },
{
    memchr::memmem::find(haystack, needle)
}

} // verus!
