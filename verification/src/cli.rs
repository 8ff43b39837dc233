//! What the command line asks for: the highlighter groups turned on, the
//! `--highlight` words and the keyword lists.
use vstd::prelude::*;
use vstd::utf8::encode_utf8;
use crate::config::KeywordConfig;
use crate::finders::{next_or_end, next_or_end_of, lemma_next_or_end, pieces};
use crate::style::{Color, Style};
use crate::text::{bytes_of, input_bytes, substring, bytes_equal, on_boundary, lemma_after_ascii, lemma_zero_on_boundary};

verus! {

/// Highlighters that are off unless asked for.
#[derive(Debug, Copy, Clone, PartialEq, Eq, Structural, PartialOrd, Ord, Hash)]
pub enum Extra {
    Ipv6,
    JvmStackTrace,
}

/// The highlighter groups that are on by default.
#[derive(Debug, Copy, Clone, PartialEq, Eq, Structural, PartialOrd, Ord, Hash)]
pub enum Base {
    Numbers,
    Urls,
    Emails,
    Pointers,
    Dates,
    Durations,
    Paths,
    Quotes,
    KeyValuePairs,
    Uuids,
    Ipv4,
    Processes,
    Json,
    Keywords,
}

impl Base {
    /// Every group, once each.
    pub const ALL: [Base; 14] = [
        Base::Numbers,
        Base::Urls,
        Base::Emails,
        Base::Pointers,
        Base::Dates,
        Base::Durations,
        Base::Paths,
        Base::Quotes,
        Base::KeyValuePairs,
        Base::Uuids,
        Base::Ipv4,
        Base::Processes,
        Base::Json,
        Base::Keywords,
    ];
}

/// Why the enabled and disabled lists cannot be resolved.
#[derive(Debug, Copy, Clone, PartialEq, Eq, Structural)]
pub enum ResolveError {
    /// Both lists were given.
    ConflictEnableDisable,
}

/// The groups that are turned on.
#[derive(Debug)]
pub struct BaseSet {
    bases: Vec<Base>,
}

impl View for BaseSet {
    type V = Set<Base>;

    closed spec fn view(&self) -> Set<Base> {
        self.bases@.to_set()
    }
}

/// Whether `b` is in `bases`.
fn holds(bases: &[Base], b: Base) -> (r: bool)
    ensures
        r == bases@.contains(b),
{
    let mut k: usize = 0;
    while k < bases.len()
        invariant
            k <= bases@.len(),
            forall|j: int| 0 <= j < k ==> bases@[j] != b,
        decreases bases@.len() - k,
    {
        if bases[k] == b {
            assert(bases@[k as int] == b);
            return true;
        }
        k = k + 1;
    }
    false
}

/// The members of `from` that are not in `without`, in order.
fn all_but(from: &[Base], without: &[Base]) -> (v: Vec<Base>)
    ensures
        v@.to_set() == from@.to_set().difference(without@.to_set()),
{
    let mut v: Vec<Base> = Vec::new();
    let mut k: usize = 0;
    while k < from.len()
        invariant
            k <= from@.len(),
            forall|b: Base| #[trigger] v@.contains(b) <==> from@.take(k as int).contains(b) && !without@.contains(b),
        decreases from@.len() - k,
    {
        let b = from[k];
        let ghost prefix = from@.take(k + 1);
        assert(prefix =~= from@.take(k as int).push(b));
        let ghost before = v@;
        assert forall|x: Base| #[trigger] before.contains(x) implies from@.take(k as int).contains(x) && !without@.contains(x) by {}
        assert forall|x: Base| from@.take(k as int).contains(x) && !without@.contains(x) implies #[trigger] before.contains(x) by {}
        let keep = !holds(without, b);
        if keep {
            v.push(b);
        }
        assert forall|x: Base| #[trigger] v@.contains(x) <==> prefix.contains(x) && !without@.contains(x) by {
            if v@.contains(x) {
                let i = choose|i: int| 0 <= i < v@.len() && v@[i] == x;
                if i < before.len() {
                    assert(before[i] == x);
                    assert(before.contains(x));
                    let j = choose|j: int| 0 <= j < k && from@.take(k as int)[j] == x;
                    assert(prefix[j] == x);
                } else {
                    assert(x == b);
                    assert(prefix[k as int] == x);
                }
            }
            if prefix.contains(x) && !without@.contains(x) {
                let i = choose|i: int| 0 <= i < prefix.len() && prefix[i] == x;
                if i < k {
                    assert(from@.take(k as int)[i] == x);
                    assert(from@.take(k as int).contains(x));
                    assert(before.contains(x));
                    let j = choose|j: int| 0 <= j < before.len() && before[j] == x;
                    assert(v@[j] == x);
                } else {
                    assert(x == b);
                    assert(v@[before.len() as int] == b);
                }
            }
        }
        k = k + 1;
    }
    assert(from@.take(from@.len() as int) =~= from@);
    assert(v@.to_set() =~= from@.to_set().difference(without@.to_set()));
    v
}

/// Every variant of `Base` is in `Base::ALL`.
proof fn lemma_all_bases()
    ensures
        Base::ALL@.to_set() == Set::<Base>::full(),
{
    let all = Base::ALL@;
    assert forall|b: Base| #[trigger] all.to_set().contains(b) by {
        match b {
            Base::Numbers => assert(all[0] == b),
            Base::Urls => assert(all[1] == b),
            Base::Emails => assert(all[2] == b),
            Base::Pointers => assert(all[3] == b),
            Base::Dates => assert(all[4] == b),
            Base::Durations => assert(all[5] == b),
            Base::Paths => assert(all[6] == b),
            Base::Quotes => assert(all[7] == b),
            Base::KeyValuePairs => assert(all[8] == b),
            Base::Uuids => assert(all[9] == b),
            Base::Ipv4 => assert(all[10] == b),
            Base::Processes => assert(all[11] == b),
            Base::Json => assert(all[12] == b),
            Base::Keywords => assert(all[13] == b),
        }
    }
    assert(all.to_set() =~= Set::<Base>::full());
}

impl BaseSet {
    /// The groups turned on by `--enable` and `--disable`: every group when
    /// both are empty, exactly the enabled ones, or every group but the
    /// disabled ones; giving both lists is an error.
    pub fn resolve(enabled: &[Base], disabled: &[Base]) -> (r: Result<BaseSet, ResolveError>)
        ensures
            r is Err <==> enabled@.len() > 0 && disabled@.len() > 0,
            r matches Ok(s) ==> s@ == if enabled@.len() > 0 {
                enabled@.to_set()
            } else {
                Set::<Base>::full().difference(disabled@.to_set())
            },
    {
        proof {
            lemma_all_bases();
        }
        if !enabled.is_empty() && !disabled.is_empty() {
            return Err(ResolveError::ConflictEnableDisable);
        }
        if !enabled.is_empty() {
            let v = all_but(enabled, &[]);
            assert(v@.to_set() =~= enabled@.to_set());
            return Ok(BaseSet { bases: v });
        }
        let all = Base::ALL;
        let v = all_but(&all, disabled);
        Ok(BaseSet { bases: v })
    }

    /// Whether `base` is turned on.
    pub fn contains(&self, base: Base) -> (r: bool)
        ensures
            r == self@.contains(base),
    {
        holds(self.bases.as_slice(), base)
    }
}

/// The extra highlighters asked for, each once.
pub fn resolve_extras(extras: &[Extra]) -> (v: Vec<Extra>)
    ensures
        v@.no_duplicates(),
        v@.to_set() == extras@.to_set(),
{
    let mut v: Vec<Extra> = Vec::new();
    let mut k: usize = 0;
    while k < extras.len()
        invariant
            k <= extras@.len(),
            v@.no_duplicates(),
            forall|x: Extra| #[trigger] v@.contains(x) <==> extras@.take(k as int).contains(x),
        decreases extras@.len() - k,
    {
        let x = extras[k];
        let ghost prefix = extras@.take(k + 1);
        assert(prefix =~= extras@.take(k as int).push(x));
        let mut seen = false;
        let mut j: usize = 0;
        while j < v.len()
            invariant
                j <= v@.len(),
                seen == exists|i: int| 0 <= i < j && v@[i] == x,
            decreases v@.len() - j,
        {
            if v[j] == x {
                seen = true;
            }
            j = j + 1;
        }
        let ghost before = v@;
        if !seen {
            v.push(x);
            assert forall|a: int, c: int| 0 <= a < v@.len() && 0 <= c < v@.len() && a != c implies v@[a] != v@[c] by {
                if a == before.len() {
                    assert(v@[c] == before[c]);
                    assert(!before.contains(x));
                } else if c == before.len() {
                    assert(v@[a] == before[a]);
                    assert(!before.contains(x));
                } else {
                    assert(v@[a] == before[a] && v@[c] == before[c]);
                }
            }
        }
        assert forall|y: Extra| #[trigger] before.contains(y) implies extras@.take(k as int).contains(y) by {}
        assert forall|y: Extra| extras@.take(k as int).contains(y) implies #[trigger] before.contains(y) by {}
        assert forall|y: Extra| #[trigger] v@.contains(y) <==> prefix.contains(y) by {
            if v@.contains(y) {
                let i = choose|i: int| 0 <= i < v@.len() && v@[i] == y;
                if i < before.len() {
                    assert(before[i] == y);
                    assert(before.contains(y));
                    let j = choose|j: int| 0 <= j < k && extras@.take(k as int)[j] == y;
                    assert(prefix[j] == y);
                } else {
                    assert(y == x);
                    assert(prefix[k as int] == x);
                }
            }
            if prefix.contains(y) {
                let i = choose|i: int| 0 <= i < prefix.len() && prefix[i] == y;
                if i < k {
                    assert(extras@.take(k as int)[i] == y);
                    assert(extras@.take(k as int).contains(y));
                    assert(before.contains(y));
                    let j = choose|j: int| 0 <= j < before.len() && before[j] == y;
                    assert(v@[j] == y);
                } else if !seen {
                    assert(v@[before.len() as int] == x);
                } else {
                    let j = choose|j: int| 0 <= j < before.len() && before[j] == x;
                    assert(v@[j] == x);
                }
            }
        }
        k = k + 1;
    }
    assert(extras@.take(extras@.len() as int) =~= extras@);
    assert(v@.to_set() =~= extras@.to_set());
    v
}


/// The text `str::to_lowercase` gives for `text`.
pub uninterp spec fn lowercase_of(text: Seq<char>) -> Seq<char>;

/// `str::to_lowercase`: the text with every character in lower case.
#[verifier::external_body]
fn lowercase(s: &str) -> (r: String)
    ensures
        r@ == lowercase_of(s@),
{
    s.to_lowercase()
}

/// The color the bytes `t` name exactly: the eight basic names, each
/// optionally prefixed with `bright_`.
pub open spec fn color_named(t: Seq<u8>) -> Option<Color> {
    if t == bytes_of("black") {
        Some(Color::Black)
    } else if t == bytes_of("red") {
        Some(Color::Red)
    } else if t == bytes_of("green") {
        Some(Color::Green)
    } else if t == bytes_of("yellow") {
        Some(Color::Yellow)
    } else if t == bytes_of("blue") {
        Some(Color::Blue)
    } else if t == bytes_of("magenta") {
        Some(Color::Magenta)
    } else if t == bytes_of("cyan") {
        Some(Color::Cyan)
    } else if t == bytes_of("white") {
        Some(Color::White)
    } else if t == bytes_of("bright_black") {
        Some(Color::BrightBlack)
    } else if t == bytes_of("bright_red") {
        Some(Color::BrightRed)
    } else if t == bytes_of("bright_green") {
        Some(Color::BrightGreen)
    } else if t == bytes_of("bright_yellow") {
        Some(Color::BrightYellow)
    } else if t == bytes_of("bright_blue") {
        Some(Color::BrightBlue)
    } else if t == bytes_of("bright_magenta") {
        Some(Color::BrightMagenta)
    } else if t == bytes_of("bright_cyan") {
        Some(Color::BrightCyan)
    } else if t == bytes_of("bright_white") {
        Some(Color::BrightWhite)
    } else {
        None
    }
}

/// Whether `b` is exactly the bytes of `name`.
fn is(b: &[u8], name: &str) -> (r: bool)
    ensures
        r == (b@ == bytes_of(name)),
{
    let lit = input_bytes(name);
    let r = bytes_equal(b, 0, b.len(), lit);
    assert(b@.subrange(0, b@.len() as int) =~= b@);
    r
}

/// A color name that names no color, in lower case.
#[derive(Debug, Clone, PartialEq, Eq)]
pub struct UnknownColor(pub String);

/// Reads a color name, in any case.
pub fn parse_color(s: &str) -> (r: Result<Color, UnknownColor>)
    ensures
        match color_named(encode_utf8(lowercase_of(s@))) {
            Some(c) => r == Ok::<Color, UnknownColor>(c),
            None => r matches Err(UnknownColor(other)) && other@ == lowercase_of(s@),
        },
{
    let low = lowercase(s);
    let b = input_bytes(low.as_str());
    if is(b, "black") {
        Ok(Color::Black)
    } else if is(b, "red") {
        Ok(Color::Red)
    } else if is(b, "green") {
        Ok(Color::Green)
    } else if is(b, "yellow") {
        Ok(Color::Yellow)
    } else if is(b, "blue") {
        Ok(Color::Blue)
    } else if is(b, "magenta") {
        Ok(Color::Magenta)
    } else if is(b, "cyan") {
        Ok(Color::Cyan)
    } else if is(b, "white") {
        Ok(Color::White)
    } else if is(b, "bright_black") {
        Ok(Color::BrightBlack)
    } else if is(b, "bright_red") {
        Ok(Color::BrightRed)
    } else if is(b, "bright_green") {
        Ok(Color::BrightGreen)
    } else if is(b, "bright_yellow") {
        Ok(Color::BrightYellow)
    } else if is(b, "bright_blue") {
        Ok(Color::BrightBlue)
    } else if is(b, "bright_magenta") {
        Ok(Color::BrightMagenta)
    } else if is(b, "bright_cyan") {
        Ok(Color::BrightCyan)
    } else if is(b, "bright_white") {
        Ok(Color::BrightWhite)
    } else {
        Err(UnknownColor(low))
    }
}

/// Why a `--highlight` value cannot be read.
#[derive(Debug, Clone, PartialEq, Eq)]
pub enum HighlightError {
    /// The value has no `:` between the color and the words.
    MissingColon(String),
    /// The color is not one of the known names.
    UnknownColor(String),
}

/// The words after the color: the pieces of `b[from..]` between commas.
pub open spec fn highlight_words(b: Seq<u8>, from: int) -> Seq<Seq<u8>> {
    pieces(b, from, b.len() as int, 0x2c).map_values(|r: (int, int)| b.subrange(r.0, r.1))
}

/// Reads a `--highlight` value `COLOR:word1,word2,...`: the color before the
/// first `:`, and the comma-separated words after it (empty words kept).
pub fn parse_highlight(s: &str) -> (r: Result<(Color, Vec<String>), HighlightError>)
    ensures
        ({
            let b = bytes_of(s);
            let colon = next_or_end(b, 0, b.len() as int, 0x3a);
            if colon == b.len() {
                r matches Err(HighlightError::MissingColon(t)) && t@ == s@
            } else {
                let name = lowercase_of(vstd::utf8::decode_utf8(b.subrange(0, colon)));
                match color_named(encode_utf8(name)) {
                    Some(c) => r matches Ok((d, words)) && d == c
                        && words@.map_values(|w: String| encode_utf8(w@)) == highlight_words(b, colon + 1),
                    None => r matches Err(HighlightError::UnknownColor(t)) && t@ == name,
                }
            }
        }),
{
    let b = input_bytes(s);
    let n = b.len();
    let colon = next_or_end_of(b, 0, n, 0x3a);
    proof {
        lemma_next_or_end(b@, 0, n as int, 0x3a);
    }
    if colon == n {
        return Err(HighlightError::MissingColon(String::from_str(s)));
    }
    proof {
        lemma_zero_on_boundary(b@);
        lemma_after_ascii(b@, colon as int);
    }
    let color_str = substring(s, 0, colon);
    proof {
        vstd::utf8::encode_utf8_decode_utf8(color_str@);
    }
    let color = match parse_color(color_str) {
        Ok(c) => c,
        Err(UnknownColor(other)) => return Err(HighlightError::UnknownColor(other)),
    };
    let words = split_words(s, b, colon + 1);
    Ok((color, words))
}

/// The pieces of `s` from `from` on between commas, as strings.
fn split_words(s: &str, b: &[u8], from: usize) -> (v: Vec<String>)
    requires
        b@ == bytes_of(s),
        vstd::utf8::valid_utf8(b@),
        from <= b@.len(),
        on_boundary(b@, from as int),
    ensures
        v@.map_values(|w: String| encode_utf8(w@)) == highlight_words(b@, from as int),
{
    let n = b.len();
    let ghost all = pieces(b@, from as int, n as int, 0x2c);
    let ghost mut done: Seq<(int, int)> = Seq::empty();
    let mut v: Vec<String> = Vec::new();
    let mut cur: usize = from;
    let mut finished = false;
    proof {
        lemma_on_boundary_end(b@);
    }
    while !finished
        invariant
            b@ == bytes_of(s),
            vstd::utf8::valid_utf8(b@),
            n == b@.len(),
            from <= cur <= n,
            on_boundary(b@, cur as int),
            on_boundary(b@, n as int),
            v@.map_values(|w: String| encode_utf8(w@)) == done.map_values(|r: (int, int)| b@.subrange(r.0, r.1)),
            !finished ==> all == done + pieces(b@, cur as int, n as int, 0x2c),
            finished ==> all == done,
        decreases n - cur + if finished { 0int } else { 1int },
    {
        let j = next_or_end_of(b, cur, n, 0x2c);
        proof {
            lemma_next_or_end(b@, cur as int, n as int, 0x2c);
            if j < n {
                crate::text::lemma_ascii_on_boundary(b@, j as int);
                lemma_after_ascii(b@, j as int);
            }
        }
        let piece = substring(s, cur, j);
        let ghost before = v@;
        let ghost done_before = done;
        let word = String::from_str(piece);
        assert(encode_utf8(word@) == b@.subrange(cur as int, j as int));
        v.push(word);
        proof {
            done = done.push((cur as int, j as int));
            assert(v@.map_values(|w: String| encode_utf8(w@)) =~= before.map_values(|w: String| encode_utf8(w@)).push(
                b@.subrange(cur as int, j as int),
            ));
            assert(done.map_values(|r: (int, int)| b@.subrange(r.0, r.1)) =~= done_before.map_values(
                |r: (int, int)| b@.subrange(r.0, r.1),
            ).push(b@.subrange(cur as int, j as int)));
        }
        if j < n {
            assert(pieces(b@, cur as int, n as int, 0x2c) =~= seq![(cur as int, j as int)] + pieces(b@, j + 1, n as int, 0x2c));
            assert(all =~= done + pieces(b@, j + 1, n as int, 0x2c));
            cur = j + 1;
        } else {
            assert(pieces(b@, cur as int, n as int, 0x2c) =~= seq![(cur as int, n as int)]);
            assert(all =~= done);
            finished = true;
        }
    }
    v
}

/// The end of any byte sequence is a boundary.
proof fn lemma_on_boundary_end(b: Seq<u8>)
    ensures
        on_boundary(b, b.len() as int),
{
}

/// A keyword configuration as its words' texts and its style.
pub open spec fn config_view(c: KeywordConfig) -> (Seq<Seq<char>>, Style) {
    (c.words@.map_values(|w: String| w@), c.style)
}

/// A list of keyword configurations as views.
pub open spec fn configs_view(cs: Seq<KeywordConfig>) -> Seq<(Seq<Seq<char>>, Style)> {
    cs.map_values(|c: KeywordConfig| config_view(c))
}

/// Word `j` of configuration `i` survives: no later configuration has it,
/// and it does not occur earlier in its own configuration.
pub open spec fn survives(cs: Seq<(Seq<Seq<char>>, Style)>, i: int, j: int) -> bool {
    let w = cs[i].0[j];
    &&& forall|i2: int| i < i2 < cs.len() ==> !(#[trigger] cs[i2].0).contains(w)
    &&& forall|j2: int| 0 <= j2 < j ==> cs[i].0[j2] != w
}

/// The surviving words among the first `j` of configuration `i`, in order.
pub open spec fn surviving(cs: Seq<(Seq<Seq<char>>, Style)>, i: int, j: int) -> Seq<Seq<char>>
    decreases j,
{
    if j <= 0 {
        Seq::empty()
    } else {
        surviving(cs, i, j - 1) + if survives(cs, i, j - 1) { seq![cs[i].0[j - 1]] } else { Seq::empty() }
    }
}

/// The first `k` configurations after deduplication: each with its
/// surviving words and its style, those left without words dropped.
pub open spec fn deduped(cs: Seq<(Seq<Seq<char>>, Style)>, k: int) -> Seq<(Seq<Seq<char>>, Style)>
    decreases k,
{
    if k <= 0 {
        Seq::empty()
    } else {
        let ws = surviving(cs, k - 1, cs[k - 1].0.len() as int);
        deduped(cs, k - 1) + if ws.len() > 0 { seq![(ws, cs[k - 1].1)] } else { Seq::empty() }
    }
}

/// Whether `w` is among `words`.
fn has_word(words: &Vec<String>, w: &String, upto: usize) -> (r: bool)
    requires
        upto <= words@.len(),
    ensures
        r == words@.take(upto as int).map_values(|x: String| x@).contains(w@),
{
    let mut k: usize = 0;
    while k < upto
        invariant
            k <= upto <= words@.len(),
            forall|m: int| 0 <= m < k ==> words@[m]@ != w@,
        decreases upto - k,
    {
        if words[k] == *w {
            assert(words@.take(upto as int).map_values(|x: String| x@)[k as int] == w@);
            return true;
        }
        k = k + 1;
    }
    let ghost t = words@.take(upto as int).map_values(|x: String| x@);
    assert forall|m: int| 0 <= m < upto implies #[trigger] t[m] != w@ by {
        assert(t[m] == words@[m]@);
    }
    false
}

/// Keeps, for every word, only its last definition: a word defined again in
/// a later configuration leaves the earlier one, a word repeated within a
/// configuration keeps its first place, and configurations left without
/// words are dropped.
pub fn dedupe_last_wins(configs: Vec<KeywordConfig>) -> (r: Vec<KeywordConfig>)
    ensures
        configs_view(r@) == deduped(configs_view(configs@), configs@.len() as int),
{
    let ghost cs = configs_view(configs@);
    let n = configs.len();
    let mut r: Vec<KeywordConfig> = Vec::new();
    let mut i: usize = 0;
    while i < n
        invariant
            cs == configs_view(configs@),
            n == cs.len(),
            i <= cs.len(),
            configs_view(r@) == deduped(cs, i as int),
        decreases cs.len() - i,
    {
        let config = &configs[i];
        let mut kept: Vec<String> = Vec::new();
        let mut j: usize = 0;
        while j < config.words.len()
            invariant
                cs == configs_view(configs@),
                n == cs.len(),
                i < cs.len(),
                *config == configs@[i as int],
                j <= config.words@.len(),
                kept@.map_values(|w: String| w@) == surviving(cs, i as int, j as int),
            decreases config.words@.len() - j,
        {
            let w = &config.words[j];
            let mut later = false;
            let mut i2: usize = i + 1;
            while i2 < configs.len()
                invariant
                    cs == configs_view(configs@),
                    n == cs.len(),
                    i < i2 <= cs.len(),
                    later == exists|m: int| i < m < i2 && (#[trigger] cs[m].0).contains(w@),
                decreases cs.len() - i2,
            {
                let other = &configs[i2].words;
                let found = has_word(other, w, other.len());
                assert(other@.take(other@.len() as int) =~= other@);
                assert(cs[i2 as int].0 == other@.map_values(|x: String| x@));
                if found {
                    later = true;
                }
                i2 = i2 + 1;
            }
            let earlier = has_word(&config.words, w, j);
            proof {
                let ws = cs[i as int].0;
                assert(ws[j as int] == w@);
                assert(config.words@.take(j as int).map_values(|x: String| x@) =~= ws.take(j as int));
                if earlier {
                    let m = choose|m: int| 0 <= m < j && ws.take(j as int)[m] == w@;
                    assert(ws[m] == w@);
                }
                if later {
                    let m = choose|m: int| i < m < cs.len() && (#[trigger] cs[m].0).contains(w@);
                }
                if !earlier {
                    assert forall|j2: int| 0 <= j2 < j implies ws[j2] != w@ by {
                        assert(ws.take(j as int)[j2] == ws[j2]);
                    }
                }
                assert(survives(cs, i as int, j as int) == (!later && !earlier));
            }
            let ghost before = kept@;
            if !later && !earlier {
                kept.push(w.clone());
                assert(kept@.map_values(|x: String| x@) =~= before.map_values(|x: String| x@).push(w@));
            }
            j = j + 1;
        }
        let ghost before = r@;
        if kept.len() > 0 {
            r.push(KeywordConfig { words: kept, style: config.style });
            assert(configs_view(r@) =~= configs_view(before).push(
                (surviving(cs, i as int, cs[i as int].0.len() as int), cs[i as int].1),
            ));
        }
        i = i + 1;
    }
    r
}

} // verus!
