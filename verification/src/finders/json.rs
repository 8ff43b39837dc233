//! JSON lines: the structural tokens of a valid JSON text, styled where
//! they stand, with object keys styled as keys.
use vstd::prelude::*;
use vstd::utf8::valid_utf8;
use crate::finders::{pushes_ok, styles_in, add_push, lemma_in_styles};
use crate::finders::key_value::{is_ascii_ws, ascii_ws};
use crate::palette::{interned, resolves, Palette, StyleId, extends};
use crate::span::{Collector, Push, push_all, plain};
use crate::config::JsonConfig;
use crate::text::{bytes_of, input_bytes, lemma_after_ascii, lemma_ascii_on_boundary};

verus! {

/// Whether `serde_json` reads `text` as one JSON value followed by nothing
/// but whitespace.
pub uninterp spec fn json_accepts(text: Seq<char>) -> bool;

/// `serde_json::from_str::<serde::de::IgnoredAny>`: succeeds exactly when
/// the text is one JSON value with only whitespace after it; the value is
/// read and dropped.
#[verifier::external_body]
fn is_json(input: &str) -> (r: bool)
    ensures
        r == json_accepts(input@),
{
    serde_json::from_str::<serde::de::IgnoredAny>(input).is_ok()
}

/// The first byte of `b` from `i` on that is not ASCII whitespace.
pub open spec fn first_non_ws(b: Seq<u8>, i: int) -> Option<u8>
    decreases b.len() - i,
{
    if i < 0 || i >= b.len() {
        None
    } else if is_ascii_ws(b[i]) {
        first_non_ws(b, i + 1)
    } else {
        Some(b[i])
    }
}

/// The last byte of `b` before `i` that is not ASCII whitespace.
pub open spec fn last_non_ws_before(b: Seq<u8>, i: int) -> Option<u8>
    decreases i,
{
    if i <= 0 || i > b.len() {
        None
    } else if is_ascii_ws(b[i - 1]) {
        last_non_ws_before(b, i - 1)
    } else {
        Some(b[i - 1])
    }
}

/// The closing quote of a string whose content starts at `j`: the first
/// `"` not taken by a backslash escape.
pub open spec fn key_close(b: Seq<u8>, j: int) -> Option<int>
    decreases b.len() + 1 - j,
{
    if j < 0 || j >= b.len() {
        None
    } else if b[j] == 0x5c {
        key_close(b, j + 2)
    } else if b[j] == 0x22 {
        Some(j)
    } else {
        key_close(b, j + 1)
    }
}

/// A closing quote lies at or after `j`, within `b`, and is a `"`.
pub proof fn lemma_key_close(b: Seq<u8>, j: int)
    requires
        0 <= j,
    ensures
        key_close(b, j) matches Some(x) ==> j <= x < b.len() && b[x] == 0x22,
    decreases b.len() + 1 - j,
{
    if j < b.len() {
        if b[j] == 0x5c {
            lemma_key_close(b, j + 2);
        } else if b[j] != 0x22 {
            lemma_key_close(b, j + 1);
        }
    }
}

/// Whether `b` starts, after whitespace, with `{` or `[`.
pub open spec fn opens_container(b: Seq<u8>) -> bool {
    first_non_ws(b, 0) == Some(0x7bu8) || first_non_ws(b, 0) == Some(0x5bu8)
}

/// Finds the structural tokens and keys of JSON text.
#[derive(Debug, Clone, Copy)]
pub struct JsonFinder {
    pub key: StyleId,
    pub quote_token: StyleId,
    pub curly_bracket: StyleId,
    pub square_bracket: StyleId,
    pub comma: StyleId,
    pub colon: StyleId,
}

impl JsonFinder {
    /// The styles this finder uses.
    pub open spec fn styles(&self) -> Seq<StyleId> {
        seq![self.key, self.quote_token, self.curly_bracket, self.square_bracket, self.comma, self.colon]
    }

    /// The requests of a walk over `b` from `i`, inside a string or not,
    /// with the byte at `i` escaped or not. Outside strings: braces,
    /// brackets, commas and colons get their styles; a `"` gets the quote
    /// style and opens a string; when the last non-blank byte before that
    /// quote is not `:`, the string is a key: its content (up to the first
    /// unescaped `"`) gets the key style and its closing quote the quote
    /// style. Inside strings: a backslash escapes the next byte, and an
    /// unescaped `"` gets the quote style and closes the string.
    pub open spec fn walk(&self, b: Seq<u8>, i: int, in_string: bool, escaped: bool) -> Seq<Push>
        decreases b.len() - i,
    {
        if i < 0 || i >= b.len() {
            Seq::empty()
        } else if escaped {
            self.walk(b, i + 1, in_string, false)
        } else if in_string {
            if b[i] == 0x5c {
                self.walk(b, i + 1, true, true)
            } else if b[i] == 0x22 {
                seq![plain(i, i + 1, self.quote_token)] + self.walk(b, i + 1, false, false)
            } else {
                self.walk(b, i + 1, true, false)
            }
        } else {
            let c = b[i];
            if c == 0x7b || c == 0x7d {
                seq![plain(i, i + 1, self.curly_bracket)] + self.walk(b, i + 1, false, false)
            } else if c == 0x5b || c == 0x5d {
                seq![plain(i, i + 1, self.square_bracket)] + self.walk(b, i + 1, false, false)
            } else if c == 0x2c {
                seq![plain(i, i + 1, self.comma)] + self.walk(b, i + 1, false, false)
            } else if c == 0x3a {
                seq![plain(i, i + 1, self.colon)] + self.walk(b, i + 1, false, false)
            } else if c == 0x22 {
                let quote = seq![plain(i, i + 1, self.quote_token)];
                if last_non_ws_before(b, i) == Some(0x3au8) {
                    quote + self.walk(b, i + 1, true, false)
                } else {
                    match key_close(b, i + 1) {
                        Some(j) => {
                            proof {
                                lemma_key_close(b, i + 1);
                            }
                            quote + seq![plain(i + 1, j, self.key), plain(j, j + 1, self.quote_token)]
                                + self.walk(b, j + 1, false, false)
                        },
                        None => quote + self.walk(b, i + 1, true, false),
                    }
                }
            } else {
                self.walk(b, i + 1, false, false)
            }
        }
    }

    /// The requests for `input`: none unless it starts (after whitespace)
    /// with `{` or `[` and is valid JSON; otherwise the walk from the start.
    pub open spec fn pushes(&self, input: &str) -> Seq<Push> {
        if !opens_container(bytes_of(input)) || !json_accepts(input@) {
            Seq::empty()
        } else {
            self.walk(bytes_of(input), 0, false, false)
        }
    }

    /// Built from `config`, with each configured style interned in `palette`.
    pub open spec fn made_from(&self, config: JsonConfig, palette: Seq<Seq<char>>) -> bool {
        &&& resolves(palette, self.key, config.key)
        &&& resolves(palette, self.quote_token, config.quote_token)
        &&& resolves(palette, self.curly_bracket, config.curly_bracket)
        &&& resolves(palette, self.square_bracket, config.square_bracket)
        &&& resolves(palette, self.comma, config.comma)
        &&& resolves(palette, self.colon, config.colon)
    }

    /// A JSON finder with the configured styles.
    pub fn new(config: JsonConfig, palette: &mut Palette) -> (f: JsonFinder)
        requires
            old(palette).wf(),
            interned(interned(interned(interned(interned(interned(old(palette)@, config.key), config.quote_token), config.curly_bracket), config.square_bracket), config.comma), config.colon).len() <= 0x10000,
        ensures
            final(palette).wf(),
            final(palette)@ == interned(interned(interned(interned(interned(interned(old(palette)@, config.key), config.quote_token), config.curly_bracket), config.square_bracket), config.comma), config.colon),
            f.made_from(config, final(palette)@),
            extends(final(palette)@, old(palette)@, 6),
            forall|k: int| 0 <= k < f.styles().len() ==> (f.styles()[k].0 as int) < final(palette)@.len(),
    {
        proof {
            reveal(interned);
        }
        let key = palette.intern(config.key);
        let quote_token = palette.intern(config.quote_token);
        let curly_bracket = palette.intern(config.curly_bracket);
        let square_bracket = palette.intern(config.square_bracket);
        let comma = palette.intern(config.comma);
        let colon = palette.intern(config.colon);
        JsonFinder { key, quote_token, curly_bracket, square_bracket, comma, colon }
    }

    /// Pushes the tokens and keys of a JSON input.
    pub fn find_spans(&self, input: &str, collector: &mut Collector)
        ensures
            final(collector)@ == push_all(old(collector)@, self.pushes(input)),
            pushes_ok(bytes_of(input), self.pushes(input)),
            styles_in(self.pushes(input), self.styles()),
    {
        let b = input_bytes(input);
        let first = first_non_ws_of(b);
        let opens = match first {
            Some(c) => c == 0x7b || c == 0x5b,
            None => false,
        };
        if !opens || !is_json(input) {
            collector.push_each(&[]);
            return;
        }
        let v = self.walk_all(b);
        collector.push_each(v.as_slice());
    }

    /// The requests of the walk over all of `b`.
    fn walk_all(&self, b: &[u8]) -> (v: Vec<Push>)
        requires
            valid_utf8(b@),
        ensures
            v@ == self.walk(b@, 0, false, false),
            pushes_ok(b@, v@),
            styles_in(v@, self.styles()),
    {
        let mut v: Vec<Push> = Vec::new();
        let ghost ids = self.styles();
        let ghost target = self.walk(b@, 0, false, false);
        let n = b.len();
        let mut i: usize = 0;
        let mut in_string = false;
        let mut escaped = false;
        proof {
            lemma_in_styles(ids);
        }
        assert(target =~= v@ + self.walk(b@, 0, false, false));
        while i < n
            invariant
                n == b@.len(),
                i <= n,
                valid_utf8(b@),
                ids == self.styles(),
                forall|k: int| 0 <= k < ids.len() ==> ids.contains(#[trigger] ids[k]),
                target == v@ + self.walk(b@, i as int, in_string, escaped),
                pushes_ok(b@, v@),
                styles_in(v@, ids),
            decreases n - i,
        {
            let ghost before = v@;
            let ghost (i0, s0, e0) = (i as int, in_string, escaped);
            let c = b[i];
            if escaped {
                escaped = false;
                i = i + 1;
            } else if in_string {
                if c == 0x5c {
                    escaped = true;
                } else if c == 0x22 {
                    proof {
                        lemma_ascii_on_boundary(b@, i as int);
                        lemma_after_ascii(b@, i as int);
                        assert(ids[1] == self.quote_token);
                    }
                    add_push(&mut v, Ghost(b@), Ghost(ids), i, i + 1, self.quote_token);
                    in_string = false;
                }
                i = i + 1;
            } else if c == 0x22 {
                proof {
                    lemma_ascii_on_boundary(b@, i as int);
                    lemma_after_ascii(b@, i as int);
                    assert(ids[1] == self.quote_token);
                }
                add_push(&mut v, Ghost(b@), Ghost(ids), i, i + 1, self.quote_token);
                let after_colon = match last_non_ws_before_of(b, i) {
                    Some(x) => x == 0x3a,
                    None => false,
                };
                if after_colon {
                    in_string = true;
                    i = i + 1;
                } else {
                    match key_close_of(b, i + 1) {
                        Some(j) => {
                            proof {
                                lemma_key_close(b@, i + 1);
                                lemma_ascii_on_boundary(b@, j as int);
                                lemma_after_ascii(b@, j as int);
                                assert(ids[0] == self.key);
                            }
                            add_push(&mut v, Ghost(b@), Ghost(ids), i + 1, j, self.key);
                            add_push(&mut v, Ghost(b@), Ghost(ids), j, j + 1, self.quote_token);
                            i = j + 1;
                        },
                        None => {
                            in_string = true;
                            i = i + 1;
                        },
                    }
                }
            } else {
                let style = if c == 0x7b || c == 0x7d {
                    Some(self.curly_bracket)
                } else if c == 0x5b || c == 0x5d {
                    Some(self.square_bracket)
                } else if c == 0x2c {
                    Some(self.comma)
                } else if c == 0x3a {
                    Some(self.colon)
                } else {
                    None
                };
                match style {
                    Some(st) => {
                        proof {
                            lemma_ascii_on_boundary(b@, i as int);
                            lemma_after_ascii(b@, i as int);
                            assert(ids[2] == self.curly_bracket && ids[3] == self.square_bracket && ids[4] == self.comma
                                && ids[5] == self.colon);
                        }
                        add_push(&mut v, Ghost(b@), Ghost(ids), i, i + 1, st);
                    },
                    None => {},
                }
                i = i + 1;
            }
            assert(v@ + self.walk(b@, i as int, in_string, escaped) =~= before + self.walk(b@, i0, s0, e0));
        }
        assert(self.walk(b@, i as int, in_string, escaped) =~= Seq::<Push>::empty());
        assert(v@ =~= target);
        v
    }
}

/// The first byte of `b` that is not ASCII whitespace.
fn first_non_ws_of(b: &[u8]) -> (r: Option<u8>)
    ensures
        r == first_non_ws(b@, 0),
{
    let mut i: usize = 0;
    while i < b.len()
        invariant
            i <= b@.len(),
            first_non_ws(b@, 0) == first_non_ws(b@, i as int),
        decreases b@.len() - i,
    {
        if !ascii_ws(b[i]) {
            return Some(b[i]);
        }
        i = i + 1;
    }
    None
}

/// The last byte of `b` before `i` that is not ASCII whitespace.
fn last_non_ws_before_of(b: &[u8], i: usize) -> (r: Option<u8>)
    requires
        i <= b@.len(),
    ensures
        r == last_non_ws_before(b@, i as int),
{
    let mut k: usize = i;
    while k > 0
        invariant
            k <= i <= b@.len(),
            last_non_ws_before(b@, i as int) == last_non_ws_before(b@, k as int),
        decreases k,
    {
        if !ascii_ws(b[k - 1]) {
            return Some(b[k - 1]);
        }
        k = k - 1;
    }
    None
}

/// The closing quote of a string whose content starts at `j`.
fn key_close_of(b: &[u8], j: usize) -> (r: Option<usize>)
    requires
        j <= b@.len(),
    ensures
        r matches Some(x) ==> key_close(b@, j as int) == Some(x as int),
        r is None ==> key_close(b@, j as int) is None,
{
    let n = b.len();
    let mut k: usize = j;
    while k < n
        invariant
            n == b@.len(),
            j <= k,
            key_close(b@, j as int) == key_close(b@, k as int),
        decreases n - k,
    {
        if b[k] == 0x5c {
            if n - k < 2 {
                assert(key_close(b@, k + 2) is None);
                return None;
            }
            k = k + 2;
        } else if b[k] == 0x22 {
            return Some(k);
        } else {
            k = k + 1;
        }
    }
    None
}

} // verus!
