//! Styling each byte of a match by its character class.
use vstd::prelude::*;
use vstd::utf8::valid_utf8;
use crate::finders::{pushes_ok, push_ok, styles_in};

use crate::palette::StyleId;
use crate::span::{Push, plain};
use crate::text::{is_ascii_byte, lemma_after_ascii, lemma_ascii_on_boundary};

verus! {

/// Styles for digits, hex letters and two extra bytes.
#[derive(Debug, Clone, Copy, PartialEq, Eq, Structural)]
pub struct HexClasses {
    pub number: StyleId,
    pub letter: StyleId,
    pub extra1: u8,
    pub extra2: u8,
    pub extra: StyleId,
}

/// An ASCII hex letter.
pub open spec fn is_hex_letter(c: u8) -> bool {
    (0x61 <= c <= 0x66) || (0x41 <= c <= 0x46)
}

/// The style of byte `c`: digits, then the extra bytes, then hex letters;
/// no style for any other byte.
pub open spec fn hex_class(h: HexClasses, c: u8) -> Option<StyleId> {
    if 0x30 <= c <= 0x39 {
        Some(h.number)
    } else if c == h.extra1 || c == h.extra2 {
        Some(h.extra)
    } else if is_hex_letter(c) {
        Some(h.letter)
    } else {
        None
    }
}

/// One single-byte request for each classified byte of `b` in `[s, e)`.
pub open spec fn classify_range(b: Seq<u8>, s: int, e: int, h: HexClasses) -> Seq<Push>
    decreases e - s,
{
    if e <= s {
        Seq::empty()
    } else {
        classify_range(b, s, e - 1, h) + match hex_class(h, b[e - 1]) {
            Some(st) => seq![plain(e - 1, e, st)],
            None => Seq::empty(),
        }
    }
}

/// The styles a class assignment uses.
pub open spec fn hex_styles(h: HexClasses) -> Seq<StyleId> {
    seq![h.number, h.letter, h.extra]
}

/// Styles every classified byte of `b` in `[s, e)`, appending to `v`.
pub fn classify_into(b: &[u8], s: usize, e: usize, h: HexClasses, v: &mut Vec<Push>)
    requires
        s <= e <= b@.len(),
        valid_utf8(b@),
        is_ascii_byte(h.extra1),
        is_ascii_byte(h.extra2),
        pushes_ok(b@, old(v)@),
        styles_in(old(v)@, hex_styles(h)),
    ensures
        final(v)@ == old(v)@ + classify_range(b@, s as int, e as int, h),
        pushes_ok(b@, final(v)@),
        styles_in(final(v)@, hex_styles(h)),
{
    let ghost start = v@;
    let mut i: usize = s;
    assert(classify_range(b@, s as int, s as int, h) =~= Seq::<Push>::empty());
    while i < e
        invariant
            s <= i <= e <= b@.len(),
            valid_utf8(b@),
            is_ascii_byte(h.extra1),
            is_ascii_byte(h.extra2),
            v@ =~= start + classify_range(b@, s as int, i as int, h),
            pushes_ok(b@, v@),
            styles_in(v@, hex_styles(h)),
        decreases e - i,
    {
        let c = b[i];
        let class: Option<StyleId> = if c >= 0x30 && c <= 0x39 {
            Some(h.number)
        } else if c == h.extra1 || c == h.extra2 {
            Some(h.extra)
        } else if (c >= 0x61 && c <= 0x66) || (c >= 0x41 && c <= 0x46) {
            Some(h.letter)
        } else {
            None
        };
        assert(class == hex_class(h, b@[i as int]));
        let ghost before = v@;
        match class {
            Some(st) => {
                proof {
                    assert(is_ascii_byte(c));
                    lemma_ascii_on_boundary(b@, i as int);
                    lemma_after_ascii(b@, i as int);
                    assert(hex_styles(h).contains(st)) by {
                        if st == h.number { assert(hex_styles(h)[0] == st); }
                        else if st == h.extra { assert(hex_styles(h)[2] == st); }
                        else { assert(hex_styles(h)[1] == st); }
                    }
                }
                v.push(Push { start: i, end: i + 1, style: st, padded: false });
                proof {
                    assert forall|k: int| 0 <= k < v@.len() implies push_ok(b@, #[trigger] v@[k]) && hex_styles(h).contains(v@[k].style) by {
                        if k < before.len() {
                            assert(v@[k] == before[k]);
                        }
                    }
                }
            },
            None => {},
        }
        i = i + 1;
    }
}

} // verus!
