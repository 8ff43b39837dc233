//! Decimal numbers written in the input, read as `str::parse` reads an
//! unsigned integer: an optional `+`, then one or more ASCII digits, with
//! no overflow.
use vstd::prelude::*;
use crate::finders::is_digit;

verus! {

/// Every byte of `t` is an ASCII digit.
pub open spec fn all_digits(t: Seq<u8>) -> bool {
    forall|k: int| 0 <= k < t.len() ==> is_digit(#[trigger] t[k])
}

/// The value of the decimal digits `t`.
pub open spec fn dec_value(t: Seq<u8>) -> nat
    decreases t.len(),
{
    if t.len() == 0 {
        0
    } else {
        dec_value(t.drop_last()) * 10 + (t.last() - 0x30) as nat
    }
}

/// The digits of `t` after an optional leading `+`, when `t` is more than
/// that sign.
pub open spec fn unsigned_digits(t: Seq<u8>) -> Option<Seq<u8>> {
    if t.len() == 0 {
        None
    } else if t[0] == 0x2b {
        if t.len() == 1 { None } else { Some(t.drop_first()) }
    } else {
        Some(t)
    }
}

/// What `str::parse::<u8>` gives for the text `t`: the value of its digits
/// when they are all digits and the value fits in a byte.
pub open spec fn parse_u8_spec(t: Seq<u8>) -> Option<u8> {
    match unsigned_digits(t) {
        Some(d) => if all_digits(d) && dec_value(d) < 256 { Some(dec_value(d) as u8) } else { None },
        None => None,
    }
}

/// A longer run of digits is worth at least as much as its prefix.
proof fn lemma_dec_value_grows(t: Seq<u8>, k: int)
    requires
        0 <= k <= t.len(),
        all_digits(t),
    ensures
        dec_value(t.take(k)) <= dec_value(t),
    decreases t.len() - k,
{
    if k < t.len() {
        lemma_dec_value_grows(t, k + 1);
        assert(t.take(k + 1).drop_last() =~= t.take(k));
        assert(is_digit(t[k]));
    } else {
        assert(t.take(k) =~= t);
    }
}

/// Reads the bytes `b[s..e]` as `str::parse::<u8>` does.
pub fn parse_u8(b: &[u8], s: usize, e: usize) -> (r: Option<u8>)
    requires
        s <= e <= b@.len(),
    ensures
        r == parse_u8_spec(b@.subrange(s as int, e as int)),
{
    let ghost t = b@.subrange(s as int, e as int);
    if s == e {
        return None;
    }
    let mut i: usize = s;
    if b[s] == 0x2b {
        if e - s == 1 {
            return None;
        }
        i = s + 1;
    }
    let ghost d = b@.subrange(i as int, e as int);
    assert(unsigned_digits(t) == Some(d)) by {
        if b@[s as int] == 0x2b {
            assert(t.drop_first() =~= d);
        } else {
            assert(t =~= d);
        }
    }
    let start: usize = i;
    let mut value: u32 = 0;
    while i < e
        invariant
            s <= start <= i <= e <= b@.len(),
            t == b@.subrange(s as int, e as int),
            unsigned_digits(t) == Some(d),
            d == b@.subrange(start as int, e as int),
            all_digits(d.take(i - start)),
            value == dec_value(d.take(i - start)),
            value < 256,
        decreases e - i,
    {
        let c = b[i];
        if c < 0x30 || c > 0x39 {
            assert(!is_digit(d[i - start]));
            return None;
        }
        let next: u32 = value * 10 + (c - 0x30) as u32;
        assert(d.take(i - start + 1).drop_last() =~= d.take(i - start));
        assert(d.take(i - start + 1).last() == c);
        if next >= 256 {
            proof {
                assert(all_digits(d.take(i - start + 1)));
                if all_digits(d) {
                    lemma_dec_value_grows(d, i - start + 1);
                    assert(d.take(i - start + 1) =~= d.take(i - start + 1));
                }
            }
            return None;
        }
        value = next;
        i = i + 1;
    }
    assert(d.take(i - start) =~= d);
    Some(value as u8)
}

} // verus!
