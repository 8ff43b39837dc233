use vstd::prelude::*;
use vstd::utf8::*;
use vstd::string::StringSliceAdditionalSpecFns;

verus! {

broadcast use vstd::utf8::encode_utf8_valid_utf8;

/// The UTF-8 bytes of a string.
pub open spec fn bytes_of(s: &str) -> Seq<u8> {
    encode_utf8(s@)
}

/// Offset `i` is within `b` and does not point into the middle of a
/// character's encoding.
pub open spec fn on_boundary(b: Seq<u8>, i: int) -> bool {
    0 <= i <= b.len() && (i == b.len() || !is_continuation_byte(b[i]))
}

/// An ASCII byte.
pub open spec fn is_ascii_byte(c: u8) -> bool {
    c < 0x80
}

/// Encoding distributes over concatenation.
pub proof fn lemma_encode_concat(a: Seq<char>, c: Seq<char>)
    ensures
        encode_utf8(a + c) == encode_utf8(a) + encode_utf8(c),
    decreases a.len(),
{
    if a.len() == 0 {
        assert(a + c =~= c);
        assert(encode_utf8(a) =~= Seq::<u8>::empty());
        assert(encode_utf8(a) + encode_utf8(c) =~= encode_utf8(c));
    } else {
        lemma_encode_concat(a.drop_first(), c);
        assert((a + c).drop_first() =~= a.drop_first() + c);
        assert((a + c)[0] == a[0]);
        assert(encode_utf8(a + c) =~= encode_scalar(a[0] as u32) + encode_utf8(a.drop_first() + c));
    }
}

/// An on-boundary offset of valid UTF-8 is a character boundary.
pub proof fn lemma_on_boundary_char(b: Seq<u8>, i: int)
    requires
        valid_utf8(b),
        on_boundary(b, i),
    ensures
        is_char_boundary(b, i),
{
    is_char_boundary_start_end_of_seq(b);
    if i < b.len() {
        is_char_boundary_iff_not_is_continuation_byte(b, i);
    }
}

/// The start of valid UTF-8 is a boundary.
pub proof fn lemma_zero_on_boundary(b: Seq<u8>)
    requires
        valid_utf8(b),
    ensures
        on_boundary(b, 0),
{
    if b.len() > 0 {
        is_char_boundary_start_end_of_seq(b);
        is_char_boundary_iff_not_is_continuation_byte(b, 0);
    }
}

/// An ASCII byte is never a continuation byte.
pub proof fn lemma_ascii_on_boundary(b: Seq<u8>, i: int)
    requires
        0 <= i < b.len(),
        is_ascii_byte(b[i]),
    ensures
        on_boundary(b, i),
{
}

/// The offset just after an ASCII byte of valid UTF-8 is a boundary.
pub proof fn lemma_after_ascii(b: Seq<u8>, i: int)
    requires
        valid_utf8(b),
        0 <= i < b.len(),
        is_ascii_byte(b[i]),
    ensures
        on_boundary(b, i + 1),
{
    if i + 1 < b.len() {
        lemma_on_boundary_char(b, i);
        valid_utf8_split(b, i);
        let rest = b.subrange(i, b.len() as int);
        assert(rest[0] == b[i]);
        assert(valid_first_scalar(rest));
        assert(length_of_first_scalar(rest) == 1);
        let tail = pop_first_scalar(rest);
        assert(tail =~= b.subrange(i + 1, b.len() as int));
        assert(valid_utf8(tail));
        is_char_boundary_start_end_of_seq(tail);
        is_char_boundary_iff_not_is_continuation_byte(tail, 0);
        assert(tail[0] == b[i + 1]);
    }
}

/// Every byte of `b` in `[a, c)` is ASCII.
pub open spec fn ascii_range(b: Seq<u8>, a: int, c: int) -> bool {
    forall|k: int| a <= k < c ==> #[trigger] is_ascii_byte(b[k])
}

/// Every offset of a non-empty ASCII range of valid UTF-8 is a boundary.
pub proof fn lemma_ascii_range_all(b: Seq<u8>, a: int, c: int)
    requires
        valid_utf8(b),
        0 <= a < c <= b.len(),
        ascii_range(b, a, c),
    ensures
        forall|i: int| a <= i <= c ==> #[trigger] on_boundary(b, i),
{
    assert forall|i: int| a <= i <= c implies #[trigger] on_boundary(b, i) by {
        if i < c {
            assert(is_ascii_byte(b[i]));
        } else {
            assert(is_ascii_byte(b[c - 1]));
            lemma_after_ascii(b, c - 1);
        }
    }
}

/// Whether every byte of `b` in `[a, c)` is ASCII.
pub fn is_ascii_run(b: &[u8], a: usize, c: usize) -> (r: bool)
    requires
        a <= c <= b@.len(),
    ensures
        r == ascii_range(b@, a as int, c as int),
{
    let mut i: usize = a;
    while i < c
        invariant
            a <= i <= c <= b@.len(),
            ascii_range(b@, a as int, i as int),
        decreases c - i,
    {
        if b[i] >= 0x80 {
            assert(!is_ascii_byte(b@[i as int]));
            return false;
        }
        i = i + 1;
    }
    true
}

/// A boundary of a slice between two boundaries is a boundary of the whole.
pub proof fn lemma_sub_boundary(b: Seq<u8>, a: int, c: int, k: int)
    requires
        0 <= a <= c <= b.len(),
        on_boundary(b, c),
        on_boundary(b.subrange(a, c), k),
    ensures
        on_boundary(b, a + k),
{
    if k < c - a {
        assert(b.subrange(a, c)[k] == b[a + k]);
    }
}

/// `t` ends with `suffix`.
pub open spec fn ends_with(t: Seq<u8>, suffix: Seq<u8>) -> bool {
    suffix.len() <= t.len() && t.subrange(t.len() - suffix.len(), t.len() as int) == suffix
}

/// Whether `b[a..c]` equals `lit`.
pub fn bytes_equal(b: &[u8], a: usize, c: usize, lit: &[u8]) -> (r: bool)
    requires
        a <= c <= b@.len(),
    ensures
        r == (b@.subrange(a as int, c as int) == lit@),
{
    if c - a != lit.len() {
        return false;
    }
    let mut i: usize = 0;
    while i < lit.len()
        invariant
            a <= c <= b@.len(),
            c - a == lit@.len(),
            i <= lit@.len(),
            forall|j: int| 0 <= j < i ==> b@[a + j] == lit@[j],
        decreases lit@.len() - i,
    {
        if b[a + i] != lit[i] {
            assert(b@.subrange(a as int, c as int)[i as int] != lit@[i as int]);
            return false;
        }
        i = i + 1;
    }
    assert(b@.subrange(a as int, c as int) =~= lit@);
    true
}

/// Whether `b[a..c]` ends with `suffix`.
pub fn ends_with_bytes(b: &[u8], a: usize, c: usize, suffix: &[u8]) -> (r: bool)
    requires
        a <= c <= b@.len(),
    ensures
        r == ends_with(b@.subrange(a as int, c as int), suffix@),
{
    if suffix.len() > c - a {
        return false;
    }
    let r = bytes_equal(b, c - suffix.len(), c, suffix);
    assert(b@.subrange(a as int, c as int).subrange((c - a) - suffix@.len(), (c - a) as int)
        =~= b@.subrange(c - suffix@.len(), c as int));
    r
}

/// The bytes of `s` in `[a, c)`, as a string slice.
pub fn substring(s: &str, a: usize, c: usize) -> (r: &str)
    requires
        a <= c,
        on_boundary(bytes_of(s), a as int),
        on_boundary(bytes_of(s), c as int),
    ensures
        bytes_of(r) == bytes_of(s).subrange(a as int, c as int),
{
    let ghost b = bytes_of(s);
    proof {
        lemma_on_boundary_char(b, a as int);
        lemma_on_boundary_char(b, c as int);
        valid_utf8_split(b, a as int);
    }
    let (_, tail) = s.split_at(a);
    let ghost t = bytes_of(tail);
    assert(t =~= b.subrange(a as int, b.len() as int));
    proof {
        if (c - a) < t.len() {
            assert(t[c - a] == b[c as int]);
        }
        assert(on_boundary(t, c - a));
        lemma_on_boundary_char(t, (c - a) as int);
    }
    let (piece, _) = tail.split_at(c - a);
    assert(bytes_of(piece) =~= b.subrange(a as int, c as int));
    piece
}

/// The number of bytes of `s`.
pub fn str_len(s: &str) -> (n: usize)
    ensures
        n == bytes_of(s).len(),
{
    assert(s.spec_bytes() == bytes_of(s));
    s.as_bytes().len()
}

/// Appends `piece` to `out`.
pub fn append_str(out: &mut String, piece: &str)
    ensures
        encode_utf8(final(out)@) == encode_utf8(old(out)@) + bytes_of(piece),
{
    proof {
        lemma_encode_concat(old(out)@, piece@);
    }
    out.append(piece);
}

/// The bytes of the input, as a vector.
pub fn input_bytes(s: &str) -> (v: &[u8])
    ensures
        v@ == bytes_of(s),
        valid_utf8(v@),
{
    assert(s.spec_bytes() == bytes_of(s));
    s.as_bytes()
}

} // verus!
