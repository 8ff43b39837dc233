//! IPv6 addresses, checked against the textual forms that
//! `std::net::Ipv6Addr` reads: eight groups of one to four hex digits, at
//! most one `::` standing for one or more zero groups, and an optional
//! dotted IPv4 address in place of the last two groups.
use vstd::prelude::*;

use crate::config::IpV6Config;
use crate::finders::{both, CapsSplitter, split_caps, split_caps_spec, build_regex, built, captures_of, pushes_ok, styles_in, add_push, lemma_in_styles, group, group_of, has_byte, next_or_end_of, lemma_next_or_end, is_digit, pieces};
use crate::finders::classes::{HexClasses, classify_range, classify_into, hex_styles, is_hex_letter};
use crate::finders::numeric::{dec_value, parse_u8, parse_u8_spec};
use crate::matching::{Pattern, captures_all, find_byte};
use crate::palette::{interned, resolves, Palette, StyleId, extends};
use crate::span::{Collector, Push, push_all, plain};
use crate::text::{bytes_of, input_bytes};

verus! {

/// A run of at least three hex digits, colons and dots, with an optional
/// `/` and one to three digits. Groups: 1 address, 2 `/`, 3 mask.
pub const IP_V6_PATTERN: &'static str = r"([0-9a-fA-F:.]{3,})(?:(/)(\d{1,3}))?";

/// An ASCII hex digit.
pub open spec fn is_hex(c: u8) -> bool {
    is_digit(c) || is_hex_letter(c)
}

/// `b[a..z]` is one to four hex digits.
pub open spec fn hex_group(b: Seq<u8>, a: int, z: int) -> bool {
    1 <= z - a <= 4 && forall|k: int| a <= k < z ==> #[trigger] is_hex(b[k])
}

/// `b[a..z]` is a decimal byte of one to three digits, without a leading
/// zero unless it is `0`.
pub open spec fn octet(b: Seq<u8>, a: int, z: int) -> bool {
    &&& 1 <= z - a <= 3
    &&& forall|k: int| a <= k < z ==> #[trigger] is_digit(b[k])
    &&& (z - a == 1 || b[a] != 0x30)
    &&& dec_value(b.subrange(a, z)) <= 255
}

/// `b[a..z]` is a dotted IPv4 address: four octets.
pub open spec fn ipv4(b: Seq<u8>, a: int, z: int) -> bool {
    let q = pieces(b, a, z, 0x2e);
    q.len() == 4 && forall|k: int| 0 <= k < 4 ==> octet(b, #[trigger] q[k].0, q[k].1)
}

/// Every range is a hex group.
pub open spec fn all_hex(b: Seq<u8>, rs: Seq<(int, int)>) -> bool {
    forall|k: int| 0 <= k < rs.len() ==> hex_group(b, (#[trigger] rs[k]).0, rs[k].1)
}

/// The number of 16-bit groups `b[a..z]` stands for, when it is a list of
/// colon-separated hex groups (nothing at all counting as none), possibly
/// ending, where `v4` allows it, in an IPv4 address counting as two.
pub open spec fn groups(b: Seq<u8>, a: int, z: int, v4: bool) -> Option<nat> {
    let ps = pieces(b, a, z, 0x3a);
    if a == z {
        Some(0)
    } else if all_hex(b, ps) {
        Some(ps.len())
    } else if v4 && ps.len() > 0 && ipv4(b, ps.last().0, ps.last().1) && all_hex(b, ps.drop_last()) {
        Some(ps.len() + 1)
    } else {
        None
    }
}

/// The first `::` of `b[i..z]`.
pub open spec fn double_colon(b: Seq<u8>, i: int, z: int) -> Option<int>
    decreases z - i,
{
    if i + 1 >= z {
        None
    } else if b[i] == 0x3a && b[i + 1] == 0x3a {
        Some(i)
    } else {
        double_colon(b, i + 1, z)
    }
}

/// `b[a..z]` is an IPv6 address: eight groups; or, around its first `::`,
/// hex groups before and groups after (an IPv4 address allowed at the end)
/// that leave at least one group for the `::`.
pub open spec fn ipv6(b: Seq<u8>, a: int, z: int) -> bool {
    match double_colon(b, a, z) {
        None => groups(b, a, z, true) == Some(8nat),
        Some(i) => match (groups(b, a, i, false), groups(b, i + 2, z, true)) {
            (Some(x), Some(y)) => x + y <= 7,
            _ => false,
        },
    }
}

/// An absent mask, or one that reads as a byte of at most 128.
pub open spec fn mask_ok(b: Seq<u8>, mask: Option<(usize, usize)>) -> bool {
    match mask {
        Some(g) => g.0 <= g.1 <= b.len() && match parse_u8_spec(b.subrange(g.0 as int, g.1 as int)) {
            Some(v) => v <= 128,
            None => false,
        },
        None => true,
    }
}

/// Whether `b[a..z]` is one to four hex digits.
fn hex_group_of(b: &[u8], a: usize, z: usize) -> (r: bool)
    requires
        a <= z <= b@.len(),
    ensures
        r == hex_group(b@, a as int, z as int),
{
    if z - a < 1 || z - a > 4 {
        return false;
    }
    let mut k: usize = a;
    while k < z
        invariant
            a <= k <= z <= b@.len(),
            forall|j: int| a <= j < k ==> #[trigger] is_hex(b@[j]),
        decreases z - k,
    {
        let c = b[k];
        if !((c >= 0x30 && c <= 0x39) || (c >= 0x61 && c <= 0x66) || (c >= 0x41 && c <= 0x46)) {
            assert(!is_hex(b@[k as int]));
            return false;
        }
        k = k + 1;
    }
    true
}

/// Whether `b[a..z]` is a decimal byte without a leading zero.
fn octet_of(b: &[u8], a: usize, z: usize) -> (r: bool)
    requires
        a <= z <= b@.len(),
    ensures
        r == octet(b@, a as int, z as int),
{
    if z - a < 1 || z - a > 3 {
        return false;
    }
    if z - a > 1 && b[a] == 0x30 {
        return false;
    }
    let mut k: usize = a;
    let mut value: u32 = 0;
    while k < z
        invariant
            a <= k <= z <= b@.len(),
            z - a <= 3,
            forall|j: int| a <= j < k ==> #[trigger] is_digit(b@[j]),
            value == dec_value(b@.subrange(a as int, k as int)),
            k - a == 0 ==> value == 0,
            k - a == 1 ==> value < 10,
            k - a == 2 ==> value < 100,
            k - a == 3 ==> value < 1000,
        decreases z - k,
    {
        let c = b[k];
        if c < 0x30 || c > 0x39 {
            assert(!is_digit(b@[k as int]));
            return false;
        }
        assert(b@.subrange(a as int, k + 1).drop_last() =~= b@.subrange(a as int, k as int));
        value = value * 10 + (c - 0x30) as u32;
        k = k + 1;
    }
    value <= 255
}

/// Whether `b[a..z]` is four dot-separated octets.
fn ipv4_of(b: &[u8], a: usize, z: usize) -> (r: bool)
    requires
        a <= z <= b@.len(),
    ensures
        r == ipv4(b@, a as int, z as int),
{
    let ghost all = pieces(b@, a as int, z as int, 0x2e);
    let ghost mut done_pieces: Seq<(int, int)> = Seq::empty();
    let mut n: usize = 0;
    let mut ok = true;
    let mut cur: usize = a;
    let mut done = false;
    while !done
        invariant
            a <= cur <= z <= b@.len(),
            n == if done_pieces.len() < 5 { done_pieces.len() } else { 5 },
            ok == forall|k: int| 0 <= k < done_pieces.len() && k < 4 ==> octet(b@, #[trigger] done_pieces[k].0, done_pieces[k].1),
            !done ==> all == done_pieces + pieces(b@, cur as int, z as int, 0x2e),
            done ==> all == done_pieces,
        decreases z - cur + if done { 0int } else { 1int },
    {
        let j = next_or_end_of(b, cur, z, 0x2e);
        proof {
            lemma_next_or_end(b@, cur as int, z as int, 0x2e);
        }
        let piece_ok = octet_of(b, cur, j);
        let ghost before = done_pieces;
        let ghost ok_old = ok;
        proof {
            done_pieces = done_pieces.push((cur as int, j as int));
        }
        if n < 4 {
            ok = ok && piece_ok;
        }
        if n < 5 {
            n = n + 1;
        }
        proof {
            if ok {
                assert forall|k: int| 0 <= k < done_pieces.len() && k < 4 implies octet(b@, #[trigger] done_pieces[k].0, done_pieces[k].1) by {
                    if k < before.len() {
                        assert(done_pieces[k] == before[k]);
                    }
                }
            } else if ok_old {
                assert(!octet(b@, done_pieces[before.len() as int].0, done_pieces[before.len() as int].1));
            } else {
                let k = choose|k: int| 0 <= k < before.len() && k < 4 && !octet(b@, #[trigger] before[k].0, before[k].1);
                assert(done_pieces[k] == before[k]);
            }
        }
        if j < z {
            assert(pieces(b@, cur as int, z as int, 0x2e) =~= seq![(cur as int, j as int)] + pieces(b@, j + 1, z as int, 0x2e));
            assert(all =~= done_pieces + pieces(b@, j + 1, z as int, 0x2e));
            cur = j + 1;
        } else {
            assert(pieces(b@, cur as int, z as int, 0x2e) =~= seq![(cur as int, z as int)]);
            assert(all =~= done_pieces);
            done = true;
        }
    }
    n == 4 && ok
}

/// The number of groups `b[a..z]` stands for (see `groups`), counted up to
/// nine.
fn groups_of(b: &[u8], a: usize, z: usize, v4: bool) -> (r: Option<usize>)
    requires
        a <= z <= b@.len(),
    ensures
        match groups(b@, a as int, z as int, v4) {
            Some(x) => r == Some(if x < 9 { x as usize } else { 9usize }),
            None => r is None,
        },
{
    if a == z {
        return Some(0);
    }
    let ghost all = pieces(b@, a as int, z as int, 0x3a);
    let ghost mut done_pieces: Seq<(int, int)> = Seq::empty();
    let mut n: usize = 0;
    let mut hex_so_far = true;
    let mut hex_before_last = true;
    let mut last: (usize, usize) = (a, a);
    let mut cur: usize = a;
    let mut done = false;
    while !done
        invariant
            a <= cur <= z <= b@.len(),
            a < z,
            n == if done_pieces.len() < 10 { done_pieces.len() } else { 10 },
            hex_so_far == all_hex(b@, done_pieces),
            done_pieces.len() > 0 ==> hex_before_last == all_hex(b@, done_pieces.drop_last()),
            done_pieces.len() > 0 ==> done_pieces.last() == (last.0 as int, last.1 as int),
            done_pieces.len() > 0 ==> last.0 <= last.1 <= z,
            !done ==> all == done_pieces + pieces(b@, cur as int, z as int, 0x3a),
            done ==> all == done_pieces,
            done ==> done_pieces.len() > 0,
        decreases z - cur + if done { 0int } else { 1int },
    {
        let j = next_or_end_of(b, cur, z, 0x3a);
        proof {
            lemma_next_or_end(b@, cur as int, z as int, 0x3a);
        }
        let piece_hex = hex_group_of(b, cur, j);
        let ghost before = done_pieces;
        proof {
            done_pieces = done_pieces.push((cur as int, j as int));
            assert(done_pieces.drop_last() =~= before);
        }
        hex_before_last = hex_so_far;
        hex_so_far = hex_so_far && piece_hex;
        proof {
            if hex_so_far {
                assert forall|k: int| 0 <= k < done_pieces.len() implies hex_group(b@, (#[trigger] done_pieces[k]).0, done_pieces[k].1) by {
                    if k < before.len() {
                        assert(done_pieces[k] == before[k]);
                    }
                }
            } else if hex_before_last {
                assert(!hex_group(b@, done_pieces[before.len() as int].0, done_pieces[before.len() as int].1));
            } else {
                let k = choose|k: int| 0 <= k < before.len() && !hex_group(b@, (#[trigger] before[k]).0, before[k].1);
                assert(done_pieces[k] == before[k]);
            }
        }
        last = (cur, j);
        if n < 10 {
            n = n + 1;
        }
        if j < z {
            assert(pieces(b@, cur as int, z as int, 0x3a) =~= seq![(cur as int, j as int)] + pieces(b@, j + 1, z as int, 0x3a));
            assert(all =~= done_pieces + pieces(b@, j + 1, z as int, 0x3a));
            cur = j + 1;
        } else {
            assert(pieces(b@, cur as int, z as int, 0x3a) =~= seq![(cur as int, z as int)]);
            assert(all =~= done_pieces);
            done = true;
        }
    }
    if hex_so_far {
        return Some(if n < 9 { n } else { 9 });
    }
    if v4 && hex_before_last && ipv4_of(b, last.0, last.1) {
        return Some(if n < 8 { n + 1 } else { 9 });
    }
    None
}

/// The first `::` of `b[i..z]`.
fn double_colon_of(b: &[u8], i: usize, z: usize) -> (r: Option<usize>)
    requires
        i <= z <= b@.len(),
    ensures
        match double_colon(b@, i as int, z as int) {
            Some(x) => r == Some(x as usize),
            None => r is None,
        },
{
    let mut k: usize = i;
    while z > 0 && k < z - 1
        invariant
            i <= k <= z <= b@.len(),
            double_colon(b@, i as int, z as int) == double_colon(b@, k as int, z as int),
        decreases z - k,
    {
        if b[k] == 0x3a && b[k + 1] == 0x3a {
            return Some(k);
        }
        k = k + 1;
    }
    None
}

/// Whether `b[a..z]` is an IPv6 address.
pub fn ipv6_of(b: &[u8], a: usize, z: usize) -> (r: bool)
    requires
        a <= z <= b@.len(),
    ensures
        r == ipv6(b@, a as int, z as int),
{
    match double_colon_of(b, a, z) {
        None => {
            match groups_of(b, a, z, true) {
                Some(x) => x == 8,
                None => false,
            }
        },
        Some(i) => {
            proof {
                lemma_double_colon(b@, a as int, z as int);
                assert(double_colon(b@, a as int, z as int) == Some(i as int));
            }
            match (groups_of(b, a, i, false), groups_of(b, i + 2, z, true)) {
                (Some(x), Some(y)) => x + y <= 7,
                _ => false,
            }
        },
    }
}

/// A `::` found lies within the range.
proof fn lemma_double_colon(b: Seq<u8>, i: int, z: int)
    ensures
        double_colon(b, i, z) matches Some(x) ==> i <= x && x + 2 <= z,
    decreases z - i,
{
    if i + 1 < z && !(b[i] == 0x3a && b[i + 1] == 0x3a) {
        lemma_double_colon(b, i + 1, z);
    }
}

/// Splits an address's groups into styled characters, slash and mask.
#[derive(Debug, Clone, Copy)]
pub struct IpV6Split {
    pub classes: HexClasses,
}

impl CapsSplitter for IpV6Split {
    open spec fn wf(&self) -> bool {
        self.classes.extra1 == 0x3a && self.classes.extra2 == 0x2e
    }

    open spec fn ids(&self) -> Seq<StyleId> {
        hex_styles(self.classes)
    }

    /// When the address is IPv6 and the mask, if any, is at most 128: every
    /// digit, hex letter, colon and dot of the address by its class, then
    /// the `/` as separator and the mask as number.
    open spec fn split(&self, b: Seq<u8>, caps: Seq<Option<(usize, usize)>>) -> Seq<Push> {
        match group_of(caps, 1) {
            Some(addr) => {
                let mask = group_of(caps, 3);
                if ipv6(b, addr.0 as int, addr.1 as int) && mask_ok(b, mask) {
                    classify_range(b, addr.0 as int, addr.1 as int, self.classes) + match both(group_of(caps, 2), mask) {
                        Some((sl, mk)) => seq![
                            plain(sl.0 as int, sl.1 as int, self.classes.extra),
                            plain(mk.0 as int, mk.1 as int, self.classes.number),
                        ],
                        None => Seq::empty(),
                    }
                } else {
                    Seq::empty()
                }
            },
            None => Seq::empty(),
        }
    }

    fn split_into(&self, input: &str, b: &[u8], caps: &[Option<(usize, usize)>], v: &mut Vec<Push>) {
        match group(caps, 1) {
            Some(addr) => {
                let mask = group(caps, 3);
                let mask_fits = match mask {
                    Some(m) => match parse_u8(b, m.0, m.1) {
                        Some(x) => x <= 128,
                        None => false,
                    },
                    None => true,
                };
                if ipv6_of(b, addr.0, addr.1) && mask_fits {
                    let ghost start = v@;
                    classify_into(b, addr.0, addr.1, self.classes, v);
                    let ghost mid = v@;
                    match (group(caps, 2), mask) {
                        (Some(sl), Some(mk)) => {
                            proof {
                                lemma_in_styles(self.ids());
                                assert(self.ids()[0] == self.classes.number && self.ids()[2] == self.classes.extra);
                            }
                            add_push(v, Ghost(b@), Ghost(self.ids()), sl.0, sl.1, self.classes.extra);
                            add_push(v, Ghost(b@), Ghost(self.ids()), mk.0, mk.1, self.classes.number);
                        },
                        _ => {},
                    }
                    assert(v@ =~= start + self.split(b@, caps@));
                } else {
                    assert(v@ =~= v@ + self.split(b@, caps@));
                }
            },
            None => {
                assert(v@ =~= v@ + self.split(b@, caps@));
            },
        }
    }
}

/// Finds IPv6 addresses.
#[derive(Debug)]
pub struct IpV6Finder {
    pub regex: Option<Pattern>,
    pub split: IpV6Split,
}

impl IpV6Finder {
    /// The styles this finder uses.
    pub open spec fn styles(&self) -> Seq<StyleId> {
        self.split.ids()
    }

    /// What the finder needs of its own configuration.
    pub open spec fn wf(&self) -> bool {
        self.split.wf()
    }

    /// The requests for `input`: none without `:`, otherwise the parts of
    /// every valid address.
    pub open spec fn pushes(&self, input: &str) -> Seq<Push> {
        if !has_byte(bytes_of(input), 0x3a) {
            Seq::empty()
        } else {
            split_caps_spec(self.split, bytes_of(input), captures_of(self.regex, input@))
        }
    }

    /// Built from `config`, with each configured style interned in `palette`.
    pub open spec fn made_from(&self, config: IpV6Config, palette: Seq<Seq<char>>) -> bool {
        &&& built(self.regex, IP_V6_PATTERN@)
        &&& resolves(palette, self.split.classes.number, config.number)
        &&& resolves(palette, self.split.classes.letter, config.letter)
        &&& resolves(palette, self.split.classes.extra, config.separator)
    }

    /// An IPv6 finder with the configured styles.
    pub fn new(config: IpV6Config, palette: &mut Palette) -> (f: IpV6Finder)
        requires
            old(palette).wf(),
            interned(interned(interned(old(palette)@, config.number), config.letter), config.separator).len() <= 0x10000,
        ensures
            final(palette).wf(),
            final(palette)@ == interned(interned(interned(old(palette)@, config.number), config.letter), config.separator),
            f.made_from(config, final(palette)@),
            f.wf(),
            extends(final(palette)@, old(palette)@, 3),
            forall|k: int| 0 <= k < f.styles().len() ==> (f.styles()[k].0 as int) < final(palette)@.len(),
    {
        proof {
            reveal(interned);
        }
        let number = palette.intern(config.number);
        let letter = palette.intern(config.letter);
        let extra = palette.intern(config.separator);
        IpV6Finder {
            regex: build_regex(IP_V6_PATTERN),
            split: IpV6Split { classes: HexClasses { number, letter, extra1: 0x3a, extra2: 0x2e, extra } },
        }
    }

    /// Pushes the parts of every valid address.
    pub fn find_spans(&self, input: &str, collector: &mut Collector)
        requires
            self.wf(),
        ensures
            final(collector)@ == push_all(old(collector)@, self.pushes(input)),
            pushes_ok(bytes_of(input), self.pushes(input)),
            styles_in(self.pushes(input), self.styles()),
    {
        let b = input_bytes(input);
        if find_byte(0x3a, b).is_none() {
            collector.push_each(&[]);
            return;
        }
        match &self.regex {
            Some(p) => {
                let all = captures_all(p, input);
                let v = split_caps(&self.split, input, b, &all);
                collector.push_each(v.as_slice());
            },
            None => collector.push_each(&[]),
        }
    }
}

} // verus!
