use vstd::prelude::*;
use crate::finders::{CapsSplitter, split_caps, split_caps_spec, build_regex, built, captures_of, pushes_ok, styles_in,
    add_push, lemma_in_styles, group, group_of, has_byte};
use crate::finders::numeric::{parse_u8, parse_u8_spec};
use crate::matching::{Pattern, captures_all, find_byte, range_ok};
use crate::palette::{interned, resolves, Palette, StyleId, extends};
use crate::span::{Collector, Push, push_all, plain};
use crate::config::IpV4Config;
use crate::text::{bytes_of, input_bytes, lemma_after_ascii};

verus! {

/// Four dot-separated groups of one to three digits, with an optional
/// `/mask` of one or two digits. Groups: 1 to 4 the octets, 5 the mask.
pub const IP_V4_PATTERN: &'static str = r"(?x)\b
            (?P<o1>\d{1,3})\.
            (?P<o2>\d{1,3})\.
            (?P<o3>\d{1,3})\.
            (?P<o4>\d{1,3})
            (?:/(?P<mask>\d{1,2}))?
            \b";

/// The text of a group is a byte value.
pub open spec fn octet_ok(b: Seq<u8>, g: (usize, usize)) -> bool {
    g.0 <= g.1 <= b.len() && parse_u8_spec(b.subrange(g.0 as int, g.1 as int)) is Some
}

/// An octet followed directly by a dot.
pub open spec fn dotted(b: Seq<u8>, g: (usize, usize)) -> bool {
    g.1 < b.len() && b[g.1 as int] == 0x2e
}

/// An absent mask, or a mask that reads as a byte of at most 32, right
/// after a `/`.
pub open spec fn mask_ok(b: Seq<u8>, mask: Option<(usize, usize)>) -> bool {
    match mask {
        Some(g) => g.0 <= g.1 <= b.len() && 1 <= g.0 && b[g.0 - 1] == 0x2f
            && match parse_u8_spec(b.subrange(g.0 as int, g.1 as int)) {
                Some(v) => v <= 32,
                None => false,
            },
        None => true,
    }
}

/// Splits an address's groups into numbers and separators.
#[derive(Debug, Clone, Copy)]
pub struct IpV4Split {
    pub number: StyleId,
    pub separator: StyleId,
}

impl CapsSplitter for IpV4Split {
    open spec fn wf(&self) -> bool {
        true
    }

    open spec fn ids(&self) -> Seq<StyleId> {
        seq![self.number, self.separator]
    }

    /// When every octet reads as a byte and the mask, if any, as at most
    /// 32: each octet, the dot after each of the first three, then the `/`
    /// and the mask. Otherwise nothing.
    open spec fn split(&self, b: Seq<u8>, caps: Seq<Option<(usize, usize)>>) -> Seq<Push> {
        match (group_of(caps, 1), group_of(caps, 2), group_of(caps, 3), group_of(caps, 4)) {
            (Some(o1), Some(o2), Some(o3), Some(o4)) => {
                let mask = group_of(caps, 5);
                if octet_ok(b, o1) && octet_ok(b, o2) && octet_ok(b, o3) && octet_ok(b, o4)
                    && dotted(b, o1) && dotted(b, o2) && dotted(b, o3) && mask_ok(b, mask) {
                    let octets = seq![
                        plain(o1.0 as int, o1.1 as int, self.number),
                        plain(o1.1 as int, o1.1 + 1, self.separator),
                        plain(o2.0 as int, o2.1 as int, self.number),
                        plain(o2.1 as int, o2.1 + 1, self.separator),
                        plain(o3.0 as int, o3.1 as int, self.number),
                        plain(o3.1 as int, o3.1 + 1, self.separator),
                        plain(o4.0 as int, o4.1 as int, self.number),
                    ];
                    match mask {
                        Some(ms) => octets + seq![
                            plain(ms.0 - 1, ms.0 as int, self.separator),
                            plain(ms.0 as int, ms.1 as int, self.number),
                        ],
                        None => octets,
                    }
                } else {
                    Seq::empty()
                }
            },
            _ => Seq::empty(),
        }
    }

    fn split_into(&self, input: &str, b: &[u8], caps: &[Option<(usize, usize)>], v: &mut Vec<Push>) {
        match (group(caps, 1), group(caps, 2), group(caps, 3), group(caps, 4)) {
            (Some(o1), Some(o2), Some(o3), Some(o4)) => {
                let mask = group(caps, 5);
                let octets = self.octet(b, o1) && self.octet(b, o2) && self.octet(b, o3) && self.octet(b, o4);
                let dots = self.dot_after(b, o1) && self.dot_after(b, o2) && self.dot_after(b, o3);
                let fits = self.mask_fits(b, mask);
                if octets && dots && fits {
                    assert(dotted(b@, o1) && dotted(b@, o2) && dotted(b@, o3));
                    proof {
                        lemma_in_styles(self.ids());
                        lemma_after_ascii(b@, o1.1 as int);
                        lemma_after_ascii(b@, o2.1 as int);
                        lemma_after_ascii(b@, o3.1 as int);
                    }
                    let ghost start = v@;
                    let ids = Ghost(self.ids());
                    let n: usize = b.len();
                    let d1: usize = o1.1 + 1;
                    let d2: usize = o2.1 + 1;
                    let d3: usize = o3.1 + 1;
                    add_push(v, Ghost(b@), ids, o1.0, o1.1, self.number);
                    add_push(v, Ghost(b@), ids, o1.1, d1, self.separator);
                    add_push(v, Ghost(b@), ids, o2.0, o2.1, self.number);
                    add_push(v, Ghost(b@), ids, o2.1, d2, self.separator);
                    add_push(v, Ghost(b@), ids, o3.0, o3.1, self.number);
                    add_push(v, Ghost(b@), ids, o3.1, d3, self.separator);
                    add_push(v, Ghost(b@), ids, o4.0, o4.1, self.number);
                    match mask {
                        Some(ms) => {
                            proof {
                                crate::text::lemma_ascii_on_boundary(b@, ms.0 - 1);
                            }
                            add_push(v, Ghost(b@), ids, ms.0 - 1, ms.0, self.separator);
                            add_push(v, Ghost(b@), ids, ms.0, ms.1, self.number);
                        },
                        None => {},
                    }
                    assert(v@ =~= start + self.split(b@, caps@));
                    return;
                }
                assert(v@ =~= v@ + self.split(b@, caps@));
            },
            _ => {
                assert(v@ =~= v@ + self.split(b@, caps@));
            },
        }
    }
}

impl IpV4Split {
    /// Whether the group's text reads as a byte.
    fn octet(&self, b: &[u8], g: (usize, usize)) -> (r: bool)
        requires
            range_ok(b@, g),
        ensures
            r == octet_ok(b@, g),
    {
        parse_u8(b, g.0, g.1).is_some()
    }

    /// Whether a dot follows the group.
    fn dot_after(&self, b: &[u8], g: (usize, usize)) -> (r: bool)
        ensures
            r == dotted(b@, g),
    {
        g.1 < b.len() && b[g.1] == 0x2e
    }

    /// Whether the mask is absent, or follows a `/` and reads as at most 32.
    fn mask_fits(&self, b: &[u8], mask: Option<(usize, usize)>) -> (r: bool)
        requires
            mask matches Some(g) ==> range_ok(b@, g),
        ensures
            r == mask_ok(b@, mask),
    {
        match mask {
            Some(g) => {
                if g.0 >= 1 && b[g.0 - 1] == 0x2f {
                    match parse_u8(b, g.0, g.1) {
                        Some(v) => v <= 32,
                        None => false,
                    }
                } else {
                    false
                }
            },
            None => true,
        }
    }
}

/// Finds IPv4 addresses with valid octets and masks.
#[derive(Debug)]
pub struct IpV4Finder {
    pub regex: Option<Pattern>,
    pub split: IpV4Split,
}

impl IpV4Finder {
    /// The styles this finder uses.
    pub open spec fn styles(&self) -> Seq<StyleId> {
        self.split.ids()
    }

    /// The requests for `input`: none without a dot, otherwise the parts of
    /// every valid address.
    pub open spec fn pushes(&self, input: &str) -> Seq<Push> {
        if !has_byte(bytes_of(input), 0x2e) {
            Seq::empty()
        } else {
            split_caps_spec(self.split, bytes_of(input), captures_of(self.regex, input@))
        }
    }

    /// Built from `config`, with each configured style interned in `palette`.
    pub open spec fn made_from(&self, config: IpV4Config, palette: Seq<Seq<char>>) -> bool {
        &&& built(self.regex, IP_V4_PATTERN@)
        &&& resolves(palette, self.split.number, config.number)
        &&& resolves(palette, self.split.separator, config.separator)
    }

    /// An IPv4 finder with the configured styles.
    pub fn new(config: IpV4Config, palette: &mut Palette) -> (f: IpV4Finder)
        requires
            old(palette).wf(),
            interned(interned(old(palette)@, config.number), config.separator).len() <= 0x10000,
        ensures
            final(palette).wf(),
            final(palette)@ == interned(interned(old(palette)@, config.number), config.separator),
            f.made_from(config, final(palette)@),
            extends(final(palette)@, old(palette)@, 2),
            forall|k: int| 0 <= k < f.styles().len() ==> (f.styles()[k].0 as int) < final(palette)@.len(),
    {
        proof {
            reveal(interned);
        }
        let number = palette.intern(config.number);
        let separator = palette.intern(config.separator);
        IpV4Finder { regex: build_regex(IP_V4_PATTERN), split: IpV4Split { number, separator } }
    }

    /// Pushes the octets, dots, `/` and mask of every valid address.
    pub fn find_spans(&self, input: &str, collector: &mut Collector)
        ensures
            final(collector)@ == push_all(old(collector)@, self.pushes(input)),
            pushes_ok(bytes_of(input), self.pushes(input)),
            styles_in(self.pushes(input), self.styles()),
    {
        let b = input_bytes(input);
        if find_byte(0x2e, b).is_none() {
            collector.push_each(&[]);
            return;
        }
        match &self.regex {
            Some(p) => {
                let all = captures_all(p, input);
                let v = split_caps(&self.split, input, b, &all);
                collector.push_each(v.as_slice());
            },
            None => collector.push_each(&[]),
        }
    }
}

} // verus!
