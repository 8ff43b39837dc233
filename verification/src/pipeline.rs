use vstd::prelude::*;
use std::borrow::Cow;
use crate::finders::{pushes_ok, styles_in, spans_ok, lemma_push_all_ok};
use crate::finders::number::NumberFinder;
use crate::finders::quote::QuoteFinder;
use crate::finders::uuid::UuidFinder;
use crate::finders::pointer::PointerFinder;
use crate::finders::key_value::KeyValueFinder;
use crate::finders::unix_process::UnixProcessFinder;
use crate::finders::email::EmailFinder;
use crate::finders::date_dash::DateDashFinder;
use crate::finders::date_time::DateTimeFinder;
use crate::finders::duration::DurationFinder;
use crate::finders::ip_v4::IpV4Finder;
use crate::finders::ip_v6::IpV6Finder;
use crate::finders::jvm_stack::JvmStackFinder;
use crate::finders::unix_path::UnixPathFinder;
use crate::finders::url::UrlFinder;
use crate::finders::json::JsonFinder;
use crate::finders::user_regex::RegexFinder;
use crate::finders::keyword::KeywordFinder;
use crate::merge::{merge_spans, merged, fragment_covers, lemma_covered_has_winner, style_at, lemma_winner_from_span};
use crate::palette::{Palette, StyleId, palette_wf};
use crate::render::{render, render_spec, renderable};
use crate::style::sgr_like;
use crate::span::{Collector, Push, Span, push_all, stamp};
use crate::text::{bytes_of, on_boundary, str_len, lemma_zero_on_boundary};
use crate::text::is_ascii_byte;

verus! {

broadcast use vstd::utf8::encode_utf8_valid_utf8;

/// A finder of one pattern kind.
#[derive(Debug)]
pub enum Finder {
    Number(NumberFinder),
    Quote(QuoteFinder),
    Uuid(UuidFinder),
    Pointer(PointerFinder),
    KeyValue(KeyValueFinder),
    UnixProcess(UnixProcessFinder),
    Email(EmailFinder),
    DateDash(DateDashFinder),
    DateTime(DateTimeFinder),
    Duration(DurationFinder),
    IpV4(IpV4Finder),
    IpV6(IpV6Finder),
    JvmStack(JvmStackFinder),
    UnixPath(UnixPathFinder),
    Url(UrlFinder),
    Json(JsonFinder),
    Regex(RegexFinder),
    Keyword(KeywordFinder),
}

impl Finder {
    /// The push requests the finder makes for `input`.
    pub open spec fn pushes(&self, input: &str) -> Seq<Push> {
        match self {
            Finder::Number(f) => f.pushes(input),
            Finder::Quote(f) => f.pushes(input),
            Finder::Uuid(f) => f.pushes(input),
            Finder::Pointer(f) => f.pushes(input),
            Finder::KeyValue(f) => f.pushes(input),
            Finder::UnixProcess(f) => f.pushes(input),
            Finder::Email(f) => f.pushes(input),
            Finder::DateDash(f) => f.pushes(input),
            Finder::DateTime(f) => f.pushes(input),
            Finder::Duration(f) => f.pushes(input),
            Finder::IpV4(f) => f.pushes(input),
            Finder::IpV6(f) => f.pushes(input),
            Finder::JvmStack(f) => f.pushes(input),
            Finder::UnixPath(f) => f.pushes(input),
            Finder::Url(f) => f.pushes(input),
            Finder::Json(f) => f.pushes(input),
            Finder::Regex(f) => f.pushes(input),
            Finder::Keyword(f) => f.pushes(input),
        }
    }

    /// The styles the finder uses.
    pub open spec fn styles(&self) -> Seq<StyleId> {
        match self {
            Finder::Number(f) => f.styles(),
            Finder::Quote(f) => f.styles(),
            Finder::Uuid(f) => f.styles(),
            Finder::Pointer(f) => f.styles(),
            Finder::KeyValue(f) => f.styles(),
            Finder::UnixProcess(f) => f.styles(),
            Finder::Email(f) => f.styles(),
            Finder::DateDash(f) => f.styles(),
            Finder::DateTime(f) => f.styles(),
            Finder::Duration(f) => f.styles(),
            Finder::IpV4(f) => f.styles(),
            Finder::IpV6(f) => f.styles(),
            Finder::JvmStack(f) => f.styles(),
            Finder::UnixPath(f) => f.styles(),
            Finder::Url(f) => f.styles(),
            Finder::Json(f) => f.styles(),
            Finder::Regex(f) => f.styles(),
            Finder::Keyword(f) => f.styles(),
        }
    }

    /// What the finder needs of its own configuration.
    pub open spec fn wf(&self) -> bool {
        match self {
            Finder::Quote(_) => true,
            Finder::Uuid(f) => f.wf(),
            Finder::Pointer(f) => f.wf(),
            Finder::IpV6(f) => f.wf(),
            Finder::JvmStack(f) => f.wf(),
            Finder::Keyword(f) => f.wf(),
            _ => true,
        }
    }

    /// Pushes the finder's requests for `input`.
    pub fn find_spans(&self, input: &str, collector: &mut Collector)
        requires
            self.wf(),
        ensures
            final(collector)@ == push_all(old(collector)@, self.pushes(input)),
            pushes_ok(bytes_of(input), self.pushes(input)),
            styles_in(self.pushes(input), self.styles()),
    {
        match self {
            Finder::Number(f) => f.find_spans(input, collector),
            Finder::Quote(f) => f.find_spans(input, collector),
            Finder::Uuid(f) => f.find_spans(input, collector),
            Finder::Pointer(f) => f.find_spans(input, collector),
            Finder::KeyValue(f) => f.find_spans(input, collector),
            Finder::UnixProcess(f) => f.find_spans(input, collector),
            Finder::Email(f) => f.find_spans(input, collector),
            Finder::DateDash(f) => f.find_spans(input, collector),
            Finder::DateTime(f) => f.find_spans(input, collector),
            Finder::Duration(f) => f.find_spans(input, collector),
            Finder::IpV4(f) => f.find_spans(input, collector),
            Finder::IpV6(f) => f.find_spans(input, collector),
            Finder::JvmStack(f) => f.find_spans(input, collector),
            Finder::UnixPath(f) => f.find_spans(input, collector),
            Finder::Url(f) => f.find_spans(input, collector),
            Finder::Json(f) => f.find_spans(input, collector),
            Finder::Regex(f) => f.find_spans(input, collector),
            Finder::Keyword(f) => f.find_spans(input, collector),
        }
    }
}

/// The kind of a finder.
#[derive(Debug, Clone, Copy, PartialEq, Eq, Structural)]
pub enum FinderKind {
    Number,
    Quote,
    Uuid,
    Pointer,
    KeyValue,
    UnixProcess,
    Email,
    DateDash,
    DateTime,
    Duration,
    IpV4,
    IpV6,
    JvmStack,
    UnixPath,
    Url,
    Json,
    Regex,
    Keyword,
}

/// The kind of `f`.
pub open spec fn kind_of(f: Finder) -> FinderKind {
    match f {
        Finder::Number(_) => FinderKind::Number,
        Finder::Quote(_) => FinderKind::Quote,
        Finder::Uuid(_) => FinderKind::Uuid,
        Finder::Pointer(_) => FinderKind::Pointer,
        Finder::KeyValue(_) => FinderKind::KeyValue,
        Finder::UnixProcess(_) => FinderKind::UnixProcess,
        Finder::Email(_) => FinderKind::Email,
        Finder::DateDash(_) => FinderKind::DateDash,
        Finder::DateTime(_) => FinderKind::DateTime,
        Finder::Duration(_) => FinderKind::Duration,
        Finder::IpV4(_) => FinderKind::IpV4,
        Finder::IpV6(_) => FinderKind::IpV6,
        Finder::JvmStack(_) => FinderKind::JvmStack,
        Finder::UnixPath(_) => FinderKind::UnixPath,
        Finder::Url(_) => FinderKind::Url,
        Finder::Json(_) => FinderKind::Json,
        Finder::Regex(_) => FinderKind::Regex,
        Finder::Keyword(_) => FinderKind::Keyword,
    }
}

/// The kinds of a list of finders.
pub open spec fn kinds(fs: Seq<Finder>) -> Seq<FinderKind> {
    fs.map_values(|f: Finder| kind_of(f))
}

/// Appending a finder appends its kind.
pub proof fn lemma_kinds_push(old: Seq<Finder>, new: Seq<Finder>)
    requires
        new.len() == old.len() + 1,
        new.take(old.len() as int) == old,
    ensures
        kinds(new) == kinds(old).push(kind_of(new.last())),
{
    assert(new =~= old.push(new.last()));
    assert(kinds(new) =~= kinds(old).push(kind_of(new.last())));
}

/// The spans a finder produces on its own.
pub open spec fn finder_spans(f: Finder, input: &str) -> Seq<Span> {
    push_all(Seq::empty(), f.pushes(input))
}

/// The spans of the first `k` finders, each stamped with its index as
/// priority, in finder order.
pub open spec fn collected(finders: Seq<Finder>, input: &str, k: int) -> Seq<Span>
    decreases k,
{
    if k <= 0 {
        Seq::empty()
    } else {
        collected(finders, input, k - 1) + stamp(finder_spans(finders[k - 1], input), (k - 1) as u16)
    }
}

/// The output bytes for `input`: the merge of every finder's spans,
/// rendered with the palette.
pub open spec fn highlighted(finders: Seq<Finder>, palette: Seq<Seq<char>>, input: &str, out: Seq<u8>) -> bool {
    let spans = collected(finders, input, finders.len() as int);
    exists|res: Seq<crate::merge::ResolvedSpan>|
        merged(bytes_of(input).len() as int, spans, res) && renderable(bytes_of(input), res, palette.len() as int)
            && out == render_spec(bytes_of(input), res, palette)
}

/// Every finder is well formed and uses styles of the palette.
pub open spec fn finders_wf(finders: Seq<Finder>, palette_len: nat) -> bool {
    forall|k: int|
        0 <= k < finders.len() ==> (#[trigger] finders[k]).wf() && forall|j: int|
            0 <= j < finders[k].styles().len() ==> (finders[k].styles()[j].0 as int) < palette_len
}

/// Span-based highlighter pipeline: all finders run on the unstyled input,
/// a merge step resolves overlaps by priority (earlier finders win), and a
/// single render pass produces the styled output.
#[derive(Debug)]
pub struct Pipeline {
    finders: Vec<Finder>,
    palette: Palette,
}

/// The spans all have in-palette styles and lie on boundaries.
spec fn spans_fine(b: Seq<u8>, spans: Seq<Span>, n: nat) -> bool {
    &&& spans_ok(b, spans)
    &&& forall|k: int| 0 <= k < spans.len() ==> ((#[trigger] spans[k]).style.0 as int) < n
}

proof fn lemma_finder_spans_fine(f: Finder, input: &str, n: nat)
    requires
        pushes_ok(bytes_of(input), f.pushes(input)),
        styles_in(f.pushes(input), f.styles()),
        forall|j: int| 0 <= j < f.styles().len() ==> (f.styles()[j].0 as int) < n,
    ensures
        spans_fine(bytes_of(input), finder_spans(f, input), n),
{
    let e = Seq::<Span>::empty();
    lemma_push_all_ok(bytes_of(input), e, f.pushes(input), f.styles());
    let sp = finder_spans(f, input);
    assert forall|k: int| 0 <= k < sp.len() implies ((#[trigger] sp[k]).style.0 as int) < n by {
        assert(f.styles().contains(sp[k].style));
    }
}

impl Pipeline {
    /// The finders, in priority order.
    pub closed spec fn finders(&self) -> Seq<Finder> {
        self.finders@
    }

    /// The palette the finders' styles index.
    pub closed spec fn palette(&self) -> Seq<Seq<char>> {
        self.palette@
    }

    /// The palette is well formed and the finders use its styles.
    pub open spec fn wf(&self) -> bool {
        &&& finders_wf(self.finders(), self.palette().len())
        &&& palette_wf(self.palette())
    }

    /// A pipeline of `finders`, in priority order, over `palette`.
    pub fn new(finders: Vec<Finder>, palette: Palette) -> (p: Pipeline)
        requires
            palette.wf(),
            finders_wf(finders@, palette@.len()),
        ensures
            p.finders() == finders@,
            p.palette() == palette@,
            p.wf(),
    {
        Pipeline { finders, palette }
    }

    /// The number of finders.
    pub fn len(&self) -> (n: usize)
        ensures
            n == self.finders().len(),
    {
        self.finders.len()
    }

    /// Runs every finder, merges their spans by priority and renders the
    /// result; borrows the input when no finder matched.
    pub fn apply_sequential<'a>(&self, input: &'a str) -> (out: Cow<'a, str>)
        requires
            self.wf(),
        ensures
            highlighted(self.finders(), self.palette(), input, vstd::utf8::encode_utf8(out@)),
            forall|i: int| 0 <= i < self.palette().len() ==> sgr_like(#[trigger] self.palette()[i]),
            spans_ok(bytes_of(input), collected(self.finders(), input, self.finders().len() as int)),
            (collected(self.finders(), input, self.finders().len() as int).len() == 0) == (out matches Cow::Borrowed(_)),
    {
        let ghost b = bytes_of(input);
        let ghost n = self.palette@.len();
        let mut all: Vec<Span> = Vec::new();
        let mut collector = Collector::new();
        let count = self.finders.len();
        let mut k: usize = 0;
        while k < count
            invariant
                count == self.finders@.len(),
                0 <= k <= count,
                self.wf(),
                b == bytes_of(input),
                n == self.palette@.len(),
                collector@ == Seq::<Span>::empty(),
                all@ == collected(self.finders@, input, k as int),
                spans_fine(b, all@, n),
            decreases count - k,
        {
            let f = &self.finders[k];
            assert(self.finders@[k as int] == *f);
            f.find_spans(input, &mut collector);
            proof {
                lemma_finder_spans_fine(*f, input, n);
            }
            let ghost before = all@;
            let ghost fs = collector@;
            collector.drain_into(&mut all, k as u16);
            proof {
                assert(fs == finder_spans(*f, input));
                let st = stamp(fs, k as u16);
                assert forall|j: int| 0 <= j < all@.len() implies (#[trigger] all@[j]).start < all@[j].end
                    && on_boundary(b, all@[j].start as int) && on_boundary(b, all@[j].end as int)
                    && (all@[j].style.0 as int) < n by {
                    if j >= before.len() {
                        assert(all@[j] == st[j - before.len()]);
                        assert(fs[j - before.len()].start == all@[j].start);
                    } else {
                        assert(all@[j] == before[j]);
                    }
                }
            }
            k = k + 1;
        }
        let len = str_len(input);
        proof {
            assert forall|j: int| 0 <= j < all@.len() implies (#[trigger] all@[j]).start <= all@[j].end <= len by {
                assert(on_boundary(b, all@[j].end as int));
            }
        }
        let resolved = merge_spans(len, all.as_slice());
        proof {
            let sp = all@;
            let res = resolved@;
            lemma_zero_on_boundary(b);
            assert forall|j: int| 0 <= j < res.len() implies on_boundary(b, (#[trigger] res[j]).start as int)
                && on_boundary(b, res[j].end as int) && (res[j].style.0 as int) < n by {
                if res[j].start != 0 {
                    let m = choose|m: int| 0 <= m < sp.len() && ((#[trigger] sp[m]).start == res[j].start || sp[m].end == res[j].start);
                }
                if res[j].end != len {
                    let m = choose|m: int| 0 <= m < sp.len() && ((#[trigger] sp[m]).start == res[j].end || sp[m].end == res[j].end);
                }
                assert(style_at(sp, res[j].start as int) == Some(res[j].style));
                lemma_winner_from_span(sp, res[j].start as int);
            }
            if sp.len() == 0 && res.len() > 0 {
                assert(style_at(sp, res[0].start as int) == Some(res[0].style));
            }
            if sp.len() > 0 {
                lemma_covered_has_winner(sp, 0, sp[0].start as int);
                assert(style_at(sp, sp[0].start as int) is Some);
                assert(fragment_covers(res, sp[0].start as int));
            }
        }
        let out = render(input, resolved.as_slice(), &self.palette);
        proof {
            assert forall|i: int| 0 <= i < self.palette().len() implies sgr_like(#[trigger] self.palette()[i]) by {
                assert(self.palette() == self.palette@);
            }
        }
        out
    }
}

} // verus!
