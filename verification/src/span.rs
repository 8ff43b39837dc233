use vstd::prelude::*;
use crate::palette::StyleId;

verus! {

/// A styled region of the unstyled input, in byte offsets.
///
/// `priority` is the index of the finder that produced the span; lower
/// numbers win conflicts in merge. `padded` asks render to surround the span
/// text with a space on each side, but only if merge keeps the span whole.
#[derive(Debug, Clone, Copy, PartialEq, Eq, Structural)]
pub struct Span {
    pub start: usize,
    pub end: usize,
    pub style: StyleId,
    pub priority: u16,
    pub padded: bool,
}

impl Span {
    /// An unpadded span.
    pub fn new(start: usize, end: usize, style: StyleId, priority: u16) -> (s: Span)
        ensures
            s == (Span { start, end, style, priority, padded: false }),
    {
        Span { start, end, style, priority, padded: false }
    }
}

/// The spans after pushing `[start, end)` with `style` and `padded`: nothing
/// happens to an empty range; a range that continues the last span with the
/// same style and padding extends it; any other range is appended with
/// priority 0.
pub open spec fn push_spec(spans: Seq<Span>, start: usize, end: usize, style: StyleId, padded: bool) -> Seq<Span> {
    if start >= end {
        spans
    } else if spans.len() > 0 && spans.last().style == style && spans.last().padded == padded
        && spans.last().end == start {
        spans.update(spans.len() - 1, Span { end, ..spans.last() })
    } else {
        spans.push(Span { start, end, style, priority: 0, padded })
    }
}

/// One push request: start, end, style and whether it is padded.
#[derive(Debug, Clone, Copy, PartialEq, Eq, Structural)]
pub struct Push {
    pub start: usize,
    pub end: usize,
    pub style: StyleId,
    pub padded: bool,
}

/// A plain push request.
pub open spec fn plain(start: int, end: int, style: StyleId) -> Push {
    Push { start: start as usize, end: end as usize, style, padded: false }
}

/// The spans after a sequence of push requests, in order.
pub open spec fn push_all(spans: Seq<Span>, pushes: Seq<Push>) -> Seq<Span>
    decreases pushes.len(),
{
    if pushes.len() == 0 {
        spans
    } else {
        let p = pushes.last();
        push_spec(push_all(spans, pushes.drop_last()), p.start, p.end, p.style, p.padded)
    }
}

/// A span covers byte `i` with `style` and `padded`.
pub open spec fn covers(s: Span, i: int) -> bool {
    s.start <= i < s.end
}

/// Every span is non-empty.
pub open spec fn all_nonempty(spans: Seq<Span>) -> bool {
    forall|k: int| 0 <= k < spans.len() ==> (#[trigger] spans[k]).start < spans[k].end
}

/// Collects spans from a single finder, coalescing adjacent same-style spans.
#[derive(Debug)]
pub struct Collector {
    spans: Vec<Span>,
}

impl View for Collector {
    type V = Seq<Span>;

    closed spec fn view(&self) -> Seq<Span> {
        self.spans@
    }
}

impl Collector {
    /// An empty collector.
    pub fn new() -> (c: Collector)
        ensures
            c@ == Seq::<Span>::empty(),
    {
        Collector { spans: Vec::new() }
    }

    /// Pushes a plain span, extending the last span when contiguous with it
    /// and equal in style and padding.
    pub fn push(&mut self, start: usize, end: usize, style: StyleId)
        ensures
            final(self)@ == push_spec(old(self)@, start, end, style, false),
    {
        self.push_impl(start, end, style, false);
    }

    /// Pushes a span that render surrounds with one space on each side.
    pub fn push_padded(&mut self, start: usize, end: usize, style: StyleId)
        ensures
            final(self)@ == push_spec(old(self)@, start, end, style, true),
    {
        self.push_impl(start, end, style, true);
    }

    /// Pushes a span with the given padding.
    pub fn push_impl(&mut self, start: usize, end: usize, style: StyleId, padded: bool)
        ensures
            final(self)@ == push_spec(old(self)@, start, end, style, padded),
    {
        if start >= end {
            return;
        }
        let n = self.spans.len();
        if n > 0 {
            let last = self.spans[n - 1];
            if last.style == style && last.padded == padded && last.end == start {
                self.spans.set(n - 1, Span { end, ..last });
                return;
            }
        }
        self.spans.push(Span { start, end, style, priority: 0, padded });
    }

    /// Pushes each request in order.
    pub fn push_each(&mut self, pushes: &[Push])
        ensures
            final(self)@ == push_all(old(self)@, pushes@),
    {
        let n = pushes.len();
        let mut k: usize = 0;
        while k < n
            invariant
                n == pushes@.len(),
                0 <= k <= n,
                self@ == push_all(old(self)@, pushes@.take(k as int)),
            decreases n - k,
        {
            let p = pushes[k];
            self.push_impl(p.start, p.end, p.style, p.padded);
            assert(pushes@.take(k + 1).drop_last() =~= pushes@.take(k as int));
            k = k + 1;
        }
        assert(pushes@.take(n as int) =~= pushes@);
    }

    /// The collected spans.
    pub fn into_spans(self) -> (v: Vec<Span>)
        ensures
            v@ == self@,
    {
        self.spans
    }

    /// The collected spans, borrowed.
    pub fn spans(&self) -> (v: &Vec<Span>)
        ensures
            v@ == self@,
    {
        &self.spans
    }

    /// Removes every span.
    pub fn reset(&mut self)
        ensures
            final(self)@ == Seq::<Span>::empty(),
    {
        self.spans.clear();
    }

    /// Appends this collector's spans to `spans`, stamping each with
    /// `priority`, and leaves the collector empty.
    pub fn drain_into(&mut self, spans: &mut Vec<Span>, priority: u16)
        ensures
            final(self)@ == Seq::<Span>::empty(),
            final(spans)@ == old(spans)@ + stamp(old(self)@, priority),
    {
        let n = self.spans.len();
        let mut k: usize = 0;
        while k < n
            invariant
                n == self.spans.len(),
                0 <= k <= n,
                spans@ == old(spans)@ + stamp(old(self)@.take(k as int), priority),
                self.spans@ == old(self)@,
            decreases n - k,
        {
            let s = self.spans[k];
            spans.push(Span { priority, ..s });
            assert(old(self)@.take(k + 1) =~= old(self)@.take(k as int).push(s));
            assert(stamp(old(self)@.take(k + 1), priority) =~= stamp(old(self)@.take(k as int), priority).push(Span { priority, ..s }));
            k = k + 1;
        }
        assert(old(self)@.take(n as int) =~= old(self)@);
        self.spans.clear();
    }
}

/// Pushing two sequences one after the other is pushing their concatenation.
pub proof fn lemma_push_all_concat(spans: Seq<Span>, a: Seq<Push>, b: Seq<Push>)
    ensures
        push_all(spans, a + b) == push_all(push_all(spans, a), b),
    decreases b.len(),
{
    if b.len() == 0 {
        assert(a + b =~= a);
    } else {
        assert((a + b).drop_last() =~= a + b.drop_last());
        lemma_push_all_concat(spans, a, b.drop_last());
    }
}

/// The spans with their priority set to `priority`.
pub open spec fn stamp(spans: Seq<Span>, priority: u16) -> Seq<Span> {
    spans.map_values(|s: Span| Span { priority, ..s })
}

} // verus!
