use vstd::prelude::*;
use crate::style::{Style, ansi_prefix, lemma_prefix_sgr, sgr_like};

verus! {

/// A compact handle to an interned style: an index into a `Palette`.
#[derive(Debug, Clone, Copy, PartialEq, Eq, Structural)]
pub struct StyleId(pub u16);

impl StyleId {
    /// The handle with the given index.
    pub fn new(id: u16) -> (s: StyleId)
        ensures
            s.0 == id,
    {
        StyleId(id)
    }
}

/// The distinct ANSI prefixes a pipeline can emit. Styles rendering to equal
/// prefixes share one id.
#[derive(Debug, Clone)]
pub struct Palette {
    prefixes: Vec<String>,
}

/// The first index of `p` in `prefixes`, if any.
pub open spec fn index_of(prefixes: Seq<Seq<char>>, p: Seq<char>) -> Option<int> {
    if prefixes.contains(p) {
        Some(choose|i: int| 0 <= i < prefixes.len() && prefixes[i] == p)
    } else {
        None
    }
}

/// Every prefix occurs once and is empty or one escape sequence, and an id
/// fits in 16 bits.
pub open spec fn palette_wf(prefixes: Seq<Seq<char>>) -> bool {
    &&& prefixes.len() <= 0x10000
    &&& forall|i: int| 0 <= i < prefixes.len() ==> sgr_like(#[trigger] prefixes[i])
    &&& forall|i: int, j: int|
        0 <= i < prefixes.len() && 0 <= j < prefixes.len() && i != j ==> prefixes[i] != prefixes[j]
}

/// The palette after interning `s`, and the id handed out.
pub open spec fn intern_spec(prefixes: Seq<Seq<char>>, s: Style) -> (Seq<Seq<char>>, int) {
    let p = ansi_prefix(s);
    match index_of(prefixes, p) {
        Some(i) => (prefixes, i),
        None => (prefixes.push(p), prefixes.len() as int),
    }
}

/// The palette after interning `s`.
#[verifier::opaque]
pub open spec fn interned(prefixes: Seq<Seq<char>>, s: Style) -> Seq<Seq<char>> {
    intern_spec(prefixes, s).0
}

/// The palette after interning each of `styles` in order.
pub open spec fn interned_all(prefixes: Seq<Seq<char>>, styles: Seq<Style>) -> Seq<Seq<char>>
    decreases styles.len(),
{
    if styles.len() == 0 {
        prefixes
    } else {
        interned(interned_all(prefixes, styles.drop_last()), styles.last())
    }
}

/// Interning adds at most one prefix, and when the result fits in 16-bit
/// ids the style could be interned.
pub proof fn lemma_interned_grows(p: Seq<Seq<char>>, s: Style)
    ensures
        p.len() <= interned(p, s).len() <= p.len() + 1,
        interned(p, s).len() <= 0x10000 ==> can_intern(p, s),
{
    reveal(interned);
}

/// Interning `a` then `b` is interning `a + b`.
pub proof fn lemma_interned_all_concat(p: Seq<Seq<char>>, a: Seq<Style>, b: Seq<Style>)
    ensures
        interned_all(p, a + b) == interned_all(interned_all(p, a), b),
    decreases b.len(),
{
    if b.len() == 0 {
        assert(a + b =~= a);
    } else {
        lemma_interned_all_concat(p, a, b.drop_last());
        assert((a + b).drop_last() =~= a + b.drop_last());
        assert((a + b).last() == b.last());
    }
}

/// Interning several styles adds at most one prefix each.
pub proof fn lemma_interned_all_grows(p: Seq<Seq<char>>, a: Seq<Style>)
    ensures
        p.len() <= interned_all(p, a).len() <= p.len() + a.len(),
    decreases a.len(),
{
    if a.len() > 0 {
        lemma_interned_all_grows(p, a.drop_last());
        lemma_interned_grows(interned_all(p, a.drop_last()), a.last());
    }
}

/// Interning a prefix of the styles gives no more prefixes than all of them.
pub proof fn lemma_interned_all_prefix(p: Seq<Seq<char>>, a: Seq<Style>, b: Seq<Style>)
    ensures
        interned_all(p, a).len() <= interned_all(p, a + b).len(),
{
    lemma_interned_all_concat(p, a, b);
    lemma_interned_all_grows(interned_all(p, a), b);
}

/// Whether `s` can be interned into `prefixes` without running out of ids.
pub open spec fn can_intern(prefixes: Seq<Seq<char>>, s: Style) -> bool {
    prefixes.contains(ansi_prefix(s)) || prefixes.len() < 0x10000
}

impl View for Palette {
    type V = Seq<Seq<char>>;

    closed spec fn view(&self) -> Seq<Seq<char>> {
        self.prefixes@.map_values(|s: String| s@)
    }
}

impl Palette {
    /// Well-formedness: prefixes are distinct and ids fit in 16 bits.
    pub open spec fn wf(&self) -> bool {
        palette_wf(self@)
    }

    /// An empty palette.
    pub fn new() -> (p: Palette)
        ensures
            p@ == Seq::<Seq<char>>::empty(),
            p.wf(),
    {
        let p = Palette { prefixes: Vec::new() };
        assert(p@ =~= Seq::<Seq<char>>::empty());
        p
    }

    /// The number of distinct prefixes.
    pub fn len(&self) -> (n: usize)
        ensures
            n == self@.len(),
    {
        self.prefixes.len()
    }

    /// Interns `style`: returns the id of its prefix, adding the prefix when
    /// it is new.
    pub fn intern(&mut self, style: Style) -> (id: StyleId)
        requires
            old(self).wf(),
            can_intern(old(self)@, style),
        ensures
            final(self).wf(),
            (final(self)@, id.0 as int) == intern_spec(old(self)@, style),
            final(self)@[id.0 as int] == ansi_prefix(style),
            (id.0 as int) < final(self)@.len(),
            old(self)@.len() <= final(self)@.len() <= old(self)@.len() + 1,
            forall|i: int| 0 <= i < old(self)@.len() ==> final(self)@[i] == old(self)@[i],
    {
        proof {
            lemma_intern_keeps(old(self)@, style);
        }
        let prefix = style.prefix();
        let n = self.prefixes.len();
        let mut i: usize = 0;
        while i < n
            invariant
                n == self.prefixes.len(),
                0 <= i <= n,
                prefix@ == ansi_prefix(style),
                palette_wf(self@),
                can_intern(self@, style),
                forall|k: int| 0 <= k < i ==> self@[k] != prefix@,
            decreases n - i,
        {
            let same = self.prefixes[i] == prefix;
            proof {
                assert(self@[i as int] == self.prefixes@[i as int]@);
            }
            if same {
                proof {
                    assert(self@[i as int] == prefix@);
                    assert(self@.contains(prefix@));
                    let j = choose|j: int| 0 <= j < self@.len() && self@[j] == prefix@;
                    assert(j == i);
                }
                return StyleId(i as u16);
            }
            i = i + 1;
        }
        proof {
            assert(!self@.contains(prefix@));
            assert(index_of(self@, prefix@) is None);
        }
        let ghost old_view = self@;
        self.prefixes.push(prefix);
        assert(self@ =~= old_view.push(prefix@));
        StyleId(n as u16)
    }

    /// Whether the prefix of `style` is in the palette already.
    pub fn holds(&self, style: Style) -> (r: bool)
        ensures
            r == self@.contains(ansi_prefix(style)),
    {
        let prefix = style.prefix();
        let n = self.prefixes.len();
        let mut i: usize = 0;
        while i < n
            invariant
                n == self.prefixes.len(),
                0 <= i <= n,
                prefix@ == ansi_prefix(style),
                forall|k: int| 0 <= k < i ==> self@[k] != prefix@,
            decreases n - i,
        {
            let same = self.prefixes[i] == prefix;
            proof {
                assert(self@[i as int] == self.prefixes@[i as int]@);
            }
            if same {
                assert(self@[i as int] == prefix@);
                return true;
            }
            i = i + 1;
        }
        false
    }

    /// The prefix of `id`.
    pub fn prefix(&self, id: StyleId) -> (p: &str)
        requires
            (id.0 as int) < self@.len(),
        ensures
            p@ == self@[id.0 as int],
    {
        self.prefixes[id.0 as usize].as_str()
    }
}

/// Whether interning `styles` in order into an empty palette leaves ids
/// that fit in 16 bits.
pub fn styles_fit(styles: &Vec<Style>) -> (r: bool)
    ensures
        r == (interned_all(Seq::empty(), styles@).len() <= 0x10000),
{
    let mut p = Palette::new();
    let mut i: usize = 0;
    assert(styles@.take(0) =~= Seq::<Style>::empty());
    while i < styles.len()
        invariant
            i <= styles@.len(),
            p.wf(),
            p@ == interned_all(Seq::empty(), styles@.take(i as int)),
        decreases styles@.len() - i,
    {
        let s = styles[i];
        let ghost before = p@;
        proof {
            reveal(interned);
            assert(styles@.take(i + 1).drop_last() =~= styles@.take(i as int));
            assert(styles@.take(i + 1).last() == s);
            assert(interned_all(Seq::empty(), styles@.take(i + 1)) == interned(before, s));
        }
        if !p.holds(s) && p.len() == 0x10000 {
            proof {
                assert(index_of(before, ansi_prefix(s)) is None);
                assert(interned(before, s).len() == 0x10001);
                assert(styles@ =~= styles@.take(i + 1) + styles@.skip(i + 1));
                lemma_interned_all_prefix(Seq::empty(), styles@.take(i + 1), styles@.skip(i + 1));
            }
            return false;
        }
        p.intern(s);
        i = i + 1;
    }
    assert(styles@.take(styles@.len() as int) =~= styles@);
    true
}

/// `new` keeps every prefix of `old` at its index and adds at most `k`.
pub open spec fn extends(new: Seq<Seq<char>>, old: Seq<Seq<char>>, k: nat) -> bool {
    &&& old.len() <= new.len() <= old.len() + k
    &&& forall|i: int| 0 <= i < old.len() ==> new[i] == old[i]
}

/// Extending an extension extends the original.
pub proof fn lemma_extends_trans(a: Seq<Seq<char>>, b: Seq<Seq<char>>, c: Seq<Seq<char>>, k1: nat, k2: nat)
    requires
        extends(b, a, k1),
        extends(c, b, k2),
    ensures
        extends(c, a, k1 + k2),
{
    assert forall|i: int| 0 <= i < a.len() implies c[i] == a[i] by {
        assert(c[i] == b[i]);
    }
}

/// `id` is an index of `palette` that resolves to the prefix of `style`.
pub open spec fn resolves(palette: Seq<Seq<char>>, id: StyleId, style: Style) -> bool {
    &&& (id.0 as int) < palette.len()
    &&& palette[id.0 as int] == ansi_prefix(style)
}

/// Interning canonicalizes: two styles get the same id exactly when their
/// prefixes are equal, and each id resolves to its style's prefix.
pub proof fn law_intern_canonical(prefixes: Seq<Seq<char>>, s1: Style, s2: Style)
    requires
        palette_wf(prefixes),
        can_intern(prefixes, s1),
        can_intern(intern_spec(prefixes, s1).0, s2),
    ensures
        ({
            let (p1, a) = intern_spec(prefixes, s1);
            let (p2, b) = intern_spec(p1, s2);
            &&& (a == b <==> ansi_prefix(s1) == ansi_prefix(s2))
            &&& p2[a] == ansi_prefix(s1)
            &&& p2[b] == ansi_prefix(s2)
            &&& palette_wf(p2)
        }),
{
    lemma_intern_keeps(prefixes, s1);
    let (p1, a) = intern_spec(prefixes, s1);
    lemma_intern_keeps(p1, s2);
}

/// Interning keeps the palette well formed, keeps existing ids, and resolves
/// the new id to the style's prefix.
pub proof fn lemma_intern_keeps(prefixes: Seq<Seq<char>>, s: Style)
    requires
        palette_wf(prefixes),
        can_intern(prefixes, s),
    ensures
        ({
            let (p1, a) = intern_spec(prefixes, s);
            &&& palette_wf(p1)
            &&& 0 <= a < p1.len()
            &&& p1[a] == ansi_prefix(s)
            &&& p1.len() >= prefixes.len()
            &&& forall|i: int| 0 <= i < prefixes.len() ==> p1[i] == prefixes[i]
        }),
{
    let p = ansi_prefix(s);
    lemma_prefix_sgr(s);
    if prefixes.contains(p) {
        let i = choose|i: int| 0 <= i < prefixes.len() && prefixes[i] == p;
    } else {
        let p1 = prefixes.push(p);
        assert forall|i: int| 0 <= i < p1.len() implies sgr_like(#[trigger] p1[i]) by {
            if i < prefixes.len() {
                assert(p1[i] == prefixes[i]);
            }
        }
    }
}

} // verus!
