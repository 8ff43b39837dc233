use vstd::prelude::*;

verus! {

/// A terminal color.
#[derive(Debug, Clone, Copy, PartialEq, Eq, Structural, PartialOrd, Ord, Hash)]
pub enum Color {
    Black,
    Red,
    Green,
    Yellow,
    Blue,
    Magenta,
    Cyan,
    White,
    BrightBlack,
    BrightRed,
    BrightGreen,
    BrightYellow,
    BrightBlue,
    BrightMagenta,
    BrightCyan,
    BrightWhite,
}

/// A text style: optional foreground and background colors plus attributes.
#[derive(Debug, Clone, Copy, PartialEq, Eq, Structural, PartialOrd, Ord, Hash)]
pub struct Style {
    pub fg: Option<Color>,
    pub bg: Option<Color>,
    pub bold: bool,
    pub faint: bool,
    pub italic: bool,
    pub underline: bool,
}

/// The style with no color and no attribute.
pub open spec fn plain_style() -> Style {
    Style { fg: None, bg: None, bold: false, faint: false, italic: false, underline: false }
}

impl Style {
    /// A style with nothing set.
    pub fn new() -> (s: Style)
        ensures
            s == plain_style(),
    {
        Style { fg: None, bg: None, bold: false, faint: false, italic: false, underline: false }
    }

    /// This style with the given foreground color.
    pub fn fg(self, color: Color) -> (s: Style)
        ensures
            s == (Style { fg: Some(color), ..self }),
    {
        Style { fg: Some(color), ..self }
    }

    /// This style with the given background color.
    pub fn on(self, color: Color) -> (s: Style)
        ensures
            s == (Style { bg: Some(color), ..self }),
    {
        Style { bg: Some(color), ..self }
    }

    /// This style, bold.
    pub fn bold(self) -> (s: Style)
        ensures
            s == (Style { bold: true, ..self }),
    {
        Style { bold: true, ..self }
    }

    /// This style, faint.
    pub fn faint(self) -> (s: Style)
        ensures
            s == (Style { faint: true, ..self }),
    {
        Style { faint: true, ..self }
    }

    /// This style, italic.
    pub fn italic(self) -> (s: Style)
        ensures
            s == (Style { italic: true, ..self }),
    {
        Style { italic: true, ..self }
    }

    /// This style, underlined.
    pub fn underline(self) -> (s: Style)
        ensures
            s == (Style { underline: true, ..self }),
    {
        Style { underline: true, ..self }
    }

    /// Whether the style has a background color.
    pub fn has_background(&self) -> (b: bool)
        ensures
            b == self.bg.is_some(),
    {
        self.bg.is_some()
    }
}

impl Default for Style {
    fn default() -> (s: Style)
        ensures
            s == plain_style(),
    {
        Style::new()
    }
}

} // verus!

verus! {

/// The two digits of the SGR code that selects `color` as the foreground.
pub open spec fn fg_code(color: Color) -> Seq<char> {
    match color {
        Color::Black => seq!['3', '0'],
        Color::Red => seq!['3', '1'],
        Color::Green => seq!['3', '2'],
        Color::Yellow => seq!['3', '3'],
        Color::Blue => seq!['3', '4'],
        Color::Magenta => seq!['3', '5'],
        Color::Cyan => seq!['3', '6'],
        Color::White => seq!['3', '7'],
        Color::BrightBlack => seq!['9', '0'],
        Color::BrightRed => seq!['9', '1'],
        Color::BrightGreen => seq!['9', '2'],
        Color::BrightYellow => seq!['9', '3'],
        Color::BrightBlue => seq!['9', '4'],
        Color::BrightMagenta => seq!['9', '5'],
        Color::BrightCyan => seq!['9', '6'],
        Color::BrightWhite => seq!['9', '7'],
    }
}

/// The SGR code that selects `color` as the background.
pub open spec fn bg_code(color: Color) -> Seq<char> {
    match color {
        Color::Black => seq!['4', '0'],
        Color::Red => seq!['4', '1'],
        Color::Green => seq!['4', '2'],
        Color::Yellow => seq!['4', '3'],
        Color::Blue => seq!['4', '4'],
        Color::Magenta => seq!['4', '5'],
        Color::Cyan => seq!['4', '6'],
        Color::White => seq!['4', '7'],
        Color::BrightBlack => seq!['1', '0', '0'],
        Color::BrightRed => seq!['1', '0', '1'],
        Color::BrightGreen => seq!['1', '0', '2'],
        Color::BrightYellow => seq!['1', '0', '3'],
        Color::BrightBlue => seq!['1', '0', '4'],
        Color::BrightMagenta => seq!['1', '0', '5'],
        Color::BrightCyan => seq!['1', '0', '6'],
        Color::BrightWhite => seq!['1', '0', '7'],
    }
}

/// The SGR parameters of a style, in the order a terminal receives them:
/// attributes first, then background, then foreground.
pub open spec fn sgr_codes(s: Style) -> Seq<Seq<char>> {
    let a = if s.bold { seq![seq!['1']] } else { Seq::empty() };
    let b = if s.faint { seq![seq!['2']] } else { Seq::empty() };
    let c = if s.italic { seq![seq!['3']] } else { Seq::empty() };
    let d = if s.underline { seq![seq!['4']] } else { Seq::empty() };
    let e = match s.bg { Some(col) => seq![bg_code(col)], None => Seq::empty() };
    let f = match s.fg { Some(col) => seq![fg_code(col)], None => Seq::empty() };
    a + b + c + d + e + f
}

/// The parameters joined by `;`.
pub open spec fn join_codes(codes: Seq<Seq<char>>) -> Seq<char>
    decreases codes.len(),
{
    if codes.len() == 0 {
        Seq::empty()
    } else if codes.len() == 1 {
        codes[0]
    } else {
        join_codes(codes.drop_last()) + seq![';'] + codes.last()
    }
}

/// The ANSI escape sequence that switches a terminal to `s`: empty for the
/// plain style, otherwise `ESC [ codes m`.
pub open spec fn ansi_prefix(s: Style) -> Seq<char> {
    let codes = sgr_codes(s);
    if codes.len() == 0 {
        Seq::empty()
    } else {
        seq!['\x1b', '['] + join_codes(codes) + seq!['m']
    }
}

/// Every character is an ASCII digit.
pub open spec fn all_digits(c: Seq<char>) -> bool {
    forall|i: int| 0 <= i < c.len() ==> '0' <= #[trigger] c[i] <= '9'
}

/// Every character is an ASCII digit or `;`.
pub open spec fn sgr_params(c: Seq<char>) -> bool {
    forall|i: int| 0 <= i < c.len() ==> ('0' <= #[trigger] c[i] <= '9' || c[i] == ';')
}

/// `p` is empty or one escape sequence `ESC [ params m` whose parameters
/// are digits and `;`.
pub open spec fn sgr_like(p: Seq<char>) -> bool {
    p.len() == 0 || {
        &&& p.len() >= 3
        &&& p[0] == '\x1b'
        &&& p[1] == '['
        &&& p[p.len() - 1] == 'm'
        &&& sgr_params(p.subrange(2, p.len() - 1))
    }
}

proof fn lemma_color_codes(c: Color)
    ensures
        all_digits(fg_code(c)),
        all_digits(bg_code(c)),
{
    match c {
        Color::Black => {},
        Color::Red => {},
        Color::Green => {},
        Color::Yellow => {},
        Color::Blue => {},
        Color::Magenta => {},
        Color::Cyan => {},
        Color::White => {},
        Color::BrightBlack => {},
        Color::BrightRed => {},
        Color::BrightGreen => {},
        Color::BrightYellow => {},
        Color::BrightBlue => {},
        Color::BrightMagenta => {},
        Color::BrightCyan => {},
        Color::BrightWhite => {},
    }
}

proof fn lemma_join_params(codes: Seq<Seq<char>>)
    requires
        forall|k: int| 0 <= k < codes.len() ==> all_digits(#[trigger] codes[k]),
    ensures
        sgr_params(join_codes(codes)),
    decreases codes.len(),
{
    if codes.len() == 1 {
        assert(all_digits(codes[0]));
    } else if codes.len() > 1 {
        lemma_join_params(codes.drop_last());
        let a = join_codes(codes.drop_last());
        let j = a + seq![';'] + codes.last();
        assert(all_digits(codes[codes.len() - 1]));
        assert forall|i: int| 0 <= i < j.len() implies ('0' <= #[trigger] j[i] <= '9' || j[i] == ';') by {
            if i < a.len() {
                assert(j[i] == a[i]);
            } else if i > a.len() {
                assert(j[i] == codes.last()[i - a.len() - 1]);
            }
        }
    }
}

/// Every code of `cs` is all digits.
pub open spec fn codes_digits(cs: Seq<Seq<char>>) -> bool {
    forall|k: int| 0 <= k < cs.len() ==> all_digits(#[trigger] cs[k])
}

proof fn lemma_codes_cat(x: Seq<Seq<char>>, y: Seq<Seq<char>>)
    requires
        codes_digits(x),
        codes_digits(y),
    ensures
        codes_digits(x + y),
{
    assert forall|k: int| 0 <= k < (x + y).len() implies all_digits(#[trigger] (x + y)[k]) by {
        if k < x.len() {
            assert((x + y)[k] == x[k]);
        } else {
            assert((x + y)[k] == y[k - x.len()]);
        }
    }
}

proof fn lemma_single_code(c: Seq<char>)
    requires
        all_digits(c),
    ensures
        codes_digits(seq![c]),
{
    assert(seq![c][0] == c);
}

/// Every style's prefix has the shape of one escape sequence.
pub proof fn lemma_prefix_sgr(s: Style)
    ensures
        sgr_like(ansi_prefix(s)),
{
    let a = if s.bold { seq![seq!['1']] } else { Seq::<Seq<char>>::empty() };
    let b = if s.faint { seq![seq!['2']] } else { Seq::<Seq<char>>::empty() };
    let c = if s.italic { seq![seq!['3']] } else { Seq::<Seq<char>>::empty() };
    let d = if s.underline { seq![seq!['4']] } else { Seq::<Seq<char>>::empty() };
    let e = match s.bg { Some(col) => seq![bg_code(col)], None => Seq::<Seq<char>>::empty() };
    let f = match s.fg { Some(col) => seq![fg_code(col)], None => Seq::<Seq<char>>::empty() };
    assert(all_digits(seq!['1']) && all_digits(seq!['2']) && all_digits(seq!['3']) && all_digits(seq!['4']));
    lemma_single_code(seq!['1']);
    lemma_single_code(seq!['2']);
    lemma_single_code(seq!['3']);
    lemma_single_code(seq!['4']);
    match s.bg {
        Some(col) => {
            lemma_color_codes(col);
            lemma_single_code(bg_code(col));
        },
        None => {},
    }
    match s.fg {
        Some(col) => {
            lemma_color_codes(col);
            lemma_single_code(fg_code(col));
        },
        None => {},
    }
    lemma_codes_cat(a, b);
    lemma_codes_cat(a + b, c);
    lemma_codes_cat(a + b + c, d);
    lemma_codes_cat(a + b + c + d, e);
    lemma_codes_cat(a + b + c + d + e, f);
    let codes = sgr_codes(s);
    assert(codes == a + b + c + d + e + f);
    if codes.len() > 0 {
        lemma_join_params(codes);
        let p = ansi_prefix(s);
        let j = join_codes(codes);
        assert(p.subrange(2, p.len() - 1) =~= j);
    }
}

/// The escape sequence that resets all styling.
pub open spec fn reset_code() -> Seq<char> {
    seq!['\x1b', '[', '0', 'm']
}

fn fg_code_str(color: Color) -> (r: &'static str)
    ensures
        r@ == fg_code(color),
{
    match color {
        Color::Black => { proof { reveal_strlit("30"); } "30" },
        Color::Red => { proof { reveal_strlit("31"); } "31" },
        Color::Green => { proof { reveal_strlit("32"); } "32" },
        Color::Yellow => { proof { reveal_strlit("33"); } "33" },
        Color::Blue => { proof { reveal_strlit("34"); } "34" },
        Color::Magenta => { proof { reveal_strlit("35"); } "35" },
        Color::Cyan => { proof { reveal_strlit("36"); } "36" },
        Color::White => { proof { reveal_strlit("37"); } "37" },
        Color::BrightBlack => { proof { reveal_strlit("90"); } "90" },
        Color::BrightRed => { proof { reveal_strlit("91"); } "91" },
        Color::BrightGreen => { proof { reveal_strlit("92"); } "92" },
        Color::BrightYellow => { proof { reveal_strlit("93"); } "93" },
        Color::BrightBlue => { proof { reveal_strlit("94"); } "94" },
        Color::BrightMagenta => { proof { reveal_strlit("95"); } "95" },
        Color::BrightCyan => { proof { reveal_strlit("96"); } "96" },
        Color::BrightWhite => { proof { reveal_strlit("97"); } "97" },
    }
}

fn bg_code_str(color: Color) -> (r: &'static str)
    ensures
        r@ == bg_code(color),
{
    match color {
        Color::Black => { proof { reveal_strlit("40"); } "40" },
        Color::Red => { proof { reveal_strlit("41"); } "41" },
        Color::Green => { proof { reveal_strlit("42"); } "42" },
        Color::Yellow => { proof { reveal_strlit("43"); } "43" },
        Color::Blue => { proof { reveal_strlit("44"); } "44" },
        Color::Magenta => { proof { reveal_strlit("45"); } "45" },
        Color::Cyan => { proof { reveal_strlit("46"); } "46" },
        Color::White => { proof { reveal_strlit("47"); } "47" },
        Color::BrightBlack => { proof { reveal_strlit("100"); } "100" },
        Color::BrightRed => { proof { reveal_strlit("101"); } "101" },
        Color::BrightGreen => { proof { reveal_strlit("102"); } "102" },
        Color::BrightYellow => { proof { reveal_strlit("103"); } "103" },
        Color::BrightBlue => { proof { reveal_strlit("104"); } "104" },
        Color::BrightMagenta => { proof { reveal_strlit("105"); } "105" },
        Color::BrightCyan => { proof { reveal_strlit("106"); } "106" },
        Color::BrightWhite => { proof { reveal_strlit("107"); } "107" },
    }
}

/// Appends `code` to `out`, preceded by `;` unless it is the first code.
fn push_code(out: &mut String, codes: Ghost<Seq<Seq<char>>>, first: bool, code: &str)
    requires
        first == (codes@.len() == 0),
        old(out)@ == seq!['\x1b', '['] + join_codes(codes@),
    ensures
        final(out)@ == seq!['\x1b', '['] + join_codes(codes@.push(code@)),
{
    let ghost cs = codes@.push(code@);
    assert(cs.drop_last() =~= codes@);
    if !first {
        proof { reveal_strlit(";"); }
        out.append(";");
    }
    out.append(code);
    if first {
        assert(join_codes(cs) =~= code@);
    }
}

impl Style {
    /// The escape sequence that switches a terminal to this style.
    #[verifier::rlimit(60)]
    pub fn prefix(&self) -> (p: String)
        ensures
            p@ == ansi_prefix(*self),
    {
        let s = *self;
        let mut out = String::new();
        proof { reveal_strlit("\x1b["); }
        out.append("\x1b[");
        let ghost mut codes: Seq<Seq<char>> = Seq::empty();
        let mut first = true;
        assert(out@ =~= seq!['\x1b', '['] + join_codes(codes));
        if s.bold {
            proof { reveal_strlit("1"); assert("1"@ =~= seq!['1']); }
            push_code(&mut out, Ghost(codes), first, "1");
            first = false;
            proof { codes = codes.push(seq!['1']); }
        }
        if s.faint {
            proof { reveal_strlit("2"); assert("2"@ =~= seq!['2']); }
            push_code(&mut out, Ghost(codes), first, "2");
            first = false;
            proof { codes = codes.push(seq!['2']); }
        }
        if s.italic {
            proof { reveal_strlit("3"); assert("3"@ =~= seq!['3']); }
            push_code(&mut out, Ghost(codes), first, "3");
            first = false;
            proof { codes = codes.push(seq!['3']); }
        }
        if s.underline {
            proof { reveal_strlit("4"); assert("4"@ =~= seq!['4']); }
            push_code(&mut out, Ghost(codes), first, "4");
            first = false;
            proof { codes = codes.push(seq!['4']); }
        }
        if let Some(c) = s.bg {
            push_code(&mut out, Ghost(codes), first, bg_code_str(c));
            first = false;
            proof { codes = codes.push(bg_code(c)); }
        }
        if let Some(c) = s.fg {
            push_code(&mut out, Ghost(codes), first, fg_code_str(c));
            proof { codes = codes.push(fg_code(c)); }
        }
        assert(codes =~= sgr_codes(s));
        if !s.bold && !s.faint && !s.italic && !s.underline && s.bg.is_none() && s.fg.is_none() {
            assert(!s.bold && !s.faint && !s.italic && !s.underline && s.bg.is_none() && s.fg.is_none());
            String::new()
        } else {
            proof { reveal_strlit("m"); }
            out.append("m");
            out
        }
    }
}

} // verus!
