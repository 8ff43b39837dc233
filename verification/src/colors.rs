//! Color and emphasis names of the theme file, read case-insensitively;
//! an unknown name reads as `Unset`.
use vstd::prelude::*;
use crate::text::{bytes_of, input_bytes};

verus! {

/// Foreground colors.
#[derive(Debug, Clone, Copy, PartialEq, Eq, Structural)]
pub enum Fg {
    Red,
    Green,
    Blue,
    Yellow,
    White,
    Unset,
}

/// Background colors.
#[derive(Debug, Clone, Copy, PartialEq, Eq, Structural)]
pub enum Bg {
    Red,
    Green,
    Blue,
    Yellow,
    White,
    Unset,
}

/// Text emphasis.
#[derive(Debug, Clone, Copy, PartialEq, Eq, Structural)]
pub enum Style {
    Bold,
    Italic,
    Faint,
    Unset,
}

impl Default for Fg {
    fn default() -> (r: Self)
        ensures
            r == Fg::Unset,
    {
        Fg::Unset
    }
}

impl Default for Bg {
    fn default() -> (r: Self)
        ensures
            r == Bg::Unset,
    {
        Bg::Unset
    }
}

impl Default for Style {
    fn default() -> (r: Self)
        ensures
            r == Style::Unset,
    {
        Style::Unset
    }
}

/// `c` with an ASCII capital turned into its small letter.
pub open spec fn ascii_lower(c: u8) -> u8 {
    if 0x41 <= c <= 0x5a { (c + 0x20) as u8 } else { c }
}

/// `t`, lowercased as ASCII, equals `word`.
pub open spec fn names(t: Seq<u8>, word: Seq<u8>) -> bool {
    t.len() == word.len() && forall|i: int| 0 <= i < t.len() ==> ascii_lower(#[trigger] t[i]) == word[i]
}

/// Whether `t`, lowercased as ASCII, equals `word`.
fn is_name(t: &[u8], word: &[u8]) -> (r: bool)
    ensures
        r == names(t@, word@),
{
    if t.len() != word.len() {
        return false;
    }
    let mut i: usize = 0;
    while i < t.len()
        invariant
            t@.len() == word@.len(),
            i <= t@.len(),
            forall|j: int| 0 <= j < i ==> ascii_lower(#[trigger] t@[j]) == word@[j],
        decreases t@.len() - i,
    {
        let c = t[i];
        let lower = if c >= 0x41 && c <= 0x5a { c + 0x20 } else { c };
        if lower != word[i] {
            assert(ascii_lower(t@[i as int]) != word@[i as int]);
            return false;
        }
        i = i + 1;
    }
    true
}

/// The foreground color a theme names.
pub open spec fn fg_named(t: Seq<u8>) -> Fg {
    if names(t, bytes_of("red")) {
        Fg::Red
    } else if names(t, bytes_of("green")) {
        Fg::Green
    } else if names(t, bytes_of("blue")) {
        Fg::Blue
    } else if names(t, bytes_of("yellow")) {
        Fg::Yellow
    } else if names(t, bytes_of("white")) {
        Fg::White
    } else {
        Fg::Unset
    }
}

/// The background color a theme names.
pub open spec fn bg_named(t: Seq<u8>) -> Bg {
    if names(t, bytes_of("red")) {
        Bg::Red
    } else if names(t, bytes_of("green")) {
        Bg::Green
    } else if names(t, bytes_of("blue")) {
        Bg::Blue
    } else if names(t, bytes_of("yellow")) {
        Bg::Yellow
    } else if names(t, bytes_of("white")) {
        Bg::White
    } else {
        Bg::Unset
    }
}

/// The emphasis a theme names.
pub open spec fn style_named(t: Seq<u8>) -> Style {
    if names(t, bytes_of("bold")) {
        Style::Bold
    } else if names(t, bytes_of("faint")) {
        Style::Faint
    } else if names(t, bytes_of("italic")) {
        Style::Italic
    } else {
        Style::Unset
    }
}

impl Fg {
    /// Reads a foreground color name.
    pub fn parse(s: &str) -> (r: Fg)
        ensures
            r == fg_named(bytes_of(s)),
    {
        let t = input_bytes(s);
        if is_name(t, input_bytes("red")) {
            Fg::Red
        } else if is_name(t, input_bytes("green")) {
            Fg::Green
        } else if is_name(t, input_bytes("blue")) {
            Fg::Blue
        } else if is_name(t, input_bytes("yellow")) {
            Fg::Yellow
        } else if is_name(t, input_bytes("white")) {
            Fg::White
        } else {
            Fg::Unset
        }
    }
}

impl Bg {
    /// Reads a background color name.
    pub fn parse(s: &str) -> (r: Bg)
        ensures
            r == bg_named(bytes_of(s)),
    {
        let t = input_bytes(s);
        if is_name(t, input_bytes("red")) {
            Bg::Red
        } else if is_name(t, input_bytes("green")) {
            Bg::Green
        } else if is_name(t, input_bytes("blue")) {
            Bg::Blue
        } else if is_name(t, input_bytes("yellow")) {
            Bg::Yellow
        } else if is_name(t, input_bytes("white")) {
            Bg::White
        } else {
            Bg::Unset
        }
    }
}

impl Style {
    /// Reads an emphasis name.
    pub fn parse(s: &str) -> (r: Style)
        ensures
            r == style_named(bytes_of(s)),
    {
        let t = input_bytes(s);
        if is_name(t, input_bytes("bold")) {
            Style::Bold
        } else if is_name(t, input_bytes("faint")) {
            Style::Faint
        } else if is_name(t, input_bytes("italic")) {
            Style::Italic
        } else {
            Style::Unset
        }
    }
}

impl std::str::FromStr for Fg {
    type Err = ();

    fn from_str(s: &str) -> (r: Result<Fg, ()>)
        ensures
            r == Ok::<Fg, ()>(fg_named(bytes_of(s))),
    {
        Ok(Fg::parse(s))
    }
}

impl std::str::FromStr for Bg {
    type Err = ();

    fn from_str(s: &str) -> (r: Result<Bg, ()>)
        ensures
            r == Ok::<Bg, ()>(bg_named(bytes_of(s))),
    {
        Ok(Bg::parse(s))
    }
}

impl std::str::FromStr for Style {
    type Err = ();

    fn from_str(s: &str) -> (r: Result<Style, ()>)
        ensures
            r == Ok::<Style, ()>(style_named(bytes_of(s))),
    {
        Ok(Style::parse(s))
    }
}

} // verus!
