//! The settings of the theme file: a style per highlighter group and the
//! keyword lists.
use vstd::prelude::*;
use crate::colors::{Fg, Bg};

verus! {

/// A style as the theme file writes it.
#[derive(Debug, Clone, Copy, PartialEq, Eq, Structural)]
pub struct Style {
    pub fg: Fg,
    pub bg: Bg,
    pub bold: bool,
    pub faint: bool,
    pub italic: bool,
    pub underline: bool,
}

impl Default for Style {
    fn default() -> (s: Self)
        ensures
            s == (Style { fg: Fg::Unset, bg: Bg::Unset, bold: false, faint: false, italic: false, underline: false }),
    {
        Style { fg: Fg::Unset, bg: Bg::Unset, bold: false, faint: false, italic: false, underline: false }
    }
}

/// Words highlighted with one style.
#[derive(Debug, Clone, PartialEq, Eq)]
pub struct Keyword {
    pub style: Style,
    pub words: Vec<String>,
}

/// Styles of UUID segments and separators.
#[derive(Debug, Clone, Copy, PartialEq, Eq, Structural)]
pub struct Uuid {
    pub segment: Style,
    pub separator: Style,
}

/// Styles of IP address segments and separators.
#[derive(Debug, Clone, Copy, PartialEq, Eq, Structural)]
pub struct Ip {
    pub segment: Style,
    pub separator: Style,
}

/// Styles of path segments and separators.
#[derive(Debug, Clone, Copy, PartialEq, Eq, Structural)]
pub struct FilePath {
    pub segment: Style,
    pub separator: Style,
}

/// The style of dates.
#[derive(Debug, Clone, Copy, PartialEq, Eq, Structural)]
pub struct Date {
    pub style: Style,
}

/// The style of numbers.
#[derive(Debug, Clone, Copy, PartialEq, Eq, Structural)]
pub struct Number {
    pub style: Style,
}

/// The style of quoted text and the quote character.
#[derive(Debug, Clone, Copy, PartialEq, Eq, Structural)]
pub struct Quotes {
    pub style: Style,
    pub token: char,
}

/// The quote character when the theme names none.
pub fn default_quotes_token() -> (c: char)
    ensures
        c == '"',
{
    '"'
}

/// Styles of the parts of URLs.
#[derive(Debug, Clone, Copy, PartialEq, Eq, Structural)]
pub struct Url {
    pub http: Style,
    pub https: Style,
    pub host: Style,
    pub path: Style,
    pub query_params_key: Style,
    pub query_params_value: Style,
    pub symbols: Style,
}

/// The configured groups; an absent group is not highlighted.
#[derive(Debug, Clone, PartialEq, Eq)]
pub struct Groups {
    pub date: Option<Date>,
    pub number: Option<Number>,
    pub quotes: Option<Quotes>,
    pub uuid: Option<Uuid>,
    pub url: Option<Url>,
    pub ip: Option<Ip>,
    pub path: Option<FilePath>,
    pub keywords: Option<Vec<Keyword>>,
}

/// A theme file.
#[derive(Debug, Clone, PartialEq, Eq)]
pub struct Config {
    pub groups: Groups,
}

} // verus!
