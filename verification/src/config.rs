use vstd::prelude::*;
use crate::style::{Color, Style};

verus! {

/// Configuration for highlighting numeric values.
#[derive(Debug, Clone, Copy, PartialEq, Eq, Structural)]
pub struct NumberConfig {
    /// Style applied to numbers.
    pub style: Style,
}

/// The default `NumberConfig`.
pub open spec fn default_number() -> NumberConfig {
    NumberConfig {
        style: (Style { fg: Some(Color::Cyan), bg: None, bold: false, faint: false, italic: false, underline: false }),
    }
}

impl Default for NumberConfig {
    fn default() -> (c: Self)
        ensures
            c == default_number(),
    {
        NumberConfig {
            style: Style::new().fg(Color::Cyan),
        }
    }
}

/// Configuration for highlighting UUIDs.
#[derive(Debug, Clone, Copy, PartialEq, Eq, Structural)]
pub struct UuidConfig {
    /// Style applied to numeric characters.
    pub number: Style,
    /// Style applied to alphabetic characters.
    pub letter: Style,
    /// Style applied to dashes.
    pub separator: Style,
}

/// The default `UuidConfig`.
pub open spec fn default_uuid() -> UuidConfig {
    UuidConfig {
        number: (Style { fg: Some(Color::Blue), bg: None, bold: false, faint: false, italic: true, underline: false }),
        letter: (Style { fg: Some(Color::Magenta), bg: None, bold: false, faint: false, italic: true, underline: false }),
        separator: (Style { fg: Some(Color::Red), bg: None, bold: false, faint: false, italic: false, underline: false }),
    }
}

impl Default for UuidConfig {
    fn default() -> (c: Self)
        ensures
            c == default_uuid(),
    {
        UuidConfig {
            number: Style::new().fg(Color::Blue).italic(),
            letter: Style::new().fg(Color::Magenta).italic(),
            separator: Style::new().fg(Color::Red),
        }
    }
}

/// Configuration for highlighting key-value pairs.
#[derive(Debug, Clone, Copy, PartialEq, Eq, Structural)]
pub struct KeyValueConfig {
    /// Style for the key portion.
    pub key: Style,
    /// Style for the separator between key and value.
    pub separator: Style,
}

/// The default `KeyValueConfig`.
pub open spec fn default_key_value() -> KeyValueConfig {
    KeyValueConfig {
        key: (Style { fg: None, bg: None, bold: false, faint: true, italic: false, underline: false }),
        separator: (Style { fg: Some(Color::White), bg: None, bold: false, faint: false, italic: false, underline: false }),
    }
}

impl Default for KeyValueConfig {
    fn default() -> (c: Self)
        ensures
            c == default_key_value(),
    {
        KeyValueConfig {
            key: Style::new().faint(),
            separator: Style::new().fg(Color::White),
        }
    }
}

/// Configuration for highlighting dates and times.
#[derive(Debug, Clone, Copy, PartialEq, Eq, Structural)]
pub struct DateTimeConfig {
    /// Style for dates.
    pub date: Style,
    /// Style for times.
    pub time: Style,
    /// Style for time zone indicators.
    pub zone: Style,
    /// Style for separators.
    pub separator: Style,
}

/// The default `DateTimeConfig`.
pub open spec fn default_date_time() -> DateTimeConfig {
    DateTimeConfig {
        date: (Style { fg: Some(Color::Magenta), bg: None, bold: false, faint: false, italic: false, underline: false }),
        time: (Style { fg: Some(Color::Blue), bg: None, bold: false, faint: false, italic: false, underline: false }),
        zone: (Style { fg: Some(Color::Red), bg: None, bold: false, faint: false, italic: false, underline: false }),
        separator: (Style { fg: None, bg: None, bold: false, faint: true, italic: false, underline: false }),
    }
}

impl Default for DateTimeConfig {
    fn default() -> (c: Self)
        ensures
            c == default_date_time(),
    {
        DateTimeConfig {
            date: Style::new().fg(Color::Magenta),
            time: Style::new().fg(Color::Blue),
            zone: Style::new().fg(Color::Red),
            separator: Style::new().faint(),
        }
    }
}

/// Configuration for highlighting IPv4 addresses.
#[derive(Debug, Clone, Copy, PartialEq, Eq, Structural)]
pub struct IpV4Config {
    /// Style for numeric segments.
    pub number: Style,
    /// Style for dots and the mask slash.
    pub separator: Style,
}

/// The default `IpV4Config`.
pub open spec fn default_ip_v4() -> IpV4Config {
    IpV4Config {
        number: (Style { fg: Some(Color::Blue), bg: None, bold: false, faint: false, italic: true, underline: false }),
        separator: (Style { fg: Some(Color::Red), bg: None, bold: false, faint: false, italic: false, underline: false }),
    }
}

impl Default for IpV4Config {
    fn default() -> (c: Self)
        ensures
            c == default_ip_v4(),
    {
        IpV4Config {
            number: Style::new().fg(Color::Blue).italic(),
            separator: Style::new().fg(Color::Red),
        }
    }
}

/// Configuration for highlighting IPv6 addresses.
#[derive(Debug, Clone, Copy, PartialEq, Eq, Structural)]
pub struct IpV6Config {
    /// Style for digits.
    pub number: Style,
    /// Style for hex letters.
    pub letter: Style,
    /// Style for separators.
    pub separator: Style,
}

/// The default `IpV6Config`.
pub open spec fn default_ip_v6() -> IpV6Config {
    IpV6Config {
        number: (Style { fg: Some(Color::Blue), bg: None, bold: false, faint: false, italic: true, underline: false }),
        letter: (Style { fg: Some(Color::Magenta), bg: None, bold: false, faint: false, italic: true, underline: false }),
        separator: (Style { fg: Some(Color::Red), bg: None, bold: false, faint: false, italic: false, underline: false }),
    }
}

impl Default for IpV6Config {
    fn default() -> (c: Self)
        ensures
            c == default_ip_v6(),
    {
        IpV6Config {
            number: Style::new().fg(Color::Blue).italic(),
            letter: Style::new().fg(Color::Magenta).italic(),
            separator: Style::new().fg(Color::Red),
        }
    }
}

/// Configuration for highlighting URLs.
#[derive(Debug, Clone, Copy, PartialEq, Eq, Structural)]
pub struct UrlConfig {
    /// Style for the `http` scheme.
    pub http: Style,
    /// Style for the `https` scheme.
    pub https: Style,
    /// Style for the host and port.
    pub host: Style,
    /// Style for the path.
    pub path: Style,
    /// Style for query keys.
    pub query_params_key: Style,
    /// Style for query values.
    pub query_params_value: Style,
    /// Style for URL symbols.
    pub symbols: Style,
}

/// The default `UrlConfig`.
pub open spec fn default_url() -> UrlConfig {
    UrlConfig {
        http: (Style { fg: Some(Color::Red), bg: None, bold: false, faint: true, italic: false, underline: false }),
        https: (Style { fg: Some(Color::Green), bg: None, bold: false, faint: true, italic: false, underline: false }),
        host: (Style { fg: Some(Color::Blue), bg: None, bold: false, faint: true, italic: false, underline: false }),
        path: (Style { fg: Some(Color::Blue), bg: None, bold: false, faint: false, italic: false, underline: false }),
        query_params_key: (Style { fg: Some(Color::Magenta), bg: None, bold: false, faint: false, italic: false, underline: false }),
        query_params_value: (Style { fg: Some(Color::Cyan), bg: None, bold: false, faint: false, italic: false, underline: false }),
        symbols: (Style { fg: Some(Color::Red), bg: None, bold: false, faint: false, italic: false, underline: false }),
    }
}

impl Default for UrlConfig {
    fn default() -> (c: Self)
        ensures
            c == default_url(),
    {
        UrlConfig {
            http: Style::new().fg(Color::Red).faint(),
            https: Style::new().fg(Color::Green).faint(),
            host: Style::new().fg(Color::Blue).faint(),
            path: Style::new().fg(Color::Blue),
            query_params_key: Style::new().fg(Color::Magenta),
            query_params_value: Style::new().fg(Color::Cyan),
            symbols: Style::new().fg(Color::Red),
        }
    }
}

/// Configuration for highlighting Unix file paths.
#[derive(Debug, Clone, Copy, PartialEq, Eq, Structural)]
pub struct UnixPathConfig {
    /// Style for path segments.
    pub segment: Style,
    /// Style for path separators.
    pub separator: Style,
}

/// The default `UnixPathConfig`.
pub open spec fn default_unix_path() -> UnixPathConfig {
    UnixPathConfig {
        segment: (Style { fg: Some(Color::Green), bg: None, bold: false, faint: false, italic: false, underline: false }),
        separator: (Style { fg: Some(Color::Yellow), bg: None, bold: false, faint: false, italic: false, underline: false }),
    }
}

impl Default for UnixPathConfig {
    fn default() -> (c: Self)
        ensures
            c == default_unix_path(),
    {
        UnixPathConfig {
            segment: Style::new().fg(Color::Green),
            separator: Style::new().fg(Color::Yellow),
        }
    }
}

/// Configuration for highlighting memory pointers.
#[derive(Debug, Clone, Copy, PartialEq, Eq, Structural)]
pub struct PointerConfig {
    /// Style for digits.
    pub number: Style,
    /// Style for hex letters.
    pub letter: Style,
    /// Style for the `x` of `0x`.
    pub x: Style,
}

/// The default `PointerConfig`.
pub open spec fn default_pointer() -> PointerConfig {
    PointerConfig {
        number: (Style { fg: Some(Color::Blue), bg: None, bold: false, faint: false, italic: true, underline: false }),
        letter: (Style { fg: Some(Color::Magenta), bg: None, bold: false, faint: false, italic: true, underline: false }),
        x: (Style { fg: Some(Color::Red), bg: None, bold: false, faint: false, italic: false, underline: false }),
    }
}

impl Default for PointerConfig {
    fn default() -> (c: Self)
        ensures
            c == default_pointer(),
    {
        PointerConfig {
            number: Style::new().fg(Color::Blue).italic(),
            letter: Style::new().fg(Color::Magenta).italic(),
            x: Style::new().fg(Color::Red),
        }
    }
}

/// Configuration for highlighting Unix processes.
#[derive(Debug, Clone, Copy, PartialEq, Eq, Structural)]
pub struct UnixProcessConfig {
    /// Style for the process name.
    pub name: Style,
    /// Style for the process id.
    pub id: Style,
    /// Style for the brackets.
    pub bracket: Style,
}

/// The default `UnixProcessConfig`.
pub open spec fn default_unix_process() -> UnixProcessConfig {
    UnixProcessConfig {
        name: (Style { fg: Some(Color::Yellow), bg: None, bold: false, faint: false, italic: false, underline: false }),
        id: (Style { fg: Some(Color::Cyan), bg: None, bold: false, faint: false, italic: false, underline: false }),
        bracket: (Style { fg: Some(Color::Red), bg: None, bold: false, faint: false, italic: false, underline: false }),
    }
}

impl Default for UnixProcessConfig {
    fn default() -> (c: Self)
        ensures
            c == default_unix_process(),
    {
        UnixProcessConfig {
            name: Style::new().fg(Color::Yellow),
            id: Style::new().fg(Color::Cyan),
            bracket: Style::new().fg(Color::Red),
        }
    }
}

/// Configuration for highlighting JSON.
#[derive(Debug, Clone, Copy, PartialEq, Eq, Structural)]
pub struct JsonConfig {
    /// Style for keys.
    pub key: Style,
    /// Style for quotation marks.
    pub quote_token: Style,
    /// Style for curly brackets.
    pub curly_bracket: Style,
    /// Style for square brackets.
    pub square_bracket: Style,
    /// Style for commas.
    pub comma: Style,
    /// Style for colons.
    pub colon: Style,
}

/// The default `JsonConfig`.
pub open spec fn default_json() -> JsonConfig {
    JsonConfig {
        key: (Style { fg: Some(Color::Yellow), bg: None, bold: false, faint: false, italic: false, underline: false }),
        quote_token: (Style { fg: Some(Color::Yellow), bg: None, bold: false, faint: true, italic: false, underline: false }),
        curly_bracket: (Style { fg: None, bg: None, bold: false, faint: true, italic: false, underline: false }),
        square_bracket: (Style { fg: None, bg: None, bold: false, faint: true, italic: false, underline: false }),
        comma: (Style { fg: None, bg: None, bold: false, faint: true, italic: false, underline: false }),
        colon: (Style { fg: None, bg: None, bold: false, faint: true, italic: false, underline: false }),
    }
}

impl Default for JsonConfig {
    fn default() -> (c: Self)
        ensures
            c == default_json(),
    {
        JsonConfig {
            key: Style::new().fg(Color::Yellow),
            quote_token: Style::new().fg(Color::Yellow).faint(),
            curly_bracket: Style::new().faint(),
            square_bracket: Style::new().faint(),
            comma: Style::new().faint(),
            colon: Style::new().faint(),
        }
    }
}

/// Configuration for highlighting email addresses.
#[derive(Debug, Clone, Copy, PartialEq, Eq, Structural)]
pub struct EmailConfig {
    /// Style for the part before `@`.
    pub local_part: Style,
    /// Style for `@`.
    pub at_sign: Style,
    /// Style for domain labels.
    pub domain: Style,
    /// Style for the dots of the domain.
    pub dot: Style,
}

/// The default `EmailConfig`.
pub open spec fn default_email() -> EmailConfig {
    EmailConfig {
        local_part: (Style { fg: Some(Color::Green), bg: None, bold: false, faint: false, italic: false, underline: false }),
        at_sign: (Style { fg: Some(Color::Red), bg: None, bold: false, faint: false, italic: false, underline: false }),
        domain: (Style { fg: Some(Color::Blue), bg: None, bold: false, faint: false, italic: false, underline: false }),
        dot: (Style { fg: Some(Color::Red), bg: None, bold: false, faint: false, italic: false, underline: false }),
    }
}

impl Default for EmailConfig {
    fn default() -> (c: Self)
        ensures
            c == default_email(),
    {
        EmailConfig {
            local_part: Style::new().fg(Color::Green),
            at_sign: Style::new().fg(Color::Red),
            domain: Style::new().fg(Color::Blue),
            dot: Style::new().fg(Color::Red),
        }
    }
}

/// Configuration for highlighting durations.
#[derive(Debug, Clone, Copy, PartialEq, Eq, Structural)]
pub struct DurationConfig {
    /// Style for the number.
    pub value: Style,
    /// Style for the decimal point.
    pub separator: Style,
    /// Style for the unit.
    pub unit: Style,
}

/// The default `DurationConfig`.
pub open spec fn default_duration() -> DurationConfig {
    DurationConfig {
        value: (Style { fg: Some(Color::Cyan), bg: None, bold: false, faint: false, italic: false, underline: false }),
        separator: (Style { fg: None, bg: None, bold: false, faint: true, italic: false, underline: false }),
        unit: (Style { fg: Some(Color::Magenta), bg: None, bold: false, faint: false, italic: false, underline: false }),
    }
}

impl Default for DurationConfig {
    fn default() -> (c: Self)
        ensures
            c == default_duration(),
    {
        DurationConfig {
            value: Style::new().fg(Color::Cyan),
            separator: Style::new().faint(),
            unit: Style::new().fg(Color::Magenta),
        }
    }
}

/// Configuration for highlighting JVM stack traces.
#[derive(Debug, Clone, Copy, PartialEq, Eq, Structural)]
pub struct JvmStackTraceConfig {
    /// Style for `Caused by:` and `Suppressed:` markers.
    pub caused_by: Style,
    /// Style for the package of an exception.
    pub package: Style,
    /// Style for the exception class.
    pub exception: Style,
    /// Style for frame punctuation.
    pub frame: Style,
    /// Style for source files.
    pub file: Style,
    /// Style for unknown sources.
    pub unknown_source: Style,
    /// Style for line numbers.
    pub line_number: Style,
}

/// The default `JvmStackTraceConfig`.
pub open spec fn default_jvm_stack_trace() -> JvmStackTraceConfig {
    JvmStackTraceConfig {
        caused_by: (Style { fg: Some(Color::Red), bg: None, bold: true, faint: false, italic: false, underline: false }),
        package: (Style { fg: Some(Color::Cyan), bg: None, bold: false, faint: false, italic: false, underline: false }),
        exception: (Style { fg: Some(Color::Red), bg: None, bold: false, faint: false, italic: false, underline: false }),
        frame: (Style { fg: None, bg: None, bold: false, faint: true, italic: false, underline: false }),
        file: (Style { fg: Some(Color::Blue), bg: None, bold: false, faint: false, italic: false, underline: false }),
        unknown_source: (Style { fg: Some(Color::Yellow), bg: None, bold: false, faint: false, italic: false, underline: false }),
        line_number: (Style { fg: Some(Color::Magenta), bg: None, bold: false, faint: false, italic: false, underline: false }),
    }
}

impl Default for JvmStackTraceConfig {
    fn default() -> (c: Self)
        ensures
            c == default_jvm_stack_trace(),
    {
        JvmStackTraceConfig {
            caused_by: Style::new().fg(Color::Red).bold(),
            package: Style::new().fg(Color::Cyan),
            exception: Style::new().fg(Color::Red),
            frame: Style::new().faint(),
            file: Style::new().fg(Color::Blue),
            unknown_source: Style::new().fg(Color::Yellow),
            line_number: Style::new().fg(Color::Magenta),
        }
    }
}

/// Configuration for highlighting quoted text.
#[derive(Debug, Clone, Copy, PartialEq, Eq, Structural)]
pub struct QuoteConfig {
    /// The quote byte.
    pub quote_token: u8,
    /// Style applied to quoted regions.
    pub style: Style,
}

/// The default `QuoteConfig`.
pub open spec fn default_quote() -> QuoteConfig {
    QuoteConfig {
        quote_token: 0x22u8,
        style: (Style { fg: Some(Color::Yellow), bg: None, bold: false, faint: false, italic: false, underline: false }),
    }
}

impl Default for QuoteConfig {
    fn default() -> (c: Self)
        ensures
            c == default_quote(),
    {
        QuoteConfig { quote_token: 0x22u8, style: Style::new().fg(Color::Yellow) }
    }
}

/// Configuration for highlighting quoted text, with the quote as a
/// character.
#[derive(Debug, Clone, Copy, PartialEq, Eq, Structural)]
pub struct QuotesConfig {
    /// Character used as quote delimiter.
    pub quotes_token: char,
    /// Style applied to quoted text.
    pub style: Style,
}

impl Default for QuotesConfig {
    fn default() -> (c: Self)
        ensures
            c.quotes_token == '"',
            c.style == (Style { fg: Some(Color::Yellow), bg: None, bold: false, faint: false, italic: false, underline: false }),
    {
        QuotesConfig { quotes_token: '"', style: Style::new().fg(Color::Yellow) }
    }
}

/// Configuration for highlighting keywords.
#[derive(Debug, Clone, PartialEq, Eq)]
pub struct KeywordConfig {
    /// The words to highlight.
    pub words: Vec<String>,
    /// Style applied to the words.
    pub style: Style,
}

/// Configuration for highlighting matches of a custom regular expression.
#[derive(Debug, Clone, PartialEq, Eq)]
pub struct RegexConfig {
    /// The pattern.
    pub regex: String,
    /// Style applied to matches.
    pub style: Style,
}

} // verus!
