use std::borrow::Cow;
use tailspin::config::{KeywordConfig, NumberConfig, QuoteConfig, RegexConfig};
use tailspin::finders::keyword::KeywordFinder;
use tailspin::finders::number::NumberFinder;
use tailspin::finders::quote::QuoteFinder;
use tailspin::palette::Palette;
use tailspin::pipeline::{Finder, Pipeline};
use tailspin::style::{Color, Style};
use tailspin::{Highlighter, HighlighterError};

fn code_name(code: &str) -> String {
    let name = match code {
        "0" => "reset",
        "1" => "bold",
        "2" => "faint",
        "3" => "italic",
        "4" => "underline",
        "30" => "black",
        "31" => "red",
        "32" => "green",
        "33" => "yellow",
        "34" => "blue",
        "35" => "magenta",
        "36" => "cyan",
        "37" => "white",
        "40" => "bg_black",
        "41" => "bg_red",
        "42" => "bg_green",
        "43" => "bg_yellow",
        "44" => "bg_blue",
        "45" => "bg_magenta",
        "46" => "bg_cyan",
        "47" => "bg_white",
        other => other,
    };
    format!("[{name}]")
}

/// Replaces each ANSI escape sequence with readable names such as `[red]`.
fn convert_escape_codes(s: &str) -> String {
    let mut out = String::new();
    let mut rest = s;
    while let Some(pos) = rest.find("\x1b[") {
        out.push_str(&rest[..pos]);
        let after = &rest[pos + 2..];
        match after.find('m') {
            Some(end) => {
                for code in after[..end].split(';') {
                    out.push_str(&code_name(code));
                }
                rest = &after[end + 1..];
            }
            None => {
                out.push_str(&rest[pos..]);
                rest = "";
            }
        }
    }
    out.push_str(rest);
    out
}

fn kw(words: &[&str], style: Style) -> KeywordConfig {
    KeywordConfig { words: words.iter().map(|w| w.to_string()).collect(), style }
}

fn number(palette: &mut Palette) -> Finder {
    Finder::Number(NumberFinder::new(NumberConfig { style: Style::new().fg(Color::Cyan) }, palette))
}

fn quote(palette: &mut Palette) -> Finder {
    Finder::Quote(QuoteFinder::new(QuoteConfig { quote_token: b'"', style: Style::new().fg(Color::Yellow) }, palette))
}

fn keyword(words: &[&str], style: Style, palette: &mut Palette) -> Finder {
    Finder::Keyword(KeywordFinder::new(&[kw(words, style)], palette).unwrap())
}

fn number_pipeline() -> Pipeline {
    let mut palette = Palette::new();
    let finders = vec![number(&mut palette)];
    Pipeline::new(finders, palette)
}

fn number_quote_pipeline() -> Pipeline {
    let mut palette = Palette::new();
    let finders = vec![number(&mut palette), quote(&mut palette)];
    Pipeline::new(finders, palette)
}

#[test]
fn end_to_end_number_highlighter() {
    let result = number_pipeline().apply_sequential("hello 42 world");
    assert_eq!(convert_escape_codes(&result), "hello [cyan]42[reset] world");
}

#[test]
fn no_match_returns_borrowed() {
    let result = number_pipeline().apply_sequential("no numbers here");
    assert!(matches!(result, Cow::Borrowed(_)));
}

#[test]
fn number_plus_quote_priority() {
    let result = number_quote_pipeline().apply_sequential(r#"count is "value 42 here" end"#);
    assert_eq!(
        convert_escape_codes(&result),
        r#"count is [yellow]"value [reset][cyan]42[reset][yellow] here"[reset] end"#
    );
}

#[test]
fn multiple_numbers_inside_quotes() {
    let result = number_quote_pipeline().apply_sequential(r#""port 8080 and 443""#);
    assert_eq!(
        convert_escape_codes(&result),
        r#"[yellow]"port [reset][cyan]8080[reset][yellow] and [reset][cyan]443[reset][yellow]"[reset]"#
    );
}

#[test]
fn no_quotes_only_numbers() {
    let result = number_quote_pipeline().apply_sequential("status 200 ok");
    assert_eq!(convert_escape_codes(&result), "status [cyan]200[reset] ok");
}

#[test]
fn keyword_with_background_gets_padding() {
    let mut palette = Palette::new();
    let finders = vec![keyword(&["ERROR"], Style::new().on(Color::Red), &mut palette)];
    let result = Pipeline::new(finders, palette).apply_sequential("level ERROR here");
    assert_eq!(convert_escape_codes(&result), "level [bg_red] ERROR [reset] here");
}

#[test]
fn keyword_without_background_no_padding() {
    let mut palette = Palette::new();
    let finders = vec![keyword(&["ERROR"], Style::new().fg(Color::Red), &mut palette)];
    let result = Pipeline::new(finders, palette).apply_sequential("level ERROR here");
    assert_eq!(convert_escape_codes(&result), "level [red]ERROR[reset] here");
}

#[test]
fn multiple_keyword_groups_padding_out_of_position_order() {
    let mut palette = Palette::new();
    let finders = vec![
        keyword(&["ERROR"], Style::new().on(Color::Red), &mut palette),
        keyword(&["WARN"], Style::new().on(Color::Yellow), &mut palette),
    ];
    let result = Pipeline::new(finders, palette).apply_sequential("WARN then ERROR");
    assert_eq!(convert_escape_codes(&result), "[bg_yellow] WARN [reset] then [bg_red] ERROR [reset]");
}

#[test]
fn three_keyword_groups_padding_interleaved() {
    let mut palette = Palette::new();
    let finders = vec![
        keyword(&["TRACE"], Style::new().on(Color::Blue), &mut palette),
        keyword(&["WARN"], Style::new().on(Color::Yellow), &mut palette),
        keyword(&["DEBUG"], Style::new().on(Color::Cyan), &mut palette),
    ];
    let result = Pipeline::new(finders, palette).apply_sequential("DEBUG WARN TRACE");
    assert_eq!(
        convert_escape_codes(&result),
        "[bg_cyan] DEBUG [reset] [bg_yellow] WARN [reset] [bg_blue] TRACE [reset]"
    );
}

#[test]
fn empty_input_returns_borrowed() {
    let mut palette = Palette::new();
    let finders = vec![
        number(&mut palette),
        keyword(&["ERROR"], Style::new().on(Color::Red), &mut palette),
        quote(&mut palette),
    ];
    let result = Pipeline::new(finders, palette).apply_sequential("");
    assert!(matches!(result, Cow::Borrowed(_)));
    assert_eq!(&*result, "");
}

#[test]
fn three_finders_overlapping_same_region() {
    let mut palette = Palette::new();
    let finders = vec![
        number(&mut palette),
        keyword(&["200"], Style::new().fg(Color::Green), &mut palette),
        quote(&mut palette),
    ];
    let result = Pipeline::new(finders, palette).apply_sequential(r#""status 200 ok""#);
    assert_eq!(convert_escape_codes(&result), r#"[yellow]"status [reset][cyan]200[reset][yellow] ok"[reset]"#);
}

#[test]
fn multibyte_utf8_with_numbers() {
    let result = number_pipeline().apply_sequential("café 42 résumé");
    assert_eq!(convert_escape_codes(&result), "café [cyan]42[reset] résumé");
}

#[test]
fn multibyte_utf8_with_quotes() {
    let result = number_quote_pipeline().apply_sequential(r#"日本語 "hello 42" 世界"#);
    assert_eq!(convert_escape_codes(&result), r#"日本語 [yellow]"hello [reset][cyan]42[reset][yellow]"[reset] 世界"#);
}

#[test]
fn keyword_badge_is_entire_input() {
    let mut palette = Palette::new();
    let finders = vec![keyword(&["ERROR"], Style::new().on(Color::Red), &mut palette)];
    let result = Pipeline::new(finders, palette).apply_sequential("ERROR");
    assert_eq!(convert_escape_codes(&result), "[bg_red] ERROR [reset]");
}

#[test]
fn ansi_input_passes_through() {
    let result = number_pipeline().apply_sequential("\x1b[31mhello\x1b[0m 42");
    assert!(convert_escape_codes(&result).contains("[cyan]42[reset]"));
}

fn number_then_quote_highlighter() -> Highlighter {
    Highlighter::builder()
        .with_number_highlighter(NumberConfig { style: Style::new().fg(Color::Cyan) })
        .with_quote_highlighter(QuoteConfig { quote_token: b'"', style: Style::new().fg(Color::Yellow) })
        .build()
        .unwrap()
}

#[test]
fn test_quote_highlights_around_existing_number() {
    let actual = number_then_quote_highlighter().apply(r#"count is "value 42 here" end"#);
    assert_eq!(convert_escape_codes(&actual), r#"count is [yellow]"value [reset][cyan]42[reset][yellow] here"[reset] end"#);
}

#[test]
fn test_quote_with_no_highlights_inside() {
    let actual = number_then_quote_highlighter().apply(r#"msg "hello world" end"#);
    assert_eq!(convert_escape_codes(&actual), r#"msg [yellow]"hello world"[reset] end"#);
}

#[test]
fn test_number_outside_quotes_unaffected() {
    let actual = number_then_quote_highlighter().apply(r#"code 200 "error" end"#);
    assert_eq!(convert_escape_codes(&actual), r#"code [cyan]200[reset] [yellow]"error"[reset] end"#);
}

#[test]
fn test_multiple_numbers_inside_quotes() {
    let actual = number_then_quote_highlighter().apply(r#""port 8080 and 443""#);
    assert_eq!(
        convert_escape_codes(&actual),
        r#"[yellow]"port [reset][cyan]8080[reset][yellow] and [reset][cyan]443[reset][yellow]"[reset]"#
    );
}

#[test]
fn test_multiple_quoted_segments() {
    let actual = number_then_quote_highlighter().apply(r#""count 1" and "count 2""#);
    assert_eq!(
        convert_escape_codes(&actual),
        r#"[yellow]"count [reset][cyan]1[reset][yellow]"[reset] and [yellow]"count [reset][cyan]2[reset][yellow]"[reset]"#
    );
}

#[test]
fn test_no_quotes_only_numbers() {
    let actual = number_then_quote_highlighter().apply("status 200 ok");
    assert_eq!(convert_escape_codes(&actual), "status [cyan]200[reset] ok");
}

#[test]
fn invalid_regex_fails_build_and_first_error_wins() {
    let result = Highlighter::builder()
        .with_regex_highlighter(RegexConfig { regex: "(unclosed".to_string(), style: Style::default() })
        .with_keyword_highlighter(vec![kw(&["ok"], Style::default())])
        .build();
    assert!(matches!(result, Err(HighlighterError::Regex(_))));
}
