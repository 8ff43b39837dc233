use std::borrow::Cow;
use tailspin::config::{EmailConfig, IpV4Config, KeyValueConfig, QuoteConfig, RegexConfig, UnixProcessConfig, UrlConfig};
use tailspin::style::{Color, Style};
use tailspin::Highlighter;

fn code_name(code: &str) -> String {
    let name = match code {
        "0" => "reset",
        "1" => "bold",
        "2" => "faint",
        "3" => "italic",
        "4" => "underline",
        "30" => "black",
        "31" => "red",
        "32" => "green",
        "33" => "yellow",
        "34" => "blue",
        "35" => "magenta",
        "36" => "cyan",
        "37" => "white",
        "40" => "bg_black",
        "41" => "bg_red",
        "42" => "bg_green",
        "43" => "bg_yellow",
        "44" => "bg_blue",
        "45" => "bg_magenta",
        "46" => "bg_cyan",
        "47" => "bg_white",
        other => other,
    };
    format!("[{name}]")
}

/// Replaces each ANSI escape sequence with readable names such as `[red]`.
fn convert_escape_codes(s: &str) -> String {
    let mut out = String::new();
    let mut rest = s;
    while let Some(pos) = rest.find("\x1b[") {
        out.push_str(&rest[..pos]);
        let after = &rest[pos + 2..];
        match after.find('m') {
            Some(end) => {
                for code in after[..end].split(';') {
                    out.push_str(&code_name(code));
                }
                rest = &after[end + 1..];
            }
            None => {
                out.push_str(&rest[pos..]);
                rest = "";
            }
        }
    }
    out.push_str(rest);
    out
}

trait ConvertEscapeCodes {
    fn convert_escape_codes(self) -> String;
}

impl ConvertEscapeCodes for String {
    fn convert_escape_codes(self) -> String {
        convert_escape_codes(&self)
    }
}

fn email() -> Highlighter {
    Highlighter::builder()
        .with_email_highlighter(EmailConfig {
            local_part: Style::new().fg(Color::Green),
            at_sign: Style::new().fg(Color::Red),
            domain: Style::new().fg(Color::Blue),
            dot: Style::new().fg(Color::Yellow),
        })
        .build()
        .unwrap()
}

#[test]
fn test_simple_email() {
    let highlighter = email();
    let input = "Contact user@example.com for help";
    let expected =
        "Contact [green]user[reset][red]@[reset][blue]example[reset][yellow].[reset][blue]com[reset] for help";
    let actual = highlighter.apply(input);
    assert_eq!(expected, actual.to_string().convert_escape_codes());
}

#[test]
fn test_email_with_plus_and_dots() {
    let highlighter = email();
    let input = "first.last+tag@sub.domain.co.uk";
    let expected = "[green]first.last+tag[reset][red]@[reset][blue]sub[reset][yellow].[reset][blue]domain[reset][yellow].[reset][blue]co[reset][yellow].[reset][blue]uk[reset]";
    let actual = highlighter.apply(input);
    assert_eq!(expected, actual.to_string().convert_escape_codes());
}

#[test]
fn test_no_email() {
    let highlighter = email();
    let input = "No email here!";
    let actual = highlighter.apply(input);
    assert!(matches!(actual, Cow::Borrowed(_)));
    assert_eq!("No email here!", actual.as_ref());
}

#[test]
fn test_multiple_emails() {
    let highlighter = email();
    let input = "From alice@a.com to bob@b.org";
    let actual = highlighter.apply(input);
    let result = actual.to_string().convert_escape_codes();
    assert!(result.contains("[green]alice[reset]"));
    assert!(result.contains("[green]bob[reset]"));
}

fn ipv4() -> Highlighter {
    Highlighter::builder()
        .with_ip_v4_highlighter(IpV4Config { number: Style::new().fg(Color::Blue), separator: Style::new().fg(Color::Red) })
        .build()
        .unwrap()
}

#[test]
fn test_ipv4_highlighter_valid() {
    let h = ipv4();
    let cases = vec![
        (
            "10.0.0.123",
            "[blue]10[reset][red].[reset][blue]0[reset][red].[reset][blue]0[reset][red].[reset][blue]123[reset]",
        ),
        (
            "192.168.0.1/24",
            "[blue]192[reset][red].[reset][blue]168[reset][red].[reset][blue]0[reset][red].[reset][blue]1[reset][red]/[reset][blue]24[reset]",
        ),
        (
            "0.0.0.0",
            "[blue]0[reset][red].[reset][blue]0[reset][red].[reset][blue]0[reset][red].[reset][blue]0[reset]",
        ),
    ];
    for (input, expect) in cases {
        let actual = h.apply(input);
        assert_eq!(expect, actual.to_string().convert_escape_codes());
    }
}

#[test]
fn test_ipv4_highlighter_invalid_octet_or_mask() {
    let h = ipv4();
    let cases = vec![
        ("256.1.1.1", "256.1.1.1"),
        ("999.999.999.999", "999.999.999.999"),
        ("192.168.0.1/33", "192.168.0.1/33"),
        ("1.2.3", "1.2.3"),
    ];
    for (input, expect) in cases {
        let actual = h.apply(input);
        assert_eq!(expect, actual);
    }
}

#[test]
fn key_value_test_number_highlighter() {
    let highlighter = Highlighter::builder()
        .with_key_value_highlighter(KeyValueConfig { key: Style::new().fg(Color::Red), separator: Style::new().fg(Color::Yellow) })
        .build()
        .unwrap();
    let cases = vec![("Entry key=value", "Entry [red]key[reset][yellow]=[reset]value"), ("No numbers here!", "No numbers here!")];
    for (input, expected) in cases {
        let actual = highlighter.apply(input);
        assert_eq!(expected, actual.to_string().convert_escape_codes());
    }
}

fn quote() -> Highlighter {
    Highlighter::builder()
        .with_quote_highlighter(QuoteConfig { quote_token: b'"', style: Style::new().fg(Color::Yellow) })
        .build()
        .unwrap()
}

#[test]
fn test_multiple() {
    let highlighter = quote();
    let cases = vec![
        (r#"Lorem ipsum "dolor" sit amet"#, r#"Lorem ipsum [yellow]"dolor"[reset] sit amet"#),
        (
            r#"Lorem ipsum dolor sit amet, consectetur adipiscing elit"#,
            r#"Lorem ipsum dolor sit amet, consectetur adipiscing elit"#,
        ),
    ];
    for (input, expected) in cases {
        let actual = highlighter.apply(input);
        assert_eq!(expected, actual.to_string().convert_escape_codes());
    }
}

#[test]
fn test_odd_number_of_highlight_tokens() {
    let highlighter = quote();
    let input = r#"Hello "abc def ghi World"#;
    let expected = r#"Hello "abc def ghi World"#;
    let actual = highlighter.apply(input);
    assert_eq!(actual.to_string().convert_escape_codes(), expected);
}

#[test]
fn test_no_highlights_inside_quotes() {
    let highlighter = quote();
    let input = r#"Hello "plain text" world"#;
    let expected = r#"Hello [yellow]"plain text"[reset] world"#;
    let actual = highlighter.apply(input);
    assert_eq!(actual.to_string().convert_escape_codes(), expected);
}

#[test]
fn test_empty_quoted_string() {
    let highlighter = quote();
    let input = r#"before "" after"#;
    let expected = r#"before [yellow]""[reset] after"#;
    let actual = highlighter.apply(input);
    assert_eq!(actual.to_string().convert_escape_codes(), expected);
}

#[test]
fn test_optional_capture_group_not_participating() {
    let highlighter = Highlighter::builder()
        .with_regex_highlighter(RegexConfig { regex: r"(error)?warning".to_string(), style: Style::new().fg(Color::Red) })
        .build()
        .unwrap();
    let result = highlighter.apply("got a warning here");
    let readable = result.to_string().convert_escape_codes();
    assert_eq!(readable, "got a [red]warning[reset] here");
    let result = highlighter.apply("got a errorwarning here");
    let readable = result.to_string().convert_escape_codes();
    assert_eq!(readable, "got a [red]error[reset]warning here");
}

#[test]
fn test_unix_process_highlighter() {
    let highlighter = Highlighter::builder()
        .with_unix_process_highlighter(UnixProcessConfig {
            name: Style::new().fg(Color::Magenta),
            id: Style::new().fg(Color::Green),
            bracket: Style::new().fg(Color::Blue),
        })
        .build()
        .unwrap();
    let cases = vec![
        ("process[1]", "[magenta]process[reset][blue][[reset][green]1[reset][blue]][reset]"),
        (
            "postfix/postscreen[1894]: CONNECT from [192.168.1.22]:12345 to [127.0.0.1]:25",
            "[magenta]postfix/postscreen[reset][blue][[reset][green]1894[reset][blue]][reset]: CONNECT from [192.168.1.22]:12345 to [127.0.0.1]:25",
        ),
        ("No process here!", "No process here!"),
    ];
    for (input, expected) in cases {
        let actual = highlighter.apply(input);
        assert_eq!(expected, actual.to_string().convert_escape_codes());
    }
}

fn url() -> Highlighter {
    Highlighter::builder()
        .with_url_highlighter(UrlConfig {
            http: Style::new().fg(Color::Yellow),
            https: Style::new().fg(Color::White),
            host: Style::new().fg(Color::Green),
            path: Style::new().fg(Color::Blue),
            query_params_key: Style::new().fg(Color::Magenta),
            query_params_value: Style::new().fg(Color::Cyan),
            symbols: Style::new().fg(Color::Red),
        })
        .build()
        .unwrap()
}

#[test]
fn test_url_highlighter() {
    let highlighter = url();
    let cases = vec![
        (
            "https://www.openai.com/docs/api?apikey=abc123",
            "[white]https[reset]://[green]www.openai.com[reset][blue]/docs/api[reset][red]?[reset][magenta]apikey[reset][red]=[reset][cyan]abc123[reset]",
        ),
        (
            "https://api.example.org/api/v1/users?name=JohnDoe",
            "[white]https[reset]://[green]api.example.org[reset][blue]/api/v1/users[reset][red]?[reset][magenta]name[reset][red]=[reset][cyan]JohnDoe[reset]",
        ),
        (
            "http://example.com/path/to/resource?param1=value1&param2=value2",
            "[yellow]http[reset]://[green]example.com[reset][blue]/path/to/resource[reset][red]?[reset][magenta]param1[reset][red]=[reset][cyan]value1[reset][red]&[reset][magenta]param2[reset][red]=[reset][cyan]value2[reset]",
        ),
    ];
    for (input, expected) in cases {
        let actual = highlighter.apply(input);
        assert_eq!(expected, actual.to_string().convert_escape_codes());
    }
}

#[test]
fn test_url_with_balanced_parens_in_path() {
    let input = "https://en.wikipedia.org/wiki/Foo_(bar)";
    let expected = "[white]https[reset]://[green]en.wikipedia.org[reset][blue]/wiki/Foo_(bar)[reset]";
    assert_eq!(expected, url().apply(input).to_string().convert_escape_codes());
}

#[test]
fn test_url_wrapped_in_parens() {
    let input = "(https://example.com/path)";
    let expected = "([white]https[reset]://[green]example.com[reset][blue]/path[reset])";
    assert_eq!(expected, url().apply(input).to_string().convert_escape_codes());
}

#[test]
fn test_url_with_balanced_parens_wrapped_in_parens() {
    let input = "(https://en.wikipedia.org/wiki/Foo_(bar))";
    let expected = "([white]https[reset]://[green]en.wikipedia.org[reset][blue]/wiki/Foo_(bar)[reset])";
    assert_eq!(expected, url().apply(input).to_string().convert_escape_codes());
}

#[test]
fn test_url_with_query_wrapped_in_parens() {
    let input = "(https://example.com/path?key=value)";
    let expected = "([white]https[reset]://[green]example.com[reset][blue]/path[reset][red]?[reset][magenta]key[reset][red]=[reset][cyan]value[reset])";
    assert_eq!(expected, url().apply(input).to_string().convert_escape_codes());
}

#[test]
fn test_url_not_wrapped_no_parens() {
    let input = "https://example.com/path";
    let expected = "[white]https[reset]://[green]example.com[reset][blue]/path[reset]";
    assert_eq!(expected, url().apply(input).to_string().convert_escape_codes());
}

#[test]
fn test_url_single_quote_not_included() {
    let input = "'https://example.com/path'";
    let expected = "'[white]https[reset]://[green]example.com[reset][blue]/path[reset]'";
    assert_eq!(expected, url().apply(input).to_string().convert_escape_codes());
}

#[test]
fn test_url_with_nested_parens_in_path() {
    let input = "https://en.wikipedia.org/wiki/Foo_(bar_(baz))";
    let expected = "[white]https[reset]://[green]en.wikipedia.org[reset][blue]/wiki/Foo_(bar_(baz))[reset]";
    assert_eq!(expected, url().apply(input).to_string().convert_escape_codes());
}
