use std::borrow::Cow;
use tailspin::cli::{parse_highlight, Base, BaseSet, Extra};
use tailspin::cli_highlighter::{build_highlighter, collect_keywords, run_fits, try_build_highlighter, Theme};
use tailspin::colors::{Bg, Fg, Style as Emphasis};
use tailspin::config::{
    DateTimeConfig, DurationConfig, EmailConfig, IpV6Config, JsonConfig, JvmStackTraceConfig, KeyValueConfig,
    KeywordConfig, NumberConfig, PointerConfig, QuoteConfig, QuotesConfig, RegexConfig, UnixPathConfig,
    UnixProcessConfig, UrlConfig, UuidConfig,
};
use tailspin::config_parser::{Keyword, Style as ThemeStyle};
use tailspin::config_util::flatten_keywords;
use tailspin::controller::{
    create_config, get_input, get_output, should_follow, Files, Input, Output, PathAndLineCount, PathFacts, GENERAL_ERROR,
    MISUSE_SHELL_BUILTIN,
};
use tailspin::finders::numeric::parse_u8;
use tailspin::finders::url::count_unbalanced_trailing_parens;
use tailspin::finders::user_regex::RegexFinder;
use tailspin::io_config::{
    get_io_config, get_source, get_target, split_custom_pager_command, ConfigError, IoArgs, PathStatus, Source, Target,
};
use tailspin::palette::{styles_fit, Palette};
use tailspin::style::{Color, Style};
use tailspin::{Highlighter, HighlighterError};

fn readable(s: &str) -> String {
    s.replace("\x1b[0m", "[reset]")
        .replace("\x1b[31m", "[red]")
        .replace("\x1b[32m", "[green]")
        .replace("\x1b[33m", "[yellow]")
        .replace("\x1b[34m", "[blue]")
        .replace("\x1b[36m", "[cyan]")
}

fn theme() -> Theme {
    Theme {
        keywords: vec![],
        regexes: vec![],
        numbers: NumberConfig::default(),
        uuids: UuidConfig::default(),
        quotes: QuoteConfig::default(),
        ip_addresses: IpV6Config::default(),
        dates: DateTimeConfig::default(),
        durations: DurationConfig::default(),
        paths: UnixPathConfig::default(),
        urls: UrlConfig::default(),
        emails: EmailConfig::default(),
        pointers: PointerConfig::default(),
        processes: UnixProcessConfig::default(),
        key_value_pairs: KeyValueConfig::default(),
        json: JsonConfig::default(),
        jvm_stack_traces: JvmStackTraceConfig::default(),
    }
}

fn kw(words: &[&str], style: Style) -> KeywordConfig {
    KeywordConfig { words: words.iter().map(|s| s.to_string()).collect(), style }
}

fn args() -> IoArgs {
    IoArgs { file_path: None, command: None, to_stdout: false, follow: false, pager: None }
}

#[test]
fn test_count_unbalanced_trailing_parens() {
    let count = |s: &str| count_unbalanced_trailing_parens(s.as_bytes(), 0, s.len());
    assert_eq!(count("no parens"), 0);
    assert_eq!(count("/wiki/Foo_(bar)"), 0);
    assert_eq!(count("https://example.com)"), 1);
    assert_eq!(count("https://example.com))"), 2);
    assert_eq!(count("/wiki/Foo_(bar))"), 1);
    assert_eq!(count("/a_(b)_(c))"), 1);
}

#[test]
fn only_the_numbers_group_highlights_numbers() {
    let base = BaseSet::resolve(&[Base::Numbers], &[]).unwrap();
    let keywords = collect_keywords(vec![], &[]);
    let h = build_highlighter(&base, &[], theme(), keywords).unwrap();
    assert_eq!(readable(&h.apply("took 42 \"ms\"")), "took [cyan]42[reset] \"ms\"");
}

#[test]
fn highlight_words_from_the_command_line_are_styled_with_their_color() {
    let base = BaseSet::resolve(&[Base::Keywords], &[]).unwrap();
    let words = parse_highlight("red:ERROR,fail").unwrap();
    let keywords = collect_keywords(vec![], &[words]);
    let h = build_highlighter(&base, &[], theme(), keywords).unwrap();
    assert_eq!(readable(&h.apply("an ERROR: fail")), "an [red]ERROR[reset]: [red]fail[reset]");
}

#[test]
fn command_line_words_override_theme_keywords() {
    let theme_keywords = vec![kw(&["GET", "POST"], Style::new().fg(Color::Blue))];
    let words = parse_highlight("green:GET").unwrap();
    let keywords = collect_keywords(theme_keywords, &[words]);
    assert_eq!(
        keywords,
        vec![kw(&["POST"], Style::new().fg(Color::Blue)), kw(&["GET"], Style::new().fg(Color::Green))]
    );
}

#[test]
fn theme_regex_takes_precedence_over_numbers() {
    let base = BaseSet::resolve(&[Base::Numbers], &[]).unwrap();
    let mut t = theme();
    t.regexes = vec![RegexConfig { regex: "4\\d".to_string(), style: Style::new().fg(Color::Red) }];
    let h = build_highlighter(&base, &[], t, vec![]).unwrap();
    assert_eq!(readable(&h.apply("x 42 7")), "x [red]42[reset] [cyan]7[reset]");
}

#[test]
fn a_bad_theme_regex_fails_with_a_regex_error() {
    let base = BaseSet::resolve(&[], &[]).unwrap();
    let mut t = theme();
    t.regexes = vec![
        RegexConfig { regex: "ok".to_string(), style: Style::default() },
        RegexConfig { regex: "[unclosed".to_string(), style: Style::default() },
    ];
    let result = build_highlighter(&base, &[Extra::Ipv6], t, vec![]);
    assert!(matches!(result, Err(HighlighterError::Regex(_))));
}

#[test]
fn nothing_matched_comes_back_borrowed() {
    let base = BaseSet::resolve(&[Base::Numbers, Base::Quotes], &[]).unwrap();
    let h = build_highlighter(&base, &[Extra::JvmStackTrace], theme(), vec![]).unwrap();
    assert!(matches!(h.apply("no digits here"), Cow::Borrowed(_)));
}

#[test]
fn the_default_highlighter_styles_numbers() {
    let h = Highlighter::default();
    assert_eq!(readable(&h.apply("hello 42 world")), "hello [cyan]42[reset] world");
}

#[test]
fn earlier_finder_wins_an_overlap() {
    let h = Highlighter::builder()
        .with_quote_highlighter(QuoteConfig::default())
        .with_number_highlighter(NumberConfig::default())
        .build()
        .unwrap();
    assert_eq!(readable(&h.apply("a \"1\" 2")), "a [yellow]\"1\"[reset] [cyan]2[reset]");
}

#[test]
fn user_regex_rejects_an_unclosed_group() {
    let mut palette = Palette::new();
    assert!(RegexFinder::new("(abc", Style::default(), &mut palette).is_err());
    assert!(RegexFinder::new("(abc)", Style::default(), &mut palette).is_ok());
}

#[test]
fn parse_u8_reads_like_str_parse() {
    let read = |s: &str| parse_u8(s.as_bytes(), 0, s.len());
    assert_eq!(read("255"), Some(255));
    assert_eq!(read("007"), Some(7));
    assert_eq!(read("+9"), Some(9));
    assert_eq!(read("256"), None);
    assert_eq!(read(""), None);
    assert_eq!(read("+"), None);
    assert_eq!(read("1a"), None);
}

#[test]
fn theme_color_names_are_case_insensitive() {
    assert_eq!(Fg::parse("RED"), Fg::Red);
    assert_eq!(Bg::parse("Blue"), Bg::Blue);
    assert_eq!(Emphasis::parse("italic"), Emphasis::Italic);
    assert_eq!(Fg::parse("purple"), Fg::Unset);
}

#[test]
fn quotes_config_defaults_to_double_quotes_in_yellow() {
    let c = QuotesConfig::default();
    assert_eq!(c.quotes_token, '"');
    assert_eq!(c.style, Style::new().fg(Color::Yellow));
}

#[test]
fn flatten_keywords_gives_one_entry_per_word() {
    let red = ThemeStyle { fg: Fg::Red, ..ThemeStyle::default() };
    let flat = flatten_keywords(vec![
        Keyword { style: red, words: vec!["a".to_string(), "b".to_string()] },
        Keyword { style: ThemeStyle::default(), words: vec!["c".to_string()] },
    ]);
    let got: Vec<(String, ThemeStyle)> = flat.into_iter().map(|f| (f.keyword, f.style)).collect();
    assert_eq!(
        got,
        vec![("a".to_string(), red), ("b".to_string(), red), ("c".to_string(), ThemeStyle::default())]
    );
}

#[test]
fn source_without_any_input_is_missing_a_filename() {
    assert!(matches!(get_source(&args(), false, PathStatus::Missing), Err(ConfigError::MissingFilename)));
}

#[test]
fn source_with_file_and_command_is_an_error() {
    let a = IoArgs { file_path: Some("f.log".to_string()), command: Some("ls".to_string()), ..args() };
    assert!(matches!(
        get_source(&a, false, PathStatus::File),
        Err(ConfigError::CannotReadBothFileAndListenCommand)
    ));
}

#[test]
fn source_reports_what_was_found_at_the_path() {
    let a = IoArgs { file_path: Some("f.log".to_string()), ..args() };
    match get_source(&a, false, PathStatus::Missing) {
        Err(ConfigError::NoSuchFileOrDirectory(p)) => assert_eq!(p, "\x1b[33mf.log\x1b[0m"),
        other => panic!("unexpected {other:?}"),
    }
    assert!(matches!(get_source(&a, false, PathStatus::NotAFile), Err(ConfigError::PathNotFile)));
    match get_source(&a, false, PathStatus::Unreadable("denied".to_string())) {
        Err(ConfigError::Io(m)) => assert_eq!(m, "denied"),
        other => panic!("unexpected {other:?}"),
    }
    let printing = IoArgs { to_stdout: true, ..a.clone() };
    match get_source(&printing, true, PathStatus::File) {
        Ok(Source::File(f)) => {
            assert_eq!(f.path, "f.log");
            assert!(f.terminate_after_first_read);
        }
        other => panic!("unexpected {other:?}"),
    }
}

#[test]
fn source_prefers_stdin_over_a_command() {
    let a = IoArgs { command: Some("ls".to_string()), ..args() };
    assert_eq!(get_source(&a, true, PathStatus::Missing).unwrap(), Source::Stdin);
    assert_eq!(get_source(&a, false, PathStatus::Missing).unwrap(), Source::Command("ls".to_string()));
}

#[test]
fn target_is_stdout_for_stdin_and_less_otherwise() {
    assert!(matches!(get_target(&args(), &Source::Stdin), Ok(Target::Stdout)));
    let command = IoArgs { command: Some("ls".to_string()), ..args() };
    match get_target(&command, &Source::Command("ls".to_string())) {
        Ok(Target::Less(o)) => assert!(o.follow),
        other => panic!("unexpected {other:?}"),
    }
}

#[test]
fn custom_pager_is_split_into_command_and_arguments() {
    let a = IoArgs { pager: Some("less -R '+F x'".to_string()), ..args() };
    let file = Source::File(tailspin::io_config::FileInfo { path: "f".to_string(), terminate_after_first_read: false });
    match get_target(&a, &file) {
        Ok(Target::CustomPager(o)) => {
            assert_eq!(o.command, "less");
            assert_eq!(o.args, vec!["-R".to_string(), "+F x".to_string()]);
        }
        other => panic!("unexpected {other:?}"),
    }
}

#[test]
fn pager_without_arguments_or_with_an_open_quote_is_refused() {
    assert!(matches!(split_custom_pager_command("less"), Err(ConfigError::CouldNotParseCustomPagerCommand)));
    assert!(matches!(
        split_custom_pager_command("less 'open"),
        Err(ConfigError::CouldNotParseCustomPagerCommand)
    ));
}

#[test]
fn listening_to_a_command_always_follows() {
    assert!(should_follow(false, true));
    assert!(should_follow(true, false));
    assert!(!should_follow(false, false));
}

#[test]
fn output_is_stdout_for_stdin_or_printing() {
    assert_eq!(get_output(true, false), Output::Stdout);
    assert_eq!(get_output(false, true), Output::Stdout);
    assert_eq!(get_output(false, false), Output::TempFile);
}

#[test]
fn input_errors_carry_their_exit_codes() {
    let missing = get_input(None, None, false, PathFacts::Inaccessible).unwrap_err();
    assert_eq!(missing.exit_code, GENERAL_ERROR);
    assert_eq!(missing.message, "Missing filename (`spin --help` for help) ");
    let both = get_input(Some("f".to_string()), None, true, PathFacts::File(3)).unwrap_err();
    assert_eq!(both.exit_code, MISUSE_SHELL_BUILTIN);
    let other = get_input(Some("f".to_string()), None, false, PathFacts::Other).unwrap_err();
    assert_eq!(other.message, "Path is neither a file nor a directory");
    let inaccessible = get_input(Some("f".to_string()), None, false, PathFacts::Inaccessible).unwrap_err();
    assert_eq!(inaccessible.message, "Failed to access path metadata");
}

#[test]
fn input_is_the_file_folder_stdin_or_command() {
    assert_eq!(
        get_input(Some("f".to_string()), None, false, PathFacts::File(3)).unwrap(),
        Input::File(PathAndLineCount { path: "f".to_string(), line_count: 3 })
    );
    assert_eq!(
        get_input(Some("d".to_string()), None, false, PathFacts::Folder(vec!["d/a".to_string()])).unwrap(),
        Input::Folder(Files { paths: vec!["d/a".to_string()] })
    );
    assert_eq!(get_input(None, None, true, PathFacts::Other).unwrap(), Input::Stdin);
    assert_eq!(get_input(None, Some("ls".to_string()), true, PathFacts::Other).unwrap(), Input::Command("ls".to_string()));
}

#[test]
fn run_settings_combine_input_output_and_follow() {
    let c = create_config(None, Some("ls".to_string()), false, false, false, PathFacts::Other).unwrap();
    assert_eq!(c.input, Input::Command("ls".to_string()));
    assert_eq!(c.output, Output::TempFile);
    assert!(c.follow);
    assert!(create_config(None, None, false, false, false, PathFacts::Other).is_err());
}

#[test]
fn the_default_highlighter_matches_the_command_line_defaults() {
    let base = BaseSet::resolve(&[], &[]).unwrap();
    let cli = build_highlighter(&base, &[], theme(), collect_keywords(vec![], &[])).unwrap();
    let library = Highlighter::default();
    for line in [
        "2024-01-02 10:00:00 GET http://x.io/a?b=c user@example.com 42 \"q\" /usr/bin/env 0x7ffd 3ms id=7",
        "10.0.0.1 d3b07384-d9a0-4c9b-8f7e-1a2b3c4d5e6f {\"a\": 1} (1234)",
        "no highlights here",
    ] {
        assert_eq!(cli.apply(line), library.apply(line));
    }
}

#[test]
fn io_config_pairs_the_source_with_its_target() {
    let a = IoArgs { command: Some("ls".to_string()), ..args() };
    let c = get_io_config(&a, false, PathStatus::Missing).unwrap();
    assert_eq!(c.source, Source::Command("ls".to_string()));
    assert!(matches!(c.target, Target::Less(o) if o.follow));
    let paged = IoArgs { pager: Some("less".to_string()), ..a };
    assert!(matches!(get_io_config(&paged, false, PathStatus::Missing), Err(ConfigError::CouldNotParseCustomPagerCommand)));
    assert!(matches!(get_io_config(&args(), false, PathStatus::Missing), Err(ConfigError::MissingFilename)));
}

#[test]
fn a_non_ascii_quote_byte_highlights_nothing() {
    let h = Highlighter::builder()
        .with_quote_highlighter(QuoteConfig { quote_token: 0xc3, style: Style::new().fg(Color::Yellow) })
        .build()
        .unwrap();
    assert!(matches!(h.apply("caf\u{e9} and caf\u{e9}"), Cow::Borrowed(_)));
}

fn strip_sgr(s: &str) -> String {
    let mut out = String::new();
    let mut rest = s;
    while let Some(pos) = rest.find("\x1b[") {
        out.push_str(&rest[..pos]);
        match rest[pos + 2..].find('m') {
            Some(end) => rest = &rest[pos + 2 + end + 1..],
            None => {
                out.push_str(&rest[pos..]);
                rest = "";
            }
        }
    }
    out.push_str(rest);
    out
}

#[test]
fn highlighting_only_adds_escape_sequences() {
    let h = Highlighter::default();
    for line in [
        "2024-01-02 10:00:00 GET http://x.io/a?b=c user@example.com 42 \"q\" /usr/bin/env 0x7ffd 3ms id=7",
        "10.0.0.1 d3b07384-d9a0-4c9b-8f7e-1a2b3c4d5e6f {\"a\": 1} (1234) caf\u{e9}",
    ] {
        let out = h.apply(line);
        assert_ne!(out.as_ref(), line);
        assert_eq!(strip_sgr(&out), line);
    }
}

#[test]
fn a_run_with_few_styles_fits_and_builds() {
    let base = BaseSet::resolve(&[Base::Numbers, Base::Quotes], &[]).unwrap();
    let words = parse_highlight("red:ERROR").unwrap();
    let keywords = collect_keywords(vec![], &[words]);
    assert!(run_fits(&base, &[Extra::Ipv6], &theme(), &keywords));
    let h = try_build_highlighter(&base, &[Extra::Ipv6], theme(), keywords).unwrap().unwrap();
    assert_eq!(readable(&h.apply("an ERROR 7")), "an [red]ERROR[reset] [cyan]7[reset]");
}

#[test]
fn a_bad_regex_still_fails_when_the_styles_fit() {
    let base = BaseSet::resolve(&[], &[]).unwrap();
    let mut t = theme();
    t.regexes = vec![RegexConfig { regex: "(open".to_string(), style: Style::default() }];
    let result = try_build_highlighter(&base, &[], t, vec![]).unwrap();
    assert!(matches!(result, Err(HighlighterError::Regex(_))));
}

#[test]
fn repeated_styles_take_one_id() {
    let styles = vec![Style::new().fg(Color::Red); 70000];
    assert!(styles_fit(&styles));
    let mut palette = Palette::new();
    let a = palette.intern(Style::new().fg(Color::Red));
    let b = palette.intern(Style::new().fg(Color::Red));
    assert_eq!(a, b);
    assert!(palette.holds(Style::new().fg(Color::Red)));
    assert!(!palette.holds(Style::new().fg(Color::Blue)));
}
