use tailspin::cli::{dedupe_last_wins, parse_highlight, Base, BaseSet, ResolveError};
use tailspin::colors::Fg;
use tailspin::config::KeywordConfig;
use tailspin::config_parser::Style as ThemeStyle;
use tailspin::consolidator::{consolidate_keywords, Keyword};
use tailspin::style::{Color, Style};

#[test]
fn empty_inputs_enable_all_base_groups() {
    let set = BaseSet::resolve(&[], &[]).unwrap();
    for base in Base::ALL.iter() {
        assert!(set.contains(*base), "expected {base:?} to be enabled");
    }
}

#[test]
fn enabled_list_is_exclusive() {
    let set = BaseSet::resolve(&[Base::Json, Base::Numbers], &[]).unwrap();
    assert!(set.contains(Base::Json));
    assert!(set.contains(Base::Numbers));
    assert!(!set.contains(Base::Urls));
    assert!(!set.contains(Base::Quotes));
}

#[test]
fn disabled_list_subtracts_from_all() {
    let set = BaseSet::resolve(&[], &[Base::Json, Base::Numbers]).unwrap();
    assert!(!set.contains(Base::Json));
    assert!(!set.contains(Base::Numbers));
    assert!(set.contains(Base::Urls));
    assert!(set.contains(Base::Quotes));
}

#[test]
fn both_lists_nonempty_is_an_error() {
    let err = BaseSet::resolve(&[Base::Json], &[Base::Numbers]).unwrap_err();
    assert!(matches!(err, ResolveError::ConflictEnableDisable));
}

fn kw(words: &[&str], style: Style) -> KeywordConfig {
    KeywordConfig { words: words.iter().map(|s| s.to_string()).collect(), style }
}

#[test]
fn later_definition_overrides_earlier() {
    let builtin = kw(&["GET"], Style::new().fg(Color::Black).on(Color::Green));
    let user = kw(&["GET"], Style::new().fg(Color::Green).on(Color::Black));
    let result = dedupe_last_wins(vec![builtin, user.clone()]);
    assert_eq!(result, vec![user]);
}

#[test]
fn unrelated_words_in_overridden_group_survive() {
    let builtin = kw(&["GET", "POST"], Style::new().fg(Color::Black).on(Color::Green));
    let user = kw(&["GET"], Style::new().fg(Color::Green));
    let result = dedupe_last_wins(vec![builtin, user.clone()]);
    assert_eq!(result, vec![kw(&["POST"], Style::new().fg(Color::Black).on(Color::Green)), user]);
}

#[test]
fn cli_overrides_theme_overrides_builtin() {
    let builtin = kw(&["GET"], Style::new().fg(Color::Red));
    let theme = kw(&["GET"], Style::new().fg(Color::Yellow));
    let cli = kw(&["GET"], Style::new().fg(Color::Green));
    let result = dedupe_last_wins(vec![builtin, theme, cli.clone()]);
    assert_eq!(result, vec![cli]);
}

#[test]
fn theme_internal_duplicates_use_last_wins() {
    let first = kw(&["GET"], Style::new().fg(Color::Red));
    let second = kw(&["GET"], Style::new().fg(Color::Blue));
    let result = dedupe_last_wins(vec![first, second.clone()]);
    assert_eq!(result, vec![second]);
}

#[test]
fn no_duplicates_passes_through_unchanged() {
    let configs = vec![kw(&["GET"], Style::new().fg(Color::Red)), kw(&["POST"], Style::new().fg(Color::Blue))];
    let result = dedupe_last_wins(configs.clone());
    assert_eq!(result, configs);
}

#[test]
fn case_sensitive_dedup() {
    let lower = kw(&["get"], Style::new().fg(Color::Red));
    let upper = kw(&["GET"], Style::new().fg(Color::Blue));
    let result = dedupe_last_wins(vec![lower.clone(), upper.clone()]);
    assert_eq!(result, vec![lower, upper]);
}

#[test]
fn empty_input_returns_empty() {
    let result = dedupe_last_wins(Vec::new());
    assert!(result.is_empty());
}

#[test]
fn every_palette_color_parses() {
    for color in [
        "black",
        "red",
        "green",
        "yellow",
        "blue",
        "magenta",
        "cyan",
        "white",
        "bright_black",
        "bright_red",
        "bright_green",
        "bright_yellow",
        "bright_blue",
        "bright_magenta",
        "bright_cyan",
        "bright_white",
    ] {
        let input = format!("{color}:foo");
        parse_highlight(&input).unwrap_or_else(|_| panic!("`{color}` should parse"));
    }
}

#[test]
fn colors_parse_case_insensitively() {
    let (color, words) = parse_highlight("RED:foo,bar").unwrap();
    assert_eq!(color, Color::Red);
    assert_eq!(words, vec!["foo".to_string(), "bar".to_string()]);
}

#[test]
fn unknown_and_default_colors_are_rejected() {
    assert!(parse_highlight("pink:foo").is_err());
    assert!(parse_highlight("default:foo").is_err());
    assert!(parse_highlight("no-colon").is_err());
}

#[test]
fn test_consolidate_keywords() {
    let style_red = ThemeStyle { fg: Fg::Red, ..Default::default() };
    let style_default = ThemeStyle { ..Default::default() };

    let keywords = vec![
        Keyword { style: style_red, words: vec!["apple".into(), "banana".into()], border: true },
        Keyword { style: style_red, words: vec!["orange".into()], border: true },
        Keyword { style: style_red, words: vec!["melon".into()], border: false },
        Keyword { style: style_default, words: vec!["grape".into()], border: false },
    ];

    let consolidated = consolidate_keywords(keywords);

    let expected = vec![
        Keyword {
            style: style_red,
            words: vec!["apple", "banana", "orange"].into_iter().map(String::from).collect(),
            border: true,
        },
        Keyword { style: style_red, words: vec!["melon"].into_iter().map(String::from).collect(), border: false },
        Keyword { style: style_default, words: vec!["grape"].into_iter().map(String::from).collect(), border: false },
    ];

    assert_eq!(consolidated.len(), expected.len());
    for expected_keyword in expected {
        assert!(consolidated.contains(&expected_keyword));
    }
}
