use tailspin::config::{
    DateTimeConfig, DurationConfig, EmailConfig, KeyValueConfig, NumberConfig, PointerConfig, QuoteConfig,
    UnixProcessConfig, UuidConfig,
};
use tailspin::finders::date_dash::DateDashFinder;
use tailspin::finders::date_time::DateTimeFinder;
use tailspin::finders::duration::DurationFinder;
use tailspin::finders::email::EmailFinder;
use tailspin::finders::key_value::KeyValueFinder;
use tailspin::finders::number::NumberFinder;
use tailspin::finders::pointer::PointerFinder;
use tailspin::finders::quote::QuoteFinder;
use tailspin::finders::unix_process::UnixProcessFinder;
use tailspin::finders::uuid::UuidFinder;
use tailspin::palette::Palette;
use tailspin::pipeline::Finder;
use tailspin::span::{Collector, Span};
use tailspin::style::{Color, Style};

fn spans_of(input: &str, finder: &Finder) -> Vec<Span> {
    let mut collector = Collector::new();
    finder.find_spans(input, &mut collector);
    collector.into_spans()
}

fn span_texts<'a>(input: &'a str, finder: &Finder) -> Vec<&'a str> {
    spans_of(input, finder).iter().map(|s| &input[s.start..s.end]).collect()
}

// Numbers

fn number_finder() -> Finder {
    Finder::Number(NumberFinder::new(NumberConfig { style: Style::new().fg(Color::Cyan) }, &mut Palette::new()))
}

#[test]
fn finds_numbers() {
    let texts = span_texts("hello 42 world 3.14", &number_finder());
    assert_eq!(texts, ["42", "3.14"]);
}

#[test]
fn no_match_produces_no_spans() {
    assert!(span_texts("no numbers here", &number_finder()).is_empty());
}

// Quotes

fn quote_finder(quote_token: u8) -> Finder {
    Finder::Quote(QuoteFinder::new(
        QuoteConfig { quote_token, style: Style::new().fg(Color::Yellow) },
        &mut Palette::new(),
    ))
}

#[test]
fn finds_quoted_regions() {
    let texts = span_texts(r#"hello "world" end"#, &quote_finder(b'"'));
    assert_eq!(texts, [r#""world""#]);
}

#[test]
fn odd_quotes_produces_no_spans() {
    assert!(span_texts(r#"hello "world end"#, &quote_finder(b'"')).is_empty());
}

#[test]
fn multiple_quoted_regions() {
    let texts = span_texts(r#""hello" and "world""#, &quote_finder(b'"'));
    assert_eq!(texts, [r#""hello""#, r#""world""#]);
}

#[test]
fn adjacent_quoted_strings() {
    let texts = span_texts(r#""hello""world""#, &quote_finder(b'"'));
    assert_eq!(texts, [r#""hello""world""#]);
}

#[test]
fn empty_quoted_string() {
    let texts = span_texts(r#"before "" after"#, &quote_finder(b'"'));
    assert_eq!(texts, [r#""""#]);
}

#[test]
fn single_quote_token() {
    let texts = span_texts("msg 'hello world' done", &quote_finder(b'\''));
    assert_eq!(texts, ["'hello world'"]);
}

#[test]
fn three_quotes_produces_no_spans() {
    assert!(span_texts(r#"a "b" c "d"#, &quote_finder(b'"')).is_empty());
}

// UUIDs

fn uuid_config() -> UuidConfig {
    UuidConfig {
        number: Style::new().fg(Color::Blue),
        letter: Style::new().fg(Color::Yellow),
        separator: Style::new().fg(Color::Red),
    }
}

#[test]
fn finds_uuid_with_coalesced_spans() {
    let mut palette = Palette::new();
    let finder = Finder::Uuid(UuidFinder::new(uuid_config(), &mut palette));
    let input = "id=550e8400-e29b-41d4-a716-446655440000 done";
    let spans = spans_of(input, &finder);

    assert!(spans.len() < 36);
    assert!(spans.len() > 5);

    let first = &spans[0];
    assert_eq!(&input[first.start..first.end], "550");
    assert_eq!(first.style, palette.intern(Style::new().fg(Color::Blue)));
}

#[test]
fn no_match_without_enough_dashes() {
    let finder = Finder::Uuid(UuidFinder::new(uuid_config(), &mut Palette::new()));
    assert!(span_texts("no dashes here at all", &finder).is_empty());
}

// Pointers

fn pointer_finder() -> Finder {
    Finder::Pointer(PointerFinder::new(
        PointerConfig {
            number: Style::new().fg(Color::Blue),
            letter: Style::new().fg(Color::Magenta),
            x: Style::new().fg(Color::Red),
        },
        &mut Palette::new(),
    ))
}

fn pointer_span_count(input: &str) -> usize {
    spans_of(input, &pointer_finder()).len()
}

fn pointer_matched_range(input: &str) -> Option<(usize, usize)> {
    let spans = spans_of(input, &pointer_finder());
    if spans.is_empty() {
        None
    } else {
        Some((spans.first().unwrap().start, spans.last().unwrap().end))
    }
}

#[test]
fn pointer_32bit() {
    let (start, end) = pointer_matched_range("0x8c2a0aeb").unwrap();
    assert_eq!(start, 0);
    assert_eq!(end, 10);
}

#[test]
fn pointer_64bit() {
    let (start, end) = pointer_matched_range("0xd7b3b2f446e2c21b").unwrap();
    assert_eq!(start, 0);
    assert_eq!(end, 18);
}

#[test]
fn pointer_distinguishes_digits_and_letters() {
    let spans = spans_of("0xab12cd34", &pointer_finder());
    assert!(spans.len() >= 4);
}

#[test]
fn no_pointer_no_match() {
    assert_eq!(pointer_span_count("No numbers here!"), 0);
}

// Key-value pairs

fn key_value_finder() -> Finder {
    Finder::KeyValue(KeyValueFinder::new(
        KeyValueConfig { key: Style::new().fg(Color::Red), separator: Style::new().fg(Color::Yellow) },
        &mut Palette::new(),
    ))
}

#[test]
fn basic_key_value() {
    let texts = span_texts("Entry key=value", &key_value_finder());
    assert_eq!(texts, ["key", "="]);
}

#[test]
fn multiple_key_values() {
    let texts = span_texts("host=localhost port=8080", &key_value_finder());
    assert_eq!(texts, ["host", "=", "port", "="]);
}

#[test]
fn key_value_at_start_of_line() {
    let texts = span_texts("key=value", &key_value_finder());
    assert_eq!(texts, ["key", "="]);
}

#[test]
fn no_key_value_no_match() {
    assert!(span_texts("No numbers here!", &key_value_finder()).is_empty());
}

// Unix processes

fn process_finder() -> Finder {
    Finder::UnixProcess(UnixProcessFinder::new(
        UnixProcessConfig {
            name: Style::new().fg(Color::Magenta),
            id: Style::new().fg(Color::Green),
            bracket: Style::new().fg(Color::Blue),
        },
        &mut Palette::new(),
    ))
}

#[test]
fn simple_process() {
    let texts = span_texts("process[1]", &process_finder());
    assert_eq!(texts, ["process", "[", "1", "]"]);
}

#[test]
fn process_with_slashes() {
    let texts = span_texts("postfix/postscreen[1894]: CONNECT", &process_finder());
    assert_eq!(texts, ["postfix/postscreen", "[", "1894", "]"]);
}

#[test]
fn does_not_match_ip_in_brackets() {
    let texts = span_texts("[192.168.1.22]:12345", &process_finder());
    assert!(texts.is_empty());
}

#[test]
fn no_process_no_match() {
    assert!(span_texts("No process here!", &process_finder()).is_empty());
}

// Emails

fn email_finder() -> Finder {
    Finder::Email(EmailFinder::new(
        EmailConfig {
            local_part: Style::new().fg(Color::Cyan),
            at_sign: Style::new().fg(Color::Red),
            domain: Style::new().fg(Color::Green),
            dot: Style::new().fg(Color::Yellow),
        },
        &mut Palette::new(),
    ))
}

#[test]
fn finds_email() {
    let texts = span_texts("contact user@example.com today", &email_finder());
    assert_eq!(texts, ["user", "@", "example", ".", "com"]);
}

#[test]
fn email_with_plus_and_subdomains() {
    let texts = span_texts("first.last+tag@sub.domain.co.uk", &email_finder());
    assert_eq!(texts, ["first.last+tag", "@", "sub", ".", "domain", ".", "co", ".", "uk"]);
}

#[test]
fn multiple_emails() {
    let texts = span_texts("From alice@a.com to bob@b.org", &email_finder());
    assert!(texts.contains(&"alice"));
    assert!(texts.contains(&"bob"));
}

#[test]
fn no_email_no_match() {
    assert!(span_texts("No email here!", &email_finder()).is_empty());
}

#[test]
fn double_dot_domain_does_not_panic() {
    let spans = spans_of("user@a..com", &email_finder());
    assert!(spans.iter().all(|s| s.start < s.end));
}

// Dates

fn date_dash_finder() -> Finder {
    Finder::DateDash(DateDashFinder::new(
        DateTimeConfig {
            date: Style::new().fg(Color::Magenta),
            separator: Style::new().fg(Color::Blue),
            ..Default::default()
        },
        &mut Palette::new(),
    ))
}

#[test]
fn yyyy_mm_dd_with_dashes() {
    let texts = span_texts("2022-09-09", &date_dash_finder());
    assert_eq!(texts, ["2022", "-", "09", "-", "09"]);
}

#[test]
fn yyyy_mm_dd_with_slashes() {
    let texts = span_texts("2022/12/30", &date_dash_finder());
    assert_eq!(texts, ["2022", "/", "12", "/", "30"]);
}

#[test]
fn dd_mm_yyyy_with_dashes() {
    let texts = span_texts("09-09-2022", &date_dash_finder());
    assert_eq!(texts, ["09", "-", "09", "-", "2022"]);
}

#[test]
fn dd_mm_yyyy_with_slashes() {
    let texts = span_texts("09/09/2022", &date_dash_finder());
    assert_eq!(texts, ["09", "/", "09", "/", "2022"]);
}

#[test]
fn invalid_year_no_match() {
    assert!(span_texts("3022-09-09", &date_dash_finder()).is_empty());
}

#[test]
fn invalid_month_no_match() {
    assert!(span_texts("2022-19-39", &date_dash_finder()).is_empty());
}

#[test]
fn invalid_year_branch_b_no_match() {
    assert!(span_texts("19/39/3023", &date_dash_finder()).is_empty());
}

#[test]
fn no_dates_no_match() {
    assert!(span_texts("No dates here!", &date_dash_finder()).is_empty());
}

#[test]
fn embedded_in_longer_number_no_match() {
    assert!(span_texts("12022-09-09", &date_dash_finder()).is_empty());
}

#[test]
fn date_in_iso8601_timestamp_matches() {
    let texts = span_texts("2022-09-22T07:46:34.171800155Z", &date_dash_finder());
    assert_eq!(texts, ["2022", "-", "09", "-", "22"]);
}

// Times

fn date_time_finder() -> Finder {
    Finder::DateTime(DateTimeFinder::new(
        DateTimeConfig {
            time: Style::new().fg(Color::Red),
            zone: Style::new().fg(Color::Blue),
            separator: Style::new().fg(Color::Yellow),
            ..Default::default()
        },
        &mut Palette::new(),
    ))
}

#[test]
fn basic_time() {
    let texts = span_texts("07:46:34", &date_time_finder());
    assert_eq!(texts, ["07", ":", "46", ":", "34"]);
}

#[test]
fn time_with_dot_fractional() {
    let texts = span_texts("10:51:19.251", &date_time_finder());
    assert_eq!(texts, ["10", ":", "51", ":", "19", ".", "251"]);
}

#[test]
fn time_with_colon_fractional() {
    let texts = span_texts("11:47:39:850", &date_time_finder());
    assert_eq!(texts, ["11", ":", "47", ":", "39", ":", "850"]);
}

#[test]
fn single_digit_hour() {
    let texts = span_texts("3:33:30", &date_time_finder());
    assert_eq!(texts, ["3", ":", "33", ":", "30"]);
}

#[test]
fn iso8601_with_t_and_z() {
    let texts = span_texts("2022-09-22T07:46:34.171800155Z", &date_time_finder());
    assert!(texts.contains(&"T"));
    assert!(texts.contains(&"07"));
    assert!(texts.contains(&"171800155"));
    assert!(texts.contains(&"Z"));
}

#[test]
fn datetime_with_space_separator_and_comma_frac() {
    let texts = span_texts("2022-09-09 11:48:34,534", &date_time_finder());
    assert!(texts.contains(&" "));
    assert!(texts.contains(&"11"));
    assert!(texts.contains(&","));
    assert!(texts.contains(&"534"));
}

#[test]
fn iso8601_with_timezone_offset() {
    let texts = span_texts("2024-09-14T07:57:30.659+02:00", &date_time_finder());
    assert!(texts.contains(&"T"));
    assert!(texts.contains(&"07"));
    assert!(texts.contains(&"30"));
    assert!(texts.contains(&"659"));
}

#[test]
fn ipv6_should_not_match_as_time() {
    assert!(span_texts("2001:db8::ff00:42:8329", &date_time_finder()).is_empty());
}

#[test]
fn no_time_no_match() {
    assert!(span_texts("No time here!", &date_time_finder()).is_empty());
}

// Durations

fn duration_finder() -> Finder {
    Finder::Duration(DurationFinder::new(
        DurationConfig {
            value: Style::new().fg(Color::Cyan),
            separator: Style::new().fg(Color::Red),
            unit: Style::new().fg(Color::Magenta),
        },
        &mut Palette::new(),
    ))
}

#[test]
fn finds_durations() {
    let texts = span_texts("took 150ms and 2.5s", &duration_finder());
    assert_eq!(texts, ["150", "ms", "2", ".", "5", "s"]);
}

#[test]
fn finds_every_unit() {
    let texts = span_texts("5ns 5us 5ms 5s 5m 5h", &duration_finder());
    assert_eq!(texts, ["5", "ns", "5", "us", "5", "ms", "5", "s", "5", "m", "5", "h"]);
}

#[test]
fn plain_numbers_are_not_durations() {
    assert!(span_texts("status 200 port 8080", &duration_finder()).is_empty());
}

#[test]
fn compound_durations_do_not_match() {
    assert!(span_texts("waited 1h30m", &duration_finder()).is_empty());
}

#[test]
fn unit_must_terminate_the_word() {
    assert!(span_texts("5management 3msg", &duration_finder()).is_empty());
}
