use tailspin::config::{JsonConfig, JvmStackTraceConfig, KeywordConfig};
use tailspin::finders::json::JsonFinder;
use tailspin::finders::jvm_stack::JvmStackFinder;
use tailspin::finders::keyword::KeywordFinder;
use tailspin::finders::user_regex::RegexFinder;
use tailspin::palette::{Palette, StyleId};
use tailspin::pipeline::Finder;
use tailspin::span::{Collector, Span};
use tailspin::style::{Color, Style};

fn spans_of(input: &str, finder: &Finder) -> Vec<Span> {
    let mut collector = Collector::new();
    finder.find_spans(input, &mut collector);
    collector.into_spans()
}

fn span_texts<'a>(input: &'a str, finder: &Finder) -> Vec<&'a str> {
    spans_of(input, finder).iter().map(|s| &input[s.start..s.end]).collect()
}

// JSON

fn json_finder() -> Finder {
    Finder::Json(JsonFinder::new(
        JsonConfig {
            key: Style::new().fg(Color::Yellow),
            quote_token: Style::new().fg(Color::Blue),
            curly_bracket: Style::new().fg(Color::Cyan),
            square_bracket: Style::new().fg(Color::Green),
            comma: Style::new().fg(Color::Red),
            colon: Style::new().fg(Color::Magenta),
        },
        &mut Palette::new(),
    ))
}

#[test]
fn simple_json_object() {
    let input = r#"{"name": "John", "age": 30}"#;
    let texts = span_texts(input, &json_finder());
    assert!(texts.contains(&"{"));
    assert!(texts.contains(&"}"));
    assert!(texts.contains(&"name"));
    assert!(texts.contains(&"age"));
    assert!(texts.contains(&","));
}

#[test]
fn json_with_array() {
    let input = r#"{"items": [1, 2]}"#;
    let texts = span_texts(input, &json_finder());
    assert!(texts.contains(&"["));
    assert!(texts.contains(&"]"));
    assert!(texts.contains(&"items"));
}

#[test]
fn nested_json() {
    let input = r#"{"a": {"b": 1}}"#;
    let texts = span_texts(input, &json_finder());
    assert!(texts.contains(&"a"));
    assert!(!texts.is_empty());
}

#[test]
fn json_with_escaped_quotes() {
    let input = r#"{"key": "val\"ue"}"#;
    let texts = span_texts(input, &json_finder());
    assert!(texts.contains(&"key"));
    assert!(!texts.is_empty());
}

#[test]
fn empty_json_object() {
    let texts = span_texts("{}", &json_finder());
    assert_eq!(texts, ["{}"]);
}

#[test]
fn empty_json_array() {
    let texts = span_texts("[]", &json_finder());
    assert_eq!(texts, ["[]"]);
}

#[test]
fn not_json_no_match() {
    assert!(spans_of("No jsons here!", &json_finder()).is_empty());
}

#[test]
fn invalid_json_no_match() {
    assert!(spans_of("{not valid json", &json_finder()).is_empty());
}

#[test]
fn key_after_non_string_value() {
    let input = r#"{"a": 1, "b": 2}"#;
    let texts = span_texts(input, &json_finder());
    assert!(texts.contains(&"a"));
    assert!(texts.contains(&"b"), "key after non-string value should be styled");
}

#[test]
fn key_in_nested_object() {
    let input = r#"{"a": {"b": 1}, "c": 2}"#;
    let texts = span_texts(input, &json_finder());
    assert!(texts.contains(&"a"));
    assert!(texts.contains(&"b"), "inner object key should be styled");
    assert!(texts.contains(&"c"), "key after nested object should be styled");
}

#[test]
fn value_content_not_styled() {
    let input = r#"{"a": "x", "b": {"c": "y"}}"#;
    let texts = span_texts(input, &json_finder());
    assert!(texts.contains(&"a"));
    assert!(texts.contains(&"b"));
    assert!(texts.contains(&"c"));
    assert!(!texts.contains(&"x"), "value content should not be styled");
    assert!(!texts.contains(&"y"), "nested value content should not be styled");
}

// JVM stack traces

struct JvmStyles {
    caused_by: StyleId,
    package: StyleId,
    exception: StyleId,
    frame: StyleId,
    file: StyleId,
    unknown_source: StyleId,
    line_number: StyleId,
}

fn jvm_finder() -> (Finder, JvmStyles) {
    let f = JvmStackFinder::new(
        JvmStackTraceConfig {
            caused_by: Style::new().bold(),
            package: Style::new().fg(Color::Red).faint(),
            exception: Style::new().fg(Color::Red),
            frame: Style::new().fg(Color::Red).faint(),
            file: Style::new().fg(Color::Yellow),
            unknown_source: Style::new().fg(Color::Yellow).faint(),
            line_number: Style::new().fg(Color::Cyan),
        },
        &mut Palette::new(),
    );
    let styles = JvmStyles {
        caused_by: f.marker.caused_by,
        package: f.header.package,
        exception: f.header.exception,
        frame: f.header.frame,
        file: f.frames.file,
        unknown_source: f.frames.unknown_source,
        line_number: f.frames.line_number,
    };
    (Finder::JvmStack(f), styles)
}

fn make_finder() -> JvmStyles {
    jvm_finder().1
}

fn spans(input: &str) -> Vec<(usize, usize, StyleId)> {
    spans_of(input, &jvm_finder().0).into_iter().map(|s| (s.start, s.end, s.style)).collect()
}

fn span_text<'a>(input: &'a str, span: &(usize, usize, StyleId)) -> &'a str {
    &input[span.0..span.1]
}

#[test]
fn header_splits_package_class_colon() {
    let input = "no.finntech.statistics.email.EmailNotSentException: No recipients";
    let result = spans(input);
    let texts: Vec<&str> = result.iter().map(|s| span_text(input, s)).collect();
    assert_eq!(texts, ["no.finntech.statistics.email.", "EmailNotSentException", ":"]);

    let f = make_finder();
    assert_eq!(result[0].2, f.package);
    assert_eq!(result[1].2, f.exception);
    assert_eq!(result[2].2, f.frame);
}

#[test]
fn header_does_not_match_inside_frame() {
    let input = "        at no.finntech.statistics.email.EmailService.sendBrokerEmail(EmailService.kt:171)";
    let f = make_finder();
    let result = spans(input);
    let header_styles: Vec<&StyleId> = result.iter().map(|s| &s.2).filter(|s| **s == f.exception).collect();
    assert!(header_styles.is_empty(), "exception style must not appear in a frame line");
}

#[test]
fn frame_with_file_and_line() {
    let input = "        at no.finntech.statistics.email.EmailService.sendBrokerEmail(EmailService.kt:171)";
    let f = make_finder();
    let result = spans(input);
    let texts: Vec<&str> = result.iter().map(|s| span_text(input, s)).collect();
    assert!(texts.iter().any(|t| t.starts_with("at ") && t.ends_with('(')));
    assert!(texts.contains(&"EmailService.kt"));
    assert!(texts.contains(&":"));
    assert!(texts.contains(&"171"));
    assert!(texts.contains(&")"));

    let line_span = result.iter().find(|s| span_text(input, s) == "171").unwrap();
    assert_eq!(line_span.2, f.line_number);
    let file_span = result.iter().find(|s| span_text(input, s) == "EmailService.kt").unwrap();
    assert_eq!(file_span.2, f.file);
}

#[test]
fn frame_with_dollar_in_fqname() {
    let input = "        at no.finntech.statistics.email.EmailService.access$sendBrokerEmail(EmailService.kt:32)";
    let result = spans(input);
    let texts: Vec<&str> = result.iter().map(|s| span_text(input, s)).collect();
    assert!(texts.iter().any(|t| t.contains("EmailService.access$sendBrokerEmail(")));
    assert!(texts.contains(&"32"));
}

#[test]
fn frame_without_line_number() {
    let input = "        at no.finntech.statistics.email.EmailService$sendBrokerEmail$1.invokeSuspend(EmailService.kt)";
    let result = spans(input);
    let texts: Vec<&str> = result.iter().map(|s| span_text(input, s)).collect();
    assert!(texts.contains(&"EmailService.kt"));
    assert!(!texts.contains(&"171"));
}

#[test]
fn frame_with_unknown_source() {
    let input = "        at sun.reflect.NativeMethodAccessorImpl.invoke0(Unknown Source)";
    let f = make_finder();
    let result = spans(input);
    let unknown = result.iter().find(|s| span_text(input, s) == "Unknown Source").unwrap();
    assert_eq!(unknown.2, f.unknown_source);
}

#[test]
fn frame_with_native_method_styled_as_unknown_source() {
    let input = "        at java.lang.reflect.Method.invoke(Native Method)";
    let f = make_finder();
    let result = spans(input);
    let native = result
        .iter()
        .find(|s| span_text(input, s) == "Native Method")
        .expect("Native Method contents should be styled");
    assert_eq!(native.2, f.unknown_source);
}

#[test]
fn message_after_exception_is_not_highlighted() {
    let input = "no.foo.MyException: Could not connect to db";
    let result = spans(input);
    let total_styled: usize = result.iter().map(|s| s.1 - s.0).sum();
    let expected = "no.foo.".len() + "MyException".len() + ":".len();
    assert_eq!(total_styled, expected);
}

#[test]
fn empty_input_no_spans() {
    assert!(spans("").is_empty());
}

#[test]
fn line_without_dot_is_skipped() {
    assert!(spans("no exceptions or stack frames here").is_empty());
}

#[test]
fn frame_with_kotlin_multiplatform_file() {
    let input = "        at kotlinx.coroutines.EventLoopImplBase.processNextEvent(EventLoop.common.kt:263)";
    let f = make_finder();
    let result = spans(input);
    let file_span = result
        .iter()
        .find(|s| span_text(input, s) == "EventLoop.common.kt")
        .expect("multi-dot file name should be highlighted");
    assert_eq!(file_span.2, f.file);

    let line_span = result.iter().find(|s| span_text(input, s) == "263").unwrap();
    assert_eq!(line_span.2, f.line_number);
}

#[test]
fn frame_with_jdk_module_prefix() {
    let input = "        at java.base/sun.nio.ch.SocketChannelImpl.read(SocketChannelImpl.java:276)";
    let result = spans(input);
    let texts: Vec<&str> = result.iter().map(|s| span_text(input, s)).collect();
    assert!(texts.iter().any(|t| t.starts_with("at java.base/") && t.ends_with('(')));
    assert!(texts.contains(&"SocketChannelImpl.java"));
    assert!(texts.contains(&"276"));
}

#[test]
fn caused_by_header_matches() {
    let input = "Caused by: java.io.IOException: pipe closed";
    let result = spans(input);
    let texts: Vec<&str> = result.iter().map(|s| span_text(input, s)).collect();
    assert!(texts.contains(&"Caused by:"));
    assert!(texts.contains(&"java.io."));
    assert!(texts.contains(&"IOException"));

    let f = make_finder();
    let marker = result.iter().find(|s| span_text(input, s) == "Caused by:").unwrap();
    assert_eq!(marker.2, f.caused_by);
}

#[test]
fn frame_at_column_zero_is_not_matched() {
    let input = "We meet at home.foo(now) for dinner";
    assert!(spans(input).is_empty(), "prose with 'at X.y(...)' must not match");
}

#[test]
fn at_keyword_without_dotted_name_does_not_match() {
    let input = "        at run-stage(123)";
    let result = spans(input);
    let texts: Vec<&str> = result.iter().map(|s| span_text(input, s)).collect();
    assert!(!texts.iter().any(|t| t.starts_with("at ")));
}

#[test]
fn header_requires_exception_or_error_suffix() {
    let cases = [
        "Connecting to db.example.com.MasterServer: ready",
        "Reading from /var/log/foo.bar.Baz: ok",
        "config: app.module.Name: production",
        "www.spring.io.Foo: redirect",
        "sentence ending with com.example.Class: trailing",
    ];
    for input in cases {
        assert!(spans(input).is_empty(), "should not match header in: {input}");
    }
}

#[test]
fn header_matches_error_suffix() {
    let input = "java.lang.OutOfMemoryError: Java heap space";
    let result = spans(input);
    let texts: Vec<&str> = result.iter().map(|s| span_text(input, s)).collect();
    assert_eq!(texts, ["java.lang.", "OutOfMemoryError", ":"]);
}

#[test]
fn frame_with_cglib_generated_proxy() {
    let input = "        at no.finntech.statistics.aggregator.adsIndex.AdsIndexEsStatisticsRepo$$SpringCGLIB$$0.indexAds(<generated>)";
    let f = make_finder();
    let result = spans(input);
    let texts: Vec<&str> = result.iter().map(|s| span_text(input, s)).collect();
    assert!(
        texts.iter().any(|t| t.starts_with("at ") && t.ends_with('(')),
        "frame prefix should be styled; got {texts:?}"
    );
    let generated = result
        .iter()
        .find(|s| span_text(input, s) == "<generated>")
        .expect("<generated> contents should be styled");
    assert_eq!(generated.2, f.unknown_source);
}

#[test]
fn frame_with_kotlin_inline_class_mangling() {
    let input = "        at no.finntech.statistics.aggregator.adsIndex.AdsIndexService.processFullDoc-FcBZHsI(AdsIndexService.kt:108)";
    let result = spans(input);
    let texts: Vec<&str> = result.iter().map(|s| span_text(input, s)).collect();
    assert!(
        texts.iter().any(|t| t.contains("processFullDoc-FcBZHsI(")),
        "mangled method name should be in the styled prefix; got {texts:?}"
    );
    assert!(texts.contains(&"AdsIndexService.kt"));
    assert!(texts.contains(&"108"));
}

#[test]
fn frame_with_kotlin_inline_class_suspend_impl() {
    let input = "        at no.finntech.statistics.aggregator.adsIndex.AdsIndexService.processAd-WVa51mU$suspendImpl(AdsIndexService.kt:94)";
    let result = spans(input);
    let texts: Vec<&str> = result.iter().map(|s| span_text(input, s)).collect();
    assert!(texts.iter().any(|t| t.contains("processAd-WVa51mU$suspendImpl(")));
    assert!(texts.contains(&"AdsIndexService.kt"));
    assert!(texts.contains(&"94"));
}

#[test]
fn frame_with_kotlin_inline_class_no_line_number() {
    let input = "        at no.finntech.statistics.aggregator.adsIndex.AdsIndexService.processAd-WVa51mU(AdsIndexService.kt)";
    let result = spans(input);
    let texts: Vec<&str> = result.iter().map(|s| span_text(input, s)).collect();
    assert!(texts.iter().any(|t| t.contains("processAd-WVa51mU(")));
    assert!(texts.contains(&"AdsIndexService.kt"));
}

#[test]
fn caused_by_excludes_leading_whitespace() {
    let input = "    Caused by: java.io.IOException: x";
    let result = spans(input);
    let marker = result.iter().find(|s| span_text(input, s) == "Caused by:").unwrap();
    assert_eq!(marker.0, 4);
}

#[test]
fn frame_with_constructor_init() {
    let input = "        at com.foo.Bar.<init>(Bar.java:42)";
    let result = spans(input);
    let texts: Vec<&str> = result.iter().map(|s| span_text(input, s)).collect();
    assert!(texts.iter().any(|t| t.contains("Bar.<init>(")), "constructor frame should match; got {texts:?}");
    assert!(texts.contains(&"Bar.java"));
    assert!(texts.contains(&"42"));
}

#[test]
fn frame_with_static_initializer_clinit() {
    let input = "        at com.foo.Bar.<clinit>(Bar.java:7)";
    let result = spans(input);
    let texts: Vec<&str> = result.iter().map(|s| span_text(input, s)).collect();
    assert!(texts.iter().any(|t| t.contains("Bar.<clinit>(")));
    assert!(texts.contains(&"7"));
}

#[test]
fn frame_with_init_on_anonymous_inner() {
    let input = "        at com.foo.Bar$1.<init>(Bar.java:42)";
    let result = spans(input);
    let texts: Vec<&str> = result.iter().map(|s| span_text(input, s)).collect();
    assert!(texts.iter().any(|t| t.contains("Bar$1.<init>(")));
}

#[test]
fn suppressed_marker_matches() {
    let input = "        Suppressed: java.io.IOException: pipe closed";
    let f = make_finder();
    let result = spans(input);
    let marker = result
        .iter()
        .find(|s| span_text(input, s) == "Suppressed:")
        .expect("Suppressed marker should be styled");
    assert_eq!(marker.2, f.caused_by);
}

#[test]
fn more_frames_truncation_marker() {
    let input = "        ... 42 more";
    let f = make_finder();
    let result = spans(input);
    let texts: Vec<&str> = result.iter().map(|s| span_text(input, s)).collect();
    assert!(texts.contains(&"..."));
    assert!(texts.contains(&"42"));
    assert!(texts.contains(&"more"));

    let count = result.iter().find(|s| span_text(input, s) == "42").unwrap();
    assert_eq!(count.2, f.line_number);
    let ellipsis = result.iter().find(|s| span_text(input, s) == "...").unwrap();
    assert_eq!(ellipsis.2, f.frame);
}

#[test]
fn more_frames_marker_requires_keyword() {
    let result = spans("        ... 42");
    assert!(result.is_empty(), "ellipsis without 'more' must not match");
}

#[test]
fn file_with_line_and_column() {
    let input = "        at com.foo.Bar.method(Bar.kt:42:13)";
    let f = make_finder();
    let result = spans(input);
    let texts: Vec<&str> = result.iter().map(|s| span_text(input, s)).collect();
    assert!(texts.contains(&"Bar.kt"));
    assert!(texts.contains(&"42"));
    assert!(texts.contains(&"13"));

    let col = result.iter().find(|s| span_text(input, s) == "13").unwrap();
    assert_eq!(col.2, f.line_number);
}

// Custom regular expressions

fn regex_span_texts<'a>(input: &'a str, pattern: &str) -> Vec<&'a str> {
    let finder = RegexFinder::new(pattern, Style::new().fg(Color::Red), &mut Palette::new()).unwrap();
    span_texts(input, &Finder::Regex(finder))
}

#[test]
fn simple_pattern() {
    assert_eq!(regex_span_texts("hello world", "world"), ["world"]);
}

#[test]
fn capture_group_styles_only_group() {
    assert_eq!(regex_span_texts("got a errorwarning here", "(error)?warning"), ["error"]);
}

#[test]
fn optional_group_not_participating_styles_full_match() {
    assert_eq!(regex_span_texts("got a warning here", "(error)?warning"), ["warning"]);
}

#[test]
fn no_match_no_spans() {
    assert!(regex_span_texts("nothing here", "xyz").is_empty());
}

#[test]
fn multiple_matches() {
    assert_eq!(regex_span_texts("abc 123 def 456", r"\d+"), ["123", "456"]);
}

// Keywords

fn kw(words: &[&str], style: Style) -> KeywordConfig {
    KeywordConfig { words: words.iter().map(|w| w.to_string()).collect(), style }
}

fn keyword_finder(configs: &[KeywordConfig], palette: &mut Palette) -> Finder {
    Finder::Keyword(KeywordFinder::new(configs, palette).unwrap())
}

#[test]
fn finds_keywords() {
    let finder = keyword_finder(&[kw(&["null", "true", "false"], Style::new().fg(Color::Red))], &mut Palette::new());
    assert_eq!(span_texts("value is null or true", &finder), ["null", "true"]);
}

#[test]
fn respects_word_boundaries() {
    let finder = keyword_finder(&[kw(&["null"], Style::new().fg(Color::Red))], &mut Palette::new());
    let spans = spans_of("nullable is not null", &finder);
    assert_eq!(spans.len(), 1);
    assert_eq!(&"nullable is not null"[spans[0].start..spans[0].end], "null");
}

#[test]
fn longer_keyword_wins_over_its_prefix() {
    let finder = keyword_finder(&[kw(&["WARN", "WARNING"], Style::new().fg(Color::Yellow))], &mut Palette::new());
    assert_eq!(span_texts("level WARNING here", &finder), ["WARNING"]);
}

#[test]
fn longest_valid_keyword_wins_at_the_same_start() {
    let finder = keyword_finder(
        &[kw(&["connection"], Style::new().fg(Color::Yellow)), kw(&["connection lost"], Style::new().fg(Color::Red))],
        &mut Palette::new(),
    );
    assert_eq!(span_texts("connection lost now", &finder), ["connection lost"]);
}

#[test]
fn rejected_longer_keyword_does_not_shadow_its_prefix() {
    let finder = keyword_finder(
        &[kw(&["connection lost"], Style::new().fg(Color::Red)), kw(&["connection"], Style::new().fg(Color::Yellow))],
        &mut Palette::new(),
    );
    assert_eq!(span_texts("connection lostness detected", &finder), ["connection"]);
}

#[test]
fn rejected_longer_keyword_does_not_shadow_nested_keywords() {
    let finder = keyword_finder(
        &[kw(&["connection lost"], Style::new().fg(Color::Red)), kw(&["lost"], Style::new().fg(Color::Yellow))],
        &mut Palette::new(),
    );
    assert_eq!(span_texts("myconnection lost", &finder), ["lost"]);
}

#[test]
fn each_keyword_keeps_the_style_of_its_config() {
    let red = Style::new().fg(Color::Red);
    let green = Style::new().fg(Color::Green);
    let mut palette = Palette::new();
    let finder = keyword_finder(&[kw(&["ERROR"], red), kw(&["SUCCESS"], green)], &mut palette);

    let spans = spans_of("ERROR then SUCCESS", &finder);
    assert_eq!(spans.len(), 2);
    assert_eq!(spans[0].style, palette.intern(red));
    assert_eq!(spans[1].style, palette.intern(green));
}

#[test]
fn background_style_marks_span_padded() {
    let finder = keyword_finder(&[kw(&["ERROR"], Style::new().on(Color::Red))], &mut Palette::new());
    let spans = spans_of("level ERROR here", &finder);
    assert_eq!(spans.len(), 1);
    assert!(spans[0].padded);
}

#[test]
fn foreground_only_leaves_span_unpadded() {
    let finder = keyword_finder(&[kw(&["ERROR"], Style::new().fg(Color::Red))], &mut Palette::new());
    let spans = spans_of("level ERROR here", &finder);
    assert_eq!(spans.len(), 1);
    assert!(!spans[0].padded);
}

#[test]
fn mixed_padded_and_plain_configs() {
    let finder = keyword_finder(
        &[kw(&["ERROR"], Style::new().on(Color::Red)), kw(&["ok"], Style::new().fg(Color::Green))],
        &mut Palette::new(),
    );
    let spans = spans_of("ERROR but ok", &finder);
    assert_eq!(spans.len(), 2);
    assert!(spans[0].padded);
    assert!(!spans[1].padded);
}
