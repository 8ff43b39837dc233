use tailspin::config::{IpV4Config, IpV6Config, UnixPathConfig, UrlConfig};
use tailspin::finders::ip_v4::IpV4Finder;
use tailspin::finders::ip_v6::IpV6Finder;
use tailspin::finders::unix_path::UnixPathFinder;
use tailspin::finders::url::UrlFinder;
use tailspin::palette::Palette;
use tailspin::pipeline::Finder;
use tailspin::span::{Collector, Span};
use tailspin::style::{Color, Style};

fn spans_of(input: &str, finder: &Finder) -> Vec<Span> {
    let mut collector = Collector::new();
    finder.find_spans(input, &mut collector);
    collector.into_spans()
}

fn span_texts<'a>(input: &'a str, finder: &Finder) -> Vec<&'a str> {
    spans_of(input, finder).iter().map(|s| &input[s.start..s.end]).collect()
}

// IPv4

fn ip_v4_finder() -> Finder {
    Finder::IpV4(IpV4Finder::new(
        IpV4Config { number: Style::new().fg(Color::Blue), separator: Style::new().fg(Color::Red) },
        &mut Palette::new(),
    ))
}

#[test]
fn valid_ipv4() {
    let texts = span_texts("10.0.0.123", &ip_v4_finder());
    assert_eq!(texts, ["10", ".", "0", ".", "0", ".", "123"]);
}

#[test]
fn ipv4_with_cidr() {
    let texts = span_texts("192.168.0.1/24", &ip_v4_finder());
    assert!(texts.contains(&"192"));
    assert!(texts.contains(&"1"));
    assert!(texts.contains(&"/"));
    assert!(texts.contains(&"24"));
}

#[test]
fn all_zeros() {
    let texts = span_texts("0.0.0.0", &ip_v4_finder());
    assert_eq!(texts, ["0", ".", "0", ".", "0", ".", "0"]);
}

#[test]
fn octet_over_255_no_match() {
    assert!(span_texts("256.1.1.1", &ip_v4_finder()).is_empty());
}

#[test]
fn all_999_no_match() {
    assert!(span_texts("999.999.999.999", &ip_v4_finder()).is_empty());
}

#[test]
fn mask_over_32_no_match() {
    assert!(span_texts("192.168.0.1/33", &ip_v4_finder()).is_empty());
}

#[test]
fn partial_address_no_match() {
    assert!(span_texts("1.2.3", &ip_v4_finder()).is_empty());
}

// IPv6

fn ip_v6_finder() -> Finder {
    Finder::IpV6(IpV6Finder::new(
        IpV6Config {
            number: Style::new().fg(Color::Blue),
            letter: Style::new().fg(Color::Yellow),
            separator: Style::new().fg(Color::Red),
        },
        &mut Palette::new(),
    ))
}

fn ip_v6_span_count(input: &str) -> usize {
    spans_of(input, &ip_v6_finder()).len()
}

fn ip_v6_matched_range(input: &str) -> Option<(usize, usize)> {
    let spans = spans_of(input, &ip_v6_finder());
    if spans.is_empty() {
        None
    } else {
        Some((spans.first().unwrap().start, spans.last().unwrap().end))
    }
}

#[test]
fn full_ipv6() {
    assert!(ip_v6_span_count("2001:db8:0:0:0:ff00:42:8329") > 0);
}

#[test]
fn compressed_ipv6() {
    assert!(ip_v6_span_count("2001:db8::ff00:42:8329") > 0);
}

#[test]
fn loopback() {
    assert!(ip_v6_span_count("::1") > 0);
}

#[test]
fn ipv4_mapped() {
    assert!(ip_v6_span_count("::ffff:127.0.0.1") > 0);
}

#[test]
fn cidr_notation() {
    let input = "fe80::/10";
    let (start, end) = ip_v6_matched_range(input).unwrap();
    assert_eq!(start, 0);
    assert_eq!(end, input.len());
}

#[test]
fn mask_over_128_no_match() {
    assert_eq!(ip_v6_span_count("fe80::/129"), 0);
}

#[test]
fn dual_stack_ipv4_in_ipv6() {
    assert!(ip_v6_span_count("2001:db8:85a3::8a2e:192.0.2.33") > 0);
}

#[test]
fn plain_ipv4_no_match() {
    assert_eq!(ip_v6_span_count("Not ipv4: 192.168.0.1"), 0);
}

#[test]
fn time_like_no_match() {
    assert_eq!(ip_v6_span_count("11:47:39:850"), 0);
}

#[test]
fn slash_separated_no_match() {
    assert_eq!(ip_v6_span_count("123/234/345/456"), 0);
}

// Unix paths

fn path_finder() -> Finder {
    Finder::UnixPath(UnixPathFinder::new(
        UnixPathConfig { segment: Style::new().fg(Color::Green), separator: Style::new().fg(Color::Yellow) },
        &mut Palette::new(),
    ))
}

#[test]
fn absolute_path() {
    let texts = span_texts("/user/local", &path_finder());
    assert_eq!(texts, ["/", "user", "/", "local"]);
}

#[test]
fn deep_path() {
    let texts = span_texts("/var/log/nginx/error.log", &path_finder());
    assert_eq!(texts, ["/", "var", "/", "log", "/", "nginx", "/", "error.log"]);
}

#[test]
fn home_relative_path() {
    let texts = span_texts("~/projects/rust/tailspin", &path_finder());
    assert_eq!(texts, ["~", "/", "projects", "/", "rust", "/", "tailspin"]);
}

#[test]
fn dot_relative_path() {
    let texts = span_texts("./a/b", &path_finder());
    assert_eq!(texts, [".", "/", "a", "/", "b"]);
}

#[test]
fn network_path() {
    let texts = span_texts("//network/share", &path_finder());
    assert_eq!(texts, ["//", "network", "/", "share"]);
}

#[test]
fn hidden_directory() {
    let texts = span_texts("/path/.hidden/file", &path_finder());
    assert_eq!(texts, ["/", "path", "/", ".hidden", "/", "file"]);
}

#[test]
fn path_in_context() {
    let texts = span_texts("See /etc/hosts please", &path_finder());
    assert_eq!(texts, ["/", "etc", "/", "hosts"]);
}

#[test]
fn trailing_slash_not_highlighted() {
    let texts = span_texts("/usr/local/", &path_finder());
    assert!(texts.contains(&"usr"));
    assert!(texts.contains(&"local"));
    let spans = spans_of("/usr/local/", &path_finder());
    let last = spans.last().unwrap();
    assert_eq!(&"/usr/local/"[last.start..last.end], "local");
}

#[test]
fn three_segments_without_leading_slash_no_match() {
    assert!(span_texts("a/b/c", &path_finder()).is_empty());
}

#[test]
fn single_segment_no_match() {
    assert!(span_texts("justtext", &path_finder()).is_empty());
}

#[test]
fn two_segments_without_leading_slash_no_match() {
    assert!(span_texts("name/name", &path_finder()).is_empty());
}

#[test]
fn slash_separated_numbers_no_match() {
    assert!(span_texts("123/234/345/456", &path_finder()).is_empty());
}

// URLs

fn url_finder() -> Finder {
    Finder::Url(UrlFinder::new(
        UrlConfig {
            http: Style::new().fg(Color::Red),
            https: Style::new().fg(Color::Green),
            host: Style::new().fg(Color::Blue),
            path: Style::new().fg(Color::Cyan),
            query_params_key: Style::new().fg(Color::Magenta),
            query_params_value: Style::new().fg(Color::Yellow),
            symbols: Style::new().fg(Color::White),
        },
        &mut Palette::new(),
    ))
}

#[test]
fn matches_url_with_port() {
    let input = "http://localhost:8080/path";
    let texts = span_texts(input, &url_finder());
    assert!(texts.contains(&"http"));
    assert!(texts.contains(&"localhost"));
    assert!(texts.contains(&":"));
    assert!(texts.contains(&"8080"));
    assert!(texts.contains(&"/path"));
}

#[test]
fn matches_url_without_port() {
    let input = "https://example.com/foo";
    let texts = span_texts(input, &url_finder());
    assert!(texts.contains(&"https"));
    assert!(texts.contains(&"example.com"));
    assert!(texts.contains(&"/foo"));
    assert!(!texts.contains(&":"));
}

#[test]
fn matches_url_with_port_and_query() {
    let input = "http://api.dev:3000/v1?key=val";
    let texts = span_texts(input, &url_finder());
    assert!(texts.contains(&"api.dev"));
    assert!(texts.contains(&"3000"));
    assert!(texts.contains(&"key"));
    assert!(texts.contains(&"val"));
}

#[test]
fn no_match_returns_no_spans() {
    let spans = spans_of("no urls here", &url_finder());
    assert!(spans.is_empty());
}
