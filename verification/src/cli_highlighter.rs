//! The highlighter the command line asks for: the theme's styles for the
//! groups turned on, the user's regexes and keywords, in a fixed order of
//! precedence.
use vstd::prelude::*;
use crate::automaton::{automaton_builds, texts, word_bytes};
use crate::cli::{Base, BaseSet, Extra, dedupe_last_wins, configs_view, config_view, deduped};
use crate::config::{
    DateTimeConfig, DurationConfig, EmailConfig, IpV4Config, IpV6Config, JsonConfig, JvmStackTraceConfig,
    KeyValueConfig, KeywordConfig, NumberConfig, PointerConfig, QuoteConfig, RegexConfig, UnixPathConfig,
    UnixProcessConfig, UrlConfig, UuidConfig,
};
use crate::finders::keyword::{all_words, config_styles, word_styles};
use crate::highlighter::{Highlighter, HighlighterBuilder, HighlighterError};
use crate::matching::{compile, regex_compiles, regex_group_count};
use crate::palette::{extends, interned, interned_all, lemma_interned_all_concat, lemma_interned_all_prefix, lemma_interned_grows, resolves, styles_fit};
use crate::pipeline::{Finder, FinderKind, kind_of, kinds, lemma_kinds_push};
use crate::style::{Color, Style, plain_style};

verus! {

/// The styles of every group, with the user's regexes and keywords.
#[derive(Debug)]
pub struct Theme {
    pub keywords: Vec<KeywordConfig>,
    pub regexes: Vec<RegexConfig>,
    pub numbers: NumberConfig,
    pub uuids: UuidConfig,
    pub quotes: QuoteConfig,
    pub ip_addresses: IpV6Config,
    pub dates: DateTimeConfig,
    pub durations: DurationConfig,
    pub paths: UnixPathConfig,
    pub urls: UrlConfig,
    pub emails: EmailConfig,
    pub pointers: PointerConfig,
    pub processes: UnixProcessConfig,
    pub key_value_pairs: KeyValueConfig,
    pub json: JsonConfig,
    pub jvm_stack_traces: JvmStackTraceConfig,
}

/// A foreground color alone.
pub open spec fn fg_style(c: Color) -> Style {
    Style { fg: Some(c), ..plain_style() }
}

/// One keyword configuration per `--highlight` word, in order, each styled
/// with its color.
pub open spec fn word_configs(cw: Seq<(Color, Vec<String>)>) -> Seq<(Seq<Seq<char>>, Style)>
    decreases cw.len(),
{
    if cw.len() == 0 {
        Seq::empty()
    } else {
        let (c, ws) = cw.last();
        word_configs(cw.drop_last()) + ws@.map_values(|w: String| (seq![w@], fg_style(c)))
    }
}

/// The keywords of a run: the theme's, then one per `--highlight` word,
/// with every word kept only where it is defined last.
pub fn collect_keywords(theme_keywords: Vec<KeywordConfig>, color_words: &[(Color, Vec<String>)]) -> (r: Vec<KeywordConfig>)
    ensures
        ({
            let all = configs_view(theme_keywords@) + word_configs(color_words@);
            configs_view(r@) == deduped(all, all.len() as int)
        }),
{
    let mut all = theme_keywords;
    let ghost base = configs_view(all@);
    let mut i: usize = 0;
    assert(color_words@.take(0) =~= Seq::<(Color, Vec<String>)>::empty());
    assert(configs_view(all@) =~= base + word_configs(color_words@.take(0)));
    while i < color_words.len()
        invariant
            i <= color_words@.len(),
            configs_view(all@) == base + word_configs(color_words@.take(i as int)),
        decreases color_words@.len() - i,
    {
        let color = color_words[i].0;
        let words = &color_words[i].1;
        let ghost before = configs_view(all@);
        let mut j: usize = 0;
        while j < words.len()
            invariant
                j <= words@.len(),
                configs_view(all@) == before + words@.take(j as int).map_values(|w: String| (seq![w@], fg_style(color))),
            decreases words@.len() - j,
        {
            let ghost prev = all@;
            let config = KeywordConfig { words: vec![words[j].clone()], style: Style::new().fg(color) };
            assert(config_view(config) == (seq![words@[j as int]@], fg_style(color))) by {
                assert(config.words@.map_values(|w: String| w@) =~= seq![words@[j as int]@]);
            }
            all.push(config);
            assert(configs_view(all@) =~= configs_view(prev).push(config_view(config)));
            assert(words@.take(j + 1).map_values(|w: String| (seq![w@], fg_style(color))) =~= words@.take(j as int).map_values(
                |w: String| (seq![w@], fg_style(color)),
            ).push((seq![words@[j as int]@], fg_style(color))));
            j = j + 1;
        }
        assert(words@.take(j as int) =~= words@);
        assert(color_words@.take(i + 1).drop_last() =~= color_words@.take(i as int));
        assert(color_words@.take(i + 1).last() == color_words@[i as int]);
        i = i + 1;
    }
    assert(color_words@.take(color_words@.len() as int) =~= color_words@);
    let r = dedupe_last_wins(all);
    r
}

/// `xs` when `cond` holds, nothing otherwise.
pub open spec fn when<A>(cond: bool, xs: Seq<A>) -> Seq<A> {
    if cond { xs } else { Seq::empty() }
}

/// The finders of a run, in order of precedence: JSON, the user's regexes,
/// times and dates, IPv4, IPv6, JVM stack traces, URLs, emails, paths,
/// key-value pairs, UUIDs, pointers, processes, durations, numbers, the
/// keywords, and quotes; each group only when turned on.
pub open spec fn expected_kinds(base: Set<Base>, extras: Set<Extra>, regexes: nat) -> Seq<FinderKind> {
    when(base.contains(Base::Json), seq![FinderKind::Json])
        + Seq::new(regexes, |i: int| FinderKind::Regex)
        + when(base.contains(Base::Dates), seq![FinderKind::DateTime, FinderKind::DateDash])
        + when(base.contains(Base::Ipv4), seq![FinderKind::IpV4])
        + when(extras.contains(Extra::Ipv6), seq![FinderKind::IpV6])
        + when(extras.contains(Extra::JvmStackTrace), seq![FinderKind::JvmStack])
        + when(base.contains(Base::Urls), seq![FinderKind::Url])
        + when(base.contains(Base::Emails), seq![FinderKind::Email])
        + when(base.contains(Base::Paths), seq![FinderKind::UnixPath])
        + when(base.contains(Base::KeyValuePairs), seq![FinderKind::KeyValue])
        + when(base.contains(Base::Uuids), seq![FinderKind::Uuid])
        + when(base.contains(Base::Pointers), seq![FinderKind::Pointer])
        + when(base.contains(Base::Processes), seq![FinderKind::UnixProcess])
        + when(base.contains(Base::Durations), seq![FinderKind::Duration])
        + when(base.contains(Base::Numbers), seq![FinderKind::Number])
        + seq![FinderKind::Keyword]
        + when(base.contains(Base::Quotes), seq![FinderKind::Quote])
}

/// Some regex of the theme does not compile.
pub open spec fn bad_regex(regexes: Seq<RegexConfig>) -> bool {
    exists|i: int| 0 <= i < regexes.len() && !regex_compiles((#[trigger] regexes[i]).regex@, true)
}

/// The IPv4 configuration within the IP address styles.
pub open spec fn ipv4_of(c: IpV6Config) -> IpV4Config {
    IpV4Config { number: c.number, separator: c.separator }
}

/// The IPv4 styles of the IP address styles.
pub fn ipv4_styles(c: IpV6Config) -> (r: IpV4Config)
    ensures
        r == ipv4_of(c),
{
    IpV4Config { number: c.number, separator: c.separator }
}

/// The styles the finder of a group interns, in order.
pub open spec fn group_styles(kind: FinderKind, theme: Theme) -> Seq<Style> {
    match kind {
        FinderKind::Number => seq![theme.numbers.style],
        FinderKind::Quote => seq![theme.quotes.style],
        FinderKind::Uuid => seq![theme.uuids.number, theme.uuids.letter, theme.uuids.separator],
        FinderKind::Pointer => seq![theme.pointers.number, theme.pointers.letter, theme.pointers.x],
        FinderKind::KeyValue => seq![theme.key_value_pairs.key, theme.key_value_pairs.separator],
        FinderKind::UnixProcess => seq![theme.processes.name, theme.processes.id, theme.processes.bracket],
        FinderKind::Email => seq![theme.emails.local_part, theme.emails.at_sign, theme.emails.domain, theme.emails.dot],
        FinderKind::Duration => seq![theme.durations.value, theme.durations.separator, theme.durations.unit],
        FinderKind::IpV4 => seq![theme.ip_addresses.number, theme.ip_addresses.separator],
        FinderKind::IpV6 => seq![theme.ip_addresses.number, theme.ip_addresses.letter, theme.ip_addresses.separator],
        FinderKind::JvmStack => seq![
            theme.jvm_stack_traces.caused_by,
            theme.jvm_stack_traces.package,
            theme.jvm_stack_traces.exception,
            theme.jvm_stack_traces.frame,
            theme.jvm_stack_traces.file,
            theme.jvm_stack_traces.unknown_source,
            theme.jvm_stack_traces.line_number,
        ],
        FinderKind::UnixPath => seq![theme.paths.segment, theme.paths.separator],
        FinderKind::Url => seq![
            theme.urls.http,
            theme.urls.https,
            theme.urls.host,
            theme.urls.path,
            theme.urls.query_params_key,
            theme.urls.query_params_value,
            theme.urls.symbols,
        ],
        FinderKind::Json => seq![
            theme.json.key,
            theme.json.quote_token,
            theme.json.curly_bracket,
            theme.json.square_bracket,
            theme.json.comma,
            theme.json.colon,
        ],
        FinderKind::DateTime => seq![theme.dates.time, theme.dates.zone, theme.dates.separator],
        FinderKind::DateDash => seq![theme.dates.date, theme.dates.separator],
        _ => Seq::empty(),
    }
}

/// The styles of the time finder, then of the date finder.
pub open spec fn date_styles(theme: Theme) -> Seq<Style> {
    seq![theme.dates.time, theme.dates.zone, theme.dates.separator, theme.dates.date, theme.dates.separator]
}

/// The styles the theme's regexes intern: the style of each one that
/// compiles, in order.
pub open spec fn regex_styles(regexes: Seq<RegexConfig>) -> Seq<Style>
    decreases regexes.len(),
{
    if regexes.len() == 0 {
        Seq::empty()
    } else {
        regex_styles(regexes.drop_last()) + when(regex_compiles(regexes.last().regex@, true), seq![regexes.last().style])
    }
}

/// The styles the JSON finder, the regex finders and the time and date
/// finders intern, in order.
pub open spec fn start_styles(base: Set<Base>, theme: Theme) -> Seq<Style> {
    when(base.contains(Base::Json), group_styles(FinderKind::Json, theme))
        + regex_styles(theme.regexes@)
        + when(base.contains(Base::Dates), date_styles(theme))
}

/// `st`, then the styles the finders of addresses, traces and paths intern.
pub open spec fn network_styles(st: Seq<Style>, base: Set<Base>, extras: Set<Extra>, theme: Theme) -> Seq<Style> {
    st + when(base.contains(Base::Ipv4), group_styles(FinderKind::IpV4, theme))
        + when(extras.contains(Extra::Ipv6), group_styles(FinderKind::IpV6, theme))
        + when(extras.contains(Extra::JvmStackTrace), group_styles(FinderKind::JvmStack, theme))
        + when(base.contains(Base::Urls), group_styles(FinderKind::Url, theme))
        + when(base.contains(Base::Emails), group_styles(FinderKind::Email, theme))
        + when(base.contains(Base::Paths), group_styles(FinderKind::UnixPath, theme))
}

/// `st`, then the styles the finders of values intern.
pub open spec fn value_styles(st: Seq<Style>, base: Set<Base>, theme: Theme) -> Seq<Style> {
    st + when(base.contains(Base::KeyValuePairs), group_styles(FinderKind::KeyValue, theme))
        + when(base.contains(Base::Uuids), group_styles(FinderKind::Uuid, theme))
        + when(base.contains(Base::Pointers), group_styles(FinderKind::Pointer, theme))
        + when(base.contains(Base::Processes), group_styles(FinderKind::UnixProcess, theme))
        + when(base.contains(Base::Durations), group_styles(FinderKind::Duration, theme))
        + when(base.contains(Base::Numbers), group_styles(FinderKind::Number, theme))
}

/// The styles a run interns, in the order its finders are added.
#[verifier::opaque]
pub open spec fn run_styles(base: Set<Base>, extras: Set<Extra>, theme: Theme, keywords: Seq<KeywordConfig>) -> Seq<Style> {
    value_styles(network_styles(start_styles(base, theme), base, extras, theme), base, theme)
        + config_styles(keywords)
        + when(base.contains(Base::Quotes), group_styles(FinderKind::Quote, theme))
}

/// Interning `styles` into an empty palette leaves ids that fit in 16 bits.
pub open spec fn fits(styles: Seq<Style>) -> bool {
    interned_all(Seq::empty(), styles).len() <= 0x10000
}

/// The styles of a run's beginning fit when the whole run's do.
proof fn lemma_fits_prefix(a: Seq<Style>, b: Seq<Style>)
    requires
        fits(a + b),
    ensures
        fits(a),
{
    lemma_interned_all_prefix(Seq::empty(), a, b);
}

/// The styles before the address groups fit when theirs do too.
proof fn lemma_network_prefix(st: Seq<Style>, base: Set<Base>, extras: Set<Extra>, theme: Theme)
    requires
        fits(network_styles(st, base, extras, theme)),
    ensures
        fits(st),
{
    let w1 = when(base.contains(Base::Ipv4), group_styles(FinderKind::IpV4, theme));
    let w2 = when(extras.contains(Extra::Ipv6), group_styles(FinderKind::IpV6, theme));
    let w3 = when(extras.contains(Extra::JvmStackTrace), group_styles(FinderKind::JvmStack, theme));
    let w4 = when(base.contains(Base::Urls), group_styles(FinderKind::Url, theme));
    let w5 = when(base.contains(Base::Emails), group_styles(FinderKind::Email, theme));
    let w6 = when(base.contains(Base::Paths), group_styles(FinderKind::UnixPath, theme));
    lemma_fits_prefix(st + w1 + w2 + w3 + w4 + w5, w6);
    lemma_fits_prefix(st + w1 + w2 + w3 + w4, w5);
    lemma_fits_prefix(st + w1 + w2 + w3, w4);
    lemma_fits_prefix(st + w1 + w2, w3);
    lemma_fits_prefix(st + w1, w2);
    lemma_fits_prefix(st, w1);
}

/// The styles before the value groups fit when theirs do too.
proof fn lemma_value_prefix(st: Seq<Style>, base: Set<Base>, theme: Theme)
    requires
        fits(value_styles(st, base, theme)),
    ensures
        fits(st),
{
    let w1 = when(base.contains(Base::KeyValuePairs), group_styles(FinderKind::KeyValue, theme));
    let w2 = when(base.contains(Base::Uuids), group_styles(FinderKind::Uuid, theme));
    let w3 = when(base.contains(Base::Pointers), group_styles(FinderKind::Pointer, theme));
    let w4 = when(base.contains(Base::Processes), group_styles(FinderKind::UnixProcess, theme));
    let w5 = when(base.contains(Base::Durations), group_styles(FinderKind::Duration, theme));
    let w6 = when(base.contains(Base::Numbers), group_styles(FinderKind::Number, theme));
    lemma_fits_prefix(st + w1 + w2 + w3 + w4 + w5, w6);
    lemma_fits_prefix(st + w1 + w2 + w3 + w4, w5);
    lemma_fits_prefix(st + w1 + w2 + w3, w4);
    lemma_fits_prefix(st + w1 + w2, w3);
    lemma_fits_prefix(st + w1, w2);
    lemma_fits_prefix(st, w1);
}

/// One more regex adds its style exactly when it compiles.
proof fn lemma_regex_styles_step(rs: Seq<RegexConfig>, i: int)
    requires
        0 <= i < rs.len(),
    ensures
        regex_styles(rs.take(i + 1)) == regex_styles(rs.take(i)) + when(regex_compiles(rs[i].regex@, true), seq![rs[i].style]),
{
    assert(rs.take(i + 1).drop_last() =~= rs.take(i));
    assert(rs.take(i + 1).last() == rs[i]);
}

/// Every stage of a run whose styles fit has styles that fit.
proof fn lemma_run_prefixes(base: Set<Base>, extras: Set<Extra>, theme: Theme, keywords: Seq<KeywordConfig>)
    requires
        fits(run_styles(base, extras, theme, keywords)),
    ensures
        fits(start_styles(base, theme)),
        fits(network_styles(start_styles(base, theme), base, extras, theme)),
        fits(value_styles(network_styles(start_styles(base, theme), base, extras, theme), base, theme)),
        fits(value_styles(network_styles(start_styles(base, theme), base, extras, theme), base, theme) + config_styles(keywords)),
        run_styles(base, extras, theme, keywords) == value_styles(network_styles(start_styles(base, theme), base, extras, theme), base, theme)
            + config_styles(keywords) + when(base.contains(Base::Quotes), group_styles(FinderKind::Quote, theme)),
{
    let s0 = start_styles(base, theme);
    let s1 = network_styles(s0, base, extras, theme);
    let s2 = value_styles(s1, base, theme);
    let s3 = s2 + config_styles(keywords);
    reveal(run_styles);
    lemma_fits_prefix(s3, when(base.contains(Base::Quotes), group_styles(FinderKind::Quote, theme)));
    lemma_fits_prefix(s2, config_styles(keywords));
    lemma_value_prefix(s1, base, theme);
    lemma_network_prefix(s0, base, extras, theme);
}

/// The styles of the first `i` regexes fit when those of all do.
proof fn lemma_regex_fits(st: Seq<Style>, rs: Seq<RegexConfig>, i: int)
    requires
        fits(st + regex_styles(rs)),
        0 <= i <= rs.len(),
    ensures
        fits(st + regex_styles(rs.take(i))),
    decreases rs.len() - i,
{
    if i == rs.len() {
        assert(rs.take(i) =~= rs);
    } else {
        lemma_regex_fits(st, rs, i + 1);
        lemma_regex_styles_step(rs, i);
        let w = when(regex_compiles(rs[i].regex@, true), seq![rs[i].style]);
        assert(st + regex_styles(rs.take(i + 1)) =~= (st + regex_styles(rs.take(i))) + w);
        lemma_fits_prefix(st + regex_styles(rs.take(i)), w);
    }
}

/// Interning one more style after `a` interns it into the palette of `a`.
proof fn lemma_interned_push(p: Seq<Seq<char>>, a: Seq<Style>, s: Style)
    ensures
        interned_all(p, a.push(s)) == interned(interned_all(p, a), s),
{
    assert(a.push(s).drop_last() =~= a);
}

/// Interning a short list of styles is interning them one after another.
proof fn lemma_interned_1(p: Seq<Seq<char>>, a: Style)
    ensures
        interned_all(p, seq![a]) == interned(p, a),
{
    lemma_interned_push(p, Seq::empty(), a);
    assert(seq![a] =~= Seq::<Style>::empty().push(a));
}

/// The same for two styles.
proof fn lemma_interned_2(p: Seq<Seq<char>>, a: Style, b: Style)
    ensures
        interned_all(p, seq![a, b]) == interned(interned(p, a), b),
{
    lemma_interned_1(p, a);
    lemma_interned_push(p, seq![a], b);
    assert(seq![a, b] =~= seq![a].push(b));
}

/// The same for three styles.
proof fn lemma_interned_3(p: Seq<Seq<char>>, a: Style, b: Style, c: Style)
    ensures
        interned_all(p, seq![a, b, c]) == interned(interned(interned(p, a), b), c),
{
    lemma_interned_2(p, a, b);
    lemma_interned_push(p, seq![a, b], c);
    assert(seq![a, b, c] =~= seq![a, b].push(c));
}

/// The same for four styles.
proof fn lemma_interned_4(p: Seq<Seq<char>>, a: Style, b: Style, c: Style, d: Style)
    ensures
        interned_all(p, seq![a, b, c, d]) == interned(interned(interned(interned(p, a), b), c), d),
{
    lemma_interned_3(p, a, b, c);
    lemma_interned_push(p, seq![a, b, c], d);
    assert(seq![a, b, c, d] =~= seq![a, b, c].push(d));
}

/// The same for five styles.
proof fn lemma_interned_5(p: Seq<Seq<char>>, a: Style, b: Style, c: Style, d: Style, e: Style)
    ensures
        interned_all(p, seq![a, b, c, d, e]) == interned(interned(interned(interned(interned(p, a), b), c), d), e),
{
    lemma_interned_4(p, a, b, c, d);
    lemma_interned_push(p, seq![a, b, c, d], e);
    assert(seq![a, b, c, d, e] =~= seq![a, b, c, d].push(e));
}

/// The same for six styles.
proof fn lemma_interned_6(p: Seq<Seq<char>>, a: Style, b: Style, c: Style, d: Style, e: Style, f: Style)
    ensures
        interned_all(p, seq![a, b, c, d, e, f]) == interned(interned(interned(interned(interned(interned(p, a), b), c), d), e), f),
{
    lemma_interned_5(p, a, b, c, d, e);
    lemma_interned_push(p, seq![a, b, c, d, e], f);
    assert(seq![a, b, c, d, e, f] =~= seq![a, b, c, d, e].push(f));
}

/// The same for seven styles.
proof fn lemma_interned_7(p: Seq<Seq<char>>, a: Style, b: Style, c: Style, d: Style, e: Style, f: Style, g: Style)
    ensures
        interned_all(p, seq![a, b, c, d, e, f, g]) == interned(
            interned(interned(interned(interned(interned(interned(p, a), b), c), d), e), f),
            g,
        ),
{
    lemma_interned_6(p, a, b, c, d, e, f);
    lemma_interned_push(p, seq![a, b, c, d, e, f], g);
    assert(seq![a, b, c, d, e, f, g] =~= seq![a, b, c, d, e, f].push(g));
}

/// What a builder holds so far: well formed, with the palette of interning
/// `styles` in order, the error `e`, and (when there is none) finders of
/// the kinds `ks`.
pub open spec fn tracks(b: HighlighterBuilder, ks: Seq<FinderKind>, e: Option<HighlighterError>, styles: Seq<Style>) -> bool {
    &&& b.wf()
    &&& b.palette() == interned_all(Seq::empty(), styles)
    &&& b.first_error() == e
    &&& e is None ==> kinds(b.finders()) == ks
}

/// Finder `f` is built from the theme's configuration of its group, with
/// its styles resolved in `palette`; a regex finder from the theme's `j`-th
/// regex, and the keyword finder from `keywords`.
pub open spec fn from_theme(f: Finder, theme: Theme, keywords: Seq<KeywordConfig>, palette: Seq<Seq<char>>, j: int) -> bool {
    match f {
        Finder::Number(g) => g.made_from(theme.numbers, palette),
        Finder::Quote(g) => g.made_from(theme.quotes, palette),
        Finder::Uuid(g) => g.made_from(theme.uuids, palette),
        Finder::Pointer(g) => g.made_from(theme.pointers, palette),
        Finder::KeyValue(g) => g.made_from(theme.key_value_pairs, palette),
        Finder::UnixProcess(g) => g.made_from(theme.processes, palette),
        Finder::Email(g) => g.made_from(theme.emails, palette),
        Finder::DateDash(g) => g.made_from(theme.dates, palette),
        Finder::DateTime(g) => g.made_from(theme.dates, palette),
        Finder::Duration(g) => g.made_from(theme.durations, palette),
        Finder::IpV4(g) => g.made_from(ipv4_of(theme.ip_addresses), palette),
        Finder::IpV6(g) => g.made_from(theme.ip_addresses, palette),
        Finder::JvmStack(g) => g.made_from(theme.jvm_stack_traces, palette),
        Finder::UnixPath(g) => g.made_from(theme.paths, palette),
        Finder::Url(g) => g.made_from(theme.urls, palette),
        Finder::Json(g) => g.made_from(theme.json, palette),
        Finder::Regex(g) => {
            &&& 0 <= j < theme.regexes@.len()
            &&& g.regex.source() == theme.regexes@[j].regex@
            &&& g.regex.unicode()
            &&& g.split.single_capture_group == (regex_group_count(theme.regexes@[j].regex@, true) == 2)
            &&& resolves(palette, g.split.style, theme.regexes@[j].style)
        },
        Finder::Keyword(g) => {
            &&& g.keywords.words() == word_bytes(all_words(keywords))
            &&& forall|m: int| 0 <= m < g.styles@.len() ==> {
                &&& resolves(palette, g.styles@[m], #[trigger] word_styles(keywords)[m])
                &&& g.padded@[m] == (word_styles(keywords)[m].bg is Some)
            }
        },
    }
}

/// Every finder of `b` is built from the theme, the regex finders starting
/// at position `off`.
#[verifier::opaque]
pub open spec fn built_from(b: HighlighterBuilder, theme: Theme, keywords: Seq<KeywordConfig>, off: int) -> bool {
    forall|k: int| 0 <= k < b.finders().len() ==> from_theme(#[trigger] b.finders()[k], theme, keywords, b.palette(), k - off)
}

/// Growing the palette and appending finders keeps the earlier finders
/// built from the theme.
proof fn lemma_from_theme_kept(
    old: Seq<Finder>,
    new: Seq<Finder>,
    p_old: Seq<Seq<char>>,
    p_new: Seq<Seq<char>>,
    k: nat,
    theme: Theme,
    keywords: Seq<KeywordConfig>,
    off: int,
)
    requires
        old.len() <= new.len(),
        new.take(old.len() as int) == old,
        extends(p_new, p_old, k),
        forall|i: int| 0 <= i < old.len() ==> from_theme(#[trigger] old[i], theme, keywords, p_old, i - off),
    ensures
        forall|i: int| 0 <= i < old.len() ==> from_theme(#[trigger] new[i], theme, keywords, p_new, i - off),
{
    assert forall|i: int| 0 <= i < old.len() implies from_theme(#[trigger] new[i], theme, keywords, p_new, i - off) by {
        assert(new[i] == new.take(old.len() as int)[i]);
        let f = old[i];
        assert(from_theme(f, theme, keywords, p_old, i - off));
        match f {
            Finder::Keyword(g) => {
                assert forall|m: int| 0 <= m < g.styles@.len() implies {
                    &&& resolves(p_new, g.styles@[m], #[trigger] word_styles(keywords)[m])
                    &&& g.padded@[m] == (word_styles(keywords)[m].bg is Some)
                } by {
                    assert(resolves(p_old, g.styles@[m], word_styles(keywords)[m]));
                }
            },
            _ => {},
        }
    }
}

/// The groups that add one finder of at most seven styles and never fail.
pub open spec fn single_group(kind: FinderKind) -> bool {
    !(kind is Regex || kind is Keyword || kind is DateTime || kind is DateDash)
}

/// Where the regex finders start: after the JSON finder when it is on.
pub open spec fn regex_offset(base: Set<Base>) -> int {
    if base.contains(Base::Json) { 1 } else { 0 }
}

/// The highlighter for the groups turned on: fails with the first regex of
/// the theme that does not compile, or else when the keywords cannot be
/// compiled; otherwise holds the finders of `expected_kinds`. The distinct
/// styles of the run must fit in 16-bit ids (`try_build_highlighter` checks).
#[verifier::spinoff_prover]
#[verifier::rlimit(90)]
pub fn build_highlighter(base: &BaseSet, extras: &[Extra], theme: Theme, keywords: Vec<KeywordConfig>) -> (r: Result<
    Highlighter,
    HighlighterError,
>)
    requires
        fits(run_styles(base@, extras@.to_set(), theme, keywords@)),
    ensures
        r is Err <==> bad_regex(theme.regexes@) || !automaton_builds(texts(all_words(keywords@))),
        bad_regex(theme.regexes@) ==> r matches Err(HighlighterError::Regex(_)),
        !bad_regex(theme.regexes@) && !automaton_builds(texts(all_words(keywords@))) ==> r matches Err(HighlighterError::Pattern(_)),
        r matches Ok(h) ==> kinds(h.finders()) == expected_kinds(base@, extras@.to_set(), theme.regexes@.len()),
        r matches Ok(h) ==> h.palette() == interned_all(Seq::empty(), run_styles(base@, extras@.to_set(), theme, keywords@)),
        r matches Ok(h) ==> forall|k: int| 0 <= k < h.finders().len() ==> from_theme(
            #[trigger] h.finders()[k],
            theme,
            keywords@,
            h.palette(),
            k - regex_offset(base@),
        ),
{
    let ghost nr = theme.regexes@.len();
    let ghost kw = keywords@;
    let ghost off = regex_offset(base@);
    let ghost x = extras@.to_set();
    let ghost s0 = start_styles(base@, theme);
    let ghost s1 = network_styles(s0, base@, x, theme);
    let ghost s2 = value_styles(s1, base@, theme);
    let ghost s3 = s2 + config_styles(kw);
    proof {
        lemma_run_prefixes(base@, x, theme, kw);
    }
    let b = start_builder(base, &theme, Ghost(kw));
    let ghost e = b.first_error();
    let ghost ks = when(base@.contains(Base::Json), seq![FinderKind::Json]) + Seq::new(nr, |m: int| FinderKind::Regex)
        + when(base@.contains(Base::Dates), seq![FinderKind::DateTime, FinderKind::DateDash]);
    let b = add_network_groups(b, base, extras, &theme, Ghost(ks), Ghost(e), Ghost(s0), Ghost(kw), Ghost(off));
    let ghost ks = ks + when(base@.contains(Base::Ipv4), seq![FinderKind::IpV4])
        + when(extras@.to_set().contains(Extra::Ipv6), seq![FinderKind::IpV6])
        + when(extras@.to_set().contains(Extra::JvmStackTrace), seq![FinderKind::JvmStack])
        + when(base@.contains(Base::Urls), seq![FinderKind::Url])
        + when(base@.contains(Base::Emails), seq![FinderKind::Email])
        + when(base@.contains(Base::Paths), seq![FinderKind::UnixPath]);
    let b = add_value_groups(b, base, &theme, Ghost(ks), Ghost(e), Ghost(s1), Ghost(kw), Ghost(off));
    let ghost ks = ks + when(base@.contains(Base::KeyValuePairs), seq![FinderKind::KeyValue])
        + when(base@.contains(Base::Uuids), seq![FinderKind::Uuid])
        + when(base@.contains(Base::Pointers), seq![FinderKind::Pointer])
        + when(base@.contains(Base::Processes), seq![FinderKind::UnixProcess])
        + when(base@.contains(Base::Durations), seq![FinderKind::Duration])
        + when(base@.contains(Base::Numbers), seq![FinderKind::Number]);
    let b = add_keywords(b, keywords, &theme, Ghost(ks), Ghost(s2), Ghost(off));
    let ghost ks = ks.push(FinderKind::Keyword);
    let ghost e = b.first_error();
    let b = add_group(b, base.contains(Base::Quotes), FinderKind::Quote, &theme, Ghost(ks), Ghost(s3), Ghost(kw), Ghost(off));
    let ghost last = b;
    let r = b.build();
    proof {
        if r is Ok {
            let h = r->Ok_0;
            assert(forall|k: int| 0 <= k < h.finders().len() ==> from_theme(
                #[trigger] h.finders()[k],
                theme,
                kw,
                h.palette(),
                k - off,
            )) by {
                reveal(built_from);
                assert(built_from(last, theme, kw, off));
            }
        }
    }
    r
}

/// What `build_highlighter` gives for a run: fails exactly when a regex of
/// the theme does not compile (with that error first) or the keywords
/// cannot be compiled; otherwise holds the finders of `expected_kinds`, built
/// from the theme, over the palette of the run's styles.
#[verifier::opaque]
pub open spec fn built_for(
    r: Result<Highlighter, HighlighterError>,
    base: Set<Base>,
    extras: Set<Extra>,
    theme: Theme,
    keywords: Seq<KeywordConfig>,
) -> bool {
    &&& (r is Err <==> bad_regex(theme.regexes@) || !automaton_builds(texts(all_words(keywords))))
    &&& (bad_regex(theme.regexes@) ==> r matches Err(HighlighterError::Regex(_)))
    &&& (!bad_regex(theme.regexes@) && !automaton_builds(texts(all_words(keywords))) ==> r matches Err(HighlighterError::Pattern(_)))
    &&& (r matches Ok(h) ==> kinds(h.finders()) == expected_kinds(base, extras, theme.regexes@.len()))
    &&& (r matches Ok(h) ==> h.palette() == interned_all(Seq::empty(), run_styles(base, extras, theme, keywords)))
    &&& (r matches Ok(h) ==> forall|k: int| 0 <= k < h.finders().len() ==> from_theme(
        #[trigger] h.finders()[k],
        theme,
        keywords,
        h.palette(),
        k - regex_offset(base),
    ))
}

/// `build_highlighter` where the styles of the run fit in 16-bit ids, and
/// `None` otherwise.
pub fn try_build_highlighter(base: &BaseSet, extras: &[Extra], theme: Theme, keywords: Vec<KeywordConfig>) -> (r: Option<
    Result<Highlighter, HighlighterError>,
>)
    ensures
        r is None <==> !fits(run_styles(base@, extras@.to_set(), theme, keywords@)),
        r matches Some(b) ==> built_for(b, base@, extras@.to_set(), theme, keywords@),
{
    if run_fits(base, extras, &theme, keywords.as_slice()) {
        let ghost t = theme;
        let ghost kw = keywords@;
        let b = build_highlighter(base, extras, theme, keywords);
        assert(built_for(b, base@, extras@.to_set(), t, kw)) by {
            reveal(built_for);
        }
        Some(b)
    } else {
        None
    }
}

/// A builder with the JSON finder when its group is on, a finder for each
/// regex of the theme, and the time and date finders when their group is
/// on.
fn start_builder(base: &BaseSet, theme: &Theme, Ghost(kw): Ghost<Seq<KeywordConfig>>) -> (r: HighlighterBuilder)
    requires
        fits(start_styles(base@, *theme)),
    ensures
        tracks(r, when(base@.contains(Base::Json), seq![FinderKind::Json]) + Seq::new(theme.regexes@.len(), |m: int| FinderKind::Regex)
            + when(base@.contains(Base::Dates), seq![FinderKind::DateTime, FinderKind::DateDash]), r.first_error(), start_styles(base@, *theme)),
        r.has_error() == bad_regex(theme.regexes@),
        r.has_error() ==> r.first_error() matches Some(HighlighterError::Regex(_)),
        r.first_error() is None ==> built_from(r, *theme, kw, regex_offset(base@)),
{
    let ghost nr = theme.regexes@.len();
    let ghost off = regex_offset(base@);
    let ghost w0 = when(base@.contains(Base::Json), group_styles(FinderKind::Json, *theme));
    let ghost rs = regex_styles(theme.regexes@);
    let ghost ds = when(base@.contains(Base::Dates), date_styles(*theme));
    let b = Highlighter::builder();
    let ghost ks: Seq<FinderKind> = Seq::empty();
    proof {
        assert(kinds(b.finders()) =~= ks);
        assert(built_from(b, *theme, kw, off)) by {
            reveal(built_from);
        }
        lemma_fits_prefix(w0 + rs, ds);
        lemma_fits_prefix(w0, rs);
        assert(Seq::<Style>::empty() + w0 =~= w0);
    }
    let b = add_group(b, base.contains(Base::Json), FinderKind::Json, theme, Ghost(ks), Ghost(Seq::empty()), Ghost(kw), Ghost(off));
    let ghost ks = ks + when(base@.contains(Base::Json), seq![FinderKind::Json]);
    proof {
        assert(b.finders().len() == kinds(b.finders()).len());
    }
    let b = add_regexes(b, theme, Ghost(ks), Ghost(w0), Ghost(kw), Ghost(off));
    let ghost e = b.first_error();
    let ghost ks = ks + Seq::new(nr, |m: int| FinderKind::Regex);
    add_dates(b, base.contains(Base::Dates), theme, Ghost(ks), Ghost(e), Ghost(w0 + rs), Ghost(kw), Ghost(off))
}

/// Adds the finder of one group when `on` holds.
fn add_group(
    b: HighlighterBuilder,
    on: bool,
    kind: FinderKind,
    theme: &Theme,
    Ghost(ks): Ghost<Seq<FinderKind>>,
    Ghost(st): Ghost<Seq<Style>>,
    Ghost(kw): Ghost<Seq<KeywordConfig>>,
    Ghost(off): Ghost<int>,
) -> (r: HighlighterBuilder)
    requires
        tracks(b, ks, b.first_error(), st),
        fits(st + when(on, group_styles(kind, *theme))),
        single_group(kind),
        b.first_error() is None ==> built_from(b, *theme, kw, off),
    ensures
        tracks(r, ks + when(on, seq![kind]), b.first_error(), st + when(on, group_styles(kind, *theme))),
        b.first_error() is None ==> built_from(r, *theme, kw, off),
{
    if !on {
        assert(ks + when(on, seq![kind]) =~= ks);
        assert(st + when(on, group_styles(kind, *theme)) =~= st);
        return b;
    }
    let ghost old = b.finders();
    let ghost p = b.palette();
    let ghost gs = group_styles(kind, *theme);
    proof {
        lemma_interned_all_concat(Seq::empty(), st, gs);
        assert(interned_all(p, gs).len() <= 0x10000);
    }
    let r = match kind {
        FinderKind::Number => {
            proof { lemma_interned_1(p, theme.numbers.style); }
            b.with_number_highlighter(theme.numbers)
        },
        FinderKind::Quote => {
            proof { lemma_interned_1(p, theme.quotes.style); }
            b.with_quote_highlighter(theme.quotes)
        },
        FinderKind::Uuid => {
            proof { lemma_interned_3(p, theme.uuids.number, theme.uuids.letter, theme.uuids.separator); }
            b.with_uuid_highlighter(theme.uuids)
        },
        FinderKind::Pointer => {
            proof { lemma_interned_3(p, theme.pointers.number, theme.pointers.letter, theme.pointers.x); }
            b.with_pointer_highlighter(theme.pointers)
        },
        FinderKind::KeyValue => {
            proof { lemma_interned_2(p, theme.key_value_pairs.key, theme.key_value_pairs.separator); }
            b.with_key_value_highlighter(theme.key_value_pairs)
        },
        FinderKind::UnixProcess => {
            proof { lemma_interned_3(p, theme.processes.name, theme.processes.id, theme.processes.bracket); }
            b.with_unix_process_highlighter(theme.processes)
        },
        FinderKind::Email => {
            proof { lemma_interned_4(p, theme.emails.local_part, theme.emails.at_sign, theme.emails.domain, theme.emails.dot); }
            b.with_email_highlighter(theme.emails)
        },
        FinderKind::Duration => {
            proof { lemma_interned_3(p, theme.durations.value, theme.durations.separator, theme.durations.unit); }
            b.with_duration_highlighter(theme.durations)
        },
        FinderKind::IpV4 => {
            proof { lemma_interned_2(p, theme.ip_addresses.number, theme.ip_addresses.separator); }
            b.with_ip_v4_highlighter(ipv4_styles(theme.ip_addresses))
        },
        FinderKind::IpV6 => {
            proof { lemma_interned_3(p, theme.ip_addresses.number, theme.ip_addresses.letter, theme.ip_addresses.separator); }
            b.with_ip_v6_highlighter(theme.ip_addresses)
        },
        FinderKind::JvmStack => {
            proof {
                let c = theme.jvm_stack_traces;
                lemma_interned_7(p, c.caused_by, c.package, c.exception, c.frame, c.file, c.unknown_source, c.line_number);
            }
            b.with_jvm_stack_trace_highlighter(theme.jvm_stack_traces)
        },
        FinderKind::UnixPath => {
            proof { lemma_interned_2(p, theme.paths.segment, theme.paths.separator); }
            b.with_unix_path_highlighter(theme.paths)
        },
        FinderKind::Url => {
            proof {
                let c = theme.urls;
                lemma_interned_7(p, c.http, c.https, c.host, c.path, c.query_params_key, c.query_params_value, c.symbols);
            }
            b.with_url_highlighter(theme.urls)
        },
        _ => {
            proof {
                let c = theme.json;
                lemma_interned_6(p, c.key, c.quote_token, c.curly_bracket, c.square_bracket, c.comma, c.colon);
            }
            b.with_json_highlighter(theme.json)
        },
    };
    proof {
        assert(r.palette() == interned_all(p, gs));
        if !r.has_error() {
            lemma_kinds_push(old, r.finders());
            assert(kind_of(r.finders().last()) == kind);
            assert(ks + when(on, seq![kind]) =~= ks.push(kind));
            lemma_grown_from_theme(b, r, 7, *theme, kw, off);
        }
    }
    r
}

/// Adds the keyword finder.
fn add_keywords(
    b: HighlighterBuilder,
    keywords: Vec<KeywordConfig>,
    theme: &Theme,
    Ghost(ks): Ghost<Seq<FinderKind>>,
    Ghost(st): Ghost<Seq<Style>>,
    Ghost(off): Ghost<int>,
) -> (r: HighlighterBuilder)
    requires
        tracks(b, ks, b.first_error(), st),
        fits(st + config_styles(keywords@)),
        b.first_error() is None ==> built_from(b, *theme, keywords@, off),
    ensures
        tracks(r, ks.push(FinderKind::Keyword), r.first_error(), st + config_styles(keywords@)),
        r.has_error() == (b.has_error() || !automaton_builds(texts(all_words(keywords@)))),
        b.has_error() ==> r.first_error() == b.first_error(),
        !b.has_error() && !automaton_builds(texts(all_words(keywords@))) ==> r.first_error() matches Some(HighlighterError::Pattern(_)),
        r.first_error() is None ==> built_from(r, *theme, keywords@, off),
{
    let ghost kw = keywords@;
    let ghost old_k = b.finders();
    let ghost old_b = b;
    proof {
        lemma_interned_all_concat(Seq::empty(), st, config_styles(kw));
    }
    let r = b.with_keyword_highlighter(keywords);
    proof {
        if !r.has_error() {
            lemma_kinds_push(old_k, r.finders());
            assert(r.finders().take(old_k.len() as int) =~= r.finders().drop_last());
            lemma_grown_from_theme(old_b, r, kw.len(), *theme, kw, off);
        }
    }
    r
}

/// A builder that gained one finder built from the theme, over a builder
/// built from the theme, is built from the theme.
proof fn lemma_grown_from_theme(b: HighlighterBuilder, r: HighlighterBuilder, k: nat, theme: Theme, kw: Seq<KeywordConfig>, off: int)
    requires
        built_from(b, theme, kw, off),
        r.finders().len() == b.finders().len() + 1,
        r.finders().take(b.finders().len() as int) == b.finders(),
        extends(r.palette(), b.palette(), k),
        from_theme(r.finders().last(), theme, kw, r.palette(), b.finders().len() - off),
    ensures
        built_from(r, theme, kw, off),
{
    reveal(built_from);
    lemma_from_theme_kept(b.finders(), r.finders(), b.palette(), r.palette(), k, theme, kw, off);
    assert forall|i: int| 0 <= i < r.finders().len() implies from_theme(#[trigger] r.finders()[i], theme, kw, r.palette(), i - off) by {
        if i < b.finders().len() {
            assert(from_theme(r.finders()[i], theme, kw, r.palette(), i - off));
        }
    }
}

/// Adds the finders of the groups of addresses, traces and paths that are
/// turned on, in order.
fn add_network_groups(b: HighlighterBuilder, base: &BaseSet, extras: &[Extra], theme: &Theme, Ghost(ks): Ghost<Seq<FinderKind>>, Ghost(e): Ghost<Option<HighlighterError>>, Ghost(st): Ghost<Seq<Style>>, Ghost(kw): Ghost<Seq<KeywordConfig>>, Ghost(off): Ghost<int>) -> (r: HighlighterBuilder)
    requires
        tracks(b, ks, e, st),
        b.first_error() == e,
        fits(network_styles(st, base@, extras@.to_set(), *theme)),
        e is None ==> built_from(b, *theme, kw, off),
    ensures
        tracks(r, ks + when(base@.contains(Base::Ipv4), seq![FinderKind::IpV4])
            + when(extras@.to_set().contains(Extra::Ipv6), seq![FinderKind::IpV6])
            + when(extras@.to_set().contains(Extra::JvmStackTrace), seq![FinderKind::JvmStack])
            + when(base@.contains(Base::Urls), seq![FinderKind::Url])
            + when(base@.contains(Base::Emails), seq![FinderKind::Email])
            + when(base@.contains(Base::Paths), seq![FinderKind::UnixPath]), e, network_styles(st, base@, extras@.to_set(), *theme)),
        e is None ==> built_from(r, *theme, kw, off),
{
    let has_ipv6 = extras_contains(extras, Extra::Ipv6);
    let has_jvm = extras_contains(extras, Extra::JvmStackTrace);
    let ghost x = extras@.to_set();
    let ghost w1 = when(base@.contains(Base::Ipv4), group_styles(FinderKind::IpV4, *theme));
    let ghost w2 = when(x.contains(Extra::Ipv6), group_styles(FinderKind::IpV6, *theme));
    let ghost w3 = when(x.contains(Extra::JvmStackTrace), group_styles(FinderKind::JvmStack, *theme));
    let ghost w4 = when(base@.contains(Base::Urls), group_styles(FinderKind::Url, *theme));
    let ghost w5 = when(base@.contains(Base::Emails), group_styles(FinderKind::Email, *theme));
    proof {
        let w6 = when(base@.contains(Base::Paths), group_styles(FinderKind::UnixPath, *theme));
        lemma_fits_prefix(st + w1 + w2 + w3 + w4 + w5, w6);
        lemma_fits_prefix(st + w1 + w2 + w3 + w4, w5);
        lemma_fits_prefix(st + w1 + w2 + w3, w4);
        lemma_fits_prefix(st + w1 + w2, w3);
        lemma_fits_prefix(st + w1, w2);
        assert(has_ipv6 == x.contains(Extra::Ipv6));
        assert(has_jvm == x.contains(Extra::JvmStackTrace));
    }
    let b = add_group(b, base.contains(Base::Ipv4), FinderKind::IpV4, theme, Ghost(ks), Ghost(st), Ghost(kw), Ghost(off));
    let ghost ks = ks + when(base@.contains(Base::Ipv4), seq![FinderKind::IpV4]);
    let b = add_group(b, has_ipv6, FinderKind::IpV6, theme, Ghost(ks), Ghost(st + w1), Ghost(kw), Ghost(off));
    let ghost ks = ks + when(extras@.to_set().contains(Extra::Ipv6), seq![FinderKind::IpV6]);
    let b = add_group(b, has_jvm, FinderKind::JvmStack, theme, Ghost(ks), Ghost(st + w1 + w2), Ghost(kw), Ghost(off));
    let ghost ks = ks + when(extras@.to_set().contains(Extra::JvmStackTrace), seq![FinderKind::JvmStack]);
    let b = add_group(b, base.contains(Base::Urls), FinderKind::Url, theme, Ghost(ks), Ghost(st + w1 + w2 + w3), Ghost(kw), Ghost(off));
    let ghost ks = ks + when(base@.contains(Base::Urls), seq![FinderKind::Url]);
    let b = add_group(b, base.contains(Base::Emails), FinderKind::Email, theme, Ghost(ks), Ghost(st + w1 + w2 + w3 + w4), Ghost(kw), Ghost(off));
    let ghost ks = ks + when(base@.contains(Base::Emails), seq![FinderKind::Email]);
    add_group(b, base.contains(Base::Paths), FinderKind::UnixPath, theme, Ghost(ks), Ghost(st + w1 + w2 + w3 + w4 + w5), Ghost(kw), Ghost(off))
}

/// Adds the finders of the groups of values that are turned on, in order.
fn add_value_groups(b: HighlighterBuilder, base: &BaseSet, theme: &Theme, Ghost(ks): Ghost<Seq<FinderKind>>, Ghost(e): Ghost<Option<HighlighterError>>, Ghost(st): Ghost<Seq<Style>>, Ghost(kw): Ghost<Seq<KeywordConfig>>, Ghost(off): Ghost<int>) -> (r: HighlighterBuilder)
    requires
        tracks(b, ks, e, st),
        b.first_error() == e,
        fits(value_styles(st, base@, *theme)),
        e is None ==> built_from(b, *theme, kw, off),
    ensures
        tracks(r, ks + when(base@.contains(Base::KeyValuePairs), seq![FinderKind::KeyValue])
            + when(base@.contains(Base::Uuids), seq![FinderKind::Uuid])
            + when(base@.contains(Base::Pointers), seq![FinderKind::Pointer])
            + when(base@.contains(Base::Processes), seq![FinderKind::UnixProcess])
            + when(base@.contains(Base::Durations), seq![FinderKind::Duration])
            + when(base@.contains(Base::Numbers), seq![FinderKind::Number]), e, value_styles(st, base@, *theme)),
        e is None ==> built_from(r, *theme, kw, off),
{
    let ghost w1 = when(base@.contains(Base::KeyValuePairs), group_styles(FinderKind::KeyValue, *theme));
    let ghost w2 = when(base@.contains(Base::Uuids), group_styles(FinderKind::Uuid, *theme));
    let ghost w3 = when(base@.contains(Base::Pointers), group_styles(FinderKind::Pointer, *theme));
    let ghost w4 = when(base@.contains(Base::Processes), group_styles(FinderKind::UnixProcess, *theme));
    let ghost w5 = when(base@.contains(Base::Durations), group_styles(FinderKind::Duration, *theme));
    proof {
        let w6 = when(base@.contains(Base::Numbers), group_styles(FinderKind::Number, *theme));
        lemma_fits_prefix(st + w1 + w2 + w3 + w4 + w5, w6);
        lemma_fits_prefix(st + w1 + w2 + w3 + w4, w5);
        lemma_fits_prefix(st + w1 + w2 + w3, w4);
        lemma_fits_prefix(st + w1 + w2, w3);
        lemma_fits_prefix(st + w1, w2);
    }
    let b = add_group(b, base.contains(Base::KeyValuePairs), FinderKind::KeyValue, theme, Ghost(ks), Ghost(st), Ghost(kw), Ghost(off));
    let ghost ks = ks + when(base@.contains(Base::KeyValuePairs), seq![FinderKind::KeyValue]);
    let b = add_group(b, base.contains(Base::Uuids), FinderKind::Uuid, theme, Ghost(ks), Ghost(st + w1), Ghost(kw), Ghost(off));
    let ghost ks = ks + when(base@.contains(Base::Uuids), seq![FinderKind::Uuid]);
    let b = add_group(b, base.contains(Base::Pointers), FinderKind::Pointer, theme, Ghost(ks), Ghost(st + w1 + w2), Ghost(kw), Ghost(off));
    let ghost ks = ks + when(base@.contains(Base::Pointers), seq![FinderKind::Pointer]);
    let b = add_group(b, base.contains(Base::Processes), FinderKind::UnixProcess, theme, Ghost(ks), Ghost(st + w1 + w2 + w3), Ghost(kw), Ghost(off));
    let ghost ks = ks + when(base@.contains(Base::Processes), seq![FinderKind::UnixProcess]);
    let b = add_group(b, base.contains(Base::Durations), FinderKind::Duration, theme, Ghost(ks), Ghost(st + w1 + w2 + w3 + w4), Ghost(kw), Ghost(off));
    let ghost ks = ks + when(base@.contains(Base::Durations), seq![FinderKind::Duration]);
    add_group(b, base.contains(Base::Numbers), FinderKind::Number, theme, Ghost(ks), Ghost(st + w1 + w2 + w3 + w4 + w5), Ghost(kw), Ghost(off))
}

/// Adds the time and date finders when `on` holds.
fn add_dates(
    b: HighlighterBuilder,
    on: bool,
    theme: &Theme,
    Ghost(ks): Ghost<Seq<FinderKind>>,
    Ghost(e): Ghost<Option<HighlighterError>>,
    Ghost(st): Ghost<Seq<Style>>,
    Ghost(kw): Ghost<Seq<KeywordConfig>>,
    Ghost(off): Ghost<int>,
) -> (r: HighlighterBuilder)
    requires
        tracks(b, ks, e, st),
        fits(st + when(on, date_styles(*theme))),
        e is None ==> built_from(b, *theme, kw, off),
    ensures
        tracks(r, ks + when(on, seq![FinderKind::DateTime, FinderKind::DateDash]), e, st + when(on, date_styles(*theme))),
        e is None ==> built_from(r, *theme, kw, off),
{
    if !on {
        assert(ks + when(on, seq![FinderKind::DateTime, FinderKind::DateDash]) =~= ks);
        assert(st + when(on, date_styles(*theme)) =~= st);
        return b;
    }
    let ghost old = b.finders();
    proof {
        let c = theme.dates;
        lemma_interned_all_concat(Seq::empty(), st, date_styles(*theme));
        lemma_interned_5(b.palette(), c.time, c.zone, c.separator, c.date, c.separator);
    }
    let r = b.with_date_time_highlighters(theme.dates);
    proof {
        if !r.has_error() {
            let mid = r.finders().take(old.len() + 1int);
            assert(mid.take(old.len() as int) =~= r.finders().take(old.len() as int));
            lemma_kinds_push(old, mid);
            assert(r.finders().take(mid.len() as int) =~= mid);
            lemma_kinds_push(mid, r.finders());
            assert(mid.last() == r.finders()[r.finders().len() - 2]);
            assert(ks + seq![FinderKind::DateTime, FinderKind::DateDash] =~= ks.push(FinderKind::DateTime).push(FinderKind::DateDash));
            let n = old.len() as int;
            reveal(built_from);
            lemma_from_theme_kept(old, r.finders(), b.palette(), r.palette(), 5, *theme, kw, off);
            assert forall|i: int| 0 <= i < r.finders().len() implies from_theme(#[trigger] r.finders()[i], *theme, kw, r.palette(), i - off) by {
                if i < n {
                    assert(from_theme(r.finders()[i], *theme, kw, r.palette(), i - off));
                } else if i == n {
                    assert(r.finders()[i] == r.finders()[r.finders().len() - 2]);
                } else {
                    assert(r.finders()[i] == r.finders().last());
                }
            }
        }
    }
    r
}

/// Adds a finder for each regex of the theme, in order.
fn add_regexes(
    b: HighlighterBuilder,
    theme: &Theme,
    Ghost(ks): Ghost<Seq<FinderKind>>,
    Ghost(st): Ghost<Seq<Style>>,
    Ghost(kw): Ghost<Seq<KeywordConfig>>,
    Ghost(off): Ghost<int>,
) -> (r: HighlighterBuilder)
    requires
        tracks(b, ks, None, st),
        fits(st + regex_styles(theme.regexes@)),
        built_from(b, *theme, kw, off),
        b.finders().len() == off,
    ensures
        tracks(r, ks + Seq::new(theme.regexes@.len(), |m: int| FinderKind::Regex), r.first_error(), st + regex_styles(theme.regexes@)),
        r.has_error() == bad_regex(theme.regexes@),
        r.has_error() ==> r.first_error() matches Some(HighlighterError::Regex(_)),
        !r.has_error() ==> built_from(r, *theme, kw, off),
{
    let regexes = &theme.regexes;
    let mut b = b;
    let mut i: usize = 0;
    proof {
        assert(regexes@.take(0) =~= Seq::<RegexConfig>::empty());
        assert(st + regex_styles(regexes@.take(0)) =~= st);
        assert(ks + Seq::new(0, |m: int| FinderKind::Regex) =~= ks);
    }
    while i < regexes.len()
        invariant
            regexes == &theme.regexes,
            i <= regexes@.len(),
            fits(st + regex_styles(regexes@)),
            !b.has_error() ==> built_from(b, *theme, kw, off) && b.finders().len() == off + i,
            tracks(b, ks + Seq::new(i as nat, |m: int| FinderKind::Regex), b.first_error(), st + regex_styles(regexes@.take(i as int))),
            b.has_error() == exists|m: int| 0 <= m < i && !regex_compiles((#[trigger] regexes@[m]).regex@, true),
            b.has_error() ==> b.first_error() matches Some(HighlighterError::Regex(_)),
        decreases regexes@.len() - i,
    {
        let config = RegexConfig { regex: regexes[i].regex.clone(), style: regexes[i].style };
        let ghost old_b = b;
        let ghost old = b.finders();
        let ghost p = b.palette();
        let ghost before = st + regex_styles(regexes@.take(i as int));
        proof {
            assert(config.regex@ == regexes@[i as int].regex@);
            lemma_regex_fits(st, regexes@, i + 1);
            lemma_regex_styles_step(regexes@, i as int);
            if regex_compiles(config.regex@, true) {
                assert(st + regex_styles(regexes@.take(i + 1)) =~= before.push(config.style));
                lemma_interned_push(Seq::empty(), before, config.style);
                lemma_interned_grows(p, config.style);
            } else {
                assert(st + regex_styles(regexes@.take(i + 1)) =~= before);
            }
        }
        b = b.with_regex_highlighter(config);
        proof {
            reveal(interned);
            if !b.has_error() {
                assert(b.finders().take(old.len() as int) =~= b.finders().drop_last());
                lemma_kinds_push(old, b.finders());
                assert(config.regex@ == theme.regexes@[i as int].regex@);
                lemma_grown_from_theme(old_b, b, 1, *theme, kw, off);
                assert(ks + Seq::new((i + 1) as nat, |m: int| FinderKind::Regex) =~= (ks + Seq::new(
                    i as nat,
                    |m: int| FinderKind::Regex,
                )).push(FinderKind::Regex));
            }
            if !regex_compiles(regexes@[i as int].regex@, true) {
                assert(0 <= i < i + 1 && !regex_compiles(regexes@[i as int].regex@, true));
            }
        }
        i = i + 1;
    }
    assert(regexes@.take(regexes@.len() as int) =~= regexes@);
    b
}

/// Whether the styles a run interns fit in 16-bit ids, which
/// `build_highlighter` needs.
#[verifier::spinoff_prover]
#[verifier::rlimit(80)]
pub fn run_fits(base: &BaseSet, extras: &[Extra], theme: &Theme, keywords: &[KeywordConfig]) -> (r: bool)
    ensures
        r == fits(run_styles(base@, extras@.to_set(), *theme, keywords@)),
{
    let mut v: Vec<Style> = Vec::new();
    push_group(&mut v, base.contains(Base::Json), FinderKind::Json, theme);
    let ghost v0 = v@;
    let mut i: usize = 0;
    assert(theme.regexes@.take(0) =~= Seq::<RegexConfig>::empty());
    assert(v@ =~= v0 + regex_styles(theme.regexes@.take(0)));
    while i < theme.regexes.len()
        invariant
            i <= theme.regexes@.len(),
            v@ == v0 + regex_styles(theme.regexes@.take(i as int)),
        decreases theme.regexes@.len() - i,
    {
        let ok = compile(theme.regexes[i].regex.as_str(), true).is_ok();
        let ghost before = v@;
        if ok {
            v.push(theme.regexes[i].style);
        }
        proof {
            lemma_regex_styles_step(theme.regexes@, i as int);
            assert(v@ =~= v0 + regex_styles(theme.regexes@.take(i + 1)));
        }
        i = i + 1;
    }
    assert(theme.regexes@.take(theme.regexes@.len() as int) =~= theme.regexes@);
    let dates = base.contains(Base::Dates);
    if dates {
        v.push(theme.dates.time);
        v.push(theme.dates.zone);
        v.push(theme.dates.separator);
        v.push(theme.dates.date);
        v.push(theme.dates.separator);
    }
    assert(v@ =~= start_styles(base@, *theme));
    let ghost s0 = v@;
    let has_ipv6 = extras_contains(extras, Extra::Ipv6);
    let has_jvm = extras_contains(extras, Extra::JvmStackTrace);
    proof {
        assert(has_ipv6 == extras@.to_set().contains(Extra::Ipv6));
        assert(has_jvm == extras@.to_set().contains(Extra::JvmStackTrace));
    }
    push_group(&mut v, base.contains(Base::Ipv4), FinderKind::IpV4, theme);
    push_group(&mut v, has_ipv6, FinderKind::IpV6, theme);
    push_group(&mut v, has_jvm, FinderKind::JvmStack, theme);
    push_group(&mut v, base.contains(Base::Urls), FinderKind::Url, theme);
    push_group(&mut v, base.contains(Base::Emails), FinderKind::Email, theme);
    push_group(&mut v, base.contains(Base::Paths), FinderKind::UnixPath, theme);
    assert(v@ == network_styles(s0, base@, extras@.to_set(), *theme));
    let ghost s1 = v@;
    push_group(&mut v, base.contains(Base::KeyValuePairs), FinderKind::KeyValue, theme);
    push_group(&mut v, base.contains(Base::Uuids), FinderKind::Uuid, theme);
    push_group(&mut v, base.contains(Base::Pointers), FinderKind::Pointer, theme);
    push_group(&mut v, base.contains(Base::Processes), FinderKind::UnixProcess, theme);
    push_group(&mut v, base.contains(Base::Durations), FinderKind::Duration, theme);
    push_group(&mut v, base.contains(Base::Numbers), FinderKind::Number, theme);
    assert(v@ == value_styles(s1, base@, *theme));
    let ghost v1 = v@;
    let mut k: usize = 0;
    assert(v@ =~= v1 + config_styles(keywords@.take(0)));
    while k < keywords.len()
        invariant
            k <= keywords@.len(),
            v@ == v1 + config_styles(keywords@.take(k as int)),
        decreases keywords@.len() - k,
    {
        v.push(keywords[k].style);
        assert(config_styles(keywords@.take(k + 1)) =~= config_styles(keywords@.take(k as int)).push(keywords@[k as int].style));
        assert(v@ =~= v1 + config_styles(keywords@.take(k + 1)));
        k = k + 1;
    }
    assert(keywords@.take(keywords@.len() as int) =~= keywords@);
    push_group(&mut v, base.contains(Base::Quotes), FinderKind::Quote, theme);
    assert(v@ == run_styles(base@, extras@.to_set(), *theme, keywords@)) by {
        reveal(run_styles);
    }
    styles_fit(&v)
}

/// Appends the styles of a group when `on` holds.
fn push_group(v: &mut Vec<Style>, on: bool, kind: FinderKind, theme: &Theme)
    requires
        single_group(kind),
    ensures
        final(v)@ == old(v)@ + when(on, group_styles(kind, *theme)),
{
    let ghost start = v@;
    if on {
        match kind {
            FinderKind::Number => v.push(theme.numbers.style),
            FinderKind::Quote => v.push(theme.quotes.style),
            FinderKind::Uuid => {
                v.push(theme.uuids.number);
                v.push(theme.uuids.letter);
                v.push(theme.uuids.separator);
            },
            FinderKind::Pointer => {
                v.push(theme.pointers.number);
                v.push(theme.pointers.letter);
                v.push(theme.pointers.x);
            },
            FinderKind::KeyValue => {
                v.push(theme.key_value_pairs.key);
                v.push(theme.key_value_pairs.separator);
            },
            FinderKind::UnixProcess => {
                v.push(theme.processes.name);
                v.push(theme.processes.id);
                v.push(theme.processes.bracket);
            },
            FinderKind::Email => {
                v.push(theme.emails.local_part);
                v.push(theme.emails.at_sign);
                v.push(theme.emails.domain);
                v.push(theme.emails.dot);
            },
            FinderKind::Duration => {
                v.push(theme.durations.value);
                v.push(theme.durations.separator);
                v.push(theme.durations.unit);
            },
            FinderKind::IpV4 => {
                v.push(theme.ip_addresses.number);
                v.push(theme.ip_addresses.separator);
            },
            FinderKind::IpV6 => {
                v.push(theme.ip_addresses.number);
                v.push(theme.ip_addresses.letter);
                v.push(theme.ip_addresses.separator);
            },
            FinderKind::JvmStack => {
                v.push(theme.jvm_stack_traces.caused_by);
                v.push(theme.jvm_stack_traces.package);
                v.push(theme.jvm_stack_traces.exception);
                v.push(theme.jvm_stack_traces.frame);
                v.push(theme.jvm_stack_traces.file);
                v.push(theme.jvm_stack_traces.unknown_source);
                v.push(theme.jvm_stack_traces.line_number);
            },
            FinderKind::UnixPath => {
                v.push(theme.paths.segment);
                v.push(theme.paths.separator);
            },
            FinderKind::Url => {
                v.push(theme.urls.http);
                v.push(theme.urls.https);
                v.push(theme.urls.host);
                v.push(theme.urls.path);
                v.push(theme.urls.query_params_key);
                v.push(theme.urls.query_params_value);
                v.push(theme.urls.symbols);
            },
            _ => {
                v.push(theme.json.key);
                v.push(theme.json.quote_token);
                v.push(theme.json.curly_bracket);
                v.push(theme.json.square_bracket);
                v.push(theme.json.comma);
                v.push(theme.json.colon);
            },
        }
    }
    assert(v@ =~= start + when(on, group_styles(kind, *theme)));
}

/// Whether `extras` asks for `x`.
fn extras_contains(extras: &[Extra], x: Extra) -> (r: bool)
    ensures
        r == extras@.contains(x),
{
    let mut k: usize = 0;
    while k < extras.len()
        invariant
            k <= extras@.len(),
            forall|j: int| 0 <= j < k ==> extras@[j] != x,
        decreases extras@.len() - k,
    {
        if extras[k] == x {
            assert(extras@[k as int] == x);
            return true;
        }
        k = k + 1;
    }
    false
}

} // verus!
