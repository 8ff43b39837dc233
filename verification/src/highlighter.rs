use vstd::prelude::*;
use std::borrow::Cow;
use crate::config::{default_json, default_date_time, default_ip_v4, default_url, default_email, default_unix_path,
    default_key_value, default_uuid, default_pointer, default_unix_process, default_duration, default_number, default_quote,
    NumberConfig, QuoteConfig, UuidConfig, UnixPathConfig, UnixProcessConfig, DurationConfig,
    KeyValueConfig, DateTimeConfig, IpV6Config, JvmStackTraceConfig, IpV4Config, UrlConfig, EmailConfig, PointerConfig,
    RegexConfig, JsonConfig, KeywordConfig};
use crate::finders::number::NumberFinder;
use crate::finders::quote::QuoteFinder;
use crate::finders::uuid::UuidFinder;
use crate::finders::unix_path::UnixPathFinder;
use crate::finders::unix_process::UnixProcessFinder;
use crate::finders::duration::DurationFinder;
use crate::finders::key_value::KeyValueFinder;
use crate::finders::date_time::DateTimeFinder;
use crate::finders::date_dash::DateDashFinder;
use crate::finders::ip_v6::IpV6Finder;
use crate::finders::jvm_stack::JvmStackFinder;
use crate::finders::ip_v4::IpV4Finder;
use crate::finders::url::UrlFinder;
use crate::finders::email::EmailFinder;
use crate::finders::pointer::PointerFinder;
use crate::finders::user_regex::RegexFinder;
use crate::finders::json::JsonFinder;
use crate::finders::keyword::{KeywordFinder, all_words, config_styles, word_styles};
use crate::automaton::{automaton_builds, texts, word_bytes};
use crate::matching::{regex_compiles, regex_group_count};
use crate::style::ansi_prefix;
use crate::palette::{can_intern, interned, interned_all, intern_spec, lemma_interned_all_grows, lemma_extends_trans, resolves, Palette, extends};
use crate::pipeline::{Finder, FinderKind, Pipeline, finders_wf, highlighted, collected, kinds};
use crate::text::{bytes_of, is_ascii_byte};
use crate::finders::spans_ok;
use crate::style::sgr_like;

verus! {

/// An error produced while building a `Highlighter`.
#[derive(Debug)]
pub enum HighlighterError {
    /// A custom regex pattern failed to compile.
    Regex(regex::Error),
    /// A keyword set could not be compiled into a keyword searcher.
    Pattern(aho_corasick::BuildError),
}

/// A pattern-based log highlighter: applies its configured finders to text
/// and returns the text with ANSI styling.
#[derive(Debug)]
pub struct Highlighter {
    inner: Pipeline,
}

impl Highlighter {
    #[verifier::type_invariant]
    spec fn inv(self) -> bool {
        self.inner.wf()
    }

    /// The finders, in priority order.
    pub closed spec fn finders(&self) -> Seq<Finder> {
        self.inner.finders()
    }

    /// The palette of the finders' styles.
    pub closed spec fn palette(&self) -> Seq<Seq<char>> {
        self.inner.palette()
    }

    /// A builder with no finder.
    pub fn builder() -> (b: HighlighterBuilder)
        ensures
            b.wf(),
            b.finders() == Seq::<Finder>::empty(),
            b.palette() == Seq::<Seq<char>>::empty(),
            !b.has_error(),
    {
        HighlighterBuilder { finders: Vec::new(), palette: Palette::new(), first_error: None }
    }

    /// Applies the configured highlights: every finder's spans (each
    /// non-empty, with both ends on character boundaries) are merged (finders
    /// added earlier win overlaps) and rendered; the input comes back borrowed
    /// exactly when nothing matched.
    pub fn apply<'a>(&self, input: &'a str) -> (out: Cow<'a, str>)
        ensures
            highlighted(self.finders(), self.palette(), input, vstd::utf8::encode_utf8(out@)),
            forall|i: int| 0 <= i < self.palette().len() ==> sgr_like(#[trigger] self.palette()[i]),
            spans_ok(bytes_of(input), collected(self.finders(), input, self.finders().len() as int)),
            (collected(self.finders(), input, self.finders().len() as int).len() == 0) == (out matches Cow::Borrowed(_)),
    {
        proof {
            use_type_invariant(self);
        }
        self.inner.apply_sequential(input)
    }
}

/// The finders of the default highlighter, in order of precedence.
pub open spec fn default_kinds() -> Seq<FinderKind> {
    seq![
        FinderKind::Json,
        FinderKind::DateTime,
        FinderKind::DateDash,
        FinderKind::IpV4,
        FinderKind::Url,
        FinderKind::Email,
        FinderKind::UnixPath,
        FinderKind::KeyValue,
        FinderKind::Uuid,
        FinderKind::Pointer,
        FinderKind::UnixProcess,
        FinderKind::Duration,
        FinderKind::Number,
        FinderKind::Quote,
    ]
}

impl Default for Highlighter {
    /// A highlighter with the common patterns, in this order of precedence:
    /// JSON, times, dates, IPv4 addresses, URLs, emails, Unix paths,
    /// key-value pairs, UUIDs, pointers, Unix processes, durations, numbers
    /// and quotes.
    #[verifier::spinoff_prover]
    #[verifier::rlimit(60)]
    fn default() -> (h: Self)
        ensures
            kinds(h.finders()) == default_kinds(),
            h.finders()[0] matches Finder::Json(f) && f.made_from(default_json(), h.palette()),
            h.finders()[1] matches Finder::DateTime(f) && f.made_from(default_date_time(), h.palette()),
            h.finders()[2] matches Finder::DateDash(f) && f.made_from(default_date_time(), h.palette()),
            h.finders()[3] matches Finder::IpV4(f) && f.made_from(default_ip_v4(), h.palette()),
            h.finders()[4] matches Finder::Url(f) && f.made_from(default_url(), h.palette()),
            h.finders()[5] matches Finder::Email(f) && f.made_from(default_email(), h.palette()),
            h.finders()[6] matches Finder::UnixPath(f) && f.made_from(default_unix_path(), h.palette()),
            h.finders()[7] matches Finder::KeyValue(f) && f.made_from(default_key_value(), h.palette()),
            h.finders()[8] matches Finder::Uuid(f) && f.made_from(default_uuid(), h.palette()),
            h.finders()[9] matches Finder::Pointer(f) && f.made_from(default_pointer(), h.palette()),
            h.finders()[10] matches Finder::UnixProcess(f) && f.made_from(default_unix_process(), h.palette()),
            h.finders()[11] matches Finder::Duration(f) && f.made_from(default_duration(), h.palette()),
            h.finders()[12] matches Finder::Number(f) && f.made_from(default_number(), h.palette()),
            h.finders()[13] matches Finder::Quote(f) && f.made_from(default_quote(), h.palette()),
    {
        let b0 = Highlighter::builder();
        let b1 = b0.with_json_highlighter(JsonConfig::default());
        let ghost (f1, p1) = (b1.finders(), b1.palette());
        let b2 = b1.with_date_time_highlighters(DateTimeConfig::default());
        let ghost (f2, p2) = (b2.finders(), b2.palette());
        let b3 = b2.with_ip_v4_highlighter(IpV4Config::default());
        let ghost (f3, p3) = (b3.finders(), b3.palette());
        let b4 = b3.with_url_highlighter(UrlConfig::default());
        let ghost (f4, p4) = (b4.finders(), b4.palette());
        let b5 = b4.with_email_highlighter(EmailConfig::default());
        let ghost (f5, p5) = (b5.finders(), b5.palette());
        let b6 = b5.with_unix_path_highlighter(UnixPathConfig::default());
        let ghost (f6, p6) = (b6.finders(), b6.palette());
        let b7 = b6.with_key_value_highlighter(KeyValueConfig::default());
        let ghost (f7, p7) = (b7.finders(), b7.palette());
        let b8 = b7.with_uuid_highlighter(UuidConfig::default());
        let ghost (f8, p8) = (b8.finders(), b8.palette());
        let b9 = b8.with_pointer_highlighter(PointerConfig::default());
        let ghost (f9, p9) = (b9.finders(), b9.palette());
        let b10 = b9.with_unix_process_highlighter(UnixProcessConfig::default());
        let ghost (f10, p10) = (b10.finders(), b10.palette());
        let b11 = b10.with_duration_highlighter(DurationConfig::default());
        let ghost (f11, p11) = (b11.finders(), b11.palette());
        let b12 = b11.with_number_highlighter(NumberConfig::default());
        let ghost (f12, p12) = (b12.finders(), b12.palette());
        let b13 = b12.with_quote_highlighter(QuoteConfig::default());
        let ghost (f13, p13) = (b13.finders(), b13.palette());
        proof {
            lemma_extends_trans(p11, p12, p13, 3, 1);
            lemma_extends_trans(p10, p11, p13, 3, 4);
            lemma_extends_trans(p9, p10, p13, 3, 7);
            lemma_extends_trans(p8, p9, p13, 3, 10);
            lemma_extends_trans(p7, p8, p13, 3, 13);
            lemma_extends_trans(p6, p7, p13, 2, 16);
            lemma_extends_trans(p5, p6, p13, 2, 18);
            lemma_extends_trans(p4, p5, p13, 4, 20);
            lemma_extends_trans(p3, p4, p13, 7, 24);
            lemma_extends_trans(p2, p3, p13, 2, 31);
            lemma_extends_trans(p1, p2, p13, 5, 33);
            assert(f13[0] == f1[0]);
            assert(f13[1] == f2[1] && f13[2] == f2[2]);
            assert(f13[3] == f3[3]);
            assert(f13[4] == f4[4]);
            assert(f13[5] == f5[5]);
            assert(f13[6] == f6[6]);
            assert(f13[7] == f7[7]);
            assert(f13[8] == f8[8]);
            assert(f13[9] == f9[9]);
            assert(f13[10] == f10[10]);
            assert(f13[11] == f11[11]);
            assert(f13[12] == f12[12]);
            assert(f13.len() == 14);
            assert(kinds(f13) =~= default_kinds());
        }
        b13.build().unwrap()
    }
}

/// Builder for configuring a `Highlighter`. When two highlighters match
/// overlapping text, the one added first wins.
#[derive(Debug)]
pub struct HighlighterBuilder {
    finders: Vec<Finder>,
    palette: Palette,
    first_error: Option<HighlighterError>,
}

impl HighlighterBuilder {
    /// The finders added so far, in order.
    pub closed spec fn finders(&self) -> Seq<Finder> {
        self.finders@
    }

    /// The palette of the finders' styles.
    pub closed spec fn palette(&self) -> Seq<Seq<char>> {
        self.palette@
    }

    /// Whether some finder failed to build.
    pub open spec fn has_error(&self) -> bool {
        self.first_error() is Some
    }

    /// The error of the first step that failed, if any.
    pub closed spec fn first_error(&self) -> Option<HighlighterError> {
        self.first_error
    }

    /// The palette is well formed and the finders use its styles.
    pub closed spec fn wf(&self) -> bool {
        self.palette.wf() && finders_wf(self.finders@, self.palette@.len())
    }

    /// Room for `k` more styles in the palette.
    pub open spec fn room(&self, k: nat) -> bool {
        self.palette().len() + k <= 0x10000
    }

    /// The builder after a step that adds `n` finders (none once an
    /// earlier step failed) and at most `k` styles, and does not fail.
    pub open spec fn added(&self, old: HighlighterBuilder, k: nat, n: nat) -> bool {
        &&& self.wf()
        &&& self.has_error() == old.has_error()
        &&& self.first_error() == old.first_error()
        &&& extends(self.palette(), old.palette(), k)
        &&& old.has_error() ==> self.finders() == old.finders()
        &&& !old.has_error() ==> self.finders().len() == old.finders().len() + n
            && self.finders().take(old.finders().len() as int) == old.finders()
    }

    proof fn lemma_palette_grows(&self, old_palette: Seq<Seq<char>>)
        requires
            finders_wf(self.finders@, old_palette.len()),
            old_palette.len() <= self.palette@.len(),
        ensures
            finders_wf(self.finders@, self.palette@.len()),
    {
    }

    fn add_finder(&mut self, finder: Finder)
        requires
            old(self).palette.wf(),
            finders_wf(old(self).finders@, old(self).palette@.len()),
            finder.wf(),
            forall|j: int| 0 <= j < finder.styles().len() ==> (finder.styles()[j].0 as int) < old(self).palette@.len(),
        ensures
            final(self).wf(),
            final(self).palette@ == old(self).palette@,
            final(self).has_error() == old(self).has_error(),
            final(self).first_error() == old(self).first_error(),
            old(self).has_error() ==> final(self).finders() == old(self).finders(),
            !old(self).has_error() ==> final(self).finders() == old(self).finders().push(finder),
    {
        if self.first_error.is_some() {
            return;
        }
        self.finders.push(finder);
    }

    fn record_error(&mut self, e: HighlighterError)
        requires
            old(self).palette.wf(),
            finders_wf(old(self).finders@, old(self).palette@.len()),
        ensures
            final(self).wf(),
            final(self).palette@ == old(self).palette@,
            final(self).has_error(),
            final(self).finders() == old(self).finders(),
            old(self).has_error() ==> final(self).first_error() == old(self).first_error(),
            !old(self).has_error() ==> final(self).first_error() == Some(e),
    {
        if self.first_error.is_none() {
            self.first_error = Some(e);
        }
    }

    /// Adds a highlighter for numbers.
    pub fn with_number_highlighter(self, config: NumberConfig) -> (b: Self)
        requires
            self.wf(),
            self.room(1) || interned(self.palette(), config.style).len() <= 0x10000,
        ensures
            b.palette() == interned(self.palette(), config.style),
            b.added(self, 1, 1),
            !self.has_error() ==> (b.finders().last() matches Finder::Number(f) && f.made_from(config, b.palette())),
    {
        let ghost old_finders = self.finders@;
        let mut b = self;
        let ghost old_palette = b.palette@;
        proof { reveal(interned); }
        let f = NumberFinder::new(config, &mut b.palette);
        proof { b.lemma_palette_grows(old_palette); }
        b.add_finder(Finder::Number(f));
        assert(!b.has_error() ==> b.finders().take(old_finders.len() as int) =~= old_finders);
        b
    }

    /// Adds a highlighter for UUIDs.
    pub fn with_uuid_highlighter(self, config: UuidConfig) -> (b: Self)
        requires
            self.wf(),
            self.room(3) || interned(interned(interned(self.palette(), config.number), config.letter), config.separator).len() <= 0x10000,
        ensures
            b.palette() == interned(interned(interned(self.palette(), config.number), config.letter), config.separator),
            b.added(self, 3, 1),
            !self.has_error() ==> (b.finders().last() matches Finder::Uuid(f) && f.made_from(config, b.palette())),
    {
        let ghost old_finders = self.finders@;
        let mut b = self;
        let ghost old_palette = b.palette@;
        proof { reveal(interned); }
        let f = UuidFinder::new(config, &mut b.palette);
        proof { b.lemma_palette_grows(old_palette); }
        b.add_finder(Finder::Uuid(f));
        assert(!b.has_error() ==> b.finders().take(old_finders.len() as int) =~= old_finders);
        b
    }

    /// Adds a highlighter for Unix file paths.
    pub fn with_unix_path_highlighter(self, config: UnixPathConfig) -> (b: Self)
        requires
            self.wf(),
            self.room(2) || interned(interned(self.palette(), config.segment), config.separator).len() <= 0x10000,
        ensures
            b.palette() == interned(interned(self.palette(), config.segment), config.separator),
            b.added(self, 2, 1),
            !self.has_error() ==> (b.finders().last() matches Finder::UnixPath(f) && f.made_from(config, b.palette())),
    {
        let ghost old_finders = self.finders@;
        let mut b = self;
        let ghost old_palette = b.palette@;
        proof { reveal(interned); }
        let f = UnixPathFinder::new(config, &mut b.palette);
        proof { b.lemma_palette_grows(old_palette); }
        b.add_finder(Finder::UnixPath(f));
        assert(!b.has_error() ==> b.finders().take(old_finders.len() as int) =~= old_finders);
        b
    }

    /// Adds a highlighter for Unix processes.
    pub fn with_unix_process_highlighter(self, config: UnixProcessConfig) -> (b: Self)
        requires
            self.wf(),
            self.room(3) || interned(interned(interned(self.palette(), config.name), config.id), config.bracket).len() <= 0x10000,
        ensures
            b.palette() == interned(interned(interned(self.palette(), config.name), config.id), config.bracket),
            b.added(self, 3, 1),
            !self.has_error() ==> (b.finders().last() matches Finder::UnixProcess(f) && f.made_from(config, b.palette())),
    {
        let ghost old_finders = self.finders@;
        let mut b = self;
        let ghost old_palette = b.palette@;
        proof { reveal(interned); }
        let f = UnixProcessFinder::new(config, &mut b.palette);
        proof { b.lemma_palette_grows(old_palette); }
        b.add_finder(Finder::UnixProcess(f));
        assert(!b.has_error() ==> b.finders().take(old_finders.len() as int) =~= old_finders);
        b
    }

    /// Adds a highlighter for durations.
    pub fn with_duration_highlighter(self, config: DurationConfig) -> (b: Self)
        requires
            self.wf(),
            self.room(3) || interned(interned(interned(self.palette(), config.value), config.separator), config.unit).len() <= 0x10000,
        ensures
            b.palette() == interned(interned(interned(self.palette(), config.value), config.separator), config.unit),
            b.added(self, 3, 1),
            !self.has_error() ==> (b.finders().last() matches Finder::Duration(f) && f.made_from(config, b.palette())),
    {
        let ghost old_finders = self.finders@;
        let mut b = self;
        let ghost old_palette = b.palette@;
        proof { reveal(interned); }
        let f = DurationFinder::new(config, &mut b.palette);
        proof { b.lemma_palette_grows(old_palette); }
        b.add_finder(Finder::Duration(f));
        assert(!b.has_error() ==> b.finders().take(old_finders.len() as int) =~= old_finders);
        b
    }

    /// Adds a highlighter for key-value pairs.
    pub fn with_key_value_highlighter(self, config: KeyValueConfig) -> (b: Self)
        requires
            self.wf(),
            self.room(2) || interned(interned(self.palette(), config.key), config.separator).len() <= 0x10000,
        ensures
            b.palette() == interned(interned(self.palette(), config.key), config.separator),
            b.added(self, 2, 1),
            !self.has_error() ==> (b.finders().last() matches Finder::KeyValue(f) && f.made_from(config, b.palette())),
    {
        let ghost old_finders = self.finders@;
        let mut b = self;
        let ghost old_palette = b.palette@;
        proof { reveal(interned); }
        let f = KeyValueFinder::new(config, &mut b.palette);
        proof { b.lemma_palette_grows(old_palette); }
        b.add_finder(Finder::KeyValue(f));
        assert(!b.has_error() ==> b.finders().take(old_finders.len() as int) =~= old_finders);
        b
    }

    /// Adds a highlighter for IPv6 addresses.
    pub fn with_ip_v6_highlighter(self, config: IpV6Config) -> (b: Self)
        requires
            self.wf(),
            self.room(3) || interned(interned(interned(self.palette(), config.number), config.letter), config.separator).len() <= 0x10000,
        ensures
            b.palette() == interned(interned(interned(self.palette(), config.number), config.letter), config.separator),
            b.added(self, 3, 1),
            !self.has_error() ==> (b.finders().last() matches Finder::IpV6(f) && f.made_from(config, b.palette())),
    {
        let ghost old_finders = self.finders@;
        let mut b = self;
        let ghost old_palette = b.palette@;
        proof { reveal(interned); }
        let f = IpV6Finder::new(config, &mut b.palette);
        proof { b.lemma_palette_grows(old_palette); }
        b.add_finder(Finder::IpV6(f));
        assert(!b.has_error() ==> b.finders().take(old_finders.len() as int) =~= old_finders);
        b
    }

    /// Adds a highlighter for JVM stack traces (Java, Kotlin, Scala, etc.).
    pub fn with_jvm_stack_trace_highlighter(self, config: JvmStackTraceConfig) -> (b: Self)
        requires
            self.wf(),
            self.room(7) || interned(interned(interned(interned(interned(interned(interned(self.palette(), config.caused_by), config.package), config.exception), config.frame), config.file), config.unknown_source), config.line_number).len() <= 0x10000,
        ensures
            b.palette() == interned(interned(interned(interned(interned(interned(interned(self.palette(), config.caused_by), config.package), config.exception), config.frame), config.file), config.unknown_source), config.line_number),
            b.added(self, 7, 1),
            !self.has_error() ==> (b.finders().last() matches Finder::JvmStack(f) && f.made_from(config, b.palette())),
    {
        let ghost old_finders = self.finders@;
        let mut b = self;
        let ghost old_palette = b.palette@;
        proof { reveal(interned); }
        let f = JvmStackFinder::new(config, &mut b.palette);
        proof { b.lemma_palette_grows(old_palette); }
        b.add_finder(Finder::JvmStack(f));
        assert(!b.has_error() ==> b.finders().take(old_finders.len() as int) =~= old_finders);
        b
    }

    /// Adds a highlighter for IPv4 addresses.
    pub fn with_ip_v4_highlighter(self, config: IpV4Config) -> (b: Self)
        requires
            self.wf(),
            self.room(2) || interned(interned(self.palette(), config.number), config.separator).len() <= 0x10000,
        ensures
            b.palette() == interned(interned(self.palette(), config.number), config.separator),
            b.added(self, 2, 1),
            !self.has_error() ==> (b.finders().last() matches Finder::IpV4(f) && f.made_from(config, b.palette())),
    {
        let ghost old_finders = self.finders@;
        let mut b = self;
        let ghost old_palette = b.palette@;
        proof { reveal(interned); }
        let f = IpV4Finder::new(config, &mut b.palette);
        proof { b.lemma_palette_grows(old_palette); }
        b.add_finder(Finder::IpV4(f));
        assert(!b.has_error() ==> b.finders().take(old_finders.len() as int) =~= old_finders);
        b
    }

    /// Adds a highlighter for URLs.
    pub fn with_url_highlighter(self, config: UrlConfig) -> (b: Self)
        requires
            self.wf(),
            self.room(7) || interned(interned(interned(interned(interned(interned(interned(self.palette(), config.http), config.https), config.host), config.path), config.query_params_key), config.query_params_value), config.symbols).len() <= 0x10000,
        ensures
            b.palette() == interned(interned(interned(interned(interned(interned(interned(self.palette(), config.http), config.https), config.host), config.path), config.query_params_key), config.query_params_value), config.symbols),
            b.added(self, 7, 1),
            !self.has_error() ==> (b.finders().last() matches Finder::Url(f) && f.made_from(config, b.palette())),
    {
        let ghost old_finders = self.finders@;
        let mut b = self;
        let ghost old_palette = b.palette@;
        proof { reveal(interned); }
        let f = UrlFinder::new(config, &mut b.palette);
        proof { b.lemma_palette_grows(old_palette); }
        b.add_finder(Finder::Url(f));
        assert(!b.has_error() ==> b.finders().take(old_finders.len() as int) =~= old_finders);
        b
    }

    /// Adds a highlighter for email addresses.
    pub fn with_email_highlighter(self, config: EmailConfig) -> (b: Self)
        requires
            self.wf(),
            self.room(4) || interned(interned(interned(interned(self.palette(), config.local_part), config.at_sign), config.domain), config.dot).len() <= 0x10000,
        ensures
            b.palette() == interned(interned(interned(interned(self.palette(), config.local_part), config.at_sign), config.domain), config.dot),
            b.added(self, 4, 1),
            !self.has_error() ==> (b.finders().last() matches Finder::Email(f) && f.made_from(config, b.palette())),
    {
        let ghost old_finders = self.finders@;
        let mut b = self;
        let ghost old_palette = b.palette@;
        proof { reveal(interned); }
        let f = EmailFinder::new(config, &mut b.palette);
        proof { b.lemma_palette_grows(old_palette); }
        b.add_finder(Finder::Email(f));
        assert(!b.has_error() ==> b.finders().take(old_finders.len() as int) =~= old_finders);
        b
    }

    /// Adds a highlighter for memory pointers.
    pub fn with_pointer_highlighter(self, config: PointerConfig) -> (b: Self)
        requires
            self.wf(),
            self.room(3) || interned(interned(interned(self.palette(), config.number), config.letter), config.x).len() <= 0x10000,
        ensures
            b.palette() == interned(interned(interned(self.palette(), config.number), config.letter), config.x),
            b.added(self, 3, 1),
            !self.has_error() ==> (b.finders().last() matches Finder::Pointer(f) && f.made_from(config, b.palette())),
    {
        let ghost old_finders = self.finders@;
        let mut b = self;
        let ghost old_palette = b.palette@;
        proof { reveal(interned); }
        let f = PointerFinder::new(config, &mut b.palette);
        proof { b.lemma_palette_grows(old_palette); }
        b.add_finder(Finder::Pointer(f));
        assert(!b.has_error() ==> b.finders().take(old_finders.len() as int) =~= old_finders);
        b
    }

    /// Adds a highlighter for quoted regions of an ASCII quote byte.
    pub fn with_quote_highlighter(self, config: QuoteConfig) -> (b: Self)
        requires
            self.wf(),
            self.room(1) || interned(self.palette(), config.style).len() <= 0x10000,
        ensures
            b.added(self, 1, 1),
            b.palette() == interned(self.palette(), config.style),
            !self.has_error() ==> (b.finders().last() matches Finder::Quote(f) && f.made_from(config, b.palette())),
    {
        let ghost old_finders = self.finders@;
        let mut b = self;
        let ghost old_palette = b.palette@;
        proof { reveal(interned); }
        let f = QuoteFinder::new(config, &mut b.palette);
        proof { b.lemma_palette_grows(old_palette); }
        b.add_finder(Finder::Quote(f));
        assert(!b.has_error() ==> b.finders().take(old_finders.len() as int) =~= old_finders);
        b
    }

    /// Adds a highlighter for JSON structures.
    pub fn with_json_highlighter(self, config: JsonConfig) -> (b: Self)
        requires
            self.wf(),
            self.room(6) || interned(interned(interned(interned(interned(interned(self.palette(), config.key), config.quote_token), config.curly_bracket), config.square_bracket), config.comma), config.colon).len() <= 0x10000,
        ensures
            b.palette() == interned(interned(interned(interned(interned(interned(self.palette(), config.key), config.quote_token), config.curly_bracket), config.square_bracket), config.comma), config.colon),
            b.added(self, 6, 1),
            !self.has_error() ==> (b.finders().last() matches Finder::Json(f) && f.made_from(config, b.palette())),
    {
        let ghost old_finders = self.finders@;
        let mut b = self;
        let ghost old_palette = b.palette@;
        proof { reveal(interned); }
        let f = JsonFinder::new(config, &mut b.palette);
        proof { b.lemma_palette_grows(old_palette); }
        b.add_finder(Finder::Json(f));
        assert(!b.has_error() ==> b.finders().take(old_finders.len() as int) =~= old_finders);
        b
    }

    /// Adds highlighters for dates and times: times first, then dates.
    pub fn with_date_time_highlighters(self, config: DateTimeConfig) -> (b: Self)
        requires
            self.wf(),
            self.room(5) || interned(interned(interned(interned(interned(self.palette(), config.time), config.zone), config.separator), config.date), config.separator).len() <= 0x10000,
        ensures
            b.palette() == interned(interned(interned(interned(interned(self.palette(), config.time), config.zone), config.separator), config.date), config.separator),
            b.added(self, 5, 2),
            !self.has_error() ==> {
                &&& b.finders()[b.finders().len() - 2] matches Finder::DateTime(f) && f.made_from(config, b.palette())
                &&& b.finders().last() matches Finder::DateDash(g) && g.made_from(config, b.palette())
            },
    {
        let ghost old_finders = self.finders@;
        let mut b = self;
        let ghost old_palette = b.palette@;
        proof { reveal(interned); }
        let date_time = DateTimeFinder::new(config, &mut b.palette);
        let ghost dt = date_time;
        proof { b.lemma_palette_grows(old_palette); }
        b.add_finder(Finder::DateTime(date_time));
        let ghost mid_palette = b.palette@;
        let ghost mid_finders = b.finders@;
        let date_dash = DateDashFinder::new(config, &mut b.palette);
        proof { b.lemma_palette_grows(mid_palette); }
        b.add_finder(Finder::DateDash(date_dash));
        proof {
            assert(dt.styles()[0] == dt.split.time && dt.styles()[1] == dt.split.zone && dt.styles()[2] == dt.split.separator);
            assert(b.palette@[dt.split.time.0 as int] == mid_palette[dt.split.time.0 as int]);
            assert(b.palette@[dt.split.zone.0 as int] == mid_palette[dt.split.zone.0 as int]);
            assert(b.palette@[dt.split.separator.0 as int] == mid_palette[dt.split.separator.0 as int]);
            assert(dt.made_from(config, b.palette()));
            if !b.has_error() {
                assert(b.finders@[b.finders@.len() - 2] == mid_finders.last());
                assert(b.finders().take(old_finders.len() as int) =~= old_finders);
            }
        }
        b
    }

    /// Adds a highlighter for a custom regex: the builder fails when the
    /// pattern does not compile (unless an earlier step failed, whose error
    /// is kept).
    pub fn with_regex_highlighter(self, config: RegexConfig) -> (b: Self)
        requires
            self.wf(),
            self.room(1) || (regex_compiles(config.regex@, true) ==> can_intern(self.palette(), config.style)),
        ensures
            b.wf(),
            extends(b.palette(), self.palette(), 1),
            b.palette() == if regex_compiles(config.regex@, true) {
                intern_spec(self.palette(), config.style).0
            } else {
                self.palette()
            },
            b.has_error() == (self.has_error() || !regex_compiles(config.regex@, true)),
            self.has_error() ==> b.first_error() == self.first_error(),
            !self.has_error() && !regex_compiles(config.regex@, true) ==> b.first_error() matches Some(HighlighterError::Regex(_)),
            b.has_error() ==> b.finders() == self.finders(),
            !b.has_error() ==> {
                &&& b.finders().len() == self.finders().len() + 1
                &&& b.finders().drop_last() == self.finders()
                &&& b.finders().last() matches Finder::Regex(f) && {
                    &&& f.regex.source() == config.regex@
                    &&& f.regex.unicode()
                    &&& f.split.single_capture_group == (regex_group_count(config.regex@, true) == 2)
                    &&& resolves(b.palette(), f.split.style, config.style)
                }
            },
    {
        let ghost old_finders = self.finders@;
        let mut b = self;
        let ghost old_palette = b.palette@;
        proof { reveal(interned); }
        let finder = RegexFinder::new(config.regex.as_str(), config.style, &mut b.palette);
        proof { b.lemma_palette_grows(old_palette); }
        match finder {
            Ok(f) => b.add_finder(Finder::Regex(f)),
            Err(e) => b.record_error(HighlighterError::Regex(e)),
        }
        assert(!b.has_error() ==> b.finders().drop_last() =~= old_finders);
        b
    }

    /// Adds keyword highlighters: the builder fails when the keywords
    /// cannot be compiled into a searcher (unless an earlier step failed,
    /// whose error is kept).
    pub fn with_keyword_highlighter(self, keyword_configs: Vec<KeywordConfig>) -> (b: Self)
        requires
            self.wf(),
            self.room(keyword_configs@.len()) || interned_all(self.palette(), config_styles(keyword_configs@)).len() <= 0x10000,
        ensures
            b.palette() == interned_all(self.palette(), config_styles(keyword_configs@)),
            b.wf(),
            extends(b.palette(), self.palette(), keyword_configs@.len()),
            b.has_error() == (self.has_error() || !automaton_builds(texts(all_words(keyword_configs@)))),
            self.has_error() ==> b.first_error() == self.first_error(),
            !self.has_error() && !automaton_builds(texts(all_words(keyword_configs@))) ==> b.first_error() matches Some(HighlighterError::Pattern(_)),
            b.has_error() ==> b.finders() == self.finders(),
            !b.has_error() ==> {
                &&& b.finders().len() == self.finders().len() + 1
                &&& b.finders().drop_last() == self.finders()
                &&& b.finders().last() matches Finder::Keyword(f) && {
                    &&& f.keywords.words() == word_bytes(all_words(keyword_configs@))
                    &&& forall|k: int| 0 <= k < f.styles@.len() ==> {
                        &&& resolves(b.palette(), f.styles@[k], #[trigger] word_styles(keyword_configs@)[k])
                        &&& f.padded@[k] == (word_styles(keyword_configs@)[k].bg is Some)
                    }
                }
            },
    {
        let ghost old_finders = self.finders@;
        let mut b = self;
        let ghost old_palette = b.palette@;
        proof { reveal(interned); }
        proof { lemma_interned_all_grows(old_palette, config_styles(keyword_configs@)); }
        let finder = KeywordFinder::new(keyword_configs.as_slice(), &mut b.palette);
        proof { b.lemma_palette_grows(old_palette); }
        match finder {
            Ok(f) => b.add_finder(Finder::Keyword(f)),
            Err(e) => b.record_error(HighlighterError::Pattern(e)),
        }
        assert(!b.has_error() ==> b.finders().drop_last() =~= old_finders);
        b
    }

    /// Finalizes the builder: fails with the first error of a finder that
    /// did not build.
    pub fn build(self) -> (r: Result<Highlighter, HighlighterError>)
        requires
            self.wf(),
        ensures
            r is Err <==> self.has_error(),
            r matches Err(e) ==> self.first_error() == Some(e),
            r matches Ok(h) ==> h.finders() == self.finders() && h.palette() == self.palette(),
    {
        match self.first_error {
            Some(e) => Err(e),
            None => Ok(Highlighter { inner: Pipeline::new(self.finders, self.palette) }),
        }
    }
}

} // verus!
