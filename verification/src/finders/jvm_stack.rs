//! JVM stack traces: `Caused by:` markers, exception headers, `at` frames
//! with their file and line, and `... N more` lines.
use vstd::prelude::*;
use vstd::utf8::{valid_utf8, decode_utf8};
use crate::finders::{both, CapsSplitter, split_caps, split_caps_spec, build_regex, built, captures_of, pushes_ok, styles_in,
    add_push, lemma_in_styles, group, group_of, has_byte};
use crate::matching::{Pattern, captures_all, compile, first_captures, find_byte, regex_compiles, regex_first_captures,
    groups_ok};
use crate::palette::{interned, resolves, Palette, StyleId, extends};
use crate::span::{Collector, Push, push_all, plain, lemma_push_all_concat};
use crate::config::JvmStackTraceConfig;
use crate::text::{bytes_of, input_bytes, substring, ends_with, bytes_equal, ends_with_bytes, lemma_sub_boundary,
    on_boundary};

verus! {

broadcast use vstd::utf8::encode_utf8_decode_utf8;

/// `Caused by:` or `Suppressed:` at the start of a line, after blanks.
/// Group 1 is the marker.
pub const MARKER_PATTERN: &'static str = r"(?m)^\s*(?P<marker>(?:Caused by|Suppressed):)";

/// A dotted lower-case package, a capitalised class name and a colon.
/// Groups: 1 package, 2 class, 3 colon.
pub const HEADER_PATTERN: &'static str = r"(?x)
            \b
            (?P<package>(?:[a-z][a-zA-Z0-9_$]*\.)+)
            (?P<class>[A-Z][a-zA-Z0-9_$]*)
            (?P<colon>:)
        ";

/// An indented `at` frame: a qualified method name (with an optional module
/// or loader prefix; a final segment that may carry Kotlin's `-` mangling
/// or be `<init>` / `<clinit>`) and its parenthesised location. Groups:
/// 1 indent, 2 `at `, 3 name, 4 `(`, 5 contents, 6 `)`.
pub const FRAME_PATTERN: &'static str = r"(?xm)
            ^(?P<indent>\s+)
            (?P<at>at\s+)
            (?P<fqname>
                (?:[a-zA-Z_$][a-zA-Z0-9_$.]*/)?
                [a-zA-Z_$][a-zA-Z0-9_$]*
                (?:\.[a-zA-Z_$][a-zA-Z0-9_$]*)*
                \.(?:[a-zA-Z_$][a-zA-Z0-9_$\-]*|<(?:init|clinit)>)
            )
            (?P<open>\()
            (?P<contents>[^)\n]*)
            (?P<close>\))
        ";

/// A frame location `File.ext`, optionally `:line` and `:column`. Groups:
/// 1 file, 2 colon, 3 line, 4 colon, 5 column.
pub const FILE_LINE_PATTERN: &'static str = r"(?x)
            ^
            (?P<file>[A-Za-z_$][A-Za-z0-9_$.]*\.[a-zA-Z][a-zA-Z0-9]*)
            (?:
                (?P<colon>:)(?P<line>\d+)
                (?:(?P<col_colon>:)(?P<col>\d+))?
            )?
            $
        ";

/// An indented `... N more` line. Groups: 1 ellipsis, 2 count, 3 `more`.
pub const MORE_PATTERN: &'static str = r"(?m)^\s+(?P<ellipsis>\.\.\.)\s+(?P<count>\d+)\s+(?P<more>more)\s*$";

/// Frame contents that name no source file.
pub const UNKNOWN_SOURCE: &'static str = "Unknown Source";

/// Frame contents of generated code.
pub const GENERATED: &'static str = "<generated>";

/// Frame contents of a native method.
pub const NATIVE_METHOD: &'static str = "Native Method";

/// The class-name ending of an exception.
pub const EXCEPTION: &'static str = "Exception";

/// The class-name ending of an error.
pub const ERROR: &'static str = "Error";

/// Styles the `Caused by:` / `Suppressed:` marker.
#[derive(Debug, Clone, Copy)]
pub struct MarkerSplit {
    pub caused_by: StyleId,
}

impl CapsSplitter for MarkerSplit {
    open spec fn wf(&self) -> bool {
        true
    }

    open spec fn ids(&self) -> Seq<StyleId> {
        seq![self.caused_by]
    }

    open spec fn split(&self, b: Seq<u8>, caps: Seq<Option<(usize, usize)>>) -> Seq<Push> {
        match group_of(caps, 1) {
            Some(m) => seq![plain(m.0 as int, m.1 as int, self.caused_by)],
            None => Seq::empty(),
        }
    }

    fn split_into(&self, input: &str, b: &[u8], caps: &[Option<(usize, usize)>], v: &mut Vec<Push>) {
        match group(caps, 1) {
            Some(m) => {
                proof {
                    lemma_in_styles(self.ids());
                    assert(self.ids()[0] == self.caused_by);
                }
                let ghost start = v@;
                add_push(v, Ghost(b@), Ghost(self.ids()), m.0, m.1, self.caused_by);
                assert(v@ =~= start + self.split(b@, caps@));
            },
            None => {
                assert(v@ =~= v@ + self.split(b@, caps@));
            },
        }
    }
}

/// Styles an exception header `package.Class:`.
#[derive(Debug, Clone, Copy)]
pub struct HeaderSplit {
    pub package: StyleId,
    pub exception: StyleId,
    pub frame: StyleId,
}

impl CapsSplitter for HeaderSplit {
    open spec fn wf(&self) -> bool {
        true
    }

    open spec fn ids(&self) -> Seq<StyleId> {
        seq![self.package, self.exception, self.frame]
    }

    /// Only a class named `...Exception` or `...Error`: the package, the
    /// class and the colon.
    open spec fn split(&self, b: Seq<u8>, caps: Seq<Option<(usize, usize)>>) -> Seq<Push> {
        match (group_of(caps, 1), group_of(caps, 2), group_of(caps, 3)) {
            (Some(pkg), Some(cls), Some(colon)) => {
                let name = b.subrange(cls.0 as int, cls.1 as int);
                if ends_with(name, bytes_of(EXCEPTION)) || ends_with(name, bytes_of(ERROR)) {
                    seq![
                        plain(pkg.0 as int, pkg.1 as int, self.package),
                        plain(cls.0 as int, cls.1 as int, self.exception),
                        plain(colon.0 as int, colon.1 as int, self.frame),
                    ]
                } else {
                    Seq::empty()
                }
            },
            _ => Seq::empty(),
        }
    }

    fn split_into(&self, input: &str, b: &[u8], caps: &[Option<(usize, usize)>], v: &mut Vec<Push>) {
        match (group(caps, 1), group(caps, 2), group(caps, 3)) {
            (Some(pkg), Some(cls), Some(colon)) => {
                let named = ends_with_bytes(b, cls.0, cls.1, input_bytes(EXCEPTION))
                    || ends_with_bytes(b, cls.0, cls.1, input_bytes(ERROR));
                if named {
                    proof {
                        lemma_in_styles(self.ids());
                    }
                    let ghost start = v@;
                    let ids = Ghost(self.ids());
                    add_push(v, Ghost(b@), ids, pkg.0, pkg.1, self.package);
                    add_push(v, Ghost(b@), ids, cls.0, cls.1, self.exception);
                    add_push(v, Ghost(b@), ids, colon.0, colon.1, self.frame);
                    assert(v@ =~= start + self.split(b@, caps@));
                } else {
                    assert(v@ =~= v@ + self.split(b@, caps@));
                }
            },
            _ => {
                assert(v@ =~= v@ + self.split(b@, caps@));
            },
        }
    }
}

/// Styles an `at` frame and its location.
#[derive(Debug)]
pub struct FrameSplit {
    pub frame: StyleId,
    pub file: StyleId,
    pub unknown_source: StyleId,
    pub line_number: StyleId,
    pub file_line: Option<Pattern>,
}

impl FrameSplit {
    /// The requests for a location's groups, shifted by `cs`, the offset of
    /// the frame contents: the file; the colon and line when both are
    /// there; the colon and column when both are there.
    pub open spec fn location_pushes(&self, cs: int, inner: Seq<Option<(usize, usize)>>) -> Seq<Push> {
        match group_of(inner, 1) {
            Some(f) => {
                let line = match both(group_of(inner, 2), group_of(inner, 3)) {
                    Some((c, n)) => seq![plain(cs + c.0, cs + c.1, self.frame), plain(cs + n.0, cs + n.1, self.line_number)],
                    None => Seq::empty(),
                };
                let col = match both(group_of(inner, 4), group_of(inner, 5)) {
                    Some((c, n)) => seq![plain(cs + c.0, cs + c.1, self.frame), plain(cs + n.0, cs + n.1, self.line_number)],
                    None => Seq::empty(),
                };
                seq![plain(cs + f.0, cs + f.1, self.file)] + line + col
            },
            None => Seq::empty(),
        }
    }

    /// The requests for frame contents `b[cs..ce]`: the whole contents
    /// when it says `Unknown Source`, `<generated>` or `Native Method`;
    /// otherwise the parts of a `File.ext:line:col` location, if it is one.
    pub open spec fn contents_pushes(&self, b: Seq<u8>, cs: int, ce: int) -> Seq<Push> {
        let t = b.subrange(cs, ce);
        if t == bytes_of(UNKNOWN_SOURCE) || t == bytes_of(GENERATED) || t == bytes_of(NATIVE_METHOD) {
            seq![plain(cs, ce, self.unknown_source)]
        } else {
            match self.file_line {
                Some(p) => match regex_first_captures(p.source(), p.unicode(), decode_utf8(t)) {
                    Some(inner) => self.location_pushes(cs, inner),
                    None => Seq::empty(),
                },
                None => Seq::empty(),
            }
        }
    }

    /// Appends the requests of a location's groups, shifted by `cs`.
    fn push_location(&self, b: &[u8], cs: usize, ce: usize, inner: &[Option<(usize, usize)>], v: &mut Vec<Push>)
        requires
            valid_utf8(b@),
            cs <= ce <= b@.len(),
            on_boundary(b@, cs as int),
            on_boundary(b@, ce as int),
            groups_ok(b@.subrange(cs as int, ce as int), inner@),
            pushes_ok(b@, old(v)@),
            styles_in(old(v)@, seq![self.frame, self.file, self.unknown_source, self.line_number]),
        ensures
            final(v)@ == old(v)@ + self.location_pushes(cs as int, inner@),
            pushes_ok(b@, final(v)@),
            styles_in(final(v)@, seq![self.frame, self.file, self.unknown_source, self.line_number]),
    {
        let ghost ids = seq![self.frame, self.file, self.unknown_source, self.line_number];
        let ghost t = b@.subrange(cs as int, ce as int);
        proof {
            lemma_in_styles(ids);
            assert forall|g: int| 0 <= g < inner@.len() && (#[trigger] inner@[g]) is Some implies
                on_boundary(b@, cs + inner@[g]->Some_0.0) && on_boundary(b@, cs + inner@[g]->Some_0.1)
                && cs + inner@[g]->Some_0.1 <= ce by {
                lemma_sub_boundary(b@, cs as int, ce as int, inner@[g]->Some_0.0 as int);
                lemma_sub_boundary(b@, cs as int, ce as int, inner@[g]->Some_0.1 as int);
            }
        }
        let ghost start = v@;
        match group(inner, 1) {
            Some(f) => {
                add_push(v, Ghost(b@), Ghost(ids), cs + f.0, cs + f.1, self.file);
                match (group(inner, 2), group(inner, 3)) {
                    (Some(c), Some(n)) => {
                        add_push(v, Ghost(b@), Ghost(ids), cs + c.0, cs + c.1, self.frame);
                        add_push(v, Ghost(b@), Ghost(ids), cs + n.0, cs + n.1, self.line_number);
                    },
                    _ => {},
                }
                match (group(inner, 4), group(inner, 5)) {
                    (Some(c), Some(n)) => {
                        add_push(v, Ghost(b@), Ghost(ids), cs + c.0, cs + c.1, self.frame);
                        add_push(v, Ghost(b@), Ghost(ids), cs + n.0, cs + n.1, self.line_number);
                    },
                    _ => {},
                }
                assert(v@ =~= start + self.location_pushes(cs as int, inner@));
            },
            None => {
                assert(v@ =~= start + self.location_pushes(cs as int, inner@));
            },
        }
    }
}

impl CapsSplitter for FrameSplit {
    open spec fn wf(&self) -> bool {
        true
    }

    open spec fn ids(&self) -> Seq<StyleId> {
        seq![self.frame, self.file, self.unknown_source, self.line_number]
    }

    /// From `at` through `(`, and `)`, as frame; then the contents.
    open spec fn split(&self, b: Seq<u8>, caps: Seq<Option<(usize, usize)>>) -> Seq<Push> {
        match (group_of(caps, 2), group_of(caps, 4), group_of(caps, 6), group_of(caps, 5)) {
            (Some(at), Some(open), Some(close), Some(c)) => seq![
                plain(at.0 as int, open.1 as int, self.frame),
                plain(close.0 as int, close.1 as int, self.frame),
            ] + self.contents_pushes(b, c.0 as int, c.1 as int),
            _ => Seq::empty(),
        }
    }

    fn split_into(&self, input: &str, b: &[u8], caps: &[Option<(usize, usize)>], v: &mut Vec<Push>) {
        match (group(caps, 2), group(caps, 4), group(caps, 6), group(caps, 5)) {
            (Some(at), Some(open), Some(close), Some(c)) => {
                proof {
                    lemma_in_styles(self.ids());
                }
                let ghost start = v@;
                let ids = Ghost(self.ids());
                add_push(v, Ghost(b@), ids, at.0, open.1, self.frame);
                add_push(v, Ghost(b@), ids, close.0, close.1, self.frame);
                let ghost mid = v@;
                let (cs, ce) = c;
                let special = bytes_equal(b, cs, ce, input_bytes(UNKNOWN_SOURCE))
                    || bytes_equal(b, cs, ce, input_bytes(GENERATED))
                    || bytes_equal(b, cs, ce, input_bytes(NATIVE_METHOD));
                if special {
                    add_push(v, Ghost(b@), ids, cs, ce, self.unknown_source);
                } else {
                    match &self.file_line {
                        Some(p) => {
                            let contents = substring(input, cs, ce);
                            proof {
                                vstd::utf8::encode_utf8_decode_utf8(contents@);
                            }
                            assert(contents@ == decode_utf8(b@.subrange(cs as int, ce as int)));
                            match first_captures(p, contents) {
                                Some(inner) => {
                                    self.push_location(b, cs, ce, inner.as_slice(), v);
                                },
                                None => {},
                            }
                        },
                        None => {},
                    }
                }
                assert(v@ =~= mid + self.contents_pushes(b@, cs as int, ce as int));
                assert(v@ =~= start + self.split(b@, caps@));
            },
            _ => {
                assert(v@ =~= v@ + self.split(b@, caps@));
            },
        }
    }
}

/// Styles a `... N more` line.
#[derive(Debug, Clone, Copy)]
pub struct MoreSplit {
    pub frame: StyleId,
    pub line_number: StyleId,
}

impl CapsSplitter for MoreSplit {
    open spec fn wf(&self) -> bool {
        true
    }

    open spec fn ids(&self) -> Seq<StyleId> {
        seq![self.frame, self.line_number]
    }

    /// The ellipsis and `more` as frame, the count as line number.
    open spec fn split(&self, b: Seq<u8>, caps: Seq<Option<(usize, usize)>>) -> Seq<Push> {
        match (group_of(caps, 1), group_of(caps, 2), group_of(caps, 3)) {
            (Some(e), Some(n), Some(m)) => seq![
                plain(e.0 as int, e.1 as int, self.frame),
                plain(n.0 as int, n.1 as int, self.line_number),
                plain(m.0 as int, m.1 as int, self.frame),
            ],
            _ => Seq::empty(),
        }
    }

    fn split_into(&self, input: &str, b: &[u8], caps: &[Option<(usize, usize)>], v: &mut Vec<Push>) {
        match (group(caps, 1), group(caps, 2), group(caps, 3)) {
            (Some(e), Some(n), Some(m)) => {
                proof {
                    lemma_in_styles(self.ids());
                }
                let ghost start = v@;
                let ids = Ghost(self.ids());
                add_push(v, Ghost(b@), ids, e.0, e.1, self.frame);
                add_push(v, Ghost(b@), ids, n.0, n.1, self.line_number);
                add_push(v, Ghost(b@), ids, m.0, m.1, self.frame);
                assert(v@ =~= start + self.split(b@, caps@));
            },
            _ => {
                assert(v@ =~= v@ + self.split(b@, caps@));
            },
        }
    }
}

/// Finds the parts of JVM stack traces.
#[derive(Debug)]
pub struct JvmStackFinder {
    pub marker_regex: Option<Pattern>,
    pub header_regex: Option<Pattern>,
    pub frame_regex: Option<Pattern>,
    pub more_regex: Option<Pattern>,
    pub marker: MarkerSplit,
    pub header: HeaderSplit,
    pub frames: FrameSplit,
    pub more: MoreSplit,
}

impl JvmStackFinder {
    /// The styles this finder uses.
    pub open spec fn styles(&self) -> Seq<StyleId> {
        seq![
            self.marker.caused_by,
            self.header.package,
            self.header.exception,
            self.header.frame,
            self.frames.file,
            self.frames.unknown_source,
            self.frames.line_number,
        ]
    }

    /// Every part uses the same frame and line-number styles.
    pub open spec fn wf(&self) -> bool {
        &&& self.frames.frame == self.header.frame
        &&& self.more.frame == self.header.frame
        &&& self.more.line_number == self.frames.line_number
    }

    /// The requests for `input`: none without a dot; otherwise the markers,
    /// then the exception headers, then the frames, then the `more` lines.
    pub open spec fn pushes(&self, input: &str) -> Seq<Push> {
        let b = bytes_of(input);
        if !has_byte(b, 0x2e) {
            Seq::empty()
        } else {
            split_caps_spec(self.marker, b, captures_of(self.marker_regex, input@))
                + split_caps_spec(self.header, b, captures_of(self.header_regex, input@))
                + split_caps_spec(self.frames, b, captures_of(self.frame_regex, input@))
                + split_caps_spec(self.more, b, captures_of(self.more_regex, input@))
        }
    }

    /// Built from `config`, with each configured style interned in `palette`.
    pub open spec fn made_from(&self, config: JvmStackTraceConfig, palette: Seq<Seq<char>>) -> bool {
        &&& built(self.marker_regex, MARKER_PATTERN@)
        &&& built(self.header_regex, HEADER_PATTERN@)
        &&& self.frame_regex is Some <==> regex_compiles(FRAME_PATTERN@, true)
        &&& self.frame_regex matches Some(p) ==> p.source() == FRAME_PATTERN@ && p.unicode()
        &&& built(self.frames.file_line, FILE_LINE_PATTERN@)
        &&& built(self.more_regex, MORE_PATTERN@)
        &&& resolves(palette, self.marker.caused_by, config.caused_by)
        &&& resolves(palette, self.header.package, config.package)
        &&& resolves(palette, self.header.exception, config.exception)
        &&& resolves(palette, self.header.frame, config.frame)
        &&& resolves(palette, self.frames.file, config.file)
        &&& resolves(palette, self.frames.unknown_source, config.unknown_source)
        &&& resolves(palette, self.frames.line_number, config.line_number)
    }

    /// A stack-trace finder with the configured styles.
    pub fn new(config: JvmStackTraceConfig, palette: &mut Palette) -> (f: JvmStackFinder)
        requires
            old(palette).wf(),
            interned(interned(interned(interned(interned(interned(interned(old(palette)@, config.caused_by), config.package), config.exception), config.frame), config.file), config.unknown_source), config.line_number).len() <= 0x10000,
        ensures
            final(palette).wf(),
            final(palette)@ == interned(interned(interned(interned(interned(interned(interned(old(palette)@, config.caused_by), config.package), config.exception), config.frame), config.file), config.unknown_source), config.line_number),
            f.made_from(config, final(palette)@),
            f.wf(),
            extends(final(palette)@, old(palette)@, 7),
            forall|k: int| 0 <= k < f.styles().len() ==> (f.styles()[k].0 as int) < final(palette)@.len(),
    {
        proof {
            reveal(interned);
        }
        let caused_by = palette.intern(config.caused_by);
        let package = palette.intern(config.package);
        let exception = palette.intern(config.exception);
        let frame = palette.intern(config.frame);
        let file = palette.intern(config.file);
        let unknown_source = palette.intern(config.unknown_source);
        let line_number = palette.intern(config.line_number);
        let frame_regex = match compile(FRAME_PATTERN, true) {
            Ok(p) => Some(p),
            Err(_) => None,
        };
        JvmStackFinder {
            marker_regex: build_regex(MARKER_PATTERN),
            header_regex: build_regex(HEADER_PATTERN),
            frame_regex,
            more_regex: build_regex(MORE_PATTERN),
            marker: MarkerSplit { caused_by },
            header: HeaderSplit { package, exception, frame },
            frames: FrameSplit { frame, file, unknown_source, line_number, file_line: build_regex(FILE_LINE_PATTERN) },
            more: MoreSplit { frame, line_number },
        }
    }

    /// The requests of one pass: every match's groups, split by `s`.
    fn pass<S: CapsSplitter>(s: &S, regex: &Option<Pattern>, input: &str, b: &[u8]) -> (v: Vec<Push>)
        requires
            s.wf(),
            b@ == bytes_of(input),
            valid_utf8(b@),
        ensures
            v@ == split_caps_spec(*s, b@, captures_of(*regex, input@)),
            pushes_ok(b@, v@),
            styles_in(v@, s.ids()),
    {
        match regex {
            Some(p) => {
                let all = captures_all(p, input);
                split_caps(s, input, b, &all)
            },
            None => {
                let v: Vec<Push> = Vec::new();
                assert(v@ =~= split_caps_spec(*s, b@, Seq::empty()));
                v
            },
        }
    }

    /// Pushes the parts of every marker, header, frame and `more` line.
    pub fn find_spans(&self, input: &str, collector: &mut Collector)
        requires
            self.wf(),
        ensures
            final(collector)@ == push_all(old(collector)@, self.pushes(input)),
            pushes_ok(bytes_of(input), self.pushes(input)),
            styles_in(self.pushes(input), self.styles()),
    {
        let b = input_bytes(input);
        if find_byte(0x2e, b).is_none() {
            collector.push_each(&[]);
            return;
        }
        let v1 = Self::pass(&self.marker, &self.marker_regex, input, b);
        let v2 = Self::pass(&self.header, &self.header_regex, input, b);
        let v3 = Self::pass(&self.frames, &self.frame_regex, input, b);
        let v4 = Self::pass(&self.more, &self.more_regex, input, b);
        let ghost before = collector@;
        collector.push_each(v1.as_slice());
        collector.push_each(v2.as_slice());
        collector.push_each(v3.as_slice());
        collector.push_each(v4.as_slice());
        proof {
            lemma_push_all_concat(before, v1@, v2@);
            lemma_push_all_concat(before, v1@ + v2@, v3@);
            lemma_push_all_concat(before, v1@ + v2@ + v3@, v4@);
            let all = v1@ + v2@ + v3@ + v4@;
            let ids = self.styles();
            assert(all == self.pushes(input));
            assert forall|k: int| 0 <= k < all.len() implies crate::finders::push_ok(b@, #[trigger] all[k])
                && ids.contains(all[k].style) by {
                if k < v1@.len() {
                    assert(all[k] == v1@[k]);
                    assert(ids[0] == self.marker.caused_by);
                } else if k < v1@.len() + v2@.len() {
                    assert(all[k] == v2@[k - v1@.len()]);
                    assert(ids[1] == self.header.package && ids[2] == self.header.exception && ids[3] == self.header.frame);
                } else if k < v1@.len() + v2@.len() + v3@.len() {
                    assert(all[k] == v3@[k - v1@.len() - v2@.len()]);
                    assert(ids[3] == self.frames.frame && ids[4] == self.frames.file && ids[5] == self.frames.unknown_source
                        && ids[6] == self.frames.line_number);
                } else {
                    assert(all[k] == v4@[k - v1@.len() - v2@.len() - v3@.len()]);
                    assert(ids[3] == self.more.frame && ids[6] == self.more.line_number);
                }
            }
        }
    }
}

} // verus!
