//! URLs: protocol, host, port, path and query parameters.
use vstd::prelude::*;
use vstd::utf8::{valid_utf8, decode_utf8};
use crate::finders::{CapsSplitter, split_caps, split_caps_spec, build_regex, built, captures_of, pushes_ok, styles_in,
    add_push, lemma_in_styles, group, group_of, flat, lemma_flat_step};
use crate::matching::{Pattern, captures_all, find_bytes, byte_positions, positions_of, occurs_at, groups_ok};
use crate::palette::{interned, resolves, Palette, StyleId, extends};
use crate::span::{Collector, Push, push_all, plain};
use crate::config::UrlConfig;
use crate::text::{bytes_of, input_bytes, substring, bytes_equal, lemma_sub_boundary, on_boundary, ascii_range,
    is_ascii_run, lemma_ascii_range_all};

verus! {

broadcast use vstd::utf8::encode_utf8_decode_utf8;

/// `http` or `https`, `://`, a host, an optional port, an optional path and
/// an optional query. Groups: 1 protocol, 2 `:`, 3 `//`, 4 host, 5 port,
/// 6 path, 7 query.
pub const URL_PATTERN: &'static str = r"(?x)
            (?P<protocol>https?) (:) (//)
            (?P<host>[A-Za-z0-9._\-]+)
            (?::(?P<port>\d{1,5}))?
            (?P<path>(?:/[A-Za-z0-9._~\-/%+()]*)?)
            (?P<query>\?[A-Za-z0-9._~\-/%+&=;,@!*()?:]*)?";

/// One `?key=value` or `&key=value` parameter. Groups: 1 delimiter, 2 key,
/// 3 `=`, 4 value.
pub const QUERY_PARAMS_PATTERN: &'static str = r"(?x)
            (?P<delimiter>[?&])
            (?P<key>   [A-Za-z0-9._~\-+%]*)
            (?P<equal> =)
            (?P<value> [A-Za-z0-9._~\-+%]*)";

/// The protocol that gets the secure style.
pub const HTTPS: &'static str = "https";

/// The separator every URL holds.
pub const SCHEME_SEPARATOR: &'static str = "://";

/// The number of `)` bytes that end `t`.
pub open spec fn trailing_parens(t: Seq<u8>) -> nat
    decreases t.len(),
{
    if t.len() == 0 || t.last() != 0x29 {
        0
    } else {
        1 + trailing_parens(t.drop_last())
    }
}

/// How many `)` to cut from the end of `t`: the closing parentheses that
/// have no opening one, but only those at the very end.
pub open spec fn unbalanced_trailing_parens(t: Seq<u8>) -> nat {
    let open = positions_of(t, 0x28).len();
    let close = positions_of(t, 0x29).len();
    if close <= open {
        0
    } else if trailing_parens(t) <= close - open {
        trailing_parens(t)
    } else {
        (close - open) as nat
    }
}

/// The number of `)` that end `b[a..c]`.
fn count_trailing_parens(b: &[u8], a: usize, c: usize) -> (n: usize)
    requires
        a <= c <= b@.len(),
    ensures
        n == trailing_parens(b@.subrange(a as int, c as int)),
{
    let mut k: usize = c;
    while k > a && b[k - 1] == 0x29
        invariant
            a <= k <= c <= b@.len(),
            trailing_parens(b@.subrange(a as int, c as int)) == (c - k) + trailing_parens(b@.subrange(a as int, k as int)),
        decreases k - a,
    {
        assert(b@.subrange(a as int, k as int).drop_last() =~= b@.subrange(a as int, k - 1));
        k = k - 1;
    }
    c - k
}

/// How many `)` to cut from the end of `b[a..c]` (see
/// `unbalanced_trailing_parens`).
pub fn count_unbalanced_trailing_parens(b: &[u8], a: usize, c: usize) -> (n: usize)
    requires
        a <= c <= b@.len(),
    ensures
        n == unbalanced_trailing_parens(b@.subrange(a as int, c as int)),
{
    let t = &b[a..c];
    assert(t@ =~= b@.subrange(a as int, c as int));
    let open = byte_positions(0x28, t).len();
    let close = byte_positions(0x29, t).len();
    if close <= open {
        return 0;
    }
    let excess = close - open;
    let trailing = count_trailing_parens(b, a, c);
    if trailing <= excess { trailing } else { excess }
}

/// A present group shifted by `off`, as one request of `style`.
pub open spec fn shifted(off: int, g: Option<(usize, usize)>, style: StyleId) -> Seq<Push> {
    match g {
        Some(r) => seq![plain(off + r.0, off + r.1, style)],
        None => Seq::empty(),
    }
}

/// A present group as one request of `style`.
pub open spec fn opt_push(g: Option<(usize, usize)>, style: StyleId) -> Seq<Push> {
    shifted(0, g, style)
}

/// Splits a URL's groups into styled parts.
#[derive(Debug)]
pub struct UrlSplit {
    pub http: StyleId,
    pub https: StyleId,
    pub host: StyleId,
    pub path: StyleId,
    pub query_params_key: StyleId,
    pub query_params_value: StyleId,
    pub symbols: StyleId,
    pub query_params: Option<Pattern>,
}

impl UrlSplit {
    /// The requests for one parameter's groups, shifted by `off`: the
    /// delimiter, the key, the `=` and the value.
    pub open spec fn param_pushes(&self, off: int, c: Seq<Option<(usize, usize)>>) -> Seq<Push> {
        shifted(off, group_of(c, 1), self.symbols) + shifted(off, group_of(c, 2), self.query_params_key)
            + shifted(off, group_of(c, 3), self.symbols) + shifted(off, group_of(c, 4), self.query_params_value)
    }

    /// The requests for the parameters found in `b[q0..qe]`.
    pub open spec fn query_pushes(&self, b: Seq<u8>, q0: int, qe: int) -> Seq<Push> {
        match self.query_params {
            Some(p) => flat(
                regex_captures_of(p, decode_utf8(b.subrange(q0, qe))),
                |c: Seq<Option<(usize, usize)>>| self.param_pushes(q0, c),
            ),
            None => Seq::empty(),
        }
    }

    /// The protocol, styled `https` or `http`.
    pub open spec fn protocol_pushes(&self, b: Seq<u8>, g: Option<(usize, usize)>) -> Seq<Push> {
        match g {
            Some(p) => seq![plain(p.0 as int, p.1 as int,
                if b.subrange(p.0 as int, p.1 as int) == bytes_of(HTTPS) { self.https } else { self.http })],
            None => Seq::empty(),
        }
    }

    /// The port and the `:` before it.
    pub open spec fn port_pushes(&self, b: Seq<u8>, g: Option<(usize, usize)>) -> Seq<Push> {
        match g {
            Some(pt) => if 1 <= pt.0 && b[pt.0 - 1] == 0x3a {
                seq![plain(pt.0 - 1, pt.0 as int, self.symbols), plain(pt.0 as int, pt.1 as int, self.host)]
            } else {
                Seq::empty()
            },
            None => Seq::empty(),
        }
    }

    /// The ASCII path, less `trim` closing parentheses when no query
    /// follows it.
    pub open spec fn path_pushes(&self, b: Seq<u8>, g: Option<(usize, usize)>, query: bool, trim: nat) -> Seq<Push> {
        match g {
            Some(pa) => if ascii_range(b, pa.0 as int, pa.1 as int) {
                let end = if !query && trim > 0 { cut(pa, trim) } else { pa.1 as int };
                seq![plain(pa.0 as int, end, self.path)]
            } else {
                Seq::empty()
            },
            None => Seq::empty(),
        }
    }

    /// The parameters of the ASCII query, less `trim` closing parentheses.
    pub open spec fn query_part(&self, b: Seq<u8>, g: Option<(usize, usize)>, trim: nat) -> Seq<Push> {
        match g {
            Some(q) => if ascii_range(b, q.0 as int, q.1 as int) {
                self.query_pushes(b, q.0 as int, cut(q, trim))
            } else {
                Seq::empty()
            },
            None => Seq::empty(),
        }
    }
}

/// The end of `r` after cutting `trim` bytes, not before its start.
pub open spec fn cut(r: (usize, usize), trim: nat) -> int {
    if trim <= r.1 - r.0 { r.1 - trim } else { r.0 as int }
}

/// The parameter captures of the query-parameter expression in `text`.
pub open spec fn regex_captures_of(p: Pattern, text: Seq<char>) -> Seq<Seq<Option<(usize, usize)>>> {
    crate::matching::regex_captures(p.source(), p.unicode(), text)
}

impl CapsSplitter for UrlSplit {
    open spec fn wf(&self) -> bool {
        true
    }

    open spec fn ids(&self) -> Seq<StyleId> {
        seq![self.http, self.https, self.host, self.path, self.query_params_key, self.query_params_value, self.symbols]
    }

    /// The protocol, the host, the port with its colon, the path (less
    /// unbalanced closing parentheses at the end of the URL when there is no
    /// query) and the query's parameters (less those parentheses). The `://`
    /// stays plain.
    open spec fn split(&self, b: Seq<u8>, caps: Seq<Option<(usize, usize)>>) -> Seq<Push> {
        match group_of(caps, 0) {
            Some(full) => {
                let trim = unbalanced_trailing_parens(b.subrange(full.0 as int, full.1 as int));
                self.protocol_pushes(b, group_of(caps, 1))
                    + opt_push(group_of(caps, 4), self.host)
                    + self.port_pushes(b, group_of(caps, 5))
                    + self.path_pushes(b, group_of(caps, 6), group_of(caps, 7) is Some, trim)
                    + self.query_part(b, group_of(caps, 7), trim)
            },
            None => Seq::empty(),
        }
    }

    fn split_into(&self, input: &str, b: &[u8], caps: &[Option<(usize, usize)>], v: &mut Vec<Push>) {
        let full = match group(caps, 0) {
            Some(f) => f,
            None => {
                assert(v@ =~= v@ + self.split(b@, caps@));
                return;
            },
        };
        let ghost start = v@;
        let trim = count_unbalanced_trailing_parens(b, full.0, full.1);
        let query = group(caps, 7);
        self.push_head(b, group(caps, 1), group(caps, 4), group(caps, 5), v);
        let ghost after_head = v@;
        self.push_path(b, group(caps, 6), query.is_some(), trim, v);
        let ghost after_path = v@;
        match query {
            Some(q) => {
                if is_ascii_run(b, q.0, q.1) {
                    let qe: usize = if trim <= q.1 - q.0 { q.1 - trim } else { q.0 };
                    self.push_query(input, b, q.0, qe, q.1, v);
                }
            },
            None => {},
        }
        assert(v@ =~= after_path + self.query_part(b@, group_of(caps@, 7), trim as nat));
        assert(v@ =~= start + self.split(b@, caps@));
    }
}

impl UrlSplit {
    /// Appends the protocol, host and port requests.
    fn push_head(
        &self,
        b: &[u8],
        protocol: Option<(usize, usize)>,
        host: Option<(usize, usize)>,
        port: Option<(usize, usize)>,
        v: &mut Vec<Push>,
    )
        requires
            valid_utf8(b@),
            protocol matches Some(g) ==> crate::matching::range_ok(b@, g),
            host matches Some(g) ==> crate::matching::range_ok(b@, g),
            port matches Some(g) ==> crate::matching::range_ok(b@, g),
            pushes_ok(b@, old(v)@),
            styles_in(old(v)@, self.ids()),
        ensures
            final(v)@ == old(v)@ + self.protocol_pushes(b@, protocol) + opt_push(host, self.host)
                + self.port_pushes(b@, port),
            pushes_ok(b@, final(v)@),
            styles_in(final(v)@, self.ids()),
    {
        proof {
            lemma_in_styles(self.ids());
        }
        let ghost start = v@;
        let ids = Ghost(self.ids());
        match protocol {
            Some(p) => {
                let style = if bytes_equal(b, p.0, p.1, input_bytes(HTTPS)) { self.https } else { self.http };
                add_push(v, Ghost(b@), ids, p.0, p.1, style);
            },
            None => {},
        }
        let ghost after_protocol = v@;
        assert(after_protocol =~= start + self.protocol_pushes(b@, protocol));
        match host {
            Some(h) => add_push(v, Ghost(b@), ids, h.0, h.1, self.host),
            None => {},
        }
        let ghost after_host = v@;
        assert(after_host =~= after_protocol + opt_push(host, self.host));
        match port {
            Some(pt) => {
                if pt.0 >= 1 && b[pt.0 - 1] == 0x3a {
                    proof {
                        crate::text::lemma_ascii_on_boundary(b@, pt.0 - 1);
                    }
                    add_push(v, Ghost(b@), ids, pt.0 - 1, pt.0, self.symbols);
                    add_push(v, Ghost(b@), ids, pt.0, pt.1, self.host);
                }
            },
            None => {},
        }
        assert(v@ =~= after_host + self.port_pushes(b@, port));
    }

    /// Appends the path request.
    fn push_path(&self, b: &[u8], path: Option<(usize, usize)>, query: bool, trim: usize, v: &mut Vec<Push>)
        requires
            valid_utf8(b@),
            path matches Some(g) ==> crate::matching::range_ok(b@, g),
            pushes_ok(b@, old(v)@),
            styles_in(old(v)@, self.ids()),
        ensures
            final(v)@ == old(v)@ + self.path_pushes(b@, path, query, trim as nat),
            pushes_ok(b@, final(v)@),
            styles_in(final(v)@, self.ids()),
    {
        proof {
            lemma_in_styles(self.ids());
        }
        let ghost start = v@;
        match path {
            Some(pa) => {
                if is_ascii_run(b, pa.0, pa.1) {
                    let end: usize = if !query && trim > 0 {
                        if trim <= pa.1 - pa.0 { pa.1 - trim } else { pa.0 }
                    } else {
                        pa.1
                    };
                    proof {
                        if pa.0 < pa.1 {
                            lemma_ascii_range_all(b@, pa.0 as int, pa.1 as int);
                        }
                    }
                    add_push(v, Ghost(b@), Ghost(self.ids()), pa.0, end, self.path);
                }
            },
            None => {},
        }
        assert(v@ =~= start + self.path_pushes(b@, path, query, trim as nat));
    }

    /// Appends the requests of one parameter's groups, found in `b[q0..qe]`.
    fn push_param(&self, b: &[u8], q0: usize, qe: usize, c: &[Option<(usize, usize)>], v: &mut Vec<Push>)
        requires
            valid_utf8(b@),
            q0 <= qe <= b@.len(),
            on_boundary(b@, qe as int),
            groups_ok(b@.subrange(q0 as int, qe as int), c@),
            pushes_ok(b@, old(v)@),
            styles_in(old(v)@, self.ids()),
        ensures
            final(v)@ == old(v)@ + self.param_pushes(q0 as int, c@),
            pushes_ok(b@, final(v)@),
            styles_in(final(v)@, self.ids()),
    {
        proof {
            lemma_in_styles(self.ids());
            assert forall|g: int| 0 <= g < c@.len() && (#[trigger] c@[g]) is Some implies
                on_boundary(b@, q0 + c@[g]->Some_0.0) && on_boundary(b@, q0 + c@[g]->Some_0.1)
                && q0 + c@[g]->Some_0.1 <= qe by {
                lemma_sub_boundary(b@, q0 as int, qe as int, c@[g]->Some_0.0 as int);
                lemma_sub_boundary(b@, q0 as int, qe as int, c@[g]->Some_0.1 as int);
            }
        }
        let ghost start = v@;
        let ids = Ghost(self.ids());
        match group(c, 1) {
            Some(r) => add_push(v, Ghost(b@), ids, q0 + r.0, q0 + r.1, self.symbols),
            None => {},
        }
        let ghost v1 = v@;
        match group(c, 2) {
            Some(r) => add_push(v, Ghost(b@), ids, q0 + r.0, q0 + r.1, self.query_params_key),
            None => {},
        }
        let ghost v2 = v@;
        match group(c, 3) {
            Some(r) => add_push(v, Ghost(b@), ids, q0 + r.0, q0 + r.1, self.symbols),
            None => {},
        }
        let ghost v3 = v@;
        match group(c, 4) {
            Some(r) => add_push(v, Ghost(b@), ids, q0 + r.0, q0 + r.1, self.query_params_value),
            None => {},
        }
        assert(v1 =~= start + shifted(q0 as int, group_of(c@, 1), self.symbols));
        assert(v2 =~= v1 + shifted(q0 as int, group_of(c@, 2), self.query_params_key));
        assert(v3 =~= v2 + shifted(q0 as int, group_of(c@, 3), self.symbols));
        assert(v@ =~= v3 + shifted(q0 as int, group_of(c@, 4), self.query_params_value));
        assert(v@ =~= start + self.param_pushes(q0 as int, c@));
    }

    /// Appends the requests for the parameters found in `b[q0..qe]`, inside
    /// the ASCII query `b[q0..q1]`.
    fn push_query(&self, input: &str, b: &[u8], q0: usize, qe: usize, q1: usize, v: &mut Vec<Push>)
        requires
            b@ == bytes_of(input),
            valid_utf8(b@),
            q0 <= qe <= q1 <= b@.len(),
            ascii_range(b@, q0 as int, q1 as int),
            on_boundary(b@, q0 as int),
            on_boundary(b@, q1 as int),
            pushes_ok(b@, old(v)@),
            styles_in(old(v)@, self.ids()),
        ensures
            final(v)@ == old(v)@ + self.query_pushes(b@, q0 as int, qe as int),
            pushes_ok(b@, final(v)@),
            styles_in(final(v)@, self.ids()),
    {
        let ghost start = v@;
        let p = match &self.query_params {
            Some(p) => p,
            None => {
                assert(v@ =~= start + self.query_pushes(b@, q0 as int, qe as int));
                return;
            },
        };
        proof {
            lemma_in_styles(self.ids());
            if q0 < q1 {
                lemma_ascii_range_all(b@, q0 as int, q1 as int);
            }
        }
        let text = substring(input, q0, qe);
        proof {
            vstd::utf8::encode_utf8_decode_utf8(text@);
        }
        let all = captures_all(p, text);
        let ghost views = all@.map_values(|c: Vec<Option<(usize, usize)>>| c@);
        assert(views == regex_captures_of(*p, decode_utf8(b@.subrange(q0 as int, qe as int))));
        let mut k: usize = 0;
        assert(views.take(0) =~= Seq::<Seq<Option<(usize, usize)>>>::empty());
        assert(start =~= start + flat(views.take(0), |c: Seq<Option<(usize, usize)>>| self.param_pushes(q0 as int, c)));
        while k < all.len()
            invariant
                0 <= k <= all@.len(),
                views == all@.map_values(|c: Vec<Option<(usize, usize)>>| c@),
                b@ == bytes_of(input),
                valid_utf8(b@),
                q0 <= qe <= q1 <= b@.len(),
                bytes_of(text) == b@.subrange(q0 as int, qe as int),
                forall|i: int| q0 <= i <= q1 ==> #[trigger] on_boundary(b@, i),
                forall|j: int| 0 <= j < all@.len() ==> groups_ok(bytes_of(text), (#[trigger] all@[j])@),
                forall|i: int| 0 <= i < self.ids().len() ==> self.ids().contains(#[trigger] self.ids()[i]),
                v@ == start + flat(views.take(k as int), |c: Seq<Option<(usize, usize)>>| self.param_pushes(q0 as int, c)),
                pushes_ok(b@, v@),
                styles_in(v@, self.ids()),
            decreases all@.len() - k,
        {
            let c = &all[k];
            assert(groups_ok(bytes_of(text), all@[k as int]@));
            proof {
                lemma_flat_step(views, |c: Seq<Option<(usize, usize)>>| self.param_pushes(q0 as int, c), k as int);
            }
            let ghost before = v@;
            self.push_param(b, q0, qe, c.as_slice(), v);
            assert(views[k as int] == c@);
            k = k + 1;
        }
        assert(views.take(views.len() as int) =~= views);
    }
}

/// Finds URLs.
#[derive(Debug)]
pub struct UrlFinder {
    pub regex: Option<Pattern>,
    pub split: UrlSplit,
}

impl UrlFinder {
    /// The styles this finder uses.
    pub open spec fn styles(&self) -> Seq<StyleId> {
        self.split.ids()
    }

    /// The requests for `input`: none without `://`, otherwise the parts
    /// of every URL.
    pub open spec fn pushes(&self, input: &str) -> Seq<Push> {
        if forall|j: int| !#[trigger] occurs_at(bytes_of(input), bytes_of(SCHEME_SEPARATOR), j) {
            Seq::empty()
        } else {
            split_caps_spec(self.split, bytes_of(input), captures_of(self.regex, input@))
        }
    }

    /// Built from `config`, with each configured style interned in `palette`.
    pub open spec fn made_from(&self, config: UrlConfig, palette: Seq<Seq<char>>) -> bool {
        &&& built(self.regex, URL_PATTERN@)
        &&& built(self.split.query_params, QUERY_PARAMS_PATTERN@)
        &&& resolves(palette, self.split.http, config.http)
        &&& resolves(palette, self.split.https, config.https)
        &&& resolves(palette, self.split.host, config.host)
        &&& resolves(palette, self.split.path, config.path)
        &&& resolves(palette, self.split.query_params_key, config.query_params_key)
        &&& resolves(palette, self.split.query_params_value, config.query_params_value)
        &&& resolves(palette, self.split.symbols, config.symbols)
    }

    /// A URL finder with the configured styles.
    pub fn new(config: UrlConfig, palette: &mut Palette) -> (f: UrlFinder)
        requires
            old(palette).wf(),
            interned(interned(interned(interned(interned(interned(interned(old(palette)@, config.http), config.https), config.host), config.path), config.query_params_key), config.query_params_value), config.symbols).len() <= 0x10000,
        ensures
            final(palette).wf(),
            final(palette)@ == interned(interned(interned(interned(interned(interned(interned(old(palette)@, config.http), config.https), config.host), config.path), config.query_params_key), config.query_params_value), config.symbols),
            f.made_from(config, final(palette)@),
            extends(final(palette)@, old(palette)@, 7),
            forall|k: int| 0 <= k < f.styles().len() ==> (f.styles()[k].0 as int) < final(palette)@.len(),
    {
        proof {
            reveal(interned);
        }
        let http = palette.intern(config.http);
        let https = palette.intern(config.https);
        let host = palette.intern(config.host);
        let path = palette.intern(config.path);
        let query_params_key = palette.intern(config.query_params_key);
        let query_params_value = palette.intern(config.query_params_value);
        let symbols = palette.intern(config.symbols);
        UrlFinder {
            regex: build_regex(URL_PATTERN),
            split: UrlSplit {
                http,
                https,
                host,
                path,
                query_params_key,
                query_params_value,
                symbols,
                query_params: build_regex(QUERY_PARAMS_PATTERN),
            },
        }
    }

    /// Pushes the parts of every URL.
    pub fn find_spans(&self, input: &str, collector: &mut Collector)
        ensures
            final(collector)@ == push_all(old(collector)@, self.pushes(input)),
            pushes_ok(bytes_of(input), self.pushes(input)),
            styles_in(self.pushes(input), self.styles()),
    {
        let b = input_bytes(input);
        if find_bytes(b, input_bytes(SCHEME_SEPARATOR)).is_none() {
            collector.push_each(&[]);
            return;
        }
        match &self.regex {
            Some(p) => {
                let all = captures_all(p, input);
                let v = split_caps(&self.split, input, b, &all);
                collector.push_each(v.as_slice());
            },
            None => collector.push_each(&[]),
        }
    }
}

} // verus!
