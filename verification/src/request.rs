//! The HTTP request: finding the end of its head, parsing the head, and the
//! parts of it that handlers use (method, URL, cookies, body length).
use vstd::prelude::*;

use crate::method::{method_named, HttpMethod};
use crate::router::{handler_spec, HandlerId, Router};
use crate::text::{
    chars_eq, chars_of, eq_lower, find_from, lower_seq, parse_u64, parse_u64_spec,
    parse_usize_spec, push_str, slice_chars, split_by, split_pat, string_of, views,
    find_pat,
};
use crate::Error;


verus! {

// ------------------------------------------------------------------------
// The end of the head
// ------------------------------------------------------------------------

/// How many times a `\r\n` ended the bytes read so far, counted from the
/// fourth byte on (as the reader checks once it holds four bytes).
pub open spec fn crlf_count(b: Seq<u8>) -> nat
    decreases b.len(),
{
    if b.len() < 4 {
        0
    } else {
        crlf_count(b.drop_last()) + if b[b.len() - 2] == 13u8 && b[b.len() - 1] == 10u8 {
            1nat
        } else {
            0nat
        }
    }
}

/// Whether the bytes end with the blank line that ends a head.
pub open spec fn ends_head(b: Seq<u8>) -> bool {
    b.len() >= 4 && b[b.len() - 4] == 13u8 && b[b.len() - 3] == 10u8 && b[b.len() - 2] == 13u8
        && b[b.len() - 1] == 10u8
}

/// Reads a request head byte by byte, counting its line endings, until the
/// blank line that ends it.
pub struct HeaderScanner {
    buffer: Vec<u8>,
    count: usize,
}

impl HeaderScanner {
    pub closed spec fn spec_buffer(&self) -> Seq<u8> {
        self.buffer@
    }

    pub closed spec fn wf(&self) -> bool {
        self.count as nat == crlf_count(self.buffer@) && crlf_count(self.buffer@)
            <= self.buffer@.len()
    }

    /// A scanner that has read nothing.
    pub fn new() -> (s: HeaderScanner)
        ensures
            s.wf(),
            s.spec_buffer() == Seq::<u8>::empty(),
    {
        HeaderScanner { buffer: Vec::new(), count: 0 }
    }

    /// Reads one more byte. Returns the number of line endings once the bytes
    /// read end with a blank line.
    pub fn push(&mut self, byte: u8) -> (r: Option<usize>)
        requires
            old(self).wf(),
            old(self).spec_buffer().len() < usize::MAX,
        ensures
            final(self).wf(),
            final(self).spec_buffer() == old(self).spec_buffer().push(byte),
            r == (if ends_head(final(self).spec_buffer()) {
                Some(crlf_count(final(self).spec_buffer()) as usize)
            } else {
                None::<usize>
            }),
    {
        self.buffer.push(byte);
        let n = self.buffer.len();
        assert(self.buffer@.drop_last() =~= old(self).buffer@);
        if n < 4 {
            return None;
        }
        if self.buffer[n - 2] == 13u8 && self.buffer[n - 1] == 10u8 {
            self.count = self.count + 1;
        }
        if self.buffer[n - 4] == 13u8 && self.buffer[n - 3] == 10u8 && self.buffer[n - 2] == 13u8
            && self.buffer[n - 1] == 10u8 {
            return Some(self.count);
        }
        None
    }

    /// The bytes read so far.
    pub fn buffer(&self) -> (b: &Vec<u8>)
        ensures
            b@ == self.spec_buffer(),
    {
        &self.buffer
    }

    /// Gives up the scanner for the bytes read.
    pub fn into_buffer(self) -> (b: Vec<u8>)
        ensures
            b@ == self.spec_buffer(),
    {
        self.buffer
    }
}

/// Reads a head out of a stream of bytes: the number of line endings read
/// up to the first blank line, and the number of bytes that took; `None`
/// when the stream ends first.
pub fn read_headers(stream: &[u8]) -> (r: Option<(usize, usize)>)
    ensures
        r matches Some((count, used)) ==> 4 <= used <= stream@.len() && ends_head(
            stream@.take(used as int),
        ) && (forall|j: int| 4 <= j < used ==> !#[trigger] ends_head(stream@.take(j)))
            && count == crlf_count(stream@.take(used as int)),
        r is None ==> forall|j: int| 4 <= j <= stream@.len() ==> !#[trigger] ends_head(
            stream@.take(j),
        ),
{
    let mut scanner = HeaderScanner::new();
    let mut i: usize = 0;
    while i < stream.len()
        invariant
            i <= stream@.len(),
            scanner.wf(),
            scanner.spec_buffer() == stream@.take(i as int),
            forall|j: int| 4 <= j <= i ==> !#[trigger] ends_head(stream@.take(j)),
        decreases stream@.len() - i,
    {
        let r = scanner.push(stream[i]);
        assert(stream@.take(i as int).push(stream@[i as int]) =~= stream@.take(i + 1));
        i = i + 1;
        match r {
            Some(count) => {
                return Some((count, i));
            },
            None => {},
        }
    }
    None
}

// ------------------------------------------------------------------------
// The parsed head
// ------------------------------------------------------------------------

/// One header of a request.
pub struct HeaderField {
    pub name: String,
    pub value: Vec<u8>,
}

/// What the HTTP parser found in a request head.
pub struct RequestHead {
    pub method: Option<String>,
    pub path: Option<String>,
    pub version: Option<u8>,
    pub headers: Vec<HeaderField>,
}

pub open spec fn header_fields(hs: Seq<HeaderField>) -> Seq<(Seq<char>, Seq<u8>)> {
    hs.map_values(|h: HeaderField| (h.name@, h.value@))
}

impl View for RequestHead {
    type V = (Option<Seq<char>>, Option<Seq<char>>, Option<u8>, Seq<(Seq<char>, Seq<u8>)>);

    open spec fn view(&self) -> Self::V {
        (
            match self.method {
                Some(m) => Some(m@),
                None => None,
            },
            match self.path {
                Some(p) => Some(p@),
                None => None,
            },
            self.version,
            header_fields(self.headers@),
        )
    }
}

/// What `httparse::Request::parse` makes of a buffer, with `slots` header
/// slots: `None` when it reports an error, otherwise the method, path,
/// version and headers it filled in (a partial head leaves some unset).
pub uninterp spec fn httparse_request(buf: Seq<u8>, slots: usize) -> Option<
    (Option<Seq<char>>, Option<Seq<char>>, Option<u8>, Seq<(Seq<char>, Seq<u8>)>),
>;

/// What the parser hands back: method, path, version and each header's
/// name and value.
pub type RawHead = (Option<String>, Option<String>, Option<u8>, Vec<(String, Vec<u8>)>);

/// The view of what the parser hands back.
pub open spec fn raw_head_view(t: RawHead) -> (Option<Seq<char>>, Option<Seq<char>>, Option<u8>, Seq<
    (Seq<char>, Seq<u8>),
>) {
    (
        match t.0 {
            Some(m) => Some(m@),
            None => None,
        },
        match t.1 {
            Some(p) => Some(p@),
            None => None,
        },
        t.2,
        t.3@.map_values(|h: (String, Vec<u8>)| (h.0@, h.1@)),
    )
}

/// Calls `httparse::Request::parse` on `buf` with `slots` empty headers and
/// copies out what it found. The contract claims only that the result is a
/// function of the buffer and the number of slots: the parser's grammar is
/// not restated here.
#[verifier::external_body]
fn httparse_parse(buf: &[u8], slots: usize) -> (r: Option<RawHead>)
    ensures
        match r {
            Some(t) => httparse_request(buf@, slots) == Some(raw_head_view(t)),
            None => httparse_request(buf@, slots) is None,
        },
{
    let mut headers = vec![httparse::EMPTY_HEADER; slots];
    let mut req = httparse::Request::new(&mut headers);
    req.parse(buf).ok()?;
    let hs = req.headers.iter().map(|h| (h.name.to_string(), h.value.to_vec())).collect();
    Some((req.method.map(String::from), req.path.map(String::from), req.version, hs))
}

/// Parses a request head with one header slot for each line ending that the
/// reader counted; `None` when the parser rejects it (a bad request).
pub fn parse_head(buf: &[u8], header_count: usize) -> (r: Option<RequestHead>)
    ensures
        match r {
            Some(h) => httparse_request(buf@, header_count) == Some(h@),
            None => httparse_request(buf@, header_count) is None,
        },
{
    let (method, path, version, raw) = match httparse_parse(buf, header_count) {
        Some(t) => t,
        None => return None,
    };
    let ghost orig = raw@;
    let mut rest = raw;
    let mut headers: Vec<HeaderField> = Vec::new();
    let n = rest.len();
    let mut i: usize = 0;
    while i < n
        invariant
            n == orig.len(),
            i <= n,
            rest@ == orig.skip(i as int),
            headers@.len() == i,
            forall|j: int|
                0 <= j < i ==> (#[trigger] headers@[j]).name@ == orig[j].0@ && headers@[j].value@
                    == orig[j].1@,
        decreases n - i,
    {
        let (name, value) = rest.remove(0);
        proof {
            assert(orig.skip(i as int)[0] == orig[i as int]);
            assert(rest@ =~= orig.skip(i + 1));
        }
        headers.push(HeaderField { name, value });
        i = i + 1;
    }
    assert(header_fields(headers@) =~= orig.map_values(|h: (String, Vec<u8>)| (h.0@, h.1@)));
    Some(RequestHead { method, path, version, headers })
}

/// `std::str::from_utf8`: the text that the bytes encode, when they are
/// valid UTF-8.
#[verifier::external_body]
fn utf8_text(bytes: &[u8]) -> (r: Option<String>)
    ensures
        r is Some <==> vstd::utf8::valid_utf8(bytes@),
        r matches Some(s) ==> s@ == vstd::utf8::decode_utf8(bytes@),
{
    core::str::from_utf8(bytes).ok().map(|s| s.to_string())
}

/// The text of a header value, if it is valid UTF-8.
pub open spec fn utf8_value(v: Seq<u8>) -> Option<Seq<char>> {
    if vstd::utf8::valid_utf8(v) {
        Some(vstd::utf8::decode_utf8(v))
    } else {
        None
    }
}

// ------------------------------------------------------------------------
// Cookies
// ------------------------------------------------------------------------

/// `str::split_once('=')`.
pub open spec fn split_once_eq(s: Seq<char>) -> Option<(Seq<char>, Seq<char>)> {
    match find_pat(s, seq!['=']) {
        Some(i) => Some((s.take(i), s.skip(i + 1))),
        None => None,
    }
}

proof fn lemma_find_first_eq(s: Seq<char>)
    ensures
        find_pat(s, seq!['=']) matches Some(i) ==> 0 <= i < s.len() && s[i] == '=' && forall|j: int|
            0 <= j < i ==> s[j] != '=',
        find_pat(s, seq!['=']) is None ==> forall|j: int| 0 <= j < s.len() ==> s[j] != '=',
    decreases s.len(),
{
    if s.len() >= 1 {
        assert(s.take(1) =~= seq![s[0]]);
        assert(seq![s[0]][0] == s[0]);
        assert((s.take(1) == seq!['=']) == (s[0] == '='));
        lemma_find_first_eq(s.drop_first());
        assert forall|j: int| 1 <= j < s.len() implies s[j] == s.drop_first()[j - 1] by {}
    }
}

/// A cookie piece is split at its first `=`: the name is what comes before
/// it and holds no `=`, the value is all that follows, `=` included, and the
/// two put back together with the `=` give the piece. A piece without `=`
/// gives no pair.
pub proof fn law_cookie_split_first_eq(s: Seq<char>)
    ensures
        split_once_eq(s) matches Some((n, v)) ==> s == n + seq!['='] + v && forall|j: int|
            0 <= j < n.len() ==> n[j] != '=',
        split_once_eq(s) is None ==> forall|j: int| 0 <= j < s.len() ==> s[j] != '=',
{
    lemma_find_first_eq(s);
    if let Some(i) = find_pat(s, seq!['=']) {
        assert(s =~= s.take(i) + seq!['='] + s.skip(i + 1));
    }
}

/// A piece `n=v` whose name holds no `=` gives the pair `(n, v)`, whatever
/// the value holds.
pub proof fn law_cookie_pair_of(n: Seq<char>, v: Seq<char>)
    requires
        forall|j: int| 0 <= j < n.len() ==> n[j] != '=',
    ensures
        split_once_eq(n + seq!['='] + v) == Some((n, v)),
        cookie_pairs(seq![n + seq!['='] + v]) == seq![(n, v)],
{
    let s = n + seq!['='] + v;
    lemma_find_first_eq(s);
    assert(s[n.len() as int] == '=');
    assert forall|j: int| 0 <= j < n.len() implies s[j] != '=' by {
        assert(s[j] == n[j]);
    }
    let i = find_pat(s, seq!['='])->Some_0;
    assert(i == n.len());
    assert(s.take(i) =~= n);
    assert(s.skip(i + 1) =~= v);
    let ps = seq![s];
    assert(ps.drop_last() =~= Seq::<Seq<char>>::empty());
    assert(ps.last() == s);
    assert(cookie_pairs(ps.drop_last()) == Seq::<(Seq<char>, Seq<char>)>::empty());
    assert(cookie_pairs(ps) == cookie_pairs(ps.drop_last()) + seq![(n, v)]);
    assert(cookie_pairs(ps) =~= seq![(n, v)]);
}

/// The `name=value` pairs among the pieces; pieces without `=` are dropped.
pub open spec fn cookie_pairs(pieces: Seq<Seq<char>>) -> Seq<(Seq<char>, Seq<char>)>
    decreases pieces.len(),
{
    if pieces.len() == 0 {
        Seq::empty()
    } else {
        cookie_pairs(pieces.drop_last()) + match split_once_eq(pieces.last()) {
            Some(p) => seq![p],
            None => Seq::empty(),
        }
    }
}

/// The cookies of a request: for each header named exactly `Cookie` whose
/// value is valid UTF-8, its `; `-separated `name=value` pairs, in order.
pub open spec fn cookies_spec(hs: Seq<(Seq<char>, Seq<u8>)>) -> Seq<(Seq<char>, Seq<char>)>
    decreases hs.len(),
{
    if hs.len() == 0 {
        Seq::empty()
    } else {
        let h = hs.last();
        cookies_spec(hs.drop_last()) + if h.0 == "Cookie"@ {
            match utf8_value(h.1) {
                Some(v) => cookie_pairs(split_pat(v, seq![';', ' '])),
                None => Seq::empty(),
            }
        } else {
            Seq::empty()
        }
    }
}

pub open spec fn string_pairs(v: Seq<(String, String)>) -> Seq<(Seq<char>, Seq<char>)> {
    v.map_values(|p: (String, String)| (p.0@, p.1@))
}

fn push_pairs(out: &mut Vec<(String, String)>, value: &Vec<char>)
    ensures
        string_pairs(final(out)@) == string_pairs(old(out)@) + cookie_pairs(
            split_pat(value@, seq![';', ' ']),
        ),
{
    let sep = vec![';', ' '];
    assert(sep@ =~= seq![';', ' ']);
    let pieces = split_by(value, &sep);
    let ghost ps = views(pieces@);
    let eq = vec!['='];
    assert(eq@ =~= seq!['=']);
    let mut i: usize = 0;
    assert(ps.take(0) =~= Seq::<Seq<char>>::empty());
    assert(string_pairs(out@) =~= string_pairs(old(out)@) + cookie_pairs(ps.take(0)));
    while i < pieces.len()
        invariant
            ps == views(pieces@),
            ps == split_pat(value@, seq![';', ' ']),
            eq@ == seq!['='],
            i <= pieces@.len(),
            string_pairs(out@) == string_pairs(old(out)@) + cookie_pairs(ps.take(i as int)),
        decreases pieces@.len() - i,
    {
        let piece = &pieces[i];
        let plen = piece.len();
        assert(ps.take(i + 1).drop_last() =~= ps.take(i as int));
        assert(ps.take(i + 1).last() == piece@);
        let ghost before = string_pairs(out@);
        match find_from(piece, 0, &eq) {
            Some(k) => {
                let name = slice_chars(piece, 0, k);
                let value = slice_chars(piece, k + 1, piece.len());
                assert(piece@.skip(0) =~= piece@);
                assert(name@ =~= piece@.take(k as int));
                assert(value@ =~= piece@.skip(k + 1));
                out.push((string_of(&name), string_of(&value)));
                assert(string_pairs(out@) =~= before.push((name@, value@)));
            },
            None => {
                assert(piece@.skip(0) =~= piece@);
            },
        }
        i = i + 1;
    }
    assert(ps.take(pieces@.len() as int) =~= ps);
}

/// The cookies that the request's `Cookie` headers carry.
pub fn parse_cookies(head: &RequestHead) -> (r: Vec<(String, String)>)
    ensures
        string_pairs(r@) == cookies_spec(head@.3),
{
    let ghost hs = head@.3;
    let cookie = chars_of("Cookie");
    let mut out: Vec<(String, String)> = Vec::new();
    let mut i: usize = 0;
    assert(hs.take(0) =~= Seq::<(Seq<char>, Seq<u8>)>::empty());
    while i < head.headers.len()
        invariant
            hs == head@.3,
            hs.len() == head.headers@.len(),
            cookie@ == "Cookie"@,
            i <= hs.len(),
            string_pairs(out@) == cookies_spec(hs.take(i as int)),
        decreases hs.len() - i,
    {
        let h = &head.headers[i];
        assert(hs.take(i + 1).drop_last() =~= hs.take(i as int));
        assert(hs.take(i + 1).last() == (h.name@, h.value@));
        let name = chars_of(h.name.as_str());
        if chars_eq(&name, &cookie) {
            match utf8_text(h.value.as_slice()) {
                Some(v) => {
                    let chars = chars_of(v.as_str());
                    push_pairs(&mut out, &chars);
                },
                None => {},
            }
        }
        i = i + 1;
    }
    assert(hs.take(hs.len() as int) =~= hs);
    out
}

// ------------------------------------------------------------------------
// Header lookups
// ------------------------------------------------------------------------

/// The value of the first header whose name is `name` in ASCII lower case.
pub open spec fn first_header(hs: Seq<(Seq<char>, Seq<u8>)>, name: Seq<char>) -> Option<Seq<u8>>
    decreases hs.len(),
{
    if hs.len() == 0 {
        None
    } else if lower_seq(hs[0].0) == name {
        Some(hs[0].1)
    } else {
        first_header(hs.drop_first(), name)
    }
}

/// The host of the request: the first `host` header (any ASCII case) whose
/// value is valid UTF-8, or `localhost`.
pub open spec fn host_spec(hs: Seq<(Seq<char>, Seq<u8>)>) -> Seq<char>
    decreases hs.len(),
{
    if hs.len() == 0 {
        "localhost"@
    } else if lower_seq(hs[0].0) == "host"@ && utf8_value(hs[0].1) is Some {
        utf8_value(hs[0].1).unwrap()
    } else {
        host_spec(hs.drop_first())
    }
}

/// The length that the request's body announces: the first
/// `content-length` header (any ASCII case) whose value reads as a `u64`.
pub open spec fn announced_length(hs: Seq<(Seq<char>, Seq<u8>)>) -> Option<u64>
    decreases hs.len(),
{
    if hs.len() == 0 {
        None
    } else if lower_seq(hs[0].0) == "content-length"@ && parse_u64_spec(hs[0].1) is Some {
        parse_u64_spec(hs[0].1)
    } else {
        announced_length(hs.drop_first())
    }
}

fn host_of(head: &RequestHead) -> (r: String)
    ensures
        r@ == host_spec(head@.3),
{
    let ghost hs = head@.3;
    let host = chars_of("host");
    let mut i: usize = 0;
    assert(hs.skip(0) =~= hs);
    while i < head.headers.len()
        invariant
            hs == head@.3,
            hs.len() == head.headers@.len(),
            host@ == "host"@,
            i <= hs.len(),
            host_spec(hs) == host_spec(hs.skip(i as int)),
        decreases hs.len() - i,
    {
        let h = &head.headers[i];
        assert(hs.skip(i as int)[0] == (h.name@, h.value@));
        assert(hs.skip(i as int).drop_first() =~= hs.skip(i + 1));
        let name = chars_of(h.name.as_str());
        if eq_lower(&name, &host) {
            match utf8_text(h.value.as_slice()) {
                Some(v) => {
                    return v;
                },
                None => {},
            }
        }
        i = i + 1;
    }
    let v = chars_of("localhost");
    string_of(&v)
}

/// The length that the request's body announces, for draining what a
/// handler left unread.
pub fn content_length(head: &RequestHead) -> (r: Option<u64>)
    ensures
        r == announced_length(head@.3),
{
    let ghost hs = head@.3;
    let name_lit = chars_of("content-length");
    let mut i: usize = 0;
    assert(hs.skip(0) =~= hs);
    while i < head.headers.len()
        invariant
            hs == head@.3,
            hs.len() == head.headers@.len(),
            name_lit@ == "content-length"@,
            i <= hs.len(),
            announced_length(hs) == announced_length(hs.skip(i as int)),
        decreases hs.len() - i,
    {
        let h = &head.headers[i];
        assert(hs.skip(i as int)[0] == (h.name@, h.value@));
        assert(hs.skip(i as int).drop_first() =~= hs.skip(i + 1));
        let name = chars_of(h.name.as_str());
        if eq_lower(&name, &name_lit) {
            match parse_u64(h.value.as_slice()) {
                Some(v) => {
                    return Some(v);
                },
                None => {},
            }
        }
        i = i + 1;
    }
    None
}

// ------------------------------------------------------------------------
// The URL
// ------------------------------------------------------------------------

/// The absolute URL of a request: `http://<host><path>`.
pub open spec fn url_text_spec(hs: Seq<(Seq<char>, Seq<u8>)>, path: Seq<char>) -> Seq<char> {
    "http://"@ + host_spec(hs) + path
}

/// The text of the request's absolute URL, when it has a path.
pub fn url_text(head: &RequestHead) -> (r: Option<String>)
    ensures
        match head@.1 {
            Some(p) => r matches Some(s) && s@ == url_text_spec(head@.3, p),
            None => r is None,
        },
{
    match &head.path {
        None => None,
        Some(path) => {
            let host = host_of(head);
            let mut text = chars_of("http://");
            push_str(&mut text, host.as_str());
            push_str(&mut text, path.as_str());
            Some(string_of(&text))
        },
    }
}

#[verifier::external_type_specification]
#[verifier::external_body]
pub struct ExUrl(url::Url);

/// The URL that `url::Url::parse` makes of a text, or `None` where it
/// rejects the text.
pub uninterp spec fn url_parse(text: Seq<char>) -> Option<url::Url>;

/// Calls `url::Url::parse`; its result, a function of the text alone, is
/// the name's value for the text. What the `Url` holds is not stated here.
#[verifier::external_body]
fn url_from_text(text: &str) -> (r: Option<url::Url>)
    ensures
        r == url_parse(text@),
{
    url::Url::parse(text).ok()
}

/// Whether the request's URL parses (see `parse_url`).
fn url_parses(head: &RequestHead) -> (b: bool)
    ensures
        b == (head@.1 is Some && url_parse(url_text_spec(head@.3, head@.1.unwrap())) is Some),
{
    match url_text(head) {
        Some(t) => url_from_text(t.as_str()).is_some(),
        None => false,
    }
}

/// Parses the request's URL, `http://<host><path>`. The head must have a
/// path and its URL must parse: for other heads the request is not served.
pub fn parse_url(head: &RequestHead) -> (r: url::Url)
    requires
        head@.1 is Some,
        url_parse(url_text_spec(head@.3, head@.1.unwrap())) is Some,
    ensures
        url_parse(url_text_spec(head@.3, head@.1.unwrap())) == Some(r),
{
    match url_text(head) {
        Some(t) => match url_from_text(t.as_str()) {
            Some(u) => u,
            None => vstd::pervasive::unreached(),
        },
        None => vstd::pervasive::unreached(),
    }
}

/// Parses the request's URL, or `None` when the head has no path or its URL
/// does not parse.
pub fn try_parse_url(head: &RequestHead) -> (r: Option<url::Url>)
    ensures
        match head@.1 {
            Some(p) => r == url_parse(url_text_spec(head@.3, p)),
            None => r is None,
        },
{
    if url_parses(head) {
        Some(parse_url(head))
    } else {
        None
    }
}

// ------------------------------------------------------------------------
// The request
// ------------------------------------------------------------------------

/// A partially parsed request: headers, URL, cookies and path parameters.
///
/// The body is read lazily, on demand, and reading it consumes it: a second
/// attempt fails with a state error.
pub struct Request {
    pub headers: Vec<HeaderField>,
    pub url: url::Url,
    pub cookies: Vec<(String, String)>,
    pub path_params: Vec<String>,
    pub method: HttpMethod,
    pub version: u8,
    body: bool,
}

/// What asking for the body does: whether the body counts as taken
/// afterwards, and the number of bytes to read or the error.
pub open spec fn body_step(taken: bool, hs: Seq<(Seq<char>, Seq<u8>)>) -> (bool, core::result::Result<usize, Error>) {
    if taken {
        (true, Err(Error::StateError))
    } else {
        match first_header(hs, "content-length"@) {
            None => (true, Err(Error::MissingContentLength)),
            Some(v) => match parse_usize_spec(v) {
                None => (true, Err(Error::InvalidContentLength)),
                Some(n) => (true, Ok(n)),
            },
        }
    }
}

impl Request {
    pub closed spec fn spec_body_taken(&self) -> bool {
        self.body
    }

    pub closed spec fn spec_headers(&self) -> Seq<(Seq<char>, Seq<u8>)> {
        header_fields(self.headers@)
    }

    pub closed spec fn spec_method(&self) -> HttpMethod {
        self.method
    }

    pub closed spec fn spec_version(&self) -> u8 {
        self.version
    }

    pub closed spec fn spec_cookies(&self) -> Seq<(String, String)> {
        self.cookies@
    }

    pub closed spec fn spec_path_params(&self) -> Seq<String> {
        self.path_params@
    }

    pub closed spec fn spec_url(&self) -> url::Url {
        self.url
    }

    /// A request for a parsed head: it needs a method and a version.
    pub fn new(
        head: RequestHead,
        url: url::Url,
        cookies: Vec<(String, String)>,
        path_params: Vec<String>,
    ) -> (r: core::result::Result<Request, Error>)
        ensures
            (head@.0 is None || head@.2 is None) ==> r == Err::<Request, Error>(Error::RequestError),
            (head@.0 is Some && head@.2 is Some) ==> (r matches Ok(req) && req.spec_method() == method_named(
                head@.0.unwrap(),
            ) && req.spec_version() == head@.2.unwrap() && req.spec_headers() == head@.3
                && req.spec_cookies() == cookies@ && req.spec_path_params() == path_params@
                && req.spec_url() == url && !req.spec_body_taken()),
    {
        let method = match &head.method {
            Some(m) => HttpMethod::from_name(m.as_str()),
            None => return Err(Error::RequestError),
        };
        let version = match head.version {
            Some(v) => v,
            None => return Err(Error::RequestError),
        };
        Ok(Request {
            headers: head.headers,
            url,
            cookies,
            path_params,
            method,
            version,
            body: false,
        })
    }

    /// Starts reading the body: the number of bytes that the first
    /// `content-length` header announces. The body can be asked for once.
    pub fn begin_body(&mut self) -> (r: core::result::Result<usize, Error>)
        ensures
            (final(self).spec_body_taken(), r) == body_step(
                old(self).spec_body_taken(),
                old(self).spec_headers(),
            ),
            final(self).spec_headers() == old(self).spec_headers(),
    {
        if self.body {
            return Err(Error::StateError);
        }
        self.body = true;
        let ghost hs = header_fields(self.headers@);
        let name_lit = chars_of("content-length");
        let mut i: usize = 0;
        assert(hs.skip(0) =~= hs);
        while i < self.headers.len()
            invariant
                hs == header_fields(self.headers@),
                self.body,
                !old(self).spec_body_taken(),
                self.spec_headers() == old(self).spec_headers(),
                hs == old(self).spec_headers(),
                hs.len() == self.headers@.len(),
                name_lit@ == "content-length"@,
                i <= hs.len(),
                first_header(hs, "content-length"@) == first_header(hs.skip(i as int), "content-length"@),
            decreases hs.len() - i,
        {
            let h = &self.headers[i];
            assert(hs.skip(i as int)[0] == (h.name@, h.value@));
            assert(hs.skip(i as int).drop_first() =~= hs.skip(i + 1));
            let name = chars_of(h.name.as_str());
            if eq_lower(&name, &name_lit) {
                return match parse_u64(h.value.as_slice()) {
                    Some(v) => if v <= usize::MAX as u64 {
                        Ok(v as usize)
                    } else {
                        Err(Error::InvalidContentLength)
                    },
                    None => Err(Error::InvalidContentLength),
                };
            }
            i = i + 1;
        }
        Err(Error::MissingContentLength)
    }

    /// Hands the raw byte stream to the caller: later attempts to read the
    /// body fail.
    pub fn raw_stream(&mut self)
        ensures
            final(self).spec_body_taken(),
            final(self).spec_headers() == old(self).spec_headers(),
    {
        self.body = true;
    }
}

/// Reading the body twice fails with a state error, whatever the first
/// attempt gave.
pub proof fn law_body_read_once(taken: bool, hs: Seq<(Seq<char>, Seq<u8>)>)
    ensures
        body_step(body_step(taken, hs).0, hs).1 == Err::<usize, Error>(Error::StateError),
{
}

// ------------------------------------------------------------------------
// Serving a connection
// ------------------------------------------------------------------------

/// The canned answers of the connection loop when a request cannot be
/// served; each closes the connection.
#[derive(Clone, Copy, Debug, PartialEq, Eq, Structural)]
pub enum Failure {
    BadRequest,
    NotFound,
    InternalError,
}

impl Failure {
    pub open spec fn spec_text(self) -> Seq<char> {
        match self {
            Failure::BadRequest => "HTTP/1.1 400 Bad Request\r\nContent-Length:0\r\nConnection:close\r\n\r\n"@,
            Failure::NotFound => "HTTP/1.1 404 Not Found\r\nContent-Length:0\r\nConnection:close\r\n\r\n"@,
            Failure::InternalError => "HTTP/1.1 500 Internal Server Error\r\nContent-Length:0\r\nConnection:close\r\n\r\n"@,
        }
    }

    /// The answer's text.
    pub fn text(self) -> (s: &'static str)
        ensures
            s@ == self.spec_text(),
    {
        match self {
            Failure::BadRequest => "HTTP/1.1 400 Bad Request\r\nContent-Length:0\r\nConnection:close\r\n\r\n",
            Failure::NotFound => "HTTP/1.1 404 Not Found\r\nContent-Length:0\r\nConnection:close\r\n\r\n",
            Failure::InternalError => "HTTP/1.1 500 Internal Server Error\r\nContent-Length:0\r\nConnection:close\r\n\r\n",
        }
    }
}

/// The handlers for a parsed head and its path parameters: `None` for a head
/// without a path or a method, or one that the router has no handler for.
pub open spec fn dispatch_spec(ns: Seq<crate::router::NodeView>, head: (Option<Seq<char>>, Option<Seq<char>>, Option<u8>, Seq<(Seq<char>, Seq<u8>)>)) -> Option<
    (Seq<HandlerId>, Seq<Seq<char>>),
> {
    match (head.1, head.0) {
        (Some(path), Some(m)) => handler_spec(ns, path, method_named(m).spec_bits()),
        _ => None,
    }
}

/// Finds the handlers for a request: the parse failure answers 400, a path
/// without handler 404.
pub fn dispatch(router: &Router, head: Option<&RequestHead>) -> (r: core::result::Result<(Vec<HandlerId>, Vec<String>), Failure>)
    ensures
        head is None ==> r == Err::<(Vec<HandlerId>, Vec<String>), Failure>(Failure::BadRequest),
        head matches Some(h) ==> match dispatch_spec(router@, h@) {
            Some((hs, ps)) => r matches Ok((a, b)) && a@ == hs && b@.map_values(|s: String| s@) == ps,
            None => r == Err::<(Vec<HandlerId>, Vec<String>), Failure>(Failure::NotFound),
        },
{
    let head = match head {
        None => return Err(Failure::BadRequest),
        Some(h) => h,
    };
    match (&head.path, &head.method) {
        (Some(path), Some(m)) => {
            let method = HttpMethod::from_name(m.as_str());
            match router.handler(path.as_str(), method) {
                Some(found) => Ok(found),
                None => Err(Failure::NotFound),
            }
        },
        _ => Err(Failure::NotFound),
    }
}

/// What the connection loop does after a handler ran: stop at the first
/// error (answering 500), stop once the response is done, go on otherwise.
#[derive(Clone, Copy, Debug, PartialEq, Eq, Structural)]
pub enum AfterHandler {
    Continue,
    Stop,
    Fail(Failure),
}

pub fn after_handler(ok: bool, state: crate::response::ResponseState) -> (r: AfterHandler)
    ensures
        !ok ==> r == AfterHandler::Fail(Failure::InternalError),
        ok && state == crate::response::ResponseState::Done ==> r == AfterHandler::Stop,
        ok && state != crate::response::ResponseState::Done ==> r == AfterHandler::Continue,
{
    if !ok {
        AfterHandler::Fail(Failure::InternalError)
    } else if state == crate::response::ResponseState::Done {
        AfterHandler::Stop
    } else {
        AfterHandler::Continue
    }
}

} // verus!
