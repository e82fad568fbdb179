//! The HTTP response as a state machine.
//!
//! A response moves from its status line through its headers to its body.
//! Each operation checks the state, decides what bytes go out next and moves
//! the state on; the program that owns the connection writes the bytes and
//! reports when a body went out completely.
use vstd::prelude::*;

use crate::text::{
    bytes_of, chars_eq, chars_of, decimal, decimal_of, eq_lower, lower_seq, push_all, push_str,
    string_of,
};
use crate::Error;

verus! {

/// Where a response stands.
#[derive(Clone, Copy, Debug, PartialEq, Eq, Structural)]
pub enum ResponseState {
    Status,
    StaticHeaders,
    Header,
    Body,
    Done,
    RawAccess,
}

impl ResponseState {
    /// The position of the state in the order Status < StaticHeaders <
    /// Header < Body < Done < RawAccess.
    pub open spec fn spec_rank(self) -> nat {
        match self {
            ResponseState::Status => 0,
            ResponseState::StaticHeaders => 1,
            ResponseState::Header => 2,
            ResponseState::Body => 3,
            ResponseState::Done => 4,
            ResponseState::RawAccess => 5,
        }
    }

    pub fn rank(self) -> (r: u8)
        ensures
            r == self.spec_rank(),
    {
        match self {
            ResponseState::Status => 0,
            ResponseState::StaticHeaders => 1,
            ResponseState::Header => 2,
            ResponseState::Body => 3,
            ResponseState::Done => 4,
            ResponseState::RawAccess => 5,
        }
    }
}

/// The abstract value of a list of header pairs.
pub open spec fn header_pairs(hs: Seq<(&str, &str)>) -> Seq<(Seq<char>, Seq<char>)> {
    hs.map_values(|h: (&str, &str)| (h.0@, h.1@))
}

/// `name: value\r\n` for each header, in order.
pub open spec fn header_text(hs: Seq<(Seq<char>, Seq<char>)>) -> Seq<char>
    decreases hs.len(),
{
    if hs.len() == 0 {
        Seq::empty()
    } else {
        header_text(hs.drop_last()) + hs.last().0 + seq![':', ' '] + hs.last().1 + seq!['\r', '\n']
    }
}

/// Whether a header asks for the connection to be closed.
pub open spec fn is_close(h: (Seq<char>, Seq<char>)) -> bool {
    lower_seq(h.0) == "connection"@ && h.1 == "close"@
}

/// Whether some header asks for the connection to be closed.
pub open spec fn any_close(hs: Seq<(Seq<char>, Seq<char>)>) -> bool {
    exists|i: int| 0 <= i < hs.len() && is_close(#[trigger] hs[i])
}

/// A header named `connection` in any ASCII case, with the value `close`,
/// asks for the connection to be closed, wherever it stands among the
/// headers.
pub proof fn law_close_header_any_case(hs: Seq<(Seq<char>, Seq<char>)>, i: int)
    requires
        0 <= i < hs.len(),
        lower_seq(hs[i].0) == "connection"@,
        hs[i].1 == "close"@,
    ensures
        any_close(hs),
{
    assert(is_close(hs[i]));
}

/// Whether a header closes the connection does not depend on the ASCII case
/// of its name.
pub proof fn law_close_ignores_name_case(a: Seq<char>, b: Seq<char>, v: Seq<char>)
    requires
        lower_seq(a) == lower_seq(b),
    ensures
        any_close(seq![(a, v)]) == any_close(seq![(b, v)]),
{
    if any_close(seq![(a, v)]) {
        assert(is_close(seq![(a, v)][0]));
        assert(is_close(seq![(b, v)][0]));
    }
    if any_close(seq![(b, v)]) {
        assert(is_close(seq![(b, v)][0]));
        assert(is_close(seq![(a, v)][0]));
    }
}

/// Only a header whose value is exactly `close` closes the connection.
pub proof fn law_close_needs_close_value(hs: Seq<(Seq<char>, Seq<char>)>)
    requires
        forall|i: int| 0 <= i < hs.len() ==> (#[trigger] hs[i]).1 != "close"@,
    ensures
        !any_close(hs),
{
}

/// `HTTP/1.1 <code> <reason>\r\n`.
pub open spec fn status_text(code: u16, reason: Seq<char>) -> Seq<char> {
    "HTTP/1.1 "@ + decimal(code as nat) + seq![' '] + reason + seq!['\r', '\n']
}

/// `Content-Length: <n>\r\n\r\n`.
pub open spec fn length_text(n: nat) -> Seq<char> {
    "Content-Length: "@ + decimal(n) + seq!['\r', '\n', '\r', '\n']
}

pub open spec fn utf8(s: Seq<char>) -> Seq<u8> {
    vstd::utf8::encode_utf8(s)
}

/// The bytes of a status line and the headers written right after it.
pub struct StatusWrite {
    /// The status line; a failure to write it is ignored.
    pub line: Vec<u8>,
    /// The static headers; a failure to write them fails the operation.
    pub headers: Vec<u8>,
}

/// What closing a response takes.
pub struct ClosePlan {
    /// Close the writer before anything else.
    pub close_first: bool,
    /// Bytes to write, failures ignored.
    pub bytes: Vec<u8>,
    /// Whether the bytes complete a body: if they were all written, flush
    /// the writer and report it with `finish_send`.
    pub completes_body: bool,
}

/// An HTTP response. Provides the state checks and the bytes of the high
/// level APIs that send or stream response data.
pub struct Response {
    state: ResponseState,
    static_headers: &'static [(&'static str, &'static str)],
    once: bool,
}

fn header_text_of(hs: &[(&str, &str)]) -> (r: (Vec<char>, bool))
    ensures
        r.0@ == header_text(header_pairs(hs@)),
        r.1 == any_close(header_pairs(hs@)),
{
    let ghost pairs = header_pairs(hs@);
    let connection = chars_of("connection");
    let close = chars_of("close");
    let mut out: Vec<char> = Vec::new();
    let mut found = false;
    let mut i: usize = 0;
    assert(pairs.take(0) =~= Seq::<(Seq<char>, Seq<char>)>::empty());
    while i < hs.len()
        invariant
            pairs == header_pairs(hs@),
            i <= hs@.len(),
            connection@ == "connection"@,
            close@ == "close"@,
            out@ == header_text(pairs.take(i as int)),
            found == any_close(pairs.take(i as int)),
        decreases hs@.len() - i,
    {
        let (name, value) = hs[i];
        let n = chars_of(name);
        let v = chars_of(value);
        let this = eq_lower(&n, &connection) && chars_eq(&v, &close);
        let ghost prefix = pairs.take(i as int);
        proof {
            assert(pairs.take(i + 1) =~= prefix.push(pairs[i as int]));
            assert(pairs.take(i + 1).drop_last() =~= prefix);
            assert(pairs[i as int] == (n@, v@));
            if this {
                assert(pairs.take(i + 1)[i as int] == pairs[i as int]);
            }
            if found {
                let j = choose|j: int| 0 <= j < prefix.len() && is_close(#[trigger] prefix[j]);
                assert(pairs.take(i + 1)[j] == prefix[j]);
            }
            if !found && !this {
                assert forall|j: int| 0 <= j < i + 1 implies !is_close(#[trigger] pairs.take(i + 1)[j]) by {
                    if j < i {
                        assert(pairs.take(i + 1)[j] == prefix[j]);
                    }
                }
            }
        }
        found = found || this;
        push_all(&mut out, &n);
        out.push(':');
        out.push(' ');
        push_all(&mut out, &v);
        out.push('\r');
        out.push('\n');
        i = i + 1;
    }
    assert(pairs.take(hs@.len() as int) =~= pairs);
    (out, found)
}

fn encode(text: &Vec<char>) -> (b: Vec<u8>)
    ensures
        b@ == utf8(text@),
{
    let s = string_of(text);
    bytes_of(s.as_str())
}

impl Response {
    pub closed spec fn spec_state(&self) -> ResponseState {
        self.state
    }

    pub closed spec fn spec_once(&self) -> bool {
        self.once
    }

    pub closed spec fn spec_static_headers(&self) -> Seq<(Seq<char>, Seq<char>)> {
        header_pairs(self.static_headers@)
    }

    /// A fresh response that will send the given headers with every status.
    pub fn new(static_headers: &'static [(&'static str, &'static str)]) -> (r: Response)
        ensures
            r.spec_state() == ResponseState::Status,
            !r.spec_once(),
            r.spec_static_headers() == header_pairs(static_headers@),
    {
        Response { state: ResponseState::Status, static_headers, once: false }
    }

    /// Where the response stands.
    pub fn state(&self) -> (s: ResponseState)
        ensures
            s == self.spec_state(),
    {
        self.state
    }

    /// Whether the connection is to be closed once the body went out (some
    /// header sent was `Connection: close`).
    pub fn once(&self) -> (b: bool)
        ensures
            b == self.spec_once(),
    {
        self.once
    }

    /// Starts the response with a status line, then the static headers.
    /// The code must have three digits and no status may have been sent.
    pub fn status(&mut self, code: u16, reason: &str) -> (r: core::result::Result<StatusWrite, Error>)
        ensures
            final(self).spec_static_headers() == old(self).spec_static_headers(),
            old(self).spec_state() == ResponseState::RawAccess ==> {
                &&& r == Err::<StatusWrite, Error>(Error::StateError)
                &&& final(self).spec_state() == old(self).spec_state()
                &&& final(self).spec_once() == old(self).spec_once()
            },
            old(self).spec_state() != ResponseState::RawAccess && (code < 100 || code >= 1000
                || old(self).spec_state() != ResponseState::Status) ==> {
                &&& r == Err::<StatusWrite, Error>(Error::InvalidStatus)
                &&& final(self).spec_state() == old(self).spec_state()
                &&& final(self).spec_once() == old(self).spec_once()
            },
            !(code < 100 || code >= 1000 || old(self).spec_state() != ResponseState::Status) ==> {
                &&& r matches Ok(w) && w.line@ == utf8(status_text(code, reason@))
                    && w.headers@ == utf8(header_text(old(self).spec_static_headers()))
                &&& final(self).spec_state() == ResponseState::Header
                &&& final(self).spec_once() == (old(self).spec_once() || any_close(
                    old(self).spec_static_headers(),
                ))
            },
    {
        if self.state == ResponseState::RawAccess {
            return Err(Error::StateError);
        }
        if code < 100 || code >= 1000 || self.state != ResponseState::Status {
            return Err(Error::InvalidStatus);
        }
        let mut line = chars_of("HTTP/1.1 ");
        let digits = decimal_of(code as u64);
        push_all(&mut line, &digits);
        line.push(' ');
        push_str(&mut line, reason);
        line.push('\r');
        line.push('\n');
        assert(line@ =~= status_text(code, reason@));
        let line = encode(&line);
        self.state = ResponseState::StaticHeaders;
        let headers = match self.headers(&[]) {
            Ok(h) => h,
            Err(e) => return Err(e),
        };
        proof {
            assert(header_pairs(Seq::<(&str, &str)>::empty()) =~= Seq::<(Seq<char>, Seq<char>)>::empty());
            assert(header_text(old(self).spec_static_headers()) + header_text(Seq::empty())
                =~= header_text(old(self).spec_static_headers()));
            assert(!any_close(Seq::<(Seq<char>, Seq<char>)>::empty()));
        }
        Ok(StatusWrite { line, headers })
    }

    /// Adds headers. They may only follow the status line and come before
    /// the body; right after the status line the static headers go first.
    pub fn headers(&mut self, headers: &[(&str, &str)]) -> (r: core::result::Result<Vec<u8>, Error>)
        ensures
            final(self).spec_static_headers() == old(self).spec_static_headers(),
            ({
                let st = old(self).spec_state();
                let hs = header_pairs(headers@);
                let sh = old(self).spec_static_headers();
                if st.spec_rank() >= 3 || st == ResponseState::Status {
                    &&& r == Err::<Vec<u8>, Error>(Error::StateError)
                    &&& final(self).spec_state() == st
                    &&& final(self).spec_once() == old(self).spec_once()
                } else if st == ResponseState::StaticHeaders {
                    &&& r matches Ok(b) && b@ == utf8(header_text(sh) + header_text(hs))
                    &&& final(self).spec_state() == ResponseState::Header
                    &&& final(self).spec_once() == (old(self).spec_once() || any_close(sh)
                        || any_close(hs))
                } else {
                    &&& r matches Ok(b) && b@ == utf8(header_text(hs))
                    &&& final(self).spec_state() == st
                    &&& final(self).spec_once() == (old(self).spec_once() || any_close(hs))
                }
            }),
    {
        if self.state.rank() >= 3 || self.state == ResponseState::Status {
            return Err(Error::StateError);
        }
        let mut text: Vec<char> = Vec::new();
        if self.state == ResponseState::StaticHeaders {
            self.state = ResponseState::Header;
            let (st, close) = header_text_of(self.static_headers);
            text = st;
            self.once = self.once || close;
        }
        let (ht, close) = header_text_of(headers);
        push_all(&mut text, &ht);
        self.once = self.once || close;
        assert(old(self).spec_state() != ResponseState::StaticHeaders ==> text@ =~= header_text(
            header_pairs(headers@),
        ));
        Ok(encode(&text))
    }

    /// Whether a body may be sent now (the headers were started and no body
    /// went out yet).
    pub fn can_send(&self) -> (b: bool)
        ensures
            b == (self.spec_state() == ResponseState::Header),
    {
        self.state == ResponseState::Header
    }

    /// The bytes that send a body: its length header, the blank line and the
    /// body itself. The state moves on once `finish_send` reports that they
    /// went out.
    pub fn send(&self, data: &[u8]) -> (r: core::result::Result<Vec<u8>, Error>)
        ensures
            self.spec_state() != ResponseState::Header ==> r == Err::<Vec<u8>, Error>(
                Error::StateError,
            ),
            self.spec_state() == ResponseState::Header ==> (r matches Ok(b) && b@ == utf8(
                length_text(data@.len() as nat),
            ) + data@),
    {
        if self.state != ResponseState::Header {
            return Err(Error::StateError);
        }
        let mut text = chars_of("Content-Length: ");
        let digits = decimal_of(data.len() as u64);
        push_all(&mut text, &digits);
        text.push('\r');
        text.push('\n');
        text.push('\r');
        text.push('\n');
        assert(text@ =~= length_text(data@.len() as nat));
        let mut out = encode(&text);
        let ghost head = out@;
        let mut i: usize = 0;
        while i < data.len()
            invariant
                i <= data@.len(),
                out@ == head + data@.take(i as int),
            decreases data@.len() - i,
        {
            out.push(data[i]);
            i = i + 1;
            assert(out@ =~= head + data@.take(i as int));
        }
        assert(data@.take(data@.len() as int) =~= data@);
        Ok(out)
    }

    /// Records that a body went out: the response is done. Returns whether
    /// the writer is to be closed now.
    pub fn finish_send(&mut self) -> (close: bool)
        requires
            old(self).spec_state() == ResponseState::Header,
        ensures
            final(self).spec_state() == ResponseState::Done,
            final(self).spec_once() == old(self).spec_once(),
            final(self).spec_static_headers() == old(self).spec_static_headers(),
            close == old(self).spec_once(),
    {
        self.state = ResponseState::Done;
        self.once
    }

    /// Sends a response as the OpenAPI description defines it: the status,
    /// the response's own headers, its content type and its body. Returns the
    /// status line and, separately, everything after it.
    pub fn respond(
        &mut self,
        code: u16,
        reason: &str,
        headers: &[(&str, &str)],
        content_type: &str,
        body: &[u8],
    ) -> (r: core::result::Result<StatusWrite, Error>)
        ensures
            final(self).spec_static_headers() == old(self).spec_static_headers(),
            old(self).spec_state() == ResponseState::RawAccess ==> {
                &&& r == Err::<StatusWrite, Error>(Error::StateError)
                &&& final(self).spec_state() == old(self).spec_state()
            },
            old(self).spec_state() != ResponseState::RawAccess && (code < 100 || code >= 1000
                || old(self).spec_state() != ResponseState::Status) ==> {
                &&& r == Err::<StatusWrite, Error>(Error::InvalidStatus)
                &&& final(self).spec_state() == old(self).spec_state()
            },
            !(code < 100 || code >= 1000 || old(self).spec_state() != ResponseState::Status) ==> {
                &&& r matches Ok(w) && w.line@ == utf8(status_text(code, reason@)) && w.headers@
                    == utf8(header_text(old(self).spec_static_headers())) + utf8(
                    header_text(header_pairs(headers@)),
                ) + utf8(header_text(seq![("Content-Type"@, content_type@)])) + utf8(
                    length_text(body@.len() as nat),
                ) + body@
                &&& final(self).spec_state() == ResponseState::Header
                &&& final(self).spec_once() == (old(self).spec_once() || any_close(
                    old(self).spec_static_headers(),
                ) || any_close(header_pairs(headers@)) || any_close(
                    seq![("Content-Type"@, content_type@)],
                ))
            },
    {
        let w = match self.status(code, reason) {
            Ok(w) => w,
            Err(e) => return Err(e),
        };
        let mut rest = w.headers;
        let mut own = match self.headers(headers) {
            Ok(b) => b,
            Err(e) => return Err(e),
        };
        rest.append(&mut own);
        let ct = [("Content-Type", content_type)];
        let mut typed = match self.headers(&ct) {
            Ok(b) => b,
            Err(e) => return Err(e),
        };
        proof {
            assert(header_pairs(ct@) =~= seq![("Content-Type"@, content_type@)]);
        }
        rest.append(&mut typed);
        let mut sent = match self.send(body) {
            Ok(b) => b,
            Err(e) => return Err(e),
        };
        rest.append(&mut sent);
        Ok(StatusWrite { line: w.line, headers: rest })
    }

    /// Starts a stream of server sent events: status 200, the event stream
    /// content type and the blank line that ends the headers. The events'
    /// bytes follow as they come.
    pub fn stream(&mut self) -> (r: core::result::Result<StatusWrite, Error>)
        ensures
            final(self).spec_static_headers() == old(self).spec_static_headers(),
            old(self).spec_state() == ResponseState::RawAccess ==> {
                &&& r == Err::<StatusWrite, Error>(Error::StateError)
                &&& final(self).spec_state() == old(self).spec_state()
            },
            old(self).spec_state() != ResponseState::RawAccess && old(self).spec_state()
                != ResponseState::Status ==> {
                &&& r == Err::<StatusWrite, Error>(Error::InvalidStatus)
                &&& final(self).spec_state() == old(self).spec_state()
            },
            old(self).spec_state() == ResponseState::Status ==> {
                &&& r matches Ok(w) && w.line@ == utf8(status_text(200, "OK"@)) && w.headers@
                    == utf8(header_text(old(self).spec_static_headers())) + utf8(
                    header_text(seq![("Content-Type"@, "text/event-stream"@)]),
                ) + seq![13u8, 10u8, 13u8, 10u8]
                &&& final(self).spec_state() == ResponseState::Header
            },
    {
        let w = match self.status(200, "OK") {
            Ok(w) => w,
            Err(e) => return Err(e),
        };
        let mut rest = w.headers;
        let ct = [("Content-Type", "text/event-stream")];
        let mut typed = match self.headers(&ct) {
            Ok(b) => b,
            Err(e) => return Err(e),
        };
        proof {
            assert(header_pairs(ct@) =~= seq![("Content-Type"@, "text/event-stream"@)]);
        }
        rest.append(&mut typed);
        rest.push(13u8);
        rest.push(10u8);
        rest.push(13u8);
        rest.push(10u8);
        Ok(StatusWrite { line: w.line, headers: rest })
    }

    /// Closes the response: a response that is not done gets a
    /// `500 Internal Server Error` with an empty body where its state still
    /// allows it. A response whose raw stream was taken has its writer closed.
    pub fn close(&mut self) -> (p: ClosePlan)
        ensures
            old(self).spec_state() == ResponseState::Done ==> !p.close_first && p.bytes@.len()
                == 0 && !p.completes_body && final(self).spec_state() == ResponseState::Done,
            old(self).spec_state() == ResponseState::RawAccess ==> p.close_first && p.bytes@.len()
                == 0 && !p.completes_body,
            old(self).spec_state() == ResponseState::Status ==> !p.close_first && p.bytes@ == utf8(
                status_text(500, "Internal Server Error"@),
            ) + utf8(header_text(old(self).spec_static_headers())) + utf8(length_text(0))
                && p.completes_body && final(self).spec_state() == ResponseState::Header,
            old(self).spec_state() == ResponseState::Header ==> !p.close_first && p.bytes@ == utf8(
                length_text(0),
            ) && p.completes_body && final(self).spec_state() == ResponseState::Header,
            (old(self).spec_state() == ResponseState::StaticHeaders || old(self).spec_state()
                == ResponseState::Body) ==> !p.close_first && p.bytes@.len() == 0
                && !p.completes_body,
            old(self).spec_state() != ResponseState::Status ==> final(self).spec_state() == old(
                self,
            ).spec_state() && final(self).spec_once() == old(self).spec_once(),
            old(self).spec_state() == ResponseState::Status ==> final(self).spec_once() == (old(
                self,
            ).spec_once() || any_close(old(self).spec_static_headers())),
            final(self).spec_static_headers() == old(self).spec_static_headers(),
    {
        if self.state == ResponseState::Done {
            return ClosePlan { close_first: false, bytes: Vec::new(), completes_body: false };
        }
        let close_first = self.state == ResponseState::RawAccess;
        let mut bytes: Vec<u8> = Vec::new();
        match self.status(500, "Internal Server Error") {
            Ok(w) => {
                let mut line = w.line;
                let mut headers = w.headers;
                bytes.append(&mut line);
                bytes.append(&mut headers);
            },
            Err(_) => {},
        }
        let empty: [u8; 0] = [];
        let completes_body = match self.send(&empty) {
            Ok(b) => {
                let mut b = b;
                bytes.append(&mut b);
                true
            },
            Err(_) => false,
        };
        ClosePlan { close_first, bytes, completes_body }
    }

    /// Gives up the high level APIs for raw access to the byte stream: later
    /// calls of them fail with a state error, and the connection is closed
    /// once the request is done.
    pub fn raw_stream(&mut self)
        ensures
            final(self).spec_state() == ResponseState::RawAccess,
            final(self).spec_once() == old(self).spec_once(),
            final(self).spec_static_headers() == old(self).spec_static_headers(),
    {
        self.state = ResponseState::RawAccess;
    }
}

} // verus!
