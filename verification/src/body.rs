//! Bodies: the traits that turn values into bytes and back, the body-less
//! content type, server sent events, and the description of REST responses.
//!
//! Serialization errors are carried as their message: the request and
//! response layers keep nothing of an error but its text.
use vstd::prelude::*;

use crate::text::{chars_of, push_str};

verus! {

/// Serializes `Self` into bytes. This is the interface through which any
/// serialization format or framework is plugged in.
pub trait Serialize {
    fn serialize(data: &Self) -> core::result::Result<Vec<u8>, String>;
}

/// Deserializes `Self` from the whole body of a request.
pub trait DeserializeBuffered where Self: Sized {
    fn deserialize(data: &[u8]) -> core::result::Result<Self, String>;
}

/// Deserialization implemented by the derive macros.
pub trait Demueslify where Self: Sized {
    fn demueslify(data: &[u8]) -> core::result::Result<Self, String>;
}

impl<T: Demueslify> DeserializeBuffered for T {
    /// What the derived `demueslify` gives for the same bytes.
    fn deserialize(data: &[u8]) -> (r: core::result::Result<Self, String>)
        ensures
            call_ensures(T::demueslify, (data,), r),
    {
        Self::demueslify(data)
    }
}

/// A content type for responses that have no body; mostly used for generic
/// HTTP errors.
pub struct NoBody<T>(pub T);

impl<T> Serialize for NoBody<T> {
    fn serialize(data: &Self) -> (r: core::result::Result<Vec<u8>, String>)
        ensures
            r matches Ok(b) && b@.len() == 0,
    {
        Ok(Vec::new())
    }
}

impl<T> NoBody<T> {
    /// A body-less value serializes to no bytes.
    pub fn body_bytes(&self) -> (b: Vec<u8>)
        ensures
            b@.len() == 0,
    {
        Vec::new()
    }
}

/// A message of a server sent event stream: its event name and its body.
/// Streaming these implements server sent events.
pub struct ServerSentEvent<B> {
    pub body: B,
    pub event: String,
}

/// `event: <event>\ndata: <body>\n\n`.
pub open spec fn event_frame(event: Seq<char>, body: Seq<u8>) -> Seq<u8> {
    vstd::utf8::encode_utf8("event: "@ + event + "\ndata: "@) + body + seq![10u8, 10u8]
}

/// The bytes of one server sent event, around an already serialized body.
pub fn frame_event(event: &str, body: &[u8]) -> (r: Vec<u8>)
    ensures
        r@ == event_frame(event@, body@),
{
    let mut head = chars_of("event: ");
    push_str(&mut head, event);
    push_str(&mut head, "\ndata: ");
    let s = crate::text::string_of(&head);
    let mut r = crate::text::bytes_of(s.as_str());
    let ghost start = r@;
    let mut i: usize = 0;
    while i < body.len()
        invariant
            i <= body@.len(),
            r@ == start + body@.take(i as int),
        decreases body@.len() - i,
    {
        r.push(body[i]);
        i = i + 1;
        assert(r@ =~= start + body@.take(i as int));
    }
    r.push(10u8);
    r.push(10u8);
    assert(body@.take(body@.len() as int) =~= body@);
    assert(r@ =~= event_frame(event@, body@));
    r
}

impl<B: Serialize> Serialize for ServerSentEvent<B> {
    /// The event's frame around what the body serializes to; the body's
    /// error where it fails.
    fn serialize(data: &Self) -> (r: core::result::Result<Vec<u8>, String>)
        ensures
            match r {
                Ok(bytes) => exists|body: Vec<u8>|
                    #![trigger call_ensures(B::serialize, (&data.body,), Ok::<Vec<u8>, String>(body))]
                    call_ensures(B::serialize, (&data.body,), Ok::<Vec<u8>, String>(body))
                        && bytes@ == event_frame(data.event@, body@),
                Err(e) => call_ensures(B::serialize, (&data.body,), Err::<Vec<u8>, String>(e)),
            },
    {
        let body = match B::serialize(&data.body) {
            Ok(b) => b,
            Err(e) => return Err(e),
        };
        Ok(frame_event(data.event.as_str(), body.as_slice()))
    }
}

/// A REST API response as the OpenAPI description defines it. Deriving it
/// lets the description of the response be generated.
pub trait RestResponse where Self: Sized {
    const CODE: u16;
    const REASON: &'static str;
    const HEADERS: &'static [(&'static str, &'static str)];
}

impl<R: RestResponse> RestResponse for Vec<R> {
    const CODE: u16 = R::CODE;
    const REASON: &'static str = R::REASON;
    const HEADERS: &'static [(&'static str, &'static str)] = R::HEADERS;
}

/// A source of server sent events.
pub trait EventSource {
    type Event: Send + Sync + 'static;
}

/// The content type of a body kind: what the response's content type
/// header says for it.
pub trait ContentType<T> {
    const CONTENT_TYPE: &'static str;
}

/// A body sent and received as JSON.
pub struct Json<T>(pub T);

/// A body sent and received as XML.
pub struct XML<T>(pub T);

impl<T> Json<T> {
    /// The value as a JSON body.
    pub fn new(value: T) -> (j: Json<T>)
        ensures
            j.0 == value,
    {
        Json(value)
    }
}

impl<T> XML<T> {
    /// The value as an XML body.
    pub fn new(value: T) -> (x: XML<T>)
        ensures
            x.0 == value,
    {
        XML(value)
    }
}

impl<T> NoBody<T> {
    /// The value as a body-less response.
    pub fn new(value: T) -> (b: NoBody<T>)
        ensures
            b.0 == value,
    {
        NoBody(value)
    }
}

impl<T> ContentType<T> for Json<T> {
    const CONTENT_TYPE: &'static str = "application/json";
}

impl<T> ContentType<T> for XML<T> {
    const CONTENT_TYPE: &'static str = "application/xml";
}

impl<T> ContentType<T> for NoBody<T> {
    const CONTENT_TYPE: &'static str = "none";
}

} // verus!
