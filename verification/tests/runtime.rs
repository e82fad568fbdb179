use resty::body::{frame_event, NoBody};
use resty::method::{method_mask, HttpMethod};
use resty::request::{
    after_handler, content_length, dispatch, parse_cookies, parse_head, read_headers,
    try_parse_url, url_text, AfterHandler, Failure, Request,
};
use resty::response::{Response, ResponseState};
use resty::router::{HandlerOrMiddleware, RouteSlice, Router};
use resty::Error;

fn s(x: &str) -> String {
    x.to_string()
}

fn route(segments: &[&str], h: HandlerOrMiddleware) -> RouteSlice {
    (segments.iter().map(|x| s(x)).collect(), h)
}

fn petstore() -> Router {
    Router::new(&[
        route(&[], HandlerOrMiddleware::Middleware(100)),
        route(&["pet", "[id]"], HandlerOrMiddleware::Handler(1, HttpMethod::GET.bits())),
        route(&["pet", "[id]"], HandlerOrMiddleware::Handler(2, HttpMethod::DELETE.bits() | HttpMethod::PUT.bits())),
        route(&["pet", "findByStatus"], HandlerOrMiddleware::Handler(3, HttpMethod::ALL.bits())),
        route(&["store"], HandlerOrMiddleware::Middleware(200)),
        route(&["store", "inventory"], HandlerOrMiddleware::Handler(4, HttpMethod::GET.bits())),
        route(&["%404"], HandlerOrMiddleware::Handler(5, HttpMethod::ALL.bits())),
    ])
}

#[test]
fn methods_by_name() {
    assert_eq!(HttpMethod::from_name("get"), HttpMethod::GET);
    assert_eq!(HttpMethod::from_name("Delete"), HttpMethod::DELETE);
    assert_eq!(HttpMethod::from_name("FETCH"), HttpMethod::INVALID);
    assert_eq!(HttpMethod::POST.to_string(), "POST");
    assert_eq!(HttpMethod::from_name(&HttpMethod::OPTIONS.to_string()), HttpMethod::OPTIONS);
    assert_eq!(HttpMethod::TRACE.bits(), 128);
    assert_eq!(HttpMethod::from_bit(4), Some(HttpMethod::POST));
}

#[test]
fn method_masks_from_identifiers() {
    let names = |xs: &[&str]| xs.iter().map(|x| s(x)).collect::<Vec<String>>();
    assert_eq!(method_mask(&names(&["GET"])), Some(1));
    assert_eq!(method_mask(&names(&["GET", "POST"])), Some(5));
    assert_eq!(method_mask(&names(&["PUT", "PUT"])), Some(2));
    assert_eq!(method_mask(&names(&["ALL"])), Some(0xffff));
    assert_eq!(method_mask(&names(&["INVALID"])), Some(0));
    assert_eq!(method_mask(&names(&[])), Some(0));
    assert_eq!(method_mask(&names(&["GET", "FETCH"])), None);
    assert_eq!(method_mask(&names(&["get"])), None);
    assert_eq!(HttpMethod::from_ident("TRACE"), Some(HttpMethod::TRACE));
    assert_eq!(HttpMethod::from_ident("Trace"), None);
}

#[test]
fn routing_with_parameters_and_middleware() {
    let r = petstore();
    assert_eq!(r.handler("/pet/42", HttpMethod::GET), Some((vec![100, 1], vec![s("42")])));
    assert_eq!(r.handler("/pet/42", HttpMethod::PUT), Some((vec![100, 2], vec![s("42")])));
    assert_eq!(r.handler("/pet/42", HttpMethod::POST), None);
    assert_eq!(r.handler("pet/findByStatus?status=sold", HttpMethod::POST), Some((vec![100, 3], vec![])));
    assert_eq!(r.handler("/store/inventory", HttpMethod::GET), Some((vec![100, 200, 4], vec![])));
    assert_eq!(r.handler("/pet//7/", HttpMethod::GET), Some((vec![100, 1], vec![s("7")])));
}

#[test]
fn unknown_paths_fall_back() {
    let r = petstore();
    assert_eq!(r.handler("/nowhere", HttpMethod::GET), Some((vec![100, 5], vec![])));
    let plain = Router::new(&[route(&["a"], HandlerOrMiddleware::Handler(1, HttpMethod::GET.bits()))]);
    assert_eq!(plain.handler("/b", HttpMethod::GET), None);
    assert_eq!(plain.handler("/", HttpMethod::GET), None);
}

#[test]
fn an_added_route_is_found() {
    let mut r = Router::empty();
    r.add_route(&route(&["users", "[name]", "posts"], HandlerOrMiddleware::Handler(9, HttpMethod::POST.bits())));
    assert_eq!(r.handler("/users/ann/posts", HttpMethod::POST), Some((vec![9], vec![s("ann")])));
}

#[test]
fn the_root_route_is_reached() {
    let r = Router::new(&[route(&[""], HandlerOrMiddleware::Handler(1, HttpMethod::GET.bits()))]);
    assert_eq!(r.handler("/", HttpMethod::GET), Some((vec![1], vec![])));
    assert_eq!(r.handler("", HttpMethod::GET), Some((vec![1], vec![])));
    let split = Router::new(&[route(&["", ""], HandlerOrMiddleware::Handler(2, HttpMethod::GET.bits()))]);
    assert_eq!(split.handler("/", HttpMethod::GET), Some((vec![2], vec![])));
    assert_eq!(split.to_string(), "Router {\n  GET\n  Middleware: No\n}");
}

#[test]
fn empty_route_segments_are_skipped() {
    let r = Router::new(&[route(&["", "a", "", "b", ""], HandlerOrMiddleware::Handler(3, HttpMethod::GET.bits()))]);
    assert_eq!(r.handler("/a/b", HttpMethod::GET), Some((vec![3], vec![])));
}

#[test]
fn paths_with_the_same_segments_route_alike() {
    let r = petstore();
    let expected = Some((vec![100, 1], vec![s("42")]));
    assert_eq!(r.handler("/pet/42", HttpMethod::GET), expected);
    assert_eq!(r.handler("pet//42/", HttpMethod::GET), expected);
    assert_eq!(r.handler("/pet/42?x=/c", HttpMethod::GET), expected);
    assert_eq!(r.route("/pet/42"), r.route("pet//42/"));
}

#[test]
fn a_route_is_found_by_its_own_text() {
    let mut r = Router::empty();
    r.add_route(&route(&["users", "[name]"], HandlerOrMiddleware::Handler(4, HttpMethod::GET.bits())));
    assert_eq!(r.handler("/users/[name]", HttpMethod::GET), Some((vec![4], vec![s("[name]")])));
}

#[test]
fn router_text() {
    let r = Router::new(&[route(&["users"], HandlerOrMiddleware::Handler(1, HttpMethod::GET.bits()))]);
    assert_eq!(
        r.to_string(),
        "Router {\n  /users: Router {\n    GET\n    Middleware: No\n  }\n  Middleware: No\n}"
    );
}

const REQUEST: &[u8] = b"POST /pet?kind=cat HTTP/1.1\r\nHost: example.com\r\nCookie: a=1; b=2; junk\r\nContent-Length: 5\r\n\r\nhello";

#[test]
fn reading_and_parsing_a_head() {
    let (count, used) = read_headers(REQUEST).unwrap();
    assert_eq!(used, REQUEST.len() - 5);
    assert_eq!(count, 5);
    assert_eq!(read_headers(b"GET / HTTP/1.1\r\n"), None);
    let head = parse_head(&REQUEST[..used], count).unwrap();
    assert_eq!(head.method.as_deref(), Some("POST"));
    assert_eq!(head.path.as_deref(), Some("/pet?kind=cat"));
    assert_eq!(head.version, Some(1));
    assert_eq!(parse_cookies(&head), vec![(s("a"), s("1")), (s("b"), s("2"))]);
    assert_eq!(content_length(&head), Some(5));
    assert_eq!(url_text(&head).as_deref(), Some("http://example.com/pet?kind=cat"));
    let url = try_parse_url(&head).unwrap();
    assert_eq!(url.path(), "/pet");
    assert_eq!(url.query(), Some("kind=cat"));
    assert!(parse_head(b"NOT A REQUEST\x00\r\n\r\n", 1).is_none());
}

#[test]
fn dispatching_requests() {
    let r = petstore();
    assert_eq!(dispatch(&r, None).err(), Some(Failure::BadRequest));
    let raw = b"DELETE /pet/3 HTTP/1.1\r\nHost: x\r\n\r\n";
    let (count, used) = read_headers(raw).unwrap();
    let head = parse_head(&raw[..used], count).unwrap();
    assert_eq!(dispatch(&r, Some(&head)).ok(), Some((vec![100, 2], vec![s("3")])));
    let raw = b"PATCH /pet/3 HTTP/1.1\r\n\r\n";
    let (count, used) = read_headers(raw).unwrap();
    let head = parse_head(&raw[..used], count).unwrap();
    assert_eq!(dispatch(&r, Some(&head)).err(), Some(Failure::NotFound));
    assert!(Failure::NotFound.text().starts_with("HTTP/1.1 404 Not Found\r\n"));
    assert_eq!(after_handler(false, ResponseState::Header), AfterHandler::Fail(Failure::InternalError));
    assert_eq!(after_handler(true, ResponseState::Done), AfterHandler::Stop);
    assert_eq!(after_handler(true, ResponseState::Body), AfterHandler::Continue);
}

#[test]
fn the_body_is_read_once() {
    let (count, used) = read_headers(REQUEST).unwrap();
    let head = parse_head(&REQUEST[..used], count).unwrap();
    let url = try_parse_url(&head).unwrap();
    let mut req = Request::new(head, url, vec![], vec![]).ok().unwrap();
    assert_eq!(req.method, HttpMethod::POST);
    assert_eq!(req.begin_body(), Ok(5));
    assert_eq!(req.begin_body(), Err(Error::StateError));
}

#[test]
fn a_body_without_length() {
    let raw = b"GET / HTTP/1.1\r\nHost: x\r\n\r\n";
    let (count, used) = read_headers(raw).unwrap();
    let head = parse_head(&raw[..used], count).unwrap();
    let url = try_parse_url(&head).unwrap();
    let mut req = Request::new(head, url, vec![], vec![]).ok().unwrap();
    req.raw_stream();
    assert_eq!(req.begin_body(), Err(Error::StateError));
    let raw = b"GET / HTTP/1.1\r\nContent-Length: x\r\n\r\n";
    let (count, used) = read_headers(raw).unwrap();
    let head = parse_head(&raw[..used], count).unwrap();
    let url = url::Url::parse("http://localhost/").unwrap();
    let mut req = Request::new(head, url, vec![], vec![]).ok().unwrap();
    assert_eq!(req.begin_body(), Err(Error::InvalidContentLength));
}

const NO_HEADERS: &[(&str, &str)] = &[];
const CLOSE: &[(&str, &str)] = &[("Connection", "close")];

#[test]
fn responding() {
    let mut res = Response::new(NO_HEADERS);
    assert_eq!(res.send(b"x").err(), Some(Error::StateError));
    assert_eq!(res.status(99, "Low").err(), Some(Error::InvalidStatus));
    let w = res.status(200, "OK").ok().unwrap();
    assert_eq!(w.line, b"HTTP/1.1 200 OK\r\n".to_vec());
    assert!(w.headers.is_empty());
    assert_eq!(res.status(200, "OK").err(), Some(Error::InvalidStatus));
    assert_eq!(res.headers(&[("X-A", "1")]).ok().unwrap(), b"X-A: 1\r\n".to_vec());
    assert_eq!(res.send(b"hi").ok().unwrap(), b"Content-Length: 2\r\n\r\nhi".to_vec());
    assert!(!res.finish_send());
    assert_eq!(res.state(), ResponseState::Done);
    assert_eq!(res.headers(&[]).err(), Some(Error::StateError));
    let plan = res.close();
    assert!(plan.bytes.is_empty() && !plan.close_first);
}

#[test]
fn static_headers_and_closing() {
    let mut res = Response::new(CLOSE);
    let w = res
        .respond(201, "Created", &[("X-Id", "7")], "application/json", b"{}")
        .ok()
        .unwrap();
    assert_eq!(w.line, b"HTTP/1.1 201 Created\r\n".to_vec());
    assert_eq!(
        w.headers,
        b"Connection: close\r\nX-Id: 7\r\nContent-Type: application/json\r\nContent-Length: 2\r\n\r\n{}".to_vec()
    );
    assert!(res.once());
    assert!(res.finish_send());

    let mut unsent = Response::new(NO_HEADERS);
    let plan = unsent.close();
    assert_eq!(
        plan.bytes,
        b"HTTP/1.1 500 Internal Server Error\r\nContent-Length: 0\r\n\r\n".to_vec()
    );
    assert!(plan.completes_body);

    let mut raw = Response::new(NO_HEADERS);
    raw.raw_stream();
    assert_eq!(raw.status(200, "OK").err(), Some(Error::StateError));
    assert_eq!(raw.status(99, "Low").err(), Some(Error::StateError));
    assert_eq!(raw.headers(&[("X-A", "1")]).err(), Some(Error::StateError));
    assert_eq!(raw.send(b"x").err(), Some(Error::StateError));
    assert_eq!(raw.respond(200, "OK", &[], "text/plain", b"x").err(), Some(Error::StateError));
    assert_eq!(raw.stream().err(), Some(Error::StateError));
    assert!(raw.close().close_first);
    assert_eq!(raw.state(), ResponseState::RawAccess);
    assert!(!raw.once());

    let mut closing = Response::new(CLOSE);
    let plan = closing.close();
    assert!(plan.completes_body);
    assert_eq!(closing.state(), ResponseState::Header);
    assert!(closing.once());
}

#[test]
fn streaming_events() {
    let mut res = Response::new(NO_HEADERS);
    let w = res.stream().ok().unwrap();
    assert_eq!(w.line, b"HTTP/1.1 200 OK\r\n".to_vec());
    assert_eq!(w.headers, b"Content-Type: text/event-stream\r\n\r\n\r\n".to_vec());
    assert_eq!(frame_event("tick", b"1"), b"event: tick\ndata: 1\n\n".to_vec());
    assert!(NoBody(()).body_bytes().is_empty());
}
