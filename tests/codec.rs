use rhttp::common::RhttpError;
use rhttp::from_request::{FromParam, FromRequest, PathParam, WildCardParam};
use rhttp::headers::{HeaderType, HeaderValue};
use rhttp::incoming::Incoming;
use rhttp::method::Method;
use rhttp::outcoming::{Outcoming, Serialize};
use rhttp::radix_tree::RadixNodeBuilder;
use rhttp::radix_tree::RadixNodeType;
use rhttp::request::Request;
use rhttp::response::{buffer_to_vec, decimal_of, Html, IntoResponse, Response, Status};
use rhttp::text::parse_usize;
use rhttp::version::ProtocolVersion;

fn parse(s: &str) -> Result<Incoming, RhttpError> {
    Incoming::from(&s.as_bytes().to_vec())
}

fn wire(r: Response) -> String {
    String::from_utf8(Outcoming::new(r).serialize()).expect("utf-8")
}

/// The wire form of a converted response with its leading `Date` line taken out.
fn undated(r: Response) -> String {
    let w = wire(r);
    let (line, rest) = w.split_once("\r\n").expect("status line");
    let (date, rest) = rest.split_once("\r\n").expect("date line");
    assert!(date.starts_with("Date: ") && date.ends_with(" GMT"), "{date}");
    format!("{line}\r\n{rest}")
}

#[test]
fn parses_request_line_query_and_headers() {
    let inc = parse("get /a/b?x=1&y=2 http/1.0\r\nHost: x\r\nX-Custom: v: w\r\nhost: y\r\n\r\n").expect("parses");
    assert_eq!(inc.request.request_line.method, Method::Get);
    assert_eq!(inc.request.request_line.path, b"/a/b".to_vec());
    assert_eq!(inc.query_params, b"x=1&y=2".to_vec());
    assert_eq!(inc.request.request_line.protocol_version, ProtocolVersion::Http10);
    assert_eq!(inc.request.headers.len(), 2);
    assert_eq!(inc.request.headers[0].0.name(), b"Host".to_vec());
    assert_eq!(inc.request.headers[0].1 .0, b"y".to_vec());
    assert_eq!(inc.request.headers[1].0.name(), b"X-Custom".to_vec());
    assert_eq!(inc.request.headers[1].1 .0, b"v: w".to_vec());
    assert!(inc.request.body.is_empty());
    assert!(inc.path_params.is_empty());
}

#[test]
fn body_follows_content_length() {
    let inc = parse("POST / HTTP/1.1\r\ncontent-length: 3\r\n\r\nabcdef").expect("parses");
    assert_eq!(inc.request.body, b"abc".to_vec());
    assert_eq!(
        parse("POST / HTTP/1.1\r\nContent-Length: 10\r\n\r\nabc").err(),
        Some(RhttpError::ParsingHttpHeaderErr)
    );
    let inc = parse("POST / HTTP/1.1\r\n\r\nabc").expect("parses");
    assert!(inc.request.body.is_empty());
}

#[test]
fn each_parse_error_has_its_input() {
    assert_eq!(parse("GET / HTTP/1.1\r\n").err(), Some(RhttpError::ParsingRequestErr));
    assert_eq!(
        Incoming::from(&b"GET /\xff HTTP/1.1\r\n\r\n".to_vec()).err(),
        Some(RhttpError::ParsingRequestToStringErr)
    );
    assert_eq!(parse("   \r\n\r\n").err(), Some(RhttpError::ParsingHttpMethodErr));
    assert_eq!(parse("FETCH / HTTP/1.1\r\n\r\n").err(), Some(RhttpError::ParsingHttpMethodErr));
    assert_eq!(parse("GET\r\n\r\n").err(), Some(RhttpError::ParsingPathErr));
    assert_eq!(parse("GET path HTTP/1.1\r\n\r\n").err(), Some(RhttpError::ParsingPathErr));
    assert_eq!(parse("GET /\r\n\r\n").err(), Some(RhttpError::ParsingHttpProtocolErr));
    assert_eq!(parse("GET / HTTP/3\r\n\r\n").err(), Some(RhttpError::ParsingHttpProtocolErr));
    assert_eq!(parse("GET / HTTP/1.1\r\nno-colon\r\n\r\n").err(), Some(RhttpError::ParsingHttpHeaderErr));
    assert_eq!(
        parse("GET / HTTP/1.1\r\nContent-Length: ten\r\n\r\n").err(),
        Some(RhttpError::ParsingHttpHeaderErr)
    );
}

#[test]
fn methods_and_versions() {
    assert_eq!(Method::parse_from_str("pAtCh"), Ok(Method::Patch));
    assert_eq!(Method::parse_from_str("GETS"), Err(RhttpError::ParsingHttpMethodErr));
    assert_eq!(Method::Delete.to_str(), "DELETE");
    assert_eq!(Method::iterator().len(), 9);
    assert_eq!(Method::iterator()[3], Method::Delete);
    assert_eq!(ProtocolVersion::parse_from_str("HTTP/1.1"), Ok(ProtocolVersion::Http11));
    assert_eq!(ProtocolVersion::parse_from_str("HTTP/2"), Err(RhttpError::ParsingHttpProtocolErr));
}

#[test]
fn header_names_are_canonical() {
    let h = HeaderType::from_str("Content-Type").expect("always");
    assert!(matches!(h, HeaderType::ContentType));
    assert_eq!(h.name(), b"Content-Type".to_vec());
    let h = HeaderType::from_str("content-TYPE").expect("always");
    assert!(matches!(h, HeaderType::Custom(_)));
    assert_eq!(h.name(), b"content-TYPE".to_vec());
    let h = HeaderType::from_str("X-Thing").expect("always");
    assert_eq!(h.name(), b"X-Thing".to_vec());
    assert!(matches!(h, HeaderType::Custom(_)));
    let mut r = Request::new();
    r.add_header(b"host".to_vec(), b"a".to_vec()).expect("always");
    r.add_header(b"HOST".to_vec(), b"b".to_vec()).expect("always");
    assert_eq!(r.headers.len(), 1);
    assert_eq!(r.headers[0].0.name(), b"host".to_vec());
    assert_eq!(r.header(&HeaderType::Host), Some(b"b".to_vec()));
}

#[test]
fn header_value_text() {
    assert_eq!(HeaderValue(b"abc".to_vec()).to_str(), Ok("abc"));
    assert_eq!(HeaderValue(vec![0xc3, 0x28]).to_str(), Err(RhttpError::HeaderValueErr));
}

#[test]
fn text_response_wire_form() {
    assert_eq!(
        undated("hi".to_string().into_response()),
        "HTTP/1.1 200 OK\r\nContent-Length: 2\r\nContent-Type: text/plain; charset=utf-8\r\n\r\nhi"
    );
    assert_eq!(
        undated(Html("<p/>".to_string()).into_response()),
        "HTTP/1.1 200 OK\r\nContent-Length: 4\r\nContent-Type: text/html; charset=utf-8\r\n\r\n<p/>"
    );
    assert_eq!(undated(().into_response()), "HTTP/1.1 200 OK\r\nContent-Length: 0\r\n\r\n");
    assert_eq!(
        undated((Status::NotFound, "gone").into_response()),
        "HTTP/1.1 404 Not Found\r\nContent-Length: 4\r\nContent-Type: text/plain; charset=utf-8\r\n\r\ngone"
    );
    assert_eq!(undated(Status::InternalServerError.into_response()), "HTTP/1.1 500 Internal Server Error\r\nContent-Length: 0\r\n\r\n");
}

#[test]
fn round_trip_of_response_head() {
    let r = "hello".into_response();
    let bytes = Outcoming::new(r).serialize();
    let text = String::from_utf8(bytes).expect("utf-8");
    let (head, body) = text.split_once("\r\n\r\n").expect("head");
    let mut lines = head.split("\r\n");
    assert_eq!(lines.next(), Some("HTTP/1.1 200 OK"));
    assert!(lines.next().expect("date").starts_with("Date: "));
    assert_eq!(lines.next(), Some("Content-Length: 5"));
    assert_eq!(lines.next(), Some("Content-Type: text/plain; charset=utf-8"));
    assert_eq!(lines.next(), None);
    assert_eq!(body, "hello");
}

#[test]
fn date_is_added_in_front_once() {
    let mut r = Response::new();
    r.add_header(HeaderType::Host, b"h".to_vec());
    r.add_date(b"D1".to_vec());
    r.add_date(b"D2".to_vec());
    assert_eq!(r.headers[0].0.name(), b"Date".to_vec());
    assert_eq!(r.headers[0].1 .0, b"D1".to_vec());
    assert_eq!(r.headers.len(), 2);
    let mut c = "x".into_response();
    let first = c.headers[0].1 .0.clone();
    c.add_date(b"D3".to_vec());
    assert_eq!(c.headers[0].1 .0, first);
    assert_eq!(c.headers.len(), 3);
    let d = Response::default();
    assert_eq!(d.headers.len(), 1);
    assert_eq!(d.headers[0].0.name(), b"Date".to_vec());
    assert!(d.headers[0].1 .0.ends_with(b" GMT"));
}

#[test]
fn serializer_buffer_holds_the_wire_bytes() {
    let r = "abc".into_response();
    let via_buffer = buffer_to_vec(&r.serialize());
    assert_eq!(via_buffer, Outcoming::new("abc".into_response()).serialize());
    assert!(via_buffer.ends_with(b"\r\n\r\nabc"));
}

#[test]
fn decimal_forms() {
    assert_eq!(decimal_of(0), b"0".to_vec());
    assert_eq!(decimal_of(4096), b"4096".to_vec());
    assert_eq!(parse_usize(&b"+12".to_vec()), Some(12));
    assert_eq!(parse_usize(&b"".to_vec()), None);
    assert_eq!(parse_usize(&b"1a".to_vec()), None);
    assert_eq!(parse_usize(&b"99999999999999999999999".to_vec()), None);
}

#[test]
fn path_and_wildcard_extractors() {
    let mut inc = parse("GET /x HTTP/1.1\r\n\r\n").expect("parses");
    inc.path_params = vec![b"7".to_vec(), b"x".to_vec()];
    inc.wildcard_param = b"a/b".to_vec();
    let (PathParam(a), c) = <PathParam<usize>>::extract(&inc, 0).ok().expect("first");
    assert_eq!((a, c), (7, 1));
    assert_eq!(<PathParam<usize>>::extract(&inc, 1).err(), Some(RhttpError::ParsingPathParamsErr));
    assert_eq!(<PathParam<usize>>::extract(&inc, 2).err(), Some(RhttpError::ParsingPathParamsErr));
    let ((PathParam(p), PathParam(q)), c) =
        <(PathParam<usize>, PathParam<String>)>::extract(&inc, 0).ok().expect("pair");
    assert_eq!((p, q.as_str(), c), (7, "x", 2));
    let (WildCardParam(w), c) = <WildCardParam<String>>::extract(&inc, 1).ok().expect("wildcard");
    assert_eq!((w.as_str(), c), ("a/b", 1));
    assert_eq!(<String as FromParam>::from_param(&vec![0xff]), None);
    assert_eq!(<Vec<u8> as FromParam>::from_param(&b"q".to_vec()), Some(b"q".to_vec()));
}

#[test]
fn body_extractor_rejects_invalid_text() {
    let mut inc = parse("POST / HTTP/1.1\r\n\r\n").expect("parses");
    inc.request.body = vec![0xff, 0xfe];
    assert_eq!(<String as FromRequest>::extract(&inc, 0).err(), Some(RhttpError::BodyNotUtf8));
}

#[test]
fn builder_sets_fields() {
    let n = RadixNodeBuilder::new()
        .constant(b"ab".to_vec())
        .node_type(RadixNodeType::PathArgument)
        .endpoint_id(Some(3))
        .child(RadixNodeBuilder::new().build())
        .build();
    assert_eq!(n.constant, b"ab".to_vec());
    assert_eq!(n.node_type, RadixNodeType::PathArgument);
    assert_eq!(n.endpoint_id, Some(3));
    assert_eq!(n.children.len(), 1);
    let m = RadixNodeBuilder::new().children(Vec::new()).build();
    assert!(m.children.is_empty());
}

#[test]
fn error_messages() {
    assert_eq!(RhttpError::ListenerDefined.message(), "listener already defined");
    assert_eq!(RhttpError::HandlerNotFound.message(), "no handler found for method and path");
    assert!(RhttpError::BodyNotUtf8.is_client_error());
    assert!(!RhttpError::HandlerErr.is_client_error());
}
