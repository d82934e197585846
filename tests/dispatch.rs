use rhttp::common::RhttpError;
use rhttp::from_request::{invoke0, invoke1, invoke2, FromQuery, PathParam, QueryParams, WildCardParam};
use rhttp::incoming::Incoming;
use rhttp::method::Method;
use rhttp::outcoming::{Outcoming, Serialize};
use rhttp::response::{IntoResponse, Response};
use rhttp::router::{Handler, Router};
use std::collections::BTreeMap;

struct Call(Box<dyn Fn(&Incoming) -> Result<Response, RhttpError>>);

impl Handler for Call {
    fn call(&self, incoming: &Incoming) -> Result<Response, RhttpError> {
        (self.0)(incoming)
    }
}

const DATE: &[u8] = b"Thu, 01 Jan 1970 00:00:00 GMT";

fn send(router: &Router<Call>, request: &str) -> Vec<u8> {
    let resp = router.handle_request(&request.as_bytes().to_vec(), DATE.to_vec());
    Outcoming::new(resp).serialize()
}

fn text(bytes: Vec<u8>) -> String {
    String::from_utf8(bytes).expect("utf-8")
}

struct OrderQuery {
    order_id: usize,
    activity_id: usize,
}

impl FromQuery for OrderQuery {
    fn from_query(raw: &Vec<u8>) -> Option<Self> {
        let raw = std::str::from_utf8(raw).ok()?;
        let map: BTreeMap<String, usize> = serde_qs::from_str(raw).ok()?;
        Some(OrderQuery { order_id: *map.get("order_id")?, activity_id: *map.get("activity_id")? })
    }
}

#[test]
fn root_with_unit_handler() {
    let mut router: Router<Call> = Router::new();
    router.register_path(Method::Get, "/", Call(Box::new(|_| Ok(invoke0(&|| ())))));
    let out = text(send(&router, "GET / HTTP/1.1\r\nHost: x\r\n\r\n"));
    assert!(out.starts_with("HTTP/1.1 200 OK\r\nDate: "));
    assert!(out.ends_with(" GMT\r\nContent-Length: 0\r\n\r\n"));
    assert_eq!(out.matches("Date: ").count(), 1);
}

#[test]
fn one_path_parameter() {
    let mut router: Router<Call> = Router::new();
    router.register_path(
        Method::Get,
        "/order/:order_id",
        Call(Box::new(|inc| invoke1(&|PathParam(n): PathParam<usize>| format!("order_id: {n}"), inc))),
    );
    let out = text(send(&router, "GET /order/42 HTTP/1.1\r\n\r\n"));
    assert!(out.starts_with("HTTP/1.1 200 OK\r\n"));
    assert!(out.contains("Content-Length: 12\r\n"));
    assert!(out.ends_with("\r\n\r\norder_id: 42"));
}

#[test]
fn two_path_parameters() {
    let mut router: Router<Call> = Router::new();
    router.register_path(
        Method::Get,
        "/order/:order_id/activity/:activity_id",
        Call(Box::new(|inc| {
            invoke2(
                &|PathParam(o): PathParam<usize>, PathParam(a): PathParam<usize>| {
                    format!("order_id: {o}, activity_id: {a}")
                },
                inc,
            )
        })),
    );
    let out = text(send(&router, "GET /order/7/activity/9 HTTP/1.1\r\n\r\n"));
    assert!(out.starts_with("HTTP/1.1 200 OK\r\n"));
    assert!(out.ends_with("\r\n\r\norder_id: 7, activity_id: 9"));
}

#[test]
fn query_parameters() {
    let mut router: Router<Call> = Router::new();
    router.register_path(
        Method::Get,
        "/path",
        Call(Box::new(|inc| {
            invoke1(
                &|QueryParams(q): QueryParams<OrderQuery>| {
                    format!("order_id: {}, activity_id: {}", q.order_id, q.activity_id)
                },
                inc,
            )
        })),
    );
    let out = text(send(&router, "GET /path?order_id=3&activity_id=5 HTTP/1.1\r\n\r\n"));
    assert!(out.starts_with("HTTP/1.1 200 OK\r\n"));
    assert!(out.ends_with("\r\n\r\norder_id: 3, activity_id: 5"));
    let bad = text(send(&router, "GET /path?order_id=x HTTP/1.1\r\n\r\n"));
    assert!(bad.starts_with("HTTP/1.1 400 Bad Request\r\n"));
}

#[test]
fn wildcard_remainder() {
    let mut router: Router<Call> = Router::new();
    router.register_path(
        Method::Get,
        "/test/*rest",
        Call(Box::new(|inc| {
            invoke1(&|WildCardParam(w): WildCardParam<String>| format!("remainder of path is: {}", w), inc)
        })),
    );
    let out = text(send(&router, "GET /test/a/b/c HTTP/1.1\r\n\r\n"));
    assert!(out.starts_with("HTTP/1.1 200 OK\r\n"));
    assert!(out.ends_with("\r\n\r\nremainder of path is: a/b/c"));
}

#[test]
fn literal_route_has_priority() {
    let mut router: Router<Call> = Router::new();
    router.register_path(Method::Get, "/users/:id", Call(Box::new(|_| Ok("user by id".into_response()))));
    router.register_path(Method::Get, "/users/me", Call(Box::new(|_| Ok("me".into_response()))));
    let out = text(send(&router, "GET /users/me HTTP/1.1\r\n\r\n"));
    assert!(out.ends_with("\r\n\r\nme"));
    let out = text(send(&router, "GET /users/12 HTTP/1.1\r\n\r\n"));
    assert!(out.ends_with("\r\n\r\nuser by id"));
}

#[test]
fn unknown_route_is_bad_request() {
    let mut router: Router<Call> = Router::new();
    router.register_path(Method::Get, "/", Call(Box::new(|_| Ok(().into_response()))));
    let out = text(send(&router, "DELETE /unknown HTTP/1.1\r\n\r\n"));
    assert!(out.starts_with("HTTP/1.1 400 Bad Request\r\n"));
    let out = text(send(&router, "DELETE / HTTP/1.1\r\n\r\n"));
    assert!(out.starts_with("HTTP/1.1 400 Bad Request\r\n"));
}

#[test]
fn errors_are_dated_with_the_given_date() {
    let router: Router<Call> = Router::new();
    let out = text(send(&router, "GET / HTTP/1.1\r\n\r\n"));
    assert_eq!(
        out,
        "HTTP/1.1 400 Bad Request\r\nDate: Thu, 01 Jan 1970 00:00:00 GMT\r\nContent-Length: 0\r\n\r\n"
    );
}

#[test]
fn route_prepares_the_request() {
    let mut router: Router<Call> = Router::new();
    router.register_path(Method::Get, "/a/:x/*rest", Call(Box::new(|_| Ok(().into_response()))));
    let id = router.register_path(Method::Get, "/b/:y", Call(Box::new(|_| Ok(().into_response()))));
    let (i, inc) = router.route(&b"GET /b/5?q=1 HTTP/1.1\r\n\r\n".to_vec()).ok().expect("routes");
    assert_eq!(i as u64, id);
    assert_eq!(inc.path_params, vec![b"5".to_vec()]);
    assert_eq!(inc.query_params, b"q=1".to_vec());
    let (i, inc) = router.route(&b"GET /a/1/x/y HTTP/1.1\r\n\r\n".to_vec()).ok().expect("routes");
    assert_eq!(i, 0);
    assert_eq!(inc.path_params, vec![b"1".to_vec()]);
    assert_eq!(inc.wildcard_param, b"x/y".to_vec());
    assert_eq!(router.route(&b"GET /c HTTP/1.1\r\n\r\n".to_vec()).err(), Some(RhttpError::HandlerNotFound));
}

#[test]
fn reregistering_keeps_other_slots() {
    let mut router: Router<Call> = Router::new();
    let a = router.register_path(Method::Get, "/a", Call(Box::new(|_| Ok("a".into_response()))));
    let b = router.register_path(Method::Post, "/a", Call(Box::new(|_| Ok("b".into_response()))));
    let a2 = router.register_path(Method::Get, "/a", Call(Box::new(|_| Ok("c".into_response()))));
    assert_eq!(a, a2);
    assert_ne!(a, b);
    assert_eq!(router.handlers.len(), 2);
    assert!(text(send(&router, "POST /a HTTP/1.1\r\n\r\n")).ends_with("\r\n\r\nb"));
    assert!(text(send(&router, "GET /a HTTP/1.1\r\n\r\n")).ends_with("\r\n\r\nc"));
}

#[test]
fn handler_failure_is_server_error() {
    let mut router: Router<Call> = Router::new();
    router.register_path(Method::Get, "/", Call(Box::new(|_| Err(RhttpError::HandlerErr))));
    let out = text(send(&router, "GET / HTTP/1.1\r\n\r\n"));
    assert!(out.starts_with("HTTP/1.1 500 Internal Server Error\r\n"));
}

#[test]
fn malformed_requests_are_bad_requests() {
    let mut router: Router<Call> = Router::new();
    router.register_path(Method::Get, "/", Call(Box::new(|_| Ok(().into_response()))));
    for req in [
        "GET / HTTP/1.1\r\n",
        "FETCH / HTTP/1.1\r\n\r\n",
        "GET\r\n\r\n",
        "GET nopath HTTP/1.1\r\n\r\n",
        "GET / HTTP/2.0\r\n\r\n",
        "GET / HTTP/1.1\r\nbroken header\r\n\r\n",
    ] {
        let out = text(send(&router, req));
        assert!(out.starts_with("HTTP/1.1 400 Bad Request\r\n"), "{req:?}");
    }
}

#[test]
fn registering_twice_replaces_the_handler() {
    let mut router: Router<Call> = Router::new();
    let a = router.register_path(Method::Get, "/x", Call(Box::new(|_| Ok("first".into_response()))));
    let b = router.register_path(Method::Get, "/x", Call(Box::new(|_| Ok("second".into_response()))));
    assert_eq!(a, b);
    let out = text(send(&router, "GET /x HTTP/1.1\r\n\r\n"));
    assert!(out.ends_with("\r\n\r\nsecond"));
}

#[test]
fn body_extractor_reads_text() {
    let mut router: Router<Call> = Router::new();
    router.register_path(Method::Post, "/", Call(Box::new(|inc| invoke1(&|body: String| body, inc))));
    let out = text(send(&router, "POST / HTTP/1.1\r\nContent-Length: 5\r\n\r\nhello world"));
    assert!(out.ends_with("\r\n\r\nhello"));
    let out = text(send(&router, "POST / HTTP/1.1\r\n\r\nhello"));
    assert!(out.contains("Content-Length: 0\r\n"));
}
