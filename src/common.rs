//! Errors and wire constants.
use vstd::prelude::*;

verus! {

/// What can go wrong while parsing a request, routing it, extracting
/// handler arguments or running the server.
#[derive(PartialEq, Eq, Structural, Clone, Copy, Debug)]
pub enum RhttpError {
    /// The head is not terminated by an empty line.
    ParsingRequestErr,
    /// The method is missing or unknown.
    ParsingHttpMethodErr,
    /// The request target is missing or does not start with `/`.
    ParsingPathErr,
    /// The protocol version is missing or unknown.
    ParsingHttpProtocolErr,
    /// A header line has no `": "`, or `Content-Length` is not a number or
    /// more than the bytes that follow the head.
    ParsingHttpHeaderErr,
    /// A header value is not UTF-8.
    HeaderValueErr,
    /// The request head is not UTF-8.
    ParsingRequestToStringErr,
    /// `bind` was called on a server that already listens.
    ListenerDefined,
    /// `listen` was called before `bind`.
    ListenerNotDefined,
    /// The address could not be bound.
    UnableToBindAddress,
    /// No route matches the method and path.
    HandlerNotFound,
    /// The query string does not decode into the requested type.
    ParsingQueryParamsErr,
    /// A path parameter is missing or does not parse.
    ParsingPathParamsErr,
    /// The wildcard remainder does not parse.
    WildCardPathParamsErr,
    /// The body is not UTF-8.
    BodyNotUtf8,
    /// The handler itself failed.
    HandlerErr,
}

/// Whether an error is the client's fault (answered with 400) rather than
/// the server's (answered with 500).
pub open spec fn is_client_error(e: RhttpError) -> bool {
    match e {
        RhttpError::ParsingRequestErr | RhttpError::ParsingHttpMethodErr
        | RhttpError::ParsingPathErr | RhttpError::ParsingHttpProtocolErr
        | RhttpError::ParsingHttpHeaderErr | RhttpError::HeaderValueErr
        | RhttpError::ParsingRequestToStringErr | RhttpError::HandlerNotFound
        | RhttpError::ParsingQueryParamsErr | RhttpError::ParsingPathParamsErr
        | RhttpError::WildCardPathParamsErr | RhttpError::BodyNotUtf8 => true,
        _ => false,
    }
}

/// A description of each error.
pub open spec fn error_message(e: RhttpError) -> Seq<char> {
    match e {
        RhttpError::ParsingRequestErr => "error while parsing request: the head is not terminated by an empty line"@,
        RhttpError::ParsingHttpMethodErr => "error while parsing http method"@,
        RhttpError::ParsingPathErr => "error while parsing http path"@,
        RhttpError::ParsingHttpProtocolErr => "error while parsing http protocol"@,
        RhttpError::ParsingHttpHeaderErr => "error while parsing http header"@,
        RhttpError::HeaderValueErr => "error while parsing http header value: not UTF-8"@,
        RhttpError::ParsingRequestToStringErr => "error while parsing request: the head is not UTF-8"@,
        RhttpError::ListenerDefined => "listener already defined"@,
        RhttpError::ListenerNotDefined => "no listener defined"@,
        RhttpError::UnableToBindAddress => "unable to bind the address"@,
        RhttpError::HandlerNotFound => "no handler found for method and path"@,
        RhttpError::ParsingQueryParamsErr => "error while parsing query params"@,
        RhttpError::ParsingPathParamsErr => "error while parsing path params"@,
        RhttpError::WildCardPathParamsErr => "error while parsing wildcard params"@,
        RhttpError::BodyNotUtf8 => "error while reading the body: not UTF-8"@,
        RhttpError::HandlerErr => "the handler failed"@,
    }
}

impl RhttpError {
    /// A description of the error.
    pub fn message(&self) -> (r: &'static str)
        ensures
            r@ == error_message(*self),
    {
        match self {
            RhttpError::ParsingRequestErr => "error while parsing request: the head is not terminated by an empty line",
            RhttpError::ParsingHttpMethodErr => "error while parsing http method",
            RhttpError::ParsingPathErr => "error while parsing http path",
            RhttpError::ParsingHttpProtocolErr => "error while parsing http protocol",
            RhttpError::ParsingHttpHeaderErr => "error while parsing http header",
            RhttpError::HeaderValueErr => "error while parsing http header value: not UTF-8",
            RhttpError::ParsingRequestToStringErr => "error while parsing request: the head is not UTF-8",
            RhttpError::ListenerDefined => "listener already defined",
            RhttpError::ListenerNotDefined => "no listener defined",
            RhttpError::UnableToBindAddress => "unable to bind the address",
            RhttpError::HandlerNotFound => "no handler found for method and path",
            RhttpError::ParsingQueryParamsErr => "error while parsing query params",
            RhttpError::ParsingPathParamsErr => "error while parsing path params",
            RhttpError::WildCardPathParamsErr => "error while parsing wildcard params",
            RhttpError::BodyNotUtf8 => "error while reading the body: not UTF-8",
            RhttpError::HandlerErr => "the handler failed",
        }
    }

    pub fn is_client_error(&self) -> (r: bool)
        ensures
            r == is_client_error(*self),
    {
        match self {
            RhttpError::ParsingRequestErr | RhttpError::ParsingHttpMethodErr
            | RhttpError::ParsingPathErr | RhttpError::ParsingHttpProtocolErr
            | RhttpError::ParsingHttpHeaderErr | RhttpError::HeaderValueErr
            | RhttpError::ParsingRequestToStringErr | RhttpError::HandlerNotFound
            | RhttpError::ParsingQueryParamsErr | RhttpError::ParsingPathParamsErr
            | RhttpError::WildCardPathParamsErr | RhttpError::BodyNotUtf8 => true,
            _ => false,
        }
    }
}

pub open spec fn crlf() -> Seq<u8> {
    seq![0x0du8, 0x0au8]
}

pub open spec fn final_crlf() -> Seq<u8> {
    seq![0x0du8, 0x0au8, 0x0du8, 0x0au8]
}

pub fn crlf_bytes() -> (r: Vec<u8>)
    ensures
        r@ == crlf(),
{
    let r = vec![0x0du8, 0x0au8];
    proof {
        assert(r@ =~= crlf());
    }
    r
}

pub fn final_crlf_bytes() -> (r: Vec<u8>)
    ensures
        r@ == final_crlf(),
{
    let r = vec![0x0du8, 0x0au8, 0x0du8, 0x0au8];
    proof {
        assert(r@ =~= final_crlf());
    }
    r
}

} // verus!
