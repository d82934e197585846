//! A small HTTP/1.1 server core: a per-method radix router, a request parser,
//! typed extractors and response conversion.

pub mod common;
pub mod from_request;
pub mod headers;
pub mod incoming;
pub mod method;
pub mod outcoming;
pub mod radix_tree;
pub mod request;
pub mod response;
pub mod router;
pub mod text;
pub mod version;
pub mod wire;
