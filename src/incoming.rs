//! Reading a request from the bytes of a connection.
use vstd::prelude::*;
use crate::common::{crlf, crlf_bytes, final_crlf, final_crlf_bytes, RhttpError};
use crate::headers::{HeaderType, known_name};
use crate::method::{method_of, Method};
use crate::request::{header_lookup, headers_view, set_header, HeadersView, Request};
use crate::text::{copy_range, decimal_text, decimal_value, parse_usize, parses_as_usize, split_once, split_once_bytes, utf8_str, lemma_find_from_bounds};
use crate::version::{version_of, ProtocolVersion};

verus! {

/// A request as handed to handlers: the parsed request, the raw query
/// string, and what routing bound: the positional path parameters and the
/// wildcard remainder.
pub struct Incoming {
    pub request: Request,
    pub query_params: Vec<u8>,
    pub path_params: Vec<Vec<u8>>,
    pub wildcard_param: Vec<u8>,
}

pub open spec fn is_ws(c: u8) -> bool {
    c == 0x20 || (0x09 <= c <= 0x0d)
}

/// First index at or after `i` that is not whitespace.
pub open spec fn skip_ws(s: Seq<u8>, i: int) -> int
    decreases s.len() - i,
{
    if 0 <= i < s.len() && is_ws(s[i]) {
        skip_ws(s, i + 1)
    } else {
        i
    }
}

/// First index at or after `i` that is whitespace, or the end.
pub open spec fn tok_end(s: Seq<u8>, i: int) -> int
    decreases s.len() - i,
{
    if 0 <= i < s.len() && !is_ws(s[i]) {
        tok_end(s, i + 1)
    } else {
        i
    }
}

/// The whitespace-separated token that starts at or after `i`, as a range.
pub open spec fn token_at(s: Seq<u8>, i: int) -> Option<(int, int)> {
    let a = skip_ws(s, i);
    if a >= s.len() {
        None
    } else {
        Some((a, tok_end(s, a)))
    }
}

/// Head and remainder: `buf` cut at the first empty line.
pub open spec fn head_of(buf: Seq<u8>) -> Option<(Seq<u8>, Seq<u8>)> {
    split_once(buf, final_crlf())
}

/// The request line and the header block of a head.
pub open spec fn line_of(head: Seq<u8>) -> (Seq<u8>, Option<Seq<u8>>) {
    match split_once(head, crlf()) {
        Some((a, b)) => (a, Some(b)),
        None => (head, None),
    }
}

/// The request target: the second token of the request line.
pub open spec fn target_of(line: Seq<u8>) -> Option<Seq<u8>> {
    match token_at(line, 0) {
        Some((_, e1)) => match token_at(line, e1) {
            Some((a, b)) => Some(line.subrange(a, b)),
            None => None,
        },
        None => None,
    }
}

pub open spec fn qmark_index(t: Seq<u8>, i: int) -> int
    decreases t.len() - i,
{
    if i < 0 || i >= t.len() {
        -1
    } else if t[i] == 0x3f {
        i
    } else {
        qmark_index(t, i + 1)
    }
}

/// The path part of a target: up to the first `?`.
pub open spec fn path_part(t: Seq<u8>) -> Seq<u8> {
    let q = qmark_index(t, 0);
    if q >= 0 {
        t.take(q)
    } else {
        t
    }
}

/// The raw query string of a target: after the first `?`, or empty.
pub open spec fn query_part(t: Seq<u8>) -> Seq<u8> {
    let q = qmark_index(t, 0);
    if q >= 0 {
        t.skip(q + 1)
    } else {
        seq![]
    }
}

pub open spec fn header_sep() -> Seq<u8> {
    seq![0x3au8, 0x20u8]
}

/// The headers after reading the header block `s` on top of `hs`, or `None`
/// when a line has no `": "`.
pub open spec fn fold_headers(hs: HeadersView, s: Seq<u8>) -> Option<HeadersView>
    decreases s.len(),
{
    let i = crate::text::find_from(s, crlf(), 0);
    let line = if i >= 0 { s.take(i) } else { s };
    match split_once(line, header_sep()) {
        None => None,
        Some((k, v)) => {
            let hs2 = set_header(hs, k, v);
            if i >= 0 {
                proof {
                    lemma_find_from_bounds(s, crlf(), 0);
                }
                fold_headers(hs2, s.skip(i + 2))
            } else {
                Some(hs2)
            }
        },
    }
}

/// Why `buf` is not a request, if it is not one. The checks run in this
/// order: the empty line that ends the head, UTF-8, method, target, version,
/// header lines, `Content-Length`.
pub open spec fn parse_error(buf: Seq<u8>) -> Option<RhttpError> {
    match head_of(buf) {
        None => Some(RhttpError::ParsingRequestErr),
        Some((head, rest)) => if !vstd::utf8::valid_utf8(head) {
            Some(RhttpError::ParsingRequestToStringErr)
        } else if line_error(line_of(head).0) is Some {
            line_error(line_of(head).0)
        } else {
            match headers_of(head) {
                None => Some(RhttpError::ParsingHttpHeaderErr),
                Some(hs) => match content_length(hs) {
                    Some(v) => if parses_as_usize(v) && decimal_value(decimal_text(v)) <= rest.len() {
                        None
                    } else {
                        Some(RhttpError::ParsingHttpHeaderErr)
                    },
                    None => None,
                },
            }
        },
    }
}

pub open spec fn headers_of(head: Seq<u8>) -> Option<HeadersView> {
    match line_of(head).1 {
        Some(block) => fold_headers(seq![], block),
        None => Some(seq![]),
    }
}

pub open spec fn content_length(hs: HeadersView) -> Option<Seq<u8>> {
    header_lookup(hs, known_name(HeaderType::ContentLength))
}

pub open spec fn spec_head(buf: Seq<u8>) -> Seq<u8> {
    head_of(buf).unwrap().0
}

pub open spec fn spec_line(buf: Seq<u8>) -> Seq<u8> {
    line_of(spec_head(buf)).0
}

pub open spec fn spec_method(buf: Seq<u8>) -> Method {
    method_of(token_text(spec_line(buf), 1)).unwrap()
}

pub open spec fn spec_target(buf: Seq<u8>) -> Seq<u8> {
    target_of(spec_line(buf)).unwrap()
}

pub open spec fn spec_version(buf: Seq<u8>) -> ProtocolVersion {
    version_of(token_text(spec_line(buf), 3)).unwrap()
}

pub open spec fn spec_headers(buf: Seq<u8>) -> HeadersView {
    headers_of(spec_head(buf)).unwrap()
}

/// The body: as many bytes after the head as `Content-Length` says, and
/// none without that header.
pub open spec fn spec_body(buf: Seq<u8>) -> Seq<u8> {
    let rest = head_of(buf).unwrap().1;
    match content_length(spec_headers(buf)) {
        Some(v) => rest.take(decimal_value(decimal_text(v)) as int),
        None => seq![],
    }
}

fn is_ws_byte(c: u8) -> (r: bool)
    ensures
        r == is_ws(c),
{
    c == 0x20 || (0x09 <= c && c <= 0x0d)
}

/// The token that starts at or after `i`, as a range.
fn next_token(s: &Vec<u8>, i: usize) -> (r: Option<(usize, usize)>)
    requires
        i <= s.len(),
    ensures
        match r {
            Some((a, b)) => token_at(s@, i as int) == Some((a as int, b as int)) && a < b <= s.len(),
            None => token_at(s@, i as int) is None,
        },
{
    let mut a: usize = i;
    while a < s.len() && is_ws_byte(s[a])
        invariant
            i <= a <= s.len(),
            skip_ws(s@, i as int) == skip_ws(s@, a as int),
        decreases s.len() - a,
    {
        a = a + 1;
    }
    if a >= s.len() {
        return None;
    }
    let mut b: usize = a;
    while b < s.len() && !is_ws_byte(s[b])
        invariant
            a <= b <= s.len(),
            tok_end(s@, a as int) == tok_end(s@, b as int),
            b > a || !is_ws(s@[a as int]),
        decreases s.len() - b,
    {
        b = b + 1;
    }
    Some((a, b))
}

fn qmark_position(t: &Vec<u8>) -> (r: Option<usize>)
    ensures
        match r {
            Some(q) => q as int == qmark_index(t@, 0) && q < t.len(),
            None => qmark_index(t@, 0) == -1,
        },
{
    let mut i: usize = 0;
    while i < t.len()
        invariant
            i <= t.len(),
            qmark_index(t@, 0) == qmark_index(t@, i as int),
        decreases t.len() - i,
    {
        if t[i] == 0x3f {
            return Some(i);
        }
        i = i + 1;
    }
    None
}

impl Incoming {
    /// Parses a request from the bytes read from a connection.
    pub fn from(buf: &Vec<u8>) -> (r: Result<Incoming, RhttpError>)
        ensures
            match r {
                Err(e) => parse_error(buf@) == Some(e),
                Ok(inc) => parse_error(buf@) is None
                    && inc.request.request_line.method == spec_method(buf@)
                    && inc.request.request_line.path@ == path_part(spec_target(buf@))
                    && inc.query_params@ == query_part(spec_target(buf@))
                    && inc.request.request_line.protocol_version == spec_version(buf@)
                    && headers_view(inc.request.headers@) == spec_headers(buf@)
                    && inc.request.body@ == spec_body(buf@)
                    && inc.path_params@.len() == 0
                    && inc.wildcard_param@.len() == 0,
            },
    {
        let (head, rest) = match split_once_bytes(buf, &final_crlf_bytes()) {
            Some(parts) => parts,
            None => {
                return Err(RhttpError::ParsingRequestErr);
            },
        };
        if utf8_str(&head).is_none() {
            return Err(RhttpError::ParsingRequestToStringErr);
        }
        let (line, block) = match split_once_bytes(&head, &crlf_bytes()) {
            Some((a, b)) => {
                proof {
                    assert(line_of(head@) == (a@, Some(b@)));
                }
                (a, Some(b))
            },
            None => {
                let a = copy_range(&head, 0, head.len());
                proof {
                    assert(head@.subrange(0, head@.len() as int) =~= head@);
                    assert(line_of(head@) == (a@, None::<Seq<u8>>));
                }
                (a, None)
            },
        };
        proof {
            assert(line@ == line_of(head@).0);
            assert(match block {
                Some(b) => line_of(head@).1 == Some(b@),
                None => line_of(head@).1 is None,
            });
        }
        let mut incoming = Incoming {
            request: Request::new(),
            query_params: Vec::new(),
            path_params: Vec::new(),
            wildcard_param: Vec::new(),
        };
        proof {
            assert(headers_view(incoming.request.headers@) =~= Seq::<(Seq<u8>, Seq<u8>)>::empty());
        }
        match incoming.parse_request_line(&line) {
            Ok(()) => {},
            Err(e) => {
                return Err(e);
            },
        }
        match &block {
            Some(b) => match incoming.parse_headers(b) {
                Ok(()) => {},
                Err(e) => {
                    return Err(e);
                },
            },
            None => {},
        }
        proof {
            assert(headers_of(head@) == Some(headers_view(incoming.request.headers@)));
        }
        let rest_len = rest.len();
        match incoming.request.header(&HeaderType::ContentLength) {
            Some(v) => match parse_usize(&v) {
                Some(n) => {
                    if n > rest_len {
                        return Err(RhttpError::ParsingHttpHeaderErr);
                    }
                    incoming.request.body = copy_range(&rest, 0, n);
                },
                None => {
                    return Err(RhttpError::ParsingHttpHeaderErr);
                },
            },
            None => {},
        }
        Ok(incoming)
    }

    /// The request's method.
    pub fn get_request_method(&self) -> (r: &Method)
        ensures
            *r == self.request.request_line.method,
    {
        &self.request.request_line.method
    }

    /// The request's path, without the query string.
    pub fn get_request_path(&self) -> (r: &Vec<u8>)
        ensures
            r@ == self.request.request_line.path@,
    {
        &self.request.request_line.path
    }

    /// Reads method, target and version from the request line.
    fn parse_request_line(&mut self, line: &Vec<u8>) -> (r: Result<(), RhttpError>)
        ensures
            r is Err ==> line_error(line@) is Some && r == Err::<(), RhttpError>(line_error(line@).unwrap()),
            r is Ok ==> line_error(line@) is None
                && final(self).request.request_line.method == method_of(token_text(line@, 1)).unwrap()
                && final(self).request.request_line.path@ == path_part(target_of(line@).unwrap())
                && final(self).query_params@ == query_part(target_of(line@).unwrap())
                && final(self).request.request_line.protocol_version == version_of(token_text(line@, 3)).unwrap(),
            final(self).request.headers == old(self).request.headers,
            final(self).request.body == old(self).request.body,
            final(self).path_params == old(self).path_params,
            final(self).wildcard_param == old(self).wildcard_param,
    {
        let (a1, e1) = match next_token(line, 0) {
            Some(t) => t,
            None => {
                return Err(RhttpError::ParsingHttpMethodErr);
            },
        };
        let method = Method::from_bytes(&copy_range(line, a1, e1))?;
        self.request.add_method(method);
        let (a2, e2) = match next_token(line, e1) {
            Some(t) => t,
            None => {
                return Err(RhttpError::ParsingPathErr);
            },
        };
        if line[a2] != 0x2f {
            return Err(RhttpError::ParsingPathErr);
        }
        let target = copy_range(line, a2, e2);
        match qmark_position(&target) {
            Some(q) => {
                self.query_params = copy_range(&target, q + 1, target.len());
                self.request.add_path(copy_range(&target, 0, q));
            },
            None => {
                self.query_params = Vec::new();
                self.request.add_path(target);
            },
        }
        proof {
            assert(self.query_params@ =~= query_part(target_of(line@).unwrap()));
            assert(self.request.request_line.path@ =~= path_part(target_of(line@).unwrap()));
        }
        let (a3, e3) = match next_token(line, e2) {
            Some(t) => t,
            None => {
                return Err(RhttpError::ParsingHttpProtocolErr);
            },
        };
        let version = ProtocolVersion::from_bytes(&copy_range(line, a3, e3))?;
        self.request.add_protocol_version(version);
        Ok(())
    }

    /// Reads the header block: lines separated by CRLF, each `name: value`.
    fn parse_headers(&mut self, block: &Vec<u8>) -> (r: Result<(), RhttpError>)
        ensures
            match fold_headers(headers_view(old(self).request.headers@), block@) {
                None => r == Err::<(), RhttpError>(RhttpError::ParsingHttpHeaderErr),
                Some(hs) => r is Ok && headers_view(final(self).request.headers@) == hs,
            },
            final(self).request.request_line == old(self).request.request_line,
            final(self).request.body == old(self).request.body,
            final(self).query_params == old(self).query_params,
            final(self).path_params == old(self).path_params,
            final(self).wildcard_param == old(self).wildcard_param,
        decreases block@.len(),
    {
        let (line, more) = match split_once_bytes(block, &crlf_bytes()) {
            Some((a, b)) => (a, Some(b)),
            None => (copy_range(block, 0, block.len()), None),
        };
        proof {
            assert(block@.subrange(0, block@.len() as int) =~= block@);
            lemma_find_from_bounds(block@, crlf(), 0);
        }
        let sep = vec![0x3au8, 0x20u8];
        proof {
            assert(sep@ =~= header_sep());
        }
        match split_once_bytes(&line, &sep) {
            None => Err(RhttpError::ParsingHttpHeaderErr),
            Some((k, v)) => {
                let _ = self.request.add_header(k, v);
                match &more {
                    Some(m) => self.parse_headers(m),
                    None => Ok(()),
                }
            },
        }
    }
}

/// The text of the `n`-th token (1-based) of a request line.
pub open spec fn token_text(line: Seq<u8>, n: int) -> Seq<u8> {
    let t1 = token_at(line, 0).unwrap();
    let t2 = token_at(line, t1.1).unwrap();
    let t3 = token_at(line, t2.1).unwrap();
    if n == 1 {
        line.subrange(t1.0, t1.1)
    } else if n == 2 {
        line.subrange(t2.0, t2.1)
    } else {
        line.subrange(t3.0, t3.1)
    }
}

/// Why a request line is not one, if it is not.
pub open spec fn line_error(line: Seq<u8>) -> Option<RhttpError> {
    match token_at(line, 0) {
        None => Some(RhttpError::ParsingHttpMethodErr),
        Some((a1, e1)) => if method_of(line.subrange(a1, e1)) is Err {
            Some(RhttpError::ParsingHttpMethodErr)
        } else {
            match token_at(line, e1) {
                None => Some(RhttpError::ParsingPathErr),
                Some((a2, e2)) => if line[a2] != 0x2f {
                    Some(RhttpError::ParsingPathErr)
                } else {
                    match token_at(line, e2) {
                        None => Some(RhttpError::ParsingHttpProtocolErr),
                        Some((a3, e3)) => if version_of(line.subrange(a3, e3)) is Err {
                            Some(RhttpError::ParsingHttpProtocolErr)
                        } else {
                            None
                        },
                    }
                },
            }
        },
    }
}

} // verus!
