//! Parsed requests.
use vstd::prelude::*;
use crate::common::RhttpError;
use crate::headers::{header_name, HeaderType, HeaderValue};
use crate::method::Method;
use crate::text::{eq_ignore_case, copy_range};
use crate::version::ProtocolVersion;

verus! {

/// Headers as (name, value) byte strings, in order.
pub type HeadersView = Seq<(Seq<u8>, Seq<u8>)>;

pub open spec fn headers_view(hs: Seq<(HeaderType, HeaderValue)>) -> HeadersView {
    hs.map_values(|e: (HeaderType, HeaderValue)| (header_name(e.0), e.1.0@))
}

/// Index of the first header at or after `i` named `name` (ASCII case
/// ignored), or -1.
pub open spec fn header_index_from(hs: HeadersView, name: Seq<u8>, i: int) -> int
    decreases hs.len() - i,
{
    if i < 0 || i >= hs.len() {
        -1
    } else if eq_ignore_case(hs[i].0, name) {
        i
    } else {
        header_index_from(hs, name, i + 1)
    }
}

pub open spec fn header_index(hs: HeadersView, name: Seq<u8>) -> int {
    header_index_from(hs, name, 0)
}

/// The value of header `name`, if present.
pub open spec fn header_lookup(hs: HeadersView, name: Seq<u8>) -> Option<Seq<u8>> {
    let i = header_index(hs, name);
    if i >= 0 {
        Some(hs[i].1)
    } else {
        None
    }
}

/// The headers after setting `key` to `val`: an existing header of that name
/// (ASCII case ignored) keeps its place and spelling and gets the new value,
/// otherwise the header is appended as spelled.
pub open spec fn set_header(hs: HeadersView, key: Seq<u8>, val: Seq<u8>) -> HeadersView {
    let name = key;
    let i = header_index(hs, name);
    if i >= 0 {
        hs.update(i, (hs[i].0, val))
    } else {
        hs.push((name, val))
    }
}

pub proof fn lemma_header_index_bounds(hs: HeadersView, name: Seq<u8>, i: int)
    ensures
        -1 <= header_index_from(hs, name, i) < hs.len(),
        header_index_from(hs, name, i) >= 0 ==> header_index_from(hs, name, i) >= i && eq_ignore_case(hs[header_index_from(hs, name, i)].0, name),
    decreases hs.len() - i,
{
    if 0 <= i < hs.len() && !eq_ignore_case(hs[i].0, name) {
        lemma_header_index_bounds(hs, name, i + 1);
    }
}

/// Finds the header named `name`.
pub fn find_header(hs: &Vec<(HeaderType, HeaderValue)>, name: &HeaderType) -> (r: Option<usize>)
    ensures
        match r {
            Some(i) => i as int == header_index(headers_view(hs@), header_name(*name)) && i < hs@.len(),
            None => header_index(headers_view(hs@), header_name(*name)) == -1,
        },
{
    let ghost hv = headers_view(hs@);
    let ghost nm = header_name(*name);
    let mut i: usize = 0;
    while i < hs.len()
        invariant
            i <= hs@.len(),
            hv == headers_view(hs@),
            nm == header_name(*name),
            header_index_from(hv, nm, 0) == header_index_from(hv, nm, i as int),
        decreases hs@.len() - i,
    {
        if hs[i].0.same_as(name) {
            return Some(i);
        }
        i = i + 1;
    }
    None
}

/// Method, path and protocol version of a request.
pub struct RequestLine {
    pub method: Method,
    pub path: Vec<u8>,
    pub protocol_version: ProtocolVersion,
}

/// A request: its line, its headers in order and its body.
pub struct Request {
    pub request_line: RequestLine,
    pub headers: Vec<(HeaderType, HeaderValue)>,
    pub body: Vec<u8>,
}

impl Request {
    /// A `GET` request for an empty path over HTTP/1.1, without headers or body.
    pub fn new() -> (r: Request)
        ensures
            r.request_line.method == Method::Get,
            r.request_line.path@.len() == 0,
            r.request_line.protocol_version == ProtocolVersion::Http11,
            r.headers@.len() == 0,
            r.body@.len() == 0,
    {
        Request {
            request_line: RequestLine {
                method: Method::Get,
                path: Vec::new(),
                protocol_version: ProtocolVersion::Http11,
            },
            headers: Vec::new(),
            body: Vec::new(),
        }
    }

    pub fn add_method(&mut self, method: Method)
        ensures
            final(self).request_line.method == method,
            final(self).request_line.path == old(self).request_line.path,
            final(self).request_line.protocol_version == old(self).request_line.protocol_version,
            final(self).headers == old(self).headers,
            final(self).body == old(self).body,
    {
        self.request_line.method = method;
    }

    pub fn add_path(&mut self, path: Vec<u8>)
        ensures
            final(self).request_line.path == path,
            final(self).request_line.method == old(self).request_line.method,
            final(self).request_line.protocol_version == old(self).request_line.protocol_version,
            final(self).headers == old(self).headers,
            final(self).body == old(self).body,
    {
        self.request_line.path = path;
    }

    pub fn add_protocol_version(&mut self, protocol_version: ProtocolVersion)
        ensures
            final(self).request_line.protocol_version == protocol_version,
            final(self).request_line.method == old(self).request_line.method,
            final(self).request_line.path == old(self).request_line.path,
            final(self).headers == old(self).headers,
            final(self).body == old(self).body,
    {
        self.request_line.protocol_version = protocol_version;
    }

    /// Sets header `key` to `val` (see `set_header`). Every name is accepted.
    pub fn add_header(&mut self, key: Vec<u8>, val: Vec<u8>) -> (r: Result<(), RhttpError>)
        ensures
            r is Ok,
            headers_view(final(self).headers@) == set_header(headers_view(old(self).headers@), key@, val@),
            final(self).request_line == old(self).request_line,
            final(self).body == old(self).body,
    {
        let ghost hv = headers_view(self.headers@);
        let name = HeaderType::from_bytes(&key);
        match find_header(&self.headers, &name) {
            Some(i) => {
                proof {
                    lemma_header_index_bounds(hv, header_name(name), 0);
                }
                let old_entry = self.headers.remove(i);
                let entry = (old_entry.0, HeaderValue(val));
                self.headers.insert(i, entry);
                proof {
                    assert(headers_view(self.headers@) =~= set_header(hv, key@, val@));
                }
            },
            None => {
                self.headers.push((name, HeaderValue(val)));
                proof {
                    assert(headers_view(self.headers@) =~= set_header(hv, key@, val@));
                }
            },
        }
        Ok(())
    }

    /// The value of header `name`, ASCII case ignored.
    pub fn header(&self, name: &HeaderType) -> (r: Option<Vec<u8>>)
        ensures
            match r {
                Some(v) => header_lookup(headers_view(self.headers@), header_name(*name)) == Some(v@),
                None => header_lookup(headers_view(self.headers@), header_name(*name)) is None,
            },
    {
        match find_header(&self.headers, name) {
            Some(i) => Some(copy_range(&self.headers[i].1.0, 0, self.headers[i].1.0.len())),
            None => None,
        }
    }
}

} // verus!
