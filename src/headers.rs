//! Header names and values.
use vstd::prelude::*;
use vstd::string::StringSliceAdditionalSpecFns;
use crate::common::RhttpError;
use crate::text::{copy_range, eq_ignore_case, eq_ignore_case_bytes, str_bytes, utf8_str};

verus! {

/// A header name: one of the well-known names, or any other name as it was
/// written.
#[derive(Clone, Debug)]
pub enum HeaderType {
    Accept,
    AcceptEncoding,
    Connection,
    ContentLength,
    ContentType,
    UserAgent,
    Host,
    Date,
    Custom(Vec<u8>),
}

/// The canonical spelling of a well-known header.
pub open spec fn known_name(h: HeaderType) -> Seq<u8> {
    match h {
        HeaderType::Accept => seq![0x41u8, 0x63u8, 0x63u8, 0x65u8, 0x70u8, 0x74u8],
        HeaderType::AcceptEncoding => seq![0x41u8, 0x63u8, 0x63u8, 0x65u8, 0x70u8, 0x74u8, 0x2du8, 0x45u8, 0x6eu8, 0x63u8, 0x6fu8, 0x64u8, 0x69u8, 0x6eu8, 0x67u8],
        HeaderType::Connection => seq![0x43u8, 0x6fu8, 0x6eu8, 0x6eu8, 0x65u8, 0x63u8, 0x74u8, 0x69u8, 0x6fu8, 0x6eu8],
        HeaderType::ContentLength => seq![0x43u8, 0x6fu8, 0x6eu8, 0x74u8, 0x65u8, 0x6eu8, 0x74u8, 0x2du8, 0x4cu8, 0x65u8, 0x6eu8, 0x67u8, 0x74u8, 0x68u8],
        HeaderType::ContentType => seq![0x43u8, 0x6fu8, 0x6eu8, 0x74u8, 0x65u8, 0x6eu8, 0x74u8, 0x2du8, 0x54u8, 0x79u8, 0x70u8, 0x65u8],
        HeaderType::UserAgent => seq![0x55u8, 0x73u8, 0x65u8, 0x72u8, 0x2du8, 0x41u8, 0x67u8, 0x65u8, 0x6eu8, 0x74u8],
        HeaderType::Host => seq![0x48u8, 0x6fu8, 0x73u8, 0x74u8],
        HeaderType::Date => seq![0x44u8, 0x61u8, 0x74u8, 0x65u8],
        HeaderType::Custom(n) => n@,
    }
}

/// The name under which a header is emitted.
pub open spec fn header_name(h: HeaderType) -> Seq<u8> {
    known_name(h)
}

/// The well-known header that `s` spells exactly.
pub open spec fn known_header(s: Seq<u8>) -> Option<HeaderType> {
    if s == known_name(HeaderType::Accept) {
        Some(HeaderType::Accept)
    }     else if s == known_name(HeaderType::AcceptEncoding) {
        Some(HeaderType::AcceptEncoding)
    }     else if s == known_name(HeaderType::Connection) {
        Some(HeaderType::Connection)
    }     else if s == known_name(HeaderType::ContentLength) {
        Some(HeaderType::ContentLength)
    }     else if s == known_name(HeaderType::ContentType) {
        Some(HeaderType::ContentType)
    }     else if s == known_name(HeaderType::UserAgent) {
        Some(HeaderType::UserAgent)
    }     else if s == known_name(HeaderType::Host) {
        Some(HeaderType::Host)
    }     else if s == known_name(HeaderType::Date) {
        Some(HeaderType::Date)
    } else {
        None
    }
}

impl HeaderType {
    /// Reads a header name. Every name is accepted and keeps its spelling:
    /// the exact spelling of a well-known header gives that header, any
    /// other name is `Custom`.
    pub fn from_str(s: &str) -> (r: Result<HeaderType, RhttpError>)
        ensures
            r is Ok,
            header_name(r.unwrap()) == s.spec_bytes(),
            r.unwrap() is Custom <==> known_header(s.spec_bytes()) is None,
    {
        Ok(Self::from_bytes(&str_bytes(s)))
    }

    /// Reads a header name. Every name is accepted.
    pub fn from_bytes(s: &Vec<u8>) -> (r: HeaderType)
        ensures
            header_name(r) == s@,
            r is Custom <==> known_header(s@) is None,
    {
        match Self::try_into_std(s) {
            Some(h) => h,
            None => HeaderType::Custom(copy_range(s, 0, s.len())),
        }
    }

    /// The well-known header that `s` spells exactly.
    fn try_into_std(s: &Vec<u8>) -> (r: Option<HeaderType>)
        ensures
            match r {
                Some(h) => known_header(s@) is Some && header_name(h) == known_name(known_header(s@).unwrap()) && !(h is Custom),
                None => known_header(s@) is None,
            },
    {
        if crate::text::eq_bytes(s, &HeaderType::Accept.name()) {
            return Some(HeaderType::Accept);
        }
        if crate::text::eq_bytes(s, &HeaderType::AcceptEncoding.name()) {
            return Some(HeaderType::AcceptEncoding);
        }
        if crate::text::eq_bytes(s, &HeaderType::Connection.name()) {
            return Some(HeaderType::Connection);
        }
        if crate::text::eq_bytes(s, &HeaderType::ContentLength.name()) {
            return Some(HeaderType::ContentLength);
        }
        if crate::text::eq_bytes(s, &HeaderType::ContentType.name()) {
            return Some(HeaderType::ContentType);
        }
        if crate::text::eq_bytes(s, &HeaderType::UserAgent.name()) {
            return Some(HeaderType::UserAgent);
        }
        if crate::text::eq_bytes(s, &HeaderType::Host.name()) {
            return Some(HeaderType::Host);
        }
        if crate::text::eq_bytes(s, &HeaderType::Date.name()) {
            return Some(HeaderType::Date);
        }
        None
    }

    /// The name under which the header is emitted.
    pub fn name(&self) -> (r: Vec<u8>)
        ensures
            r@ == header_name(*self),
    {
        let r = match self {
            HeaderType::Accept => vec![0x41u8, 0x63u8, 0x63u8, 0x65u8, 0x70u8, 0x74u8],
            HeaderType::AcceptEncoding => vec![0x41u8, 0x63u8, 0x63u8, 0x65u8, 0x70u8, 0x74u8, 0x2du8, 0x45u8, 0x6eu8, 0x63u8, 0x6fu8, 0x64u8, 0x69u8, 0x6eu8, 0x67u8],
            HeaderType::Connection => vec![0x43u8, 0x6fu8, 0x6eu8, 0x6eu8, 0x65u8, 0x63u8, 0x74u8, 0x69u8, 0x6fu8, 0x6eu8],
            HeaderType::ContentLength => vec![0x43u8, 0x6fu8, 0x6eu8, 0x74u8, 0x65u8, 0x6eu8, 0x74u8, 0x2du8, 0x4cu8, 0x65u8, 0x6eu8, 0x67u8, 0x74u8, 0x68u8],
            HeaderType::ContentType => vec![0x43u8, 0x6fu8, 0x6eu8, 0x74u8, 0x65u8, 0x6eu8, 0x74u8, 0x2du8, 0x54u8, 0x79u8, 0x70u8, 0x65u8],
            HeaderType::UserAgent => vec![0x55u8, 0x73u8, 0x65u8, 0x72u8, 0x2du8, 0x41u8, 0x67u8, 0x65u8, 0x6eu8, 0x74u8],
            HeaderType::Host => vec![0x48u8, 0x6fu8, 0x73u8, 0x74u8],
            HeaderType::Date => vec![0x44u8, 0x61u8, 0x74u8, 0x65u8],
            HeaderType::Custom(n) => copy_range(n, 0, n.len()),
        };
        proof {
            assert(r@ =~= header_name(*self));
        }
        r
    }

    /// Whether both name the same header, ignoring ASCII case.
    pub fn same_as(&self, other: &HeaderType) -> (r: bool)
        ensures
            r == eq_ignore_case(header_name(*self), header_name(*other)),
    {
        eq_ignore_case_bytes(&self.name(), &other.name())
    }
}

/// A header value, as raw bytes.
#[derive(Clone, Debug)]
pub struct HeaderValue(pub Vec<u8>);

impl HeaderValue {
    /// The value as text; fails when it is not UTF-8.
    pub fn to_str(&self) -> (r: Result<&str, RhttpError>)
        ensures
            match r {
                Ok(s) => s.spec_bytes() == self.0@,
                Err(e) => e == RhttpError::HeaderValueErr && !vstd::utf8::valid_utf8(self.0@),
            },
    {
        match utf8_str(&self.0) {
            Some(s) => Ok(s),
            None => Err(RhttpError::HeaderValueErr),
        }
    }
}

} // verus!
