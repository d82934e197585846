//! Request methods.
use vstd::prelude::*;
use vstd::string::StringSliceAdditionalSpecFns;
use crate::common::RhttpError;
use crate::text::{eq_ignore_case, eq_ignore_case_bytes, str_bytes};

verus! {

/// The request methods the server knows.
#[derive(PartialEq, Eq, Structural, Clone, Copy, Debug, Hash)]
pub enum Method {
    Get,
    Put,
    Post,
    Delete,
    Options,
    Head,
    Trace,
    Connect,
    Patch,
}

/// The method's name as sent on the wire.
pub open spec fn method_name(m: Method) -> Seq<u8> {
    match m {
        Method::Get => seq![0x47u8, 0x45u8, 0x54u8],
        Method::Put => seq![0x50u8, 0x55u8, 0x54u8],
        Method::Post => seq![0x50u8, 0x4fu8, 0x53u8, 0x54u8],
        Method::Delete => seq![0x44u8, 0x45u8, 0x4cu8, 0x45u8, 0x54u8, 0x45u8],
        Method::Options => seq![0x4fu8, 0x50u8, 0x54u8, 0x49u8, 0x4fu8, 0x4eu8, 0x53u8],
        Method::Head => seq![0x48u8, 0x45u8, 0x41u8, 0x44u8],
        Method::Trace => seq![0x54u8, 0x52u8, 0x41u8, 0x43u8, 0x45u8],
        Method::Connect => seq![0x43u8, 0x4fu8, 0x4eu8, 0x4eu8, 0x45u8, 0x43u8, 0x54u8],
        Method::Patch => seq![0x50u8, 0x41u8, 0x54u8, 0x43u8, 0x48u8],
    }
}

/// The method named by `b`, ignoring ASCII case.
pub open spec fn method_of(b: Seq<u8>) -> Result<Method, RhttpError> {
    if eq_ignore_case(b, method_name(Method::Get)) {
        Ok(Method::Get)
    }     else if eq_ignore_case(b, method_name(Method::Put)) {
        Ok(Method::Put)
    }     else if eq_ignore_case(b, method_name(Method::Post)) {
        Ok(Method::Post)
    }     else if eq_ignore_case(b, method_name(Method::Delete)) {
        Ok(Method::Delete)
    }     else if eq_ignore_case(b, method_name(Method::Options)) {
        Ok(Method::Options)
    }     else if eq_ignore_case(b, method_name(Method::Head)) {
        Ok(Method::Head)
    }     else if eq_ignore_case(b, method_name(Method::Trace)) {
        Ok(Method::Trace)
    }     else if eq_ignore_case(b, method_name(Method::Connect)) {
        Ok(Method::Connect)
    }     else if eq_ignore_case(b, method_name(Method::Patch)) {
        Ok(Method::Patch)
    } else {
        Err(RhttpError::ParsingHttpMethodErr)
    }
}

/// All methods, in declaration order.
pub open spec fn all_methods() -> Seq<Method> {
    seq![Method::Get, Method::Put, Method::Post, Method::Delete, Method::Options, Method::Head, Method::Trace, Method::Connect, Method::Patch]
}

pub open spec fn method_index(m: Method) -> int {
    match m {
        Method::Get => 0,
        Method::Put => 1,
        Method::Post => 2,
        Method::Delete => 3,
        Method::Options => 4,
        Method::Head => 5,
        Method::Trace => 6,
        Method::Connect => 7,
        Method::Patch => 8,
    }
}

impl Method {
    /// Reads a method name, ignoring ASCII case.
    pub fn parse_from_str(method: &str) -> (r: Result<Method, RhttpError>)
        ensures
            r == method_of(method.spec_bytes()),
    {
        Self::from_bytes(&str_bytes(method))
    }

    /// Reads a method name, ignoring ASCII case.
    pub fn from_bytes(b: &Vec<u8>) -> (r: Result<Method, RhttpError>)
        ensures
            r == method_of(b@),
    {
        if eq_ignore_case_bytes(b, &Method::Get.name()) {
            return Ok(Method::Get);
        }
        if eq_ignore_case_bytes(b, &Method::Put.name()) {
            return Ok(Method::Put);
        }
        if eq_ignore_case_bytes(b, &Method::Post.name()) {
            return Ok(Method::Post);
        }
        if eq_ignore_case_bytes(b, &Method::Delete.name()) {
            return Ok(Method::Delete);
        }
        if eq_ignore_case_bytes(b, &Method::Options.name()) {
            return Ok(Method::Options);
        }
        if eq_ignore_case_bytes(b, &Method::Head.name()) {
            return Ok(Method::Head);
        }
        if eq_ignore_case_bytes(b, &Method::Trace.name()) {
            return Ok(Method::Trace);
        }
        if eq_ignore_case_bytes(b, &Method::Connect.name()) {
            return Ok(Method::Connect);
        }
        if eq_ignore_case_bytes(b, &Method::Patch.name()) {
            return Ok(Method::Patch);
        }
        Err(RhttpError::ParsingHttpMethodErr)
    }

    /// The method's name as sent on the wire.
    pub fn name(&self) -> (r: Vec<u8>)
        ensures
            r@ == method_name(*self),
    {
        let r = match self {
            Method::Get => vec![0x47u8, 0x45u8, 0x54u8],
            Method::Put => vec![0x50u8, 0x55u8, 0x54u8],
            Method::Post => vec![0x50u8, 0x4fu8, 0x53u8, 0x54u8],
            Method::Delete => vec![0x44u8, 0x45u8, 0x4cu8, 0x45u8, 0x54u8, 0x45u8],
            Method::Options => vec![0x4fu8, 0x50u8, 0x54u8, 0x49u8, 0x4fu8, 0x4eu8, 0x53u8],
            Method::Head => vec![0x48u8, 0x45u8, 0x41u8, 0x44u8],
            Method::Trace => vec![0x54u8, 0x52u8, 0x41u8, 0x43u8, 0x45u8],
            Method::Connect => vec![0x43u8, 0x4fu8, 0x4eu8, 0x4eu8, 0x45u8, 0x43u8, 0x54u8],
            Method::Patch => vec![0x50u8, 0x41u8, 0x54u8, 0x43u8, 0x48u8],
        };
        proof {
            assert(r@ =~= method_name(*self));
        }
        r
    }

    pub fn to_str(&self) -> (r: &'static str)
        ensures
            r@ == method_text(*self),
    {
        match self {
            Method::Get => "GET",
            Method::Put => "PUT",
            Method::Post => "POST",
            Method::Delete => "DELETE",
            Method::Options => "OPTIONS",
            Method::Head => "HEAD",
            Method::Trace => "TRACE",
            Method::Connect => "CONNECT",
            Method::Patch => "PATCH",
        }
    }

    /// Every method, in declaration order.
    pub fn iterator() -> (r: Vec<Method>)
        ensures
            r@ == all_methods(),
    {
        let r = vec![Method::Get, Method::Put, Method::Post, Method::Delete, Method::Options, Method::Head, Method::Trace, Method::Connect, Method::Patch];
        proof {
            assert(r@ =~= all_methods());
        }
        r
    }

    /// Position of the method in `iterator()`.
    pub fn index(&self) -> (r: usize)
        ensures
            r as int == method_index(*self),
            all_methods()[r as int] == *self,
    {
        match self {
            Method::Get => 0,
            Method::Put => 1,
            Method::Post => 2,
            Method::Delete => 3,
            Method::Options => 4,
            Method::Head => 5,
            Method::Trace => 6,
            Method::Connect => 7,
            Method::Patch => 8,
        }
    }
}

pub open spec fn method_text(m: Method) -> Seq<char> {
    match m {
        Method::Get => "GET"@,
        Method::Put => "PUT"@,
        Method::Post => "POST"@,
        Method::Delete => "DELETE"@,
        Method::Options => "OPTIONS"@,
        Method::Head => "HEAD"@,
        Method::Trace => "TRACE"@,
        Method::Connect => "CONNECT"@,
        Method::Patch => "PATCH"@,
    }
}

} // verus!
