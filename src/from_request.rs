//! Extractors: typed handler arguments read from a request, and running a
//! handler on them.
use vstd::prelude::*;
use crate::common::RhttpError;
use crate::incoming::Incoming;
use crate::response::{response_date, response_view, IntoResponse, Response};
use crate::text::{copy_range, decimal_text, decimal_value, parse_usize, parses_as_usize, utf8_str};

verus! {

/// A value read from a request.
///
/// Extraction may take positional path parameters: `cursor` is how many
/// earlier arguments took, and a successful outcome says how many are taken
/// after this one.
pub trait FromRequest: Sized {
    /// `r` is a possible outcome of extracting from `req` at `cursor`.
    spec fn outcome(req: Incoming, cursor: usize, r: Result<(Self, usize), RhttpError>) -> bool;

    /// The cursor after a successful extraction from `req` at `cursor`.
    spec fn taken(req: Incoming, cursor: usize) -> usize;

    fn extract(req: &Incoming, cursor: usize) -> (r: Result<(Self, usize), RhttpError>)
        ensures
            Self::outcome(*req, cursor, r),
            r is Ok ==> r.unwrap().1 == Self::taken(*req, cursor),
    ;
}

/// A value read from the text of one path parameter.
pub trait FromParam: Sized {
    /// `r` is a possible outcome of reading `text`.
    spec fn param_outcome(text: Seq<u8>, r: Option<Self>) -> bool;

    fn from_param(text: &Vec<u8>) -> (r: Option<Self>)
        ensures
            Self::param_outcome(text@, r),
    ;
}

/// A value decoded from a raw query string. Implemented by the types a
/// handler asks for, usually through a form decoder.
pub trait FromQuery: Sized {
    fn from_query(raw: &Vec<u8>) -> Option<Self>;
}

impl FromParam for usize {
    open spec fn param_outcome(text: Seq<u8>, r: Option<usize>) -> bool {
        r == if parses_as_usize(text) {
            Some(decimal_value(decimal_text(text)) as usize)
        } else {
            None::<usize>
        }
    }

    fn from_param(text: &Vec<u8>) -> (r: Option<usize>) {
        parse_usize(text)
    }
}

impl FromParam for String {
    open spec fn param_outcome(text: Seq<u8>, r: Option<String>) -> bool {
        match r {
            Some(s) => vstd::utf8::encode_utf8(s@) == text,
            None => !vstd::utf8::valid_utf8(text),
        }
    }

    fn from_param(text: &Vec<u8>) -> (r: Option<String>) {
        match utf8_str(text) {
            Some(s) => Some(s.to_owned()),
            None => None,
        }
    }
}

impl FromParam for Vec<u8> {
    open spec fn param_outcome(text: Seq<u8>, r: Option<Vec<u8>>) -> bool {
        r is Some && r.unwrap()@ == text
    }

    fn from_param(text: &Vec<u8>) -> (r: Option<Vec<u8>>) {
        let v = copy_range(text, 0, text.len());
        proof {
            assert(text@.subrange(0, text@.len() as int) =~= text@);
        }
        Some(v)
    }
}

/// The next positional path parameter.
pub struct PathParam<T>(pub T);

/// The wildcard remainder of the path.
pub struct WildCardParam<T>(pub T);

/// The query string, decoded.
pub struct QueryParams<T>(pub T);

impl<T: FromParam> FromRequest for PathParam<T> {
    /// Takes parameter number `cursor`; fails when there is none or it does
    /// not read as a `T`.
    open spec fn outcome(req: Incoming, cursor: usize, r: Result<(Self, usize), RhttpError>) -> bool {
        if cursor < req.path_params@.len() {
            match r {
                Ok((p, next)) => next == cursor + 1 && T::param_outcome(req.path_params@[cursor as int]@, Some(p.0)),
                Err(e) => e == RhttpError::ParsingPathParamsErr && T::param_outcome(req.path_params@[cursor as int]@, None),
            }
        } else {
            r == Err::<(Self, usize), RhttpError>(RhttpError::ParsingPathParamsErr)
        }
    }

    open spec fn taken(req: Incoming, cursor: usize) -> usize {
        (cursor + 1) as usize
    }

    fn extract(req: &Incoming, cursor: usize) -> (r: Result<(Self, usize), RhttpError>) {
        if cursor < req.path_params.len() {
            match T::from_param(&req.path_params[cursor]) {
                Some(v) => Ok((PathParam(v), cursor + 1)),
                None => Err(RhttpError::ParsingPathParamsErr),
            }
        } else {
            Err(RhttpError::ParsingPathParamsErr)
        }
    }
}

impl<T: FromParam> FromRequest for WildCardParam<T> {
    /// Reads the wildcard remainder; takes no positional parameter.
    open spec fn outcome(req: Incoming, cursor: usize, r: Result<(Self, usize), RhttpError>) -> bool {
        match r {
            Ok((p, next)) => next == cursor && T::param_outcome(req.wildcard_param@, Some(p.0)),
            Err(e) => e == RhttpError::WildCardPathParamsErr && T::param_outcome(req.wildcard_param@, None),
        }
    }

    open spec fn taken(req: Incoming, cursor: usize) -> usize {
        cursor
    }

    fn extract(req: &Incoming, cursor: usize) -> (r: Result<(Self, usize), RhttpError>) {
        match T::from_param(&req.wildcard_param) {
            Some(v) => Ok((WildCardParam(v), cursor)),
            None => Err(RhttpError::WildCardPathParamsErr),
        }
    }
}

impl<T: FromQuery> FromRequest for QueryParams<T> {
    /// Decodes the raw query string; takes no positional parameter. What the
    /// decoder makes of the string is its own affair.
    open spec fn outcome(req: Incoming, cursor: usize, r: Result<(Self, usize), RhttpError>) -> bool {
        match r {
            Ok((_, next)) => next == cursor,
            Err(e) => e == RhttpError::ParsingQueryParamsErr,
        }
    }

    open spec fn taken(req: Incoming, cursor: usize) -> usize {
        cursor
    }

    fn extract(req: &Incoming, cursor: usize) -> (r: Result<(Self, usize), RhttpError>) {
        match T::from_query(&req.query_params) {
            Some(v) => Ok((QueryParams(v), cursor)),
            None => Err(RhttpError::ParsingQueryParamsErr),
        }
    }
}

impl FromRequest for String {
    /// The body as text.
    open spec fn outcome(req: Incoming, cursor: usize, r: Result<(Self, usize), RhttpError>) -> bool {
        match r {
            Ok((s, next)) => next == cursor && vstd::utf8::encode_utf8(s@) == req.request.body@,
            Err(e) => e == RhttpError::BodyNotUtf8 && !vstd::utf8::valid_utf8(req.request.body@),
        }
    }

    open spec fn taken(req: Incoming, cursor: usize) -> usize {
        cursor
    }

    fn extract(req: &Incoming, cursor: usize) -> (r: Result<(Self, usize), RhttpError>) {
        match utf8_str(&req.request.body) {
            Some(s) => Ok((s.to_owned(), cursor)),
            None => Err(RhttpError::BodyNotUtf8),
        }
    }
}

impl<T1: FromRequest> FromRequest for (T1,) {
    open spec fn outcome(req: Incoming, cursor: usize, r: Result<(Self, usize), RhttpError>) -> bool {
        match r {
            Ok((v, next)) => T1::outcome(req, cursor, Ok((v.0, next))),
            Err(e) => T1::outcome(req, cursor, Err(e)),
        }
    }

    open spec fn taken(req: Incoming, cursor: usize) -> usize {
        T1::taken(req, cursor)
    }

    fn extract(req: &Incoming, cursor: usize) -> (r: Result<(Self, usize), RhttpError>) {
        match T1::extract(req, cursor) {
            Ok((a, next)) => Ok(((a,), next)),
            Err(e) => Err(e),
        }
    }
}

impl<T1: FromRequest, T2: FromRequest> FromRequest for (T1, T2) {
    /// The first argument is read, then the second from where the first
    /// left the cursor; the first failure is the outcome.
    open spec fn outcome(req: Incoming, cursor: usize, r: Result<(Self, usize), RhttpError>) -> bool {
        match r {
            Ok(((a, b), next)) => T1::outcome(req, cursor, Ok((a, T1::taken(req, cursor))))
                && T2::outcome(req, T1::taken(req, cursor), Ok((b, next))),
            Err(e) => T1::outcome(req, cursor, Err(e)) || exists|a: T1, c1: usize|
                T1::outcome(req, cursor, Ok((a, c1))) && T2::outcome(req, c1, Err(e)),
        }
    }

    open spec fn taken(req: Incoming, cursor: usize) -> usize {
        T2::taken(req, T1::taken(req, cursor))
    }

    fn extract(req: &Incoming, cursor: usize) -> (r: Result<(Self, usize), RhttpError>) {
        let r1 = T1::extract(req, cursor);
        match r1 {
            Ok((a, c1)) => {
                let r2 = T2::extract(req, c1);
                match r2 {
                    Ok((b, next)) => {
                        let ghost ga = a;
                        let ghost gb = b;
                        let r = Ok(((a, b), next));
                        proof {
                            assert(T1::outcome(*req, cursor, Ok((ga, c1))));
                            assert(T2::outcome(*req, c1, Ok((gb, next))));
                            assert(Self::outcome(*req, cursor, Ok(((ga, gb), next))));
                        }
                        r
                    },
                    Err(e) => {
                        proof {
                            assert(T1::outcome(*req, cursor, Ok((a, c1))));
                            assert(T2::outcome(*req, c1, Err(e)));
                        }
                        Err(e)
                    },
                }
            },
            Err(e) => Err(e),
        }
    }
}

/// Runs a handler without arguments and converts its result.
pub fn invoke0<R: IntoResponse, F: Fn() -> R>(f: &F) -> (r: Response)
    requires
        f.requires(()),
    ensures
        exists|out: R| f.ensures((), out) && response_view(r) == out.converted(response_date(r)),
{
    let out = f();
    out.into_response()
}

/// Runs a handler of one argument: extracts it, calls, converts.
pub fn invoke1<T1: FromRequest, R: IntoResponse, F: Fn(T1) -> R>(f: &F, req: &Incoming) -> (r: Result<Response, RhttpError>)
    requires
        forall|a: T1| f.requires((a,)),
    ensures
        match r {
            Err(e) => T1::outcome(*req, 0, Err(e)),
            Ok(resp) => exists|a: T1, c: usize, out: R|
                T1::outcome(*req, 0, Ok((a, c))) && f.ensures((a,), out) && response_view(resp) == out.converted(response_date(resp)),
        },
{
    let r1 = T1::extract(req, 0);
    match r1 {
        Ok((a, c)) => {
            let ghost ga = a;
            let out = f(a);
            let ghost gout = out;
            let resp = out.into_response();
            proof {
                assert(T1::outcome(*req, 0, Ok((ga, c))) && f.ensures((ga,), gout) && response_view(resp) == gout.converted(response_date(resp)));
            }
            Ok(resp)
        },
        Err(e) => {
            proof {
                assert(r1 == Err::<(T1, usize), RhttpError>(e));
            }
            Err(e)
        },
    }
}

/// Runs a handler of two arguments: extracts the first, then the second,
/// stopping at the first failure; calls; converts. This is the same as
/// extracting the pair `(T1, T2)` and calling with its parts.
pub fn invoke2<T1: FromRequest, T2: FromRequest, R: IntoResponse, F: Fn(T1, T2) -> R>(f: &F, req: &Incoming) -> (r: Result<Response, RhttpError>)
    requires
        forall|a: T1, b: T2| f.requires((a, b)),
    ensures
        match r {
            Err(e) => <(T1, T2)>::outcome(*req, 0, Err(e)),
            Ok(resp) => exists|a: T1, b: T2, c: usize, out: R|
                <(T1, T2)>::outcome(*req, 0, Ok(((a, b), c))) && f.ensures((a, b), out)
                    && response_view(resp) == out.converted(response_date(resp)),
        },
{
    let r1 = <(T1, T2)>::extract(req, 0);
    match r1 {
        Ok(((a, b), c)) => {
            let ghost ga = a;
            let ghost gb = b;
            let out = f(a, b);
            let ghost gout = out;
            let resp = out.into_response();
            proof {
                assert(<(T1, T2)>::outcome(*req, 0, Ok(((ga, gb), c))) && f.ensures((ga, gb), gout) && response_view(resp) == gout.converted(response_date(resp)));
            }
            Ok(resp)
        },
        Err(e) => Err(e),
    }
}

/// Extracting a pair is extracting its first part, then its second part
/// from the cursor the first one left, with the first failure as the result.
pub proof fn lemma_pair_extraction<T1: FromRequest, T2: FromRequest>(
    req: Incoming,
    a: T1,
    b: T2,
    c2: usize,
    e: RhttpError,
)
    ensures
        <(T1, T2)>::outcome(req, 0, Ok(((a, b), c2))) <==> (T1::outcome(
            req,
            0,
            Ok((a, T1::taken(req, 0))),
        ) && T2::outcome(req, T1::taken(req, 0), Ok((b, c2)))),
        T1::outcome(req, 0, Err(e)) ==> <(T1, T2)>::outcome(req, 0, Err(e)),
        T1::outcome(req, 0, Ok((a, T1::taken(req, 0)))) && T2::outcome(
            req,
            T1::taken(req, 0),
            Err(e),
        ) ==> <(T1, T2)>::outcome(req, 0, Err(e)),
        <(T1, T2)>::taken(req, 0) == T2::taken(req, T1::taken(req, 0)),
{
}

} // verus!
