//! The dispatcher: registered routes per method, the handler registry, and
//! the decisions taken for one request.
use vstd::prelude::*;
use vstd::string::StringSliceAdditionalSpecFns;
use crate::common::{is_client_error, RhttpError};
use crate::incoming::{parse_error, path_part, query_part, spec_body, spec_headers, spec_method, spec_target, spec_version, Incoming};
use crate::request::headers_view;
use crate::method::{method_index, Method};
use crate::radix_tree::{lemma_resolved_is_registered, hit_of, pattern_key, resolve, MatchPriority, MatchResult, RadixTree, Tok};
use crate::response::{empty_body, empty_response, response_view, with_date, IntoResponse, Response, ResponseView, Status};
use crate::text::str_bytes;

verus! {

/// A registered handler: anything that turns a request into a response.
pub trait Handler {
    fn call(&self, incoming: &Incoming) -> Result<Response, RhttpError>;
}

/// One registration.
pub struct Endpoint<H> {
    pub method: Method,
    pub path: Vec<u8>,
    pub handler: H,
}

/// Routes and handlers. The endpoint id of a registration is its position
/// in `handlers`; each method has its own tree, at the method's index.
pub struct Router<H> {
    pub routes: Vec<RadixTree>,
    pub handlers: Vec<Endpoint<H>>,
}

/// `v` with a `Date` header in front unless it has one.
pub open spec fn dated(v: ResponseView, date: Seq<u8>) -> ResponseView {
    (v.0, v.1, v.2, with_date(v.3, date), v.4)
}

/// The response sent, dated `date`, for a request whose handling ended with
/// `outcome`: a client error gives `400 Bad Request`, any other error `500
/// Internal Server Error`, a response gets `date` unless it is dated.
pub open spec fn answer(outcome: Result<ResponseView, RhttpError>, date: Seq<u8>) -> ResponseView {
    match outcome {
        Ok(v) => dated(v, date),
        Err(e) => if is_client_error(e) {
            empty_response(Status::BadRequest, date)
        } else {
            empty_response(Status::InternalServerError, date)
        },
    }
}

/// What resolving the request in `buf` gives: the parse error, a miss, or
/// the match in the tree of its method.
pub open spec fn route_of<H>(r: Router<H>, buf: Seq<u8>) -> Result<(u64, Seq<Seq<u8>>, Seq<Seq<u8>>, MatchPriority), RhttpError> {
    match parse_error(buf) {
        Some(e) => Err(e),
        None => match resolve(r.routes@[method_index(spec_method(buf))].root, path_part(spec_target(buf))) {
            Some(h) => Ok(h),
            None => Err(RhttpError::HandlerNotFound),
        },
    }
}

/// The positional path parameters of a match: every bound value but a
/// wildcard remainder.
pub open spec fn positional(h: (u64, Seq<Seq<u8>>, Seq<Seq<u8>>, MatchPriority)) -> Seq<Seq<u8>> {
    if h.3 == MatchPriority::WildCard && h.2.len() > 0 {
        h.2.drop_last()
    } else {
        h.2
    }
}

/// The wildcard remainder of a match, empty without one.
pub open spec fn remainder(h: (u64, Seq<Seq<u8>>, Seq<Seq<u8>>, MatchPriority)) -> Seq<u8> {
    if h.3 == MatchPriority::WildCard && h.2.len() > 0 {
        h.2.last()
    } else {
        seq![]
    }
}

/// Whether two registrations are for the same method and path.
pub open spec fn same_registration<H>(a: Endpoint<H>, b: Endpoint<H>) -> bool {
    a.method == b.method && a.path@ == b.path@
}

impl<H> Router<H> {
    pub open spec fn wf(&self) -> bool {
        &&& self.routes@.len() == 9
        &&& forall|m: int| 0 <= m < 9 ==> (#[trigger] self.routes@[m]).wf()
        &&& forall|m: int, k: Seq<Tok>|
            0 <= m < 9 && (#[trigger] self.routes@[m].route(k)) is Some ==> self.routes@[m].route(k).unwrap().0 < self.handlers@.len()
        &&& forall|i: int, j: int|
            0 <= i < self.handlers@.len() && 0 <= j < self.handlers@.len() && i != j
                ==> !same_registration(#[trigger] self.handlers@[i], #[trigger] self.handlers@[j])
    }

    /// A router with no routes.
    pub fn new() -> (r: Router<H>)
        ensures
            r.wf(),
            r.handlers@.len() == 0,
            forall|m: int, k: Seq<Tok>| 0 <= m < 9 ==> (#[trigger] r.routes@[m].route(k)) is None,
    {
        let mut routes: Vec<RadixTree> = Vec::new();
        let mut i: usize = 0;
        while i < 9
            invariant
                i <= 9,
                routes@.len() == i,
                forall|m: int| 0 <= m < i ==> (#[trigger] routes@[m]).wf(),
                forall|m: int, k: Seq<Tok>| 0 <= m < i ==> (#[trigger] routes@[m].route(k)) is None,
            decreases 9 - i,
        {
            routes.push(RadixTree::new());
            i = i + 1;
        }
        Router { routes, handlers: Vec::new() }
    }

    /// Position of the registration of `method` and `path`, if any.
    fn find_endpoint(&self, method: Method, path: &Vec<u8>) -> (r: Option<usize>)
        ensures
            match r {
                Some(j) => j < self.handlers@.len() && self.handlers@[j as int].method == method
                    && self.handlers@[j as int].path@ == path@,
                None => forall|j: int|
                    0 <= j < self.handlers@.len() ==> !(#[trigger] self.handlers@[j].method == method
                        && self.handlers@[j].path@ == path@),
            },
    {
        let mut i: usize = 0;
        while i < self.handlers.len()
            invariant
                i <= self.handlers@.len(),
                forall|j: int|
                    0 <= j < i ==> !(#[trigger] self.handlers@[j].method == method
                        && self.handlers@[j].path@ == path@),
            decreases self.handlers@.len() - i,
        {
            if self.handlers[i].method == method && crate::text::eq_bytes(&self.handlers[i].path, path) {
                return Some(i);
            }
            i = i + 1;
        }
        None
    }

    /// Registers `handler` for `method` and `path`. Registering the same
    /// method and path again replaces the handler and keeps the id.
    pub fn register_path(&mut self, method: Method, path: &str, handler: H) -> (id: u64)
        requires
            old(self).wf(),
            old(self).handlers@.len() < u64::MAX,
        ensures
            final(self).wf(),
            (id as int) < final(self).handlers@.len(),
            final(self).handlers@[id as int].method == method,
            final(self).handlers@[id as int].path@ == path.spec_bytes(),
            final(self).handlers@[id as int].handler == handler,
            forall|j: int|
                0 <= j < old(self).handlers@.len() && j != id ==> #[trigger] final(self).handlers@[j]
                    == old(self).handlers@[j],
            forall|j: int|
                0 <= j < old(self).handlers@.len() && #[trigger] old(self).handlers@[j].method == method
                    && old(self).handlers@[j].path@ == path.spec_bytes() ==> id == j,
            (exists|j: int| 0 <= j < old(self).handlers@.len() && old(self).handlers@[j].method == method
                && old(self).handlers@[j].path@ == path.spec_bytes()) ==> final(self).handlers@.len()
                == old(self).handlers@.len(),
            !(exists|j: int| 0 <= j < old(self).handlers@.len() && old(self).handlers@[j].method == method
                && old(self).handlers@[j].path@ == path.spec_bytes()) ==> final(self).handlers@.len()
                == old(self).handlers@.len() + 1 && id as int == old(self).handlers@.len(),
            final(self).routes@[method_index(method)].route(pattern_key(path)) is Some,
            final(self).routes@[method_index(method)].route(pattern_key(path)).unwrap().0 == id,
            forall|m: int, k: Seq<Tok>|
                0 <= m < 9 && !(m == method_index(method) && k == pattern_key(path))
                    ==> #[trigger] final(self).routes@[m].route(k) == old(self).routes@[m].route(k),
    {
        let p = str_bytes(path);
        let ghost oh = self.handlers@;
        let ghost oroutes = self.routes@;
        let ghost pv = p@;
        let idx: usize = match self.find_endpoint(method, &p) {
            Some(j) => {
                let old_entry = self.handlers.remove(j);
                self.handlers.insert(j, Endpoint { method, path: old_entry.path, handler });
                proof {
                    assert(self.handlers@ =~= oh.update(j as int, self.handlers@[j as int]));
                    assert forall|i: int| 0 <= i < oh.len() && oh[i].method == method && oh[i].path@ == pv implies i == j by {
                        if i != j {
                            assert(same_registration(oh[i], oh[j as int]));
                        }
                    }
                    assert forall|a: int, b: int|
                        0 <= a < self.handlers@.len() && 0 <= b < self.handlers@.len() && a != b
                            implies !same_registration(#[trigger] self.handlers@[a], #[trigger] self.handlers@[b]) by {
                        if a != j && b != j {
                            assert(!same_registration(oh[a], oh[b]));
                        } else if a == j {
                            assert(!same_registration(oh[j as int], oh[b]));
                        } else {
                            assert(!same_registration(oh[a], oh[j as int]));
                        }
                    }
                }
                j
            },
            None => {
                self.handlers.push(Endpoint { method, path: p, handler });
                proof {
                    assert forall|a: int, b: int|
                        0 <= a < self.handlers@.len() && 0 <= b < self.handlers@.len() && a != b
                            implies !same_registration(#[trigger] self.handlers@[a], #[trigger] self.handlers@[b]) by {
                        if a < oh.len() && b < oh.len() {
                            assert(self.handlers@[a] == oh[a]);
                            assert(self.handlers@[b] == oh[b]);
                        } else if a < oh.len() {
                            assert(self.handlers@[a] == oh[a]);
                        } else {
                            assert(self.handlers@[b] == oh[b]);
                        }
                    }
                }
                self.handlers.len() - 1
            },
        };
        let mi = method.index();
        let mut tree = self.routes.remove(mi);
        proof {
            assert(tree == oroutes[mi as int]);
        }
        tree.insert(path, idx as u64);
        self.routes.insert(mi, tree);
        proof {
            assert(self.routes@ =~= oroutes.update(mi as int, tree));
            assert(self.handlers@.len() >= oh.len());
            assert forall|m: int| 0 <= m < 9 implies (#[trigger] self.routes@[m]).wf() by {
                if m != mi {
                    assert(self.routes@[m] == oroutes[m]);
                }
            }
            assert forall|m: int, k: Seq<Tok>|
                0 <= m < 9 && (#[trigger] self.routes@[m].route(k)) is Some implies self.routes@[m].route(k).unwrap().0 < self.handlers@.len() by {
                if m != mi {
                    assert(self.routes@[m] == oroutes[m]);
                } else {
                    if k != pattern_key(path) {
                        assert(oroutes[m].route(k) is Some);
                    }
                }
            }
            assert forall|m: int, k: Seq<Tok>|
                0 <= m < 9 && !(m == method_index(method) && k == pattern_key(path))
                    implies #[trigger] self.routes@[m].route(k) == oroutes[m].route(k) by {
                if m != mi {
                    assert(self.routes@[m] == oroutes[m]);
                }
            }
        }
        idx as u64
    }
}


pub open spec fn outcome_view(o: Result<Response, RhttpError>) -> Result<ResponseView, RhttpError> {
    match o {
        Ok(r) => Ok(response_view(r)),
        Err(e) => Err(e),
    }
}

/// The response for a handling that ended with `outcome`, dated `date`.
pub fn finish(outcome: Result<Response, RhttpError>, date: Vec<u8>) -> (r: Response)
    ensures
        response_view(r) == answer(outcome_view(outcome), date@),
{
    match outcome {
        Ok(resp) => {
            let mut resp = resp;
            resp.add_date(date);
            resp
        },
        Err(e) => if e.is_client_error() {
            empty_body(Status::BadRequest, date)
        } else {
            empty_body(Status::InternalServerError, date)
        },
    }
}

impl<H> Router<H> {
    /// Finds the handler for a parsed request and gives the request the
    /// bindings of the match: positional parameters, and the wildcard
    /// remainder when the match went through a wildcard.
    pub fn get_handler(&self, incoming: &mut Incoming) -> (r: Result<usize, RhttpError>)
        requires
            self.wf(),
        ensures
            match resolve(self.routes@[method_index(old(incoming).request.request_line.method)].root, old(incoming).request.request_line.path@) {
                None => r == Err::<usize, RhttpError>(RhttpError::HandlerNotFound) && *final(incoming) == *old(incoming),
                Some(h) => r == Ok::<usize, RhttpError>(h.0 as usize) && (h.0 as int) < self.handlers@.len()
                    && final(incoming).path_params.deep_view() == positional(h)
                    && final(incoming).wildcard_param@ == remainder(h)
                    && final(incoming).request == old(incoming).request
                    && final(incoming).query_params == old(incoming).query_params,
            },
    {
        let mi = incoming.request.request_line.method.index();
        let tree = &self.routes[mi];
        match tree.find_bytes(&incoming.request.request_line.path) {
            None => Err(RhttpError::HandlerNotFound),
            Some(m) => {
                proof {
                    let k = lemma_resolved_is_registered(*tree, incoming.request.request_line.path@);
                    assert(self.routes@[mi as int].route(k) is Some);
                }
                let MatchResult { endpoint_id, names: _, values, priority } = m;
                let mut values = values;
                let ghost vals = values.deep_view();
                let wild = match priority {
                    MatchPriority::WildCard => match values.pop() {
                        Some(v) => v,
                        None => Vec::new(),
                    },
                    _ => Vec::new(),
                };
                proof {
                    assert(values.deep_view() =~= positional(hit_of(Some(m)).unwrap()));
                }
                incoming.path_params = values;
                incoming.wildcard_param = wild;
                Ok(endpoint_id as usize)
            },
        }
    }
}

/// `inc` is the request parsed from `buf`, carrying the bindings of match `h`.
pub open spec fn prepared(inc: Incoming, buf: Seq<u8>, h: (u64, Seq<Seq<u8>>, Seq<Seq<u8>>, MatchPriority)) -> bool {
    &&& inc.request.request_line.method == spec_method(buf)
    &&& inc.request.request_line.path@ == path_part(spec_target(buf))
    &&& inc.query_params@ == query_part(spec_target(buf))
    &&& inc.request.request_line.protocol_version == spec_version(buf)
    &&& headers_view(inc.request.headers@) == spec_headers(buf)
    &&& inc.request.body@ == spec_body(buf)
    &&& inc.path_params.deep_view() == positional(h)
    &&& inc.wildcard_param@ == remainder(h)
}

impl<H> Router<H> {
    /// Parses the request in `buf` and routes it: on success, the index of
    /// the handler of the match and the request carrying its bindings.
    pub fn route(&self, buf: &Vec<u8>) -> (r: Result<(usize, Incoming), RhttpError>)
        requires
            self.wf(),
        ensures
            match route_of(*self, buf@) {
                Err(e) => r is Err && r->Err_0 == e,
                Ok(h) => r is Ok && r->Ok_0.0 as int == h.0 as int && (h.0 as int) < self.handlers@.len()
                    && prepared(r->Ok_0.1, buf@, h),
            },
    {
        let mut inc = match Incoming::from(buf) {
            Ok(i) => i,
            Err(e) => {
                return Err(e);
            },
        };
        let ghost inc0 = inc;
        proof {
            assert(inc0.request.request_line.method == spec_method(buf@));
            assert(inc0.request.request_line.path@ == path_part(spec_target(buf@)));
        }
        match self.get_handler(&mut inc) {
            Err(e) => Err(e),
            Ok(i) => {
                proof {
                    let h = route_of(*self, buf@)->Ok_0;
                    assert(resolve(self.routes@[method_index(inc0.request.request_line.method)].root, inc0.request.request_line.path@) == Some(h));
                    assert(inc.request == inc0.request);
                    assert(inc.query_params == inc0.query_params);
                    assert((h.0 as int) < self.handlers.len());
                    assert(i == h.0 as usize);
                    assert(i as int == h.0 as int);
                }
                Ok((i, inc))
            },
        }
    }
}

impl<H: Handler> Router<H> {
    /// Answers the request in `buf`, dated `date`: it routes the request with
    /// `route`, calls the handler at the index `route` gives with the request
    /// it prepared, and turns the outcome into a response with `finish`. A
    /// request that does not parse or that no route matches is answered
    /// `400 Bad Request` without calling any handler.
    pub fn handle_request(&self, buf: &Vec<u8>, date: Vec<u8>) -> (r: Response)
        requires
            self.wf(),
        ensures
            route_of(*self, buf@) is Err ==> response_view(r) == empty_response(Status::BadRequest, date@),
            route_of(*self, buf@) is Ok ==> exists|o: Result<ResponseView, RhttpError>| response_view(r) == answer(o, date@),
    {
        match self.route(buf) {
            Err(e) => finish(Err(e), date),
            Ok((i, inc)) => {
                let out = self.handlers[i].handler.call(&inc);
                let ghost o = outcome_view(out);
                let r = finish(out, date);
                proof {
                    assert(response_view(r) == answer(o, date@));
                }
                r
            },
        }
    }
}

} // verus!
