//! Responses: status, conversion from handler results, and the wire form.
use vstd::prelude::*;
use vstd::string::StringSliceAdditionalSpecFns;
use crate::common::{crlf, crlf_bytes};
use crate::headers::{header_name, known_name, HeaderType, HeaderValue};
use crate::request::{find_header, header_index, headers_view, HeadersView};
use crate::text::{append_bytes, str_bytes};
use crate::version::{version_name, ProtocolVersion};
use bytes::BytesMut;

verus! {

/// The status values a response can carry.
#[derive(PartialEq, Eq, Structural, Clone, Copy, Debug)]
pub enum Status {
    Success,
    BadRequest,
    NotFound,
    InternalServerError,
}

pub open spec fn status_code(s: Status) -> u16 {
    match s {
        Status::Success => 200,
        Status::BadRequest => 400,
        Status::NotFound => 404,
        Status::InternalServerError => 500,
    }
}

/// The RFC 7231 reason phrase.
pub open spec fn reason_phrase(s: Status) -> Seq<u8> {
    match s {
        Status::Success => seq![0x4fu8, 0x4bu8],
        Status::BadRequest => seq![0x42u8, 0x61u8, 0x64u8, 0x20u8, 0x52u8, 0x65u8, 0x71u8, 0x75u8, 0x65u8, 0x73u8, 0x74u8],
        Status::NotFound => seq![0x4eu8, 0x6fu8, 0x74u8, 0x20u8, 0x46u8, 0x6fu8, 0x75u8, 0x6eu8, 0x64u8],
        Status::InternalServerError => seq![0x49u8, 0x6eu8, 0x74u8, 0x65u8, 0x72u8, 0x6eu8, 0x61u8, 0x6cu8, 0x20u8, 0x53u8, 0x65u8, 0x72u8, 0x76u8, 0x65u8, 0x72u8, 0x20u8, 0x45u8, 0x72u8, 0x72u8, 0x6fu8, 0x72u8],
    }
}

impl Default for Status {
    fn default() -> (r: Status)
        ensures
            r == Status::Success,
    {
        Status::Success
    }
}

impl Status {
    pub fn status_code(&self) -> (r: u16)
        ensures
            r == status_code(*self),
    {
        match self {
            Status::Success => 200,
            Status::BadRequest => 400,
            Status::NotFound => 404,
            Status::InternalServerError => 500,
        }
    }

    /// The reason phrase.
    pub fn as_bytes(&self) -> (r: Vec<u8>)
        ensures
            r@ == reason_phrase(*self),
    {
        let r = match self {
            Status::Success => vec![0x4fu8, 0x4bu8],
            Status::BadRequest => vec![0x42u8, 0x61u8, 0x64u8, 0x20u8, 0x52u8, 0x65u8, 0x71u8, 0x75u8, 0x65u8, 0x73u8, 0x74u8],
            Status::NotFound => vec![0x4eu8, 0x6fu8, 0x74u8, 0x20u8, 0x46u8, 0x6fu8, 0x75u8, 0x6eu8, 0x64u8],
            Status::InternalServerError => vec![0x49u8, 0x6eu8, 0x74u8, 0x65u8, 0x72u8, 0x6eu8, 0x61u8, 0x6cu8, 0x20u8, 0x53u8, 0x65u8, 0x72u8, 0x76u8, 0x65u8, 0x72u8, 0x20u8, 0x45u8, 0x72u8, 0x72u8, 0x6fu8, 0x72u8],
        };
        proof {
            assert(r@ =~= reason_phrase(*self));
        }
        r
    }
}

pub open spec fn text_plain_utf8() -> Seq<u8> {
    seq![0x74u8, 0x65u8, 0x78u8, 0x74u8, 0x2fu8, 0x70u8, 0x6cu8, 0x61u8, 0x69u8, 0x6eu8, 0x3bu8, 0x20u8, 0x63u8, 0x68u8, 0x61u8, 0x72u8, 0x73u8, 0x65u8, 0x74u8, 0x3du8, 0x75u8, 0x74u8, 0x66u8, 0x2du8, 0x38u8]
}

pub open spec fn text_html_utf8() -> Seq<u8> {
    seq![0x74u8, 0x65u8, 0x78u8, 0x74u8, 0x2fu8, 0x68u8, 0x74u8, 0x6du8, 0x6cu8, 0x3bu8, 0x20u8, 0x63u8, 0x68u8, 0x61u8, 0x72u8, 0x73u8, 0x65u8, 0x74u8, 0x3du8, 0x75u8, 0x74u8, 0x66u8, 0x2du8, 0x38u8]
}

/// Relies on the `mime` constant `TEXT_PLAIN_UTF_8`, whose text is
/// `text/plain; charset=utf-8`.
#[verifier::external_body]
fn plain_text_mime() -> (r: Vec<u8>)
    ensures
        r@ == text_plain_utf8(),
{
    let m: &str = mime::TEXT_PLAIN_UTF_8.as_ref();
    m.as_bytes().to_vec()
}

/// Relies on the `mime` constant `TEXT_HTML_UTF_8`, whose text is
/// `text/html; charset=utf-8`.
#[verifier::external_body]
fn html_text_mime() -> (r: Vec<u8>)
    ensures
        r@ == text_html_utf8(),
{
    let m: &str = mime::TEXT_HTML_UTF_8.as_ref();
    m.as_bytes().to_vec()
}

/// Relies on `chrono`: the current time, formatted as an HTTP date
/// (`%a, %d %b %Y %H:%M:%S GMT`). Nothing is promised of the value.
#[verifier::external_body]
pub fn http_date_now() -> (r: Vec<u8>) {
    chrono::Utc::now().format("%a, %d %b %Y %H:%M:%S GMT").to_string().into_bytes()
}

/// Decimal digits of `n`, most significant first.
pub open spec fn decimal_bytes(n: nat) -> Seq<u8>
    decreases n,
{
    if n < 10 {
        seq![(0x30 + n) as u8]
    } else {
        decimal_bytes(n / 10).push((0x30 + n % 10) as u8)
    }
}

/// The decimal form of `n`.
pub fn decimal_of(n: usize) -> (r: Vec<u8>)
    ensures
        r@ == decimal_bytes(n as nat),
    decreases n,
{
    if n < 10 {
        let r = vec![(0x30 + n) as u8];
        proof {
            assert(r@ =~= decimal_bytes(n as nat));
        }
        r
    } else {
        let mut r = decimal_of(n / 10);
        r.push((0x30 + n % 10) as u8);
        r
    }
}

pub struct StatusLine {
    pub version: ProtocolVersion,
    pub status_code: u16,
    pub reason_phrase: Vec<u8>,
}

impl Default for StatusLine {
    /// `HTTP/1.1 200 OK`.
    fn default() -> (r: StatusLine)
        ensures
            r.version == ProtocolVersion::Http11,
            r.status_code == 200,
            r.reason_phrase@ == reason_phrase(Status::Success),
    {
        StatusLine {
            version: ProtocolVersion::Http11,
            status_code: Status::Success.status_code(),
            reason_phrase: Status::Success.as_bytes(),
        }
    }
}

/// A response: status line, headers in insertion order, body.
pub struct Response {
    pub status_line: StatusLine,
    pub headers: Vec<(HeaderType, HeaderValue)>,
    pub body: Vec<u8>,
}

/// A response as plain values: version, status code, reason phrase, headers,
/// body.
pub type ResponseView = (ProtocolVersion, u16, Seq<u8>, HeadersView, Seq<u8>);

pub open spec fn response_view(r: Response) -> ResponseView {
    (r.status_line.version, r.status_line.status_code, r.status_line.reason_phrase@, headers_view(r.headers@), r.body@)
}

/// A `200 OK` response over HTTP/1.1 with the given headers and body.
pub open spec fn ok_response(hs: HeadersView, body: Seq<u8>) -> ResponseView {
    (ProtocolVersion::Http11, 200, reason_phrase(Status::Success), hs, body)
}

/// The conversion of a text body, dated `date`: `200 OK` with a `Date`
/// header, then its length and type.
pub open spec fn text_response(body: Seq<u8>, content_type: Seq<u8>, date: Seq<u8>) -> ResponseView {
    ok_response(
        seq![
            (known_name(HeaderType::Date), date),
            (known_name(HeaderType::ContentLength), decimal_bytes(body.len())),
            (known_name(HeaderType::ContentType), content_type),
        ],
        body,
    )
}

/// The conversion of an empty body with status `s`, dated `date`: a `Date`
/// header and `Content-Length: 0`.
pub open spec fn empty_response(s: Status, date: Seq<u8>) -> ResponseView {
    (
        ProtocolVersion::Http11,
        status_code(s),
        reason_phrase(s),
        seq![(known_name(HeaderType::Date), date), (known_name(HeaderType::ContentLength), seq![0x30u8])],
        seq![],
    )
}

/// The value of the first header of a response; for a converted response,
/// its `Date`.
pub open spec fn response_date(r: Response) -> Seq<u8> {
    headers_view(r.headers@)[0].1
}

/// `v` with its status replaced by `s`.
pub open spec fn with_status(v: ResponseView, s: Status) -> ResponseView {
    (v.0, status_code(s), reason_phrase(s), v.3, v.4)
}

/// The headers after adding `name: val` unless a header of that name is
/// already there.
pub open spec fn add_if_absent(hs: HeadersView, name: Seq<u8>, val: Seq<u8>) -> HeadersView {
    if header_index(hs, name) >= 0 {
        hs
    } else {
        hs.push((name, val))
    }
}

/// The headers with a `Date` header in front unless one is there.
pub open spec fn with_date(hs: HeadersView, date: Seq<u8>) -> HeadersView {
    if header_index(hs, known_name(HeaderType::Date)) >= 0 {
        hs
    } else {
        seq![(known_name(HeaderType::Date), date)] + hs
    }
}

pub open spec fn status_line_bytes(v: ResponseView) -> Seq<u8> {
    version_name(v.0) + seq![0x20u8] + decimal_bytes(v.1 as nat) + seq![0x20u8] + v.2
}

pub open spec fn header_lines(hs: HeadersView) -> Seq<u8>
    decreases hs.len(),
{
    if hs.len() == 0 {
        seq![]
    } else {
        header_lines(hs.drop_last()) + hs.last().0 + seq![0x3au8, 0x20u8] + hs.last().1 + crlf()
    }
}

/// The bytes sent for a response: status line, one line per header, an
/// empty line, the body.
pub open spec fn wire(v: ResponseView) -> Seq<u8> {
    status_line_bytes(v) + crlf() + header_lines(v.3) + crlf() + v.4
}

#[verifier::external_type_specification]
#[verifier::external_body]
pub struct ExBytesMut(BytesMut);

/// What a `BytesMut` holds.
pub uninterp spec fn buffer_bytes(b: BytesMut) -> Seq<u8>;

/// Relies on `BytesMut::new`: an empty buffer.
#[verifier::external_body]
fn buffer_new() -> (r: BytesMut)
    ensures
        buffer_bytes(r) == Seq::<u8>::empty(),
{
    BytesMut::new()
}

/// Relies on `BytesMut::extend_from_slice`: appends the bytes.
#[verifier::external_body]
fn buffer_put(b: &mut BytesMut, src: &[u8])
    ensures
        buffer_bytes(*final(b)) == buffer_bytes(*old(b)) + src@,
{
    b.extend_from_slice(src)
}

/// Relies on `BytesMut` dereferencing to the bytes it holds.
#[verifier::external_body]
pub fn buffer_to_vec(b: &BytesMut) -> (r: Vec<u8>)
    ensures
        r@ == buffer_bytes(*b),
{
    b.to_vec()
}

impl Default for Response {
    /// `HTTP/1.1 200 OK` without body, dated now.
    fn default() -> (r: Response)
        ensures
            r.status_line.version == ProtocolVersion::Http11,
            r.status_line.status_code == 200,
            r.status_line.reason_phrase@ == reason_phrase(Status::Success),
            r.body@.len() == 0,
            headers_view(r.headers@).len() == 1,
            headers_view(r.headers@)[0].0 == known_name(HeaderType::Date),
    {
        let mut r = Response::new();
        r.add_date(http_date_now());
        proof {
            assert(header_index(seq![], known_name(HeaderType::Date)) == -1);
        }
        r
    }
}

impl Response {
    /// `HTTP/1.1 200 OK` without headers or body.
    pub fn new() -> (r: Response)
        ensures
            response_view(r) == ok_response(seq![], seq![]),
    {
        let r = Response { status_line: StatusLine::default(), headers: Vec::new(), body: Vec::new() };
        proof {
            assert(headers_view(r.headers@) =~= Seq::<(Seq<u8>, Seq<u8>)>::empty());
        }
        r
    }

    /// Adds `key: val` unless a header of that name is already present.
    pub fn add_header(&mut self, key: HeaderType, val: Vec<u8>)
        ensures
            headers_view(final(self).headers@) == add_if_absent(headers_view(old(self).headers@), header_name(key), val@),
            final(self).status_line == old(self).status_line,
            final(self).body == old(self).body,
    {
        let ghost hv = headers_view(self.headers@);
        match find_header(&self.headers, &key) {
            Some(_) => {},
            None => {
                self.headers.push((key, HeaderValue(val)));
                proof {
                    assert(headers_view(self.headers@) =~= add_if_absent(hv, header_name(key), val@));
                }
            },
        }
    }

    /// Sets the status code and reason phrase.
    pub fn add_status(&mut self, status: Status)
        ensures
            final(self).status_line.status_code == status_code(status),
            final(self).status_line.reason_phrase@ == reason_phrase(status),
            final(self).status_line.version == old(self).status_line.version,
            final(self).headers == old(self).headers,
            final(self).body == old(self).body,
    {
        self.status_line.status_code = status.status_code();
        self.status_line.reason_phrase = status.as_bytes();
    }

    /// Puts a `Date` header with value `date` in front, unless there is one.
    pub fn add_date(&mut self, date: Vec<u8>)
        ensures
            headers_view(final(self).headers@) == with_date(headers_view(old(self).headers@), date@),
            final(self).status_line == old(self).status_line,
            final(self).body == old(self).body,
    {
        let ghost hv = headers_view(self.headers@);
        match find_header(&self.headers, &HeaderType::Date) {
            Some(_) => {},
            None => {
                self.headers.insert(0, (HeaderType::Date, HeaderValue(date)));
                proof {
                    assert(headers_view(self.headers@) =~= with_date(hv, date@));
                }
            },
        }
    }

    /// The bytes of the status line, without its CRLF.
    pub fn status_line_wire(&self) -> (r: Vec<u8>)
        ensures
            r@ == status_line_bytes(response_view(*self)),
    {
        let mut r = self.status_line.version.name();
        r.push(0x20u8);
        let code = decimal_of(self.status_line.status_code as usize);
        append_bytes(&mut r, &code);
        r.push(0x20u8);
        append_bytes(&mut r, &self.status_line.reason_phrase);
        proof {
            assert(r@ =~= status_line_bytes(response_view(*self)));
        }
        r
    }

    /// The response as sent on the wire.
    pub fn serialize(&self) -> (r: BytesMut)
        ensures
            buffer_bytes(r) == wire(response_view(*self)),
    {
        let ghost hv = headers_view(self.headers@);
        let mut buf = buffer_new();
        let line = self.status_line_wire();
        buffer_put(&mut buf, line.as_slice());
        let nl = crlf_bytes();
        buffer_put(&mut buf, nl.as_slice());
        let sep = vec![0x3au8, 0x20u8];
        let mut i: usize = 0;
        while i < self.headers.len()
            invariant
                i <= self.headers@.len(),
                hv == headers_view(self.headers@),
                nl@ == crlf(),
                sep@ == seq![0x3au8, 0x20u8],
                buffer_bytes(buf) == status_line_bytes(response_view(*self)) + crlf() + header_lines(hv.take(i as int)),
            decreases self.headers@.len() - i,
        {
            let name = self.headers[i].0.name();
            buffer_put(&mut buf, name.as_slice());
            buffer_put(&mut buf, sep.as_slice());
            buffer_put(&mut buf, self.headers[i].1.0.as_slice());
            buffer_put(&mut buf, nl.as_slice());
            proof {
                let t = hv.take(i + 1);
                assert(t.drop_last() =~= hv.take(i as int));
                assert(buffer_bytes(buf) =~= status_line_bytes(response_view(*self)) + crlf() + header_lines(t));
            }
            i = i + 1;
        }
        proof {
            assert(hv.take(self.headers@.len() as int) =~= hv);
        }
        buffer_put(&mut buf, nl.as_slice());
        buffer_put(&mut buf, self.body.as_slice());
        proof {
            assert(buffer_bytes(buf) =~= wire(response_view(*self)));
        }
        buf
    }
}

/// A body to be sent as HTML.
pub struct Html(pub String);

/// Turning a handler's result into a response.
pub trait IntoResponse: Sized {
    /// The response that `self` converts to when dated `date`.
    spec fn converted(self, date: Seq<u8>) -> ResponseView;

    /// Converts, dating the response with the current time: the response is
    /// `self.converted(d)` for the `Date` value `d` it carries first.
    fn into_response(self) -> (r: Response)
        ensures
            headers_view(r.headers@).len() > 0,
            headers_view(r.headers@)[0].0 == known_name(HeaderType::Date),
            response_view(r) == self.converted(response_date(r)),
    ;
}

/// A `200 OK` response dated `date`, with `body` and its length and type.
pub fn text_body(body: Vec<u8>, content_type: Vec<u8>, date: Vec<u8>) -> (r: Response)
    ensures
        response_view(r) == text_response(body@, content_type@, date@),
{
    let mut r = Response::new();
    let ghost dv = date@;
    r.add_date(date);
    let n = decimal_of(body.len());
    let ghost nv = n@;
    let ghost date_name = known_name(HeaderType::Date);
    let ghost cl = known_name(HeaderType::ContentLength);
    let ghost ct = known_name(HeaderType::ContentType);
    proof {
        assert(crate::request::header_index_from(seq![], date_name, 0) == -1);
        assert(headers_view(r.headers@) =~= seq![(date_name, dv)]);
        assert(date_name.len() != cl.len());
        let hs = headers_view(r.headers@);
        assert(header_index(hs, cl) == -1) by {
            assert(crate::request::header_index_from(hs, cl, 1) == -1);
        }
    }
    r.add_header(HeaderType::ContentLength, n);
    proof {
        assert(headers_view(r.headers@) =~= seq![(date_name, dv), (cl, nv)]);
        assert(cl.len() != ct.len());
        assert(date_name.len() != ct.len());
        let hs = headers_view(r.headers@);
        assert(header_index(hs, ct) == -1) by {
            assert(crate::request::header_index_from(hs, ct, 2) == -1);
            assert(crate::request::header_index_from(hs, ct, 1) == -1);
        }
    }
    r.add_header(HeaderType::ContentType, content_type);
    r.body = body;
    proof {
        assert(headers_view(r.headers@) =~= text_response(body@, content_type@, dv).3);
    }
    r
}

/// A response with status `s` and no body, dated `date`.
pub fn empty_body(s: Status, date: Vec<u8>) -> (r: Response)
    ensures
        response_view(r) == empty_response(s, date@),
{
    let mut r = Response::new();
    r.add_status(s);
    let ghost dv = date@;
    r.add_date(date);
    let ghost date_name = known_name(HeaderType::Date);
    let ghost cl = known_name(HeaderType::ContentLength);
    proof {
        assert(crate::request::header_index_from(seq![], date_name, 0) == -1);
        assert(headers_view(r.headers@) =~= seq![(date_name, dv)]);
        assert(date_name.len() != cl.len());
        let hs = headers_view(r.headers@);
        assert(header_index(hs, cl) == -1) by {
            assert(crate::request::header_index_from(hs, cl, 1) == -1);
        }
    }
    let z = vec![0x30u8];
    proof {
        assert(z@ =~= seq![0x30u8]);
    }
    r.add_header(HeaderType::ContentLength, z);
    proof {
        assert(headers_view(r.headers@) =~= empty_response(s, dv).3);
    }
    r
}

impl IntoResponse for () {
    open spec fn converted(self, date: Seq<u8>) -> ResponseView {
        empty_response(Status::Success, date)
    }

    fn into_response(self) -> (r: Response) {
        empty_body(Status::Success, http_date_now())
    }
}

impl IntoResponse for Status {
    open spec fn converted(self, date: Seq<u8>) -> ResponseView {
        empty_response(self, date)
    }

    fn into_response(self) -> (r: Response) {
        empty_body(self, http_date_now())
    }
}

impl IntoResponse for String {
    open spec fn converted(self, date: Seq<u8>) -> ResponseView {
        text_response(vstd::utf8::encode_utf8(self@), text_plain_utf8(), date)
    }

    fn into_response(self) -> (r: Response) {
        text_body(str_bytes(self.as_str()), plain_text_mime(), http_date_now())
    }
}

impl<'a> IntoResponse for &'a str {
    open spec fn converted(self, date: Seq<u8>) -> ResponseView {
        text_response(self.spec_bytes(), text_plain_utf8(), date)
    }

    fn into_response(self) -> (r: Response) {
        text_body(str_bytes(self), plain_text_mime(), http_date_now())
    }
}

impl IntoResponse for Html {
    open spec fn converted(self, date: Seq<u8>) -> ResponseView {
        text_response(vstd::utf8::encode_utf8(self.0@), text_html_utf8(), date)
    }

    fn into_response(self) -> (r: Response) {
        text_body(str_bytes(self.0.as_str()), html_text_mime(), http_date_now())
    }
}

impl<T: IntoResponse> IntoResponse for (Status, T) {
    open spec fn converted(self, date: Seq<u8>) -> ResponseView {
        with_status(self.1.converted(date), self.0)
    }

    fn into_response(self) -> (r: Response) {
        let (s, t) = self;
        let mut r = t.into_response();
        r.add_status(s);
        r
    }
}

} // verus!
