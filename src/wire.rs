//! Reading a serialized response head back.
use vstd::prelude::*;
use crate::common::{crlf, final_crlf};
use crate::incoming::{head_of, header_sep, line_of};
use crate::request::HeadersView;
use crate::response::{decimal_bytes, empty_response, header_lines, reason_phrase, status_line_bytes, text_html_utf8, text_plain_utf8, text_response, with_status, wire, ResponseView, Status};
use crate::headers::{known_name, HeaderType};
use crate::text::{find_from, split_once, CR, LF};
use crate::version::version_name;

verus! {

/// The header pairs of a header block: lines separated by CRLF, each cut at
/// its first `": "`.
pub open spec fn read_lines(s: Seq<u8>) -> Option<HeadersView>
    decreases s.len(),
{
    let i = find_from(s, crlf(), 0);
    let line = if i >= 0 { s.take(i) } else { s };
    match split_once(line, header_sep()) {
        None => None,
        Some((k, v)) => if i >= 0 {
            proof {
                crate::text::lemma_find_from_bounds(s, crlf(), 0);
            }
            match read_lines(s.skip(i + 2)) {
                Some(rest) => Some(seq![(k, v)] + rest),
                None => None,
            }
        } else {
            Some(seq![(k, v)])
        },
    }
}

/// The status line and the header pairs read back from the bytes of a
/// response.
pub open spec fn read_head(bytes: Seq<u8>) -> Option<(Seq<u8>, HeadersView)> {
    match head_of(bytes) {
        None => None,
        Some((head, _)) => match line_of(head).1 {
            None => Some((line_of(head).0, seq![])),
            Some(block) => match read_lines(block) {
                Some(hs) => Some((line_of(head).0, hs)),
                None => None,
            },
        },
    }
}

pub open spec fn no_byte(s: Seq<u8>, c: u8) -> bool {
    forall|i: int| 0 <= i < s.len() ==> s[i] != c
}

/// A line's text has no line break.
pub open spec fn one_line(s: Seq<u8>) -> bool {
    no_byte(s, CR) && no_byte(s, LF)
}

/// What a response must satisfy to be read back as it was written: a reason
/// phrase without line breaks, header names without line breaks or `:`,
/// header values without line breaks.
pub open spec fn wire_safe(v: ResponseView) -> bool {
    &&& one_line(v.2)
    &&& forall|i: int| 0 <= i < v.3.len() ==> one_line(#[trigger] v.3[i].0) && no_byte(v.3[i].0, 0x3a) && one_line(v.3[i].1)
}

pub open spec fn header_line(h: (Seq<u8>, Seq<u8>)) -> Seq<u8> {
    h.0 + header_sep() + h.1 + crlf()
}

proof fn lemma_header_lines_front(hs: HeadersView)
    requires
        hs.len() > 0,
    ensures
        header_lines(hs) == header_line(hs[0]) + header_lines(hs.drop_first()),
    decreases hs.len(),
{
    if hs.len() == 1 {
        assert(hs.drop_last() =~= Seq::<(Seq<u8>, Seq<u8>)>::empty());
        assert(hs.drop_first() =~= Seq::<(Seq<u8>, Seq<u8>)>::empty());
        assert(header_lines(hs) =~= header_line(hs[0]) + header_lines(hs.drop_first()));
    } else {
        lemma_header_lines_front(hs.drop_last());
        assert(hs.drop_last().drop_first() =~= hs.drop_first().drop_last());
        assert(hs.drop_last()[0] == hs[0]);
        assert(hs.drop_first().last() == hs.last());
        assert(header_lines(hs) =~= header_line(hs[0]) + header_lines(hs.drop_first()));
    }
}

/// Searching past a stretch that holds no first byte of the pattern.
proof fn lemma_find_skip(s: Seq<u8>, pat: Seq<u8>, i: int, j: int)
    requires
        pat.len() > 0,
        0 <= i <= j <= s.len(),
        forall|p: int| i <= p < j ==> s[p] != pat[0],
    ensures
        find_from(s, pat, i) == find_from(s, pat, j),
    decreases j - i,
{
    if i < j {
        if i + pat.len() <= s.len() {
            assert(s.subrange(i, i + pat.len())[0] != pat[0]);
        }
        lemma_find_skip(s, pat, i + 1, j);
    }
}

/// Searching in `a + b` from inside `b` is searching in `b`.
proof fn lemma_find_shift(a: Seq<u8>, b: Seq<u8>, pat: Seq<u8>, k: int)
    requires
        pat.len() > 0,
        0 <= k <= b.len(),
    ensures
        find_from(a + b, pat, a.len() + k) == if find_from(b, pat, k) >= 0 {
            a.len() + find_from(b, pat, k)
        } else {
            -1
        },
    decreases b.len() - k,
{
    let s = a + b;
    let p = a.len() + k;
    if !(p + pat.len() > s.len()) {
        assert(s.subrange(p, p + pat.len()) =~= b.subrange(k, k + pat.len()));
        if b.subrange(k, k + pat.len()) != pat {
            lemma_find_shift(a, b, pat, k + 1);
        }
    }
}

/// Searching in `a + b` where `a` holds no first byte of the pattern.
proof fn lemma_find_after(a: Seq<u8>, b: Seq<u8>, pat: Seq<u8>)
    requires
        pat.len() > 0,
        no_byte(a, pat[0]),
    ensures
        find_from(a + b, pat, 0) == if find_from(b, pat, 0) >= 0 {
            a.len() + find_from(b, pat, 0)
        } else {
            -1
        },
{
    lemma_find_skip(a + b, pat, 0, a.len() as int);
    lemma_find_shift(a, b, pat, 0);
}

proof fn lemma_find_here(s: Seq<u8>, pat: Seq<u8>)
    requires
        pat.len() <= s.len(),
        s.take(pat.len() as int) == pat,
    ensures
        find_from(s, pat, 0) == 0,
{
    assert(s.subrange(0, pat.len() as int) =~= s.take(pat.len() as int));
}

proof fn lemma_find_none(s: Seq<u8>, pat: Seq<u8>)
    requires
        pat.len() > 0,
        no_byte(s, pat[0]),
    ensures
        find_from(s, pat, 0) == -1,
{
    lemma_find_skip(s, pat, 0, s.len() as int);
}

pub open spec fn block_of(hs: HeadersView) -> Seq<u8>
    decreases hs.len(),
{
    if hs.len() == 0 {
        seq![]
    } else if hs.len() == 1 {
        hs[0].0 + header_sep() + hs[0].1
    } else {
        hs[0].0 + header_sep() + hs[0].1 + crlf() + block_of(hs.drop_first())
    }
}

pub open spec fn safe_headers(hs: HeadersView) -> bool {
    forall|i: int| 0 <= i < hs.len() ==> one_line(#[trigger] hs[i].0) && no_byte(hs[i].0, 0x3a) && one_line(hs[i].1)
}

proof fn lemma_one_line_concat(a: Seq<u8>, b: Seq<u8>)
    requires
        one_line(a),
        one_line(b),
    ensures
        one_line(a + b),
{
    assert forall|i: int| 0 <= i < (a + b).len() implies (a + b)[i] != CR && (a + b)[i] != LF by {
        if i < a.len() {
            assert((a + b)[i] == a[i]);
        } else {
            assert((a + b)[i] == b[i - a.len()]);
        }
    }
}

/// The text of a header line before its CRLF.
proof fn lemma_pair_text(h: (Seq<u8>, Seq<u8>))
    requires
        one_line(h.0),
        no_byte(h.0, 0x3a),
        one_line(h.1),
    ensures
        one_line(h.0 + header_sep() + h.1),
        split_once(h.0 + header_sep() + h.1, header_sep()) == Some((h.0, h.1)),
{
    let sep = header_sep();
    assert(one_line(sep));
    lemma_one_line_concat(h.0, sep);
    lemma_one_line_concat(h.0 + sep, h.1);
    let rest = sep + h.1;
    assert(h.0 + sep + h.1 =~= h.0 + rest);
    lemma_find_after(h.0, rest, sep);
    assert(rest.take(2) =~= sep);
    lemma_find_here(rest, sep);
    let s = h.0 + sep + h.1;
    assert(s.take(h.0.len() as int) =~= h.0);
    assert(s.skip(h.0.len() as int + 2) =~= h.1);
}

proof fn lemma_read_block(hs: HeadersView)
    requires
        hs.len() > 0,
        safe_headers(hs),
    ensures
        read_lines(block_of(hs)) == Some(hs),
    decreases hs.len(),
{
    let h = hs[0];
    lemma_pair_text(h);
    let first = h.0 + header_sep() + h.1;
    if hs.len() == 1 {
        lemma_find_none(first, crlf());
        assert(block_of(hs) == first);
        assert(seq![(h.0, h.1)] =~= hs);
    } else {
        let rest = hs.drop_first();
        assert forall|i: int| 0 <= i < rest.len() implies one_line(#[trigger] rest[i].0) && no_byte(rest[i].0, 0x3a) && one_line(rest[i].1) by {
            assert(rest[i] == hs[i + 1]);
        }
        lemma_read_block(rest);
        let tail = crlf() + block_of(rest);
        let b = block_of(hs);
        assert(b =~= first + tail);
        lemma_find_after(first, tail, crlf());
        assert(tail.take(2) =~= crlf());
        lemma_find_here(tail, crlf());
        assert(b.take(first.len() as int) =~= first);
        assert(b.skip(first.len() as int + 2) =~= block_of(rest));
        assert(seq![(h.0, h.1)] + rest =~= hs);
    }
}

/// Where the empty line is, in the bytes after the status line.
proof fn lemma_find_blank(hs: HeadersView, body: Seq<u8>)
    requires
        safe_headers(hs),
    ensures
        find_from(crlf() + header_lines(hs) + crlf() + body, final_crlf(), 0) == header_lines(hs).len(),
    decreases hs.len(),
{
    let r = crlf() + header_lines(hs) + crlf() + body;
    if hs.len() == 0 {
        assert(r.take(4) =~= final_crlf());
        lemma_find_here(r, final_crlf());
    } else {
        lemma_header_lines_front(hs);
        let h = hs[0];
        let rest = hs.drop_first();
        assert forall|i: int| 0 <= i < rest.len() implies one_line(#[trigger] rest[i].0) && no_byte(rest[i].0, 0x3a) && one_line(rest[i].1) by {
            assert(rest[i] == hs[i + 1]);
        }
        lemma_find_blank(rest, body);
        lemma_pair_text(h);
        let text = h.0 + header_sep() + h.1;
        let r2 = crlf() + header_lines(rest) + crlf() + body;
        assert(r =~= crlf() + (text + r2));
        assert(r[0] == CR && r[1] == LF);
        assert(text.len() >= 2);
        assert(r[2] == text[0]);
        assert(text[0] != CR);
        assert(r.subrange(0, 4)[2] == r[2]);
        assert(r.subrange(0, 4) != final_crlf());
        assert(r.subrange(1, 5)[0] == LF);
        assert(r.subrange(1, 5) != final_crlf());
        assert(r.skip(2) =~= text + r2);
        lemma_find_after(text, r2, final_crlf());
        assert(r =~= crlf() + (text + r2));
        lemma_find_shift(crlf(), text + r2, final_crlf(), 0);
        assert(find_from(r, final_crlf(), 1) == find_from(r, final_crlf(), 2));
        assert(find_from(r, final_crlf(), 0) == find_from(r, final_crlf(), 1));
        assert(header_lines(hs).len() == text.len() + 2 + header_lines(rest).len());
    }
}

proof fn lemma_lines_are_block(hs: HeadersView)
    requires
        hs.len() > 0,
    ensures
        header_lines(hs) == block_of(hs) + crlf(),
    decreases hs.len(),
{
    lemma_header_lines_front(hs);
    if hs.len() == 1 {
        assert(hs.drop_first() =~= Seq::<(Seq<u8>, Seq<u8>)>::empty());
        assert(header_lines(hs) =~= block_of(hs) + crlf());
    } else {
        lemma_lines_are_block(hs.drop_first());
        assert(header_lines(hs) =~= block_of(hs) + crlf());
    }
}

proof fn lemma_decimal_one_line(n: nat)
    ensures
        one_line(decimal_bytes(n)),
    decreases n,
{
    if n >= 10 {
        lemma_decimal_one_line(n / 10);
        let d = decimal_bytes(n / 10);
        assert forall|i: int| 0 <= i < decimal_bytes(n).len() implies decimal_bytes(n)[i] != CR && decimal_bytes(n)[i] != LF by {
            if i < d.len() {
                assert(decimal_bytes(n)[i] == d[i]);
            }
        }
    }
}

proof fn lemma_status_line_one_line(v: ResponseView)
    requires
        one_line(v.2),
    ensures
        one_line(status_line_bytes(v)),
{
    let vn = version_name(v.0);
    assert(one_line(vn));
    let sp = seq![0x20u8];
    assert(one_line(sp));
    lemma_decimal_one_line(v.1 as nat);
    lemma_one_line_concat(vn, sp);
    lemma_one_line_concat(vn + sp, decimal_bytes(v.1 as nat));
    lemma_one_line_concat(vn + sp + decimal_bytes(v.1 as nat), sp);
    lemma_one_line_concat(vn + sp + decimal_bytes(v.1 as nat) + sp, v.2);
}

/// Serializing a response and reading its head back gives the status line
/// and the headers that were written, in order and byte for byte, as long
/// as no reason phrase, header name or header value holds a line break and
/// no header name holds a `:`.
pub proof fn lemma_response_round_trip(v: ResponseView)
    requires
        wire_safe(v),
    ensures
        read_head(wire(v)) == Some((status_line_bytes(v), v.3)),
{
    let sl = status_line_bytes(v);
    let hs = v.3;
    let hl = header_lines(hs);
    let r = crlf() + hl + crlf() + v.4;
    let w = wire(v);
    assert(safe_headers(hs));
    lemma_status_line_one_line(v);
    assert(w =~= sl + r);
    lemma_find_blank(hs, v.4);
    lemma_find_after(sl, r, final_crlf());
    let head = w.take(sl.len() as int + hl.len());
    assert(head_of(w) == Some((head, w.skip(sl.len() as int + hl.len() + 4))));
    if hs.len() == 0 {
        assert(head =~= sl);
        lemma_find_none(sl, crlf());
        assert(line_of(head) == (sl, None::<Seq<u8>>));
        assert(hs =~= Seq::<(Seq<u8>, Seq<u8>)>::empty());
    } else {
        lemma_lines_are_block(hs);
        let b = block_of(hs);
        assert(head =~= sl + (crlf() + b));
        lemma_find_after(sl, crlf() + b, crlf());
        assert((crlf() + b).take(2) =~= crlf());
        lemma_find_here(crlf() + b, crlf());
        assert(head.take(sl.len() as int) =~= sl);
        assert(head.skip(sl.len() as int + 2) =~= b);
        assert(line_of(head) == (sl, Some(b)));
        lemma_read_block(hs);
    }
}

proof fn lemma_known_safe(h: HeaderType)
    requires
        !(h is Custom),
    ensures
        one_line(known_name(h)),
        no_byte(known_name(h), 0x3a),
{
}

/// The responses that handler results convert to read back as written:
/// text and HTML bodies, empty bodies, and either with a status set, as long
/// as the `Date` value they carry is one line.
pub proof fn lemma_converted_round_trip(body: Seq<u8>, html: bool, s: Status, date: Seq<u8>)
    requires
        one_line(date),
    ensures
        read_head(wire(text_response(body, content_type_of(html), date))) == Some((
            status_line_bytes(text_response(body, content_type_of(html), date)),
            text_response(body, content_type_of(html), date).3,
        )),
        read_head(wire(with_status(text_response(body, content_type_of(html), date), s))) == Some((
            status_line_bytes(with_status(text_response(body, content_type_of(html), date), s)),
            text_response(body, content_type_of(html), date).3,
        )),
        read_head(wire(empty_response(s, date))) == Some((
            status_line_bytes(empty_response(s, date)),
            empty_response(s, date).3,
        )),
{
    let ct = content_type_of(html);
    assert(one_line(ct));
    lemma_decimal_one_line(body.len());
    lemma_known_safe(HeaderType::Date);
    lemma_known_safe(HeaderType::ContentLength);
    lemma_known_safe(HeaderType::ContentType);
    assert(one_line(reason_phrase(s)));
    assert(one_line(reason_phrase(Status::Success)));
    assert(one_line(seq![0x30u8]));
    let t = text_response(body, ct, date);
    assert(wire_safe(t));
    lemma_response_round_trip(t);
    let w = with_status(t, s);
    assert(wire_safe(w));
    lemma_response_round_trip(w);
    let e = empty_response(s, date);
    assert(wire_safe(e));
    lemma_response_round_trip(e);
}

pub open spec fn content_type_of(html: bool) -> Seq<u8> {
    if html {
        text_html_utf8()
    } else {
        text_plain_utf8()
    }
}

} // verus!
