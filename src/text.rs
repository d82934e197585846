//! Byte-string helpers shared by the parser, the router and the codec.
use vstd::prelude::*;
use vstd::string::StringSliceAdditionalSpecFns;

verus! {

pub const CR: u8 = 0x0d;

pub const LF: u8 = 0x0a;

/// A copy of `p[from..to]`.
pub fn copy_range(p: &Vec<u8>, from: usize, to: usize) -> (r: Vec<u8>)
    requires
        from <= to <= p.len(),
    ensures
        r@ == p@.subrange(from as int, to as int),
{
    let mut r: Vec<u8> = Vec::new();
    let mut i: usize = from;
    while i < to
        invariant
            from <= i <= to <= p.len(),
            r@ == p@.subrange(from as int, i as int),
        decreases to - i,
    {
        r.push(p[i]);
        proof {
            assert(r@ =~= p@.subrange(from as int, i + 1));
        }
        i = i + 1;
    }
    r
}

/// Appends `src` to `dst`.
pub fn append_bytes(dst: &mut Vec<u8>, src: &Vec<u8>)
    ensures
        final(dst)@ == old(dst)@ + src@,
{
    let ghost d0 = dst@;
    let mut i: usize = 0;
    while i < src.len()
        invariant
            i <= src@.len(),
            dst@ == d0 + src@.subrange(0, i as int),
        decreases src@.len() - i,
    {
        dst.push(src[i]);
        proof {
            assert(dst@ =~= d0 + src@.subrange(0, i + 1));
        }
        i = i + 1;
    }
    proof {
        assert(src@.subrange(0, src@.len() as int) =~= src@);
    }
}

/// The bytes of a string.
pub fn str_bytes(s: &str) -> (r: Vec<u8>)
    ensures
        r@ == s.spec_bytes(),
{
    let b = s.as_bytes();
    let mut r: Vec<u8> = Vec::new();
    let mut i: usize = 0;
    while i < b.len()
        invariant
            i <= b@.len(),
            b@ == s.spec_bytes(),
            r@ == b@.subrange(0, i as int),
        decreases b@.len() - i,
    {
        r.push(b[i]);
        proof {
            assert(r@ =~= b@.subrange(0, i + 1));
        }
        i = i + 1;
    }
    proof {
        assert(r@ =~= b@);
    }
    r
}

/// The first index at or after `i` where `pat` occurs in `s`, or -1.
pub open spec fn find_from(s: Seq<u8>, pat: Seq<u8>, i: int) -> int
    decreases s.len() + 1 - i,
{
    if i < 0 || i + pat.len() > s.len() {
        -1
    } else if s.subrange(i, i + pat.len()) == pat {
        i
    } else {
        find_from(s, pat, i + 1)
    }
}

/// `s` cut around the first occurrence of `pat`.
pub open spec fn split_once(s: Seq<u8>, pat: Seq<u8>) -> Option<(Seq<u8>, Seq<u8>)> {
    let i = find_from(s, pat, 0);
    if i < 0 {
        None
    } else {
        Some((s.take(i), s.skip(i + pat.len())))
    }
}

pub proof fn lemma_find_from_bounds(s: Seq<u8>, pat: Seq<u8>, i: int)
    ensures
        find_from(s, pat, i) == -1 || (i <= find_from(s, pat, i) && find_from(s, pat, i)
            + pat.len() <= s.len() && s.subrange(
            find_from(s, pat, i),
            find_from(s, pat, i) + pat.len(),
        ) == pat),
    decreases s.len() + 1 - i,
{
    if !(i < 0 || i + pat.len() > s.len()) && s.subrange(i, i + pat.len()) != pat {
        lemma_find_from_bounds(s, pat, i + 1);
    }
}

/// The index of the first occurrence of `pat` in `s` at or after `from`.
pub fn find_bytes(s: &Vec<u8>, pat: &Vec<u8>, from: usize) -> (r: Option<usize>)
    requires
        from <= s.len(),
    ensures
        match r {
            Some(i) => i as int == find_from(s@, pat@, from as int),
            None => find_from(s@, pat@, from as int) == -1,
        },
{
    let mut i: usize = from;
    while i <= s.len() && pat.len() <= s.len() - i
        invariant
            from <= i,
            i <= s.len() + 1,
            find_from(s@, pat@, from as int) == find_from(s@, pat@, i as int),
        decreases s.len() + 1 - i,
    {
        let mut j: usize = 0;
        while j < pat.len() && s[i + j] == pat[j]
            invariant
                i + pat.len() <= s.len(),
                j <= pat.len(),
                forall|q: int| 0 <= q < j ==> s@[i + q] == pat@[q],
            decreases pat.len() - j,
        {
            j = j + 1;
        }
        if j == pat.len() {
            proof {
                assert(s@.subrange(i as int, i + pat@.len()) =~= pat@);
            }
            return Some(i);
        }
        proof {
            assert(s@.subrange(i as int, i + pat@.len())[j as int] == s@[i + j]);
        }
        i = i + 1;
    }
    None
}

/// `s` cut around the first occurrence of `pat`.
pub fn split_once_bytes(s: &Vec<u8>, pat: &Vec<u8>) -> (r: Option<(Vec<u8>, Vec<u8>)>)
    ensures
        match r {
            Some((a, b)) => split_once(s@, pat@) == Some((a@, b@)),
            None => split_once(s@, pat@) is None,
        },
{
    match find_bytes(s, pat, 0) {
        Some(i) => {
            proof {
                lemma_find_from_bounds(s@, pat@, 0);
            }
            assert(i + pat.len() <= s.len());
            let a = copy_range(s, 0, i);
            let b = copy_range(s, i + pat.len(), s.len());
            proof {
                assert(a@ =~= s@.take(i as int));
                assert(b@ =~= s@.skip(i + pat@.len()));
            }
            Some((a, b))
        },
        None => None,
    }
}

pub open spec fn ascii_lower(c: u8) -> u8 {
    if 0x41 <= c <= 0x5a {
        (c + 0x20) as u8
    } else {
        c
    }
}

/// Equality of byte strings up to ASCII letter case.
pub open spec fn eq_ignore_case(a: Seq<u8>, b: Seq<u8>) -> bool {
    a.len() == b.len() && forall|i: int| 0 <= i < a.len() ==> ascii_lower(#[trigger] a[i]) == ascii_lower(b[i])
}

pub fn lower_byte(c: u8) -> (r: u8)
    ensures
        r == ascii_lower(c),
{
    if 0x41 <= c && c <= 0x5a {
        c + 0x20
    } else {
        c
    }
}

pub fn eq_ignore_case_bytes(a: &Vec<u8>, b: &Vec<u8>) -> (r: bool)
    ensures
        r == eq_ignore_case(a@, b@),
{
    if a.len() != b.len() {
        return false;
    }
    let mut i: usize = 0;
    while i < a.len()
        invariant
            a@.len() == b@.len(),
            i <= a@.len(),
            forall|j: int| 0 <= j < i ==> ascii_lower(#[trigger] a@[j]) == ascii_lower(b@[j]),
        decreases a@.len() - i,
    {
        if lower_byte(a[i]) != lower_byte(b[i]) {
            return false;
        }
        i = i + 1;
    }
    true
}

pub open spec fn is_digit(c: u8) -> bool {
    0x30 <= c <= 0x39
}

/// The value of a string of decimal digits.
pub open spec fn decimal_value(s: Seq<u8>) -> nat
    decreases s.len(),
{
    if s.len() == 0 {
        0
    } else {
        decimal_value(s.drop_last()) * 10 + (s.last() - 0x30) as nat
    }
}

pub open spec fn all_digits(s: Seq<u8>) -> bool {
    forall|i: int| 0 <= i < s.len() ==> is_digit(#[trigger] s[i])
}

/// What `usize::from_str` accepts: an optional `+` and one or more digits
/// whose value fits.
pub open spec fn decimal_text(s: Seq<u8>) -> Seq<u8> {
    if s.len() > 0 && s[0] == 0x2b {
        s.drop_first()
    } else {
        s
    }
}

pub open spec fn parses_as_usize(s: Seq<u8>) -> bool {
    decimal_text(s).len() > 0 && all_digits(decimal_text(s)) && decimal_value(decimal_text(s))
        <= usize::MAX
}

/// Reads a decimal number.
pub fn parse_usize(s: &Vec<u8>) -> (r: Option<usize>)
    ensures
        match r {
            Some(n) => parses_as_usize(s@) && n as nat == decimal_value(decimal_text(s@)),
            None => !parses_as_usize(s@),
        },
{
    let start: usize = if s.len() > 0 && s[0] == 0x2b {
        1
    } else {
        0
    };
    let ghost t = decimal_text(s@);
    proof {
        assert(t =~= s@.skip(start as int));
    }
    if start == s.len() {
        return None;
    }
    let mut acc: usize = 0;
    let mut i: usize = start;
    while i < s.len()
        invariant
            start <= i <= s.len(),
            t == s@.skip(start as int),
            t == decimal_text(s@),
            all_digits(t.take(i - start)),
            acc as nat == decimal_value(t.take(i - start)),
        decreases s.len() - i,
    {
        let c = s[i];
        proof {
            assert(t.take(i + 1 - start).drop_last() =~= t.take(i - start));
            assert(t[i - start] == c);
        }
        if c < 0x30 || c > 0x39 {
            proof {
                assert(!is_digit(t[i - start]));
            }
            return None;
        }
        let d = (c - 0x30) as usize;
        if acc > (usize::MAX - d) / 10 {
            proof {
                assert(decimal_value(t.take(i + 1 - start)) == acc * 10 + d);
                assert(acc * 10 + d > usize::MAX) by (nonlinear_arith)
                    requires acc > (usize::MAX - d) / 10, d <= 9;
                lemma_decimal_prefix_le(t, i + 1 - start);
            }
            return None;
        }
        proof {
            assert(acc * 10 + d <= usize::MAX) by (nonlinear_arith)
                requires acc <= (usize::MAX - d) / 10, d <= 9;
        }
        acc = acc * 10 + d;
        i = i + 1;
        proof {
            assert forall|j: int| 0 <= j < i - start implies is_digit(#[trigger] t.take(i - start)[j]) by {
                if j < i - 1 - start {
                    assert(t.take(i - 1 - start)[j] == t.take(i - start)[j]);
                }
            }
        }
    }
    proof {
        assert(t.take(s@.len() - start) =~= t);
    }
    Some(acc)
}

/// The value of a digit string is at least the value of any of its prefixes.
pub proof fn lemma_decimal_prefix_le(t: Seq<u8>, n: int)
    requires
        0 <= n <= t.len(),
    ensures
        decimal_value(t.take(n)) <= decimal_value(t),
    decreases t.len() - n,
{
    if n < t.len() {
        lemma_decimal_prefix_le(t, n + 1);
        assert(t.take(n + 1).drop_last() =~= t.take(n));
    } else {
        assert(t.take(n) =~= t);
    }
}

} // verus!

verus! {

/// Relies on `std::str::from_utf8`: it accepts exactly the valid UTF-8 byte
/// strings and returns a string slice over the same bytes.
#[verifier::external_body]
pub fn utf8_str(b: &[u8]) -> (r: Option<&str>)
    ensures
        match r {
            Some(s) => vstd::utf8::valid_utf8(b@) && s.spec_bytes() == b@,
            None => !vstd::utf8::valid_utf8(b@),
        },
{
    std::str::from_utf8(b).ok()
}

} // verus!

verus! {

/// Byte-wise equality.
pub fn eq_bytes(a: &Vec<u8>, b: &Vec<u8>) -> (r: bool)
    ensures
        r == (a@ == b@),
{
    if a.len() != b.len() {
        return false;
    }
    let mut i: usize = 0;
    while i < a.len()
        invariant
            a@.len() == b@.len(),
            i <= a@.len(),
            forall|j: int| 0 <= j < i ==> a@[j] == b@[j],
        decreases a@.len() - i,
    {
        if a[i] != b[i] {
            return false;
        }
        i = i + 1;
    }
    proof {
        assert(a@ =~= b@);
    }
    true
}

} // verus!
