use vstd::prelude::*;
use vstd::slice::slice_subrange;

use crate::bytes::{
    byte_lower, eq_ignore_case, find_byte, find_from, lemma_find_from_bounds,
    lemma_skip_wsp_bounds, lower, lower_seq, skip_wsp, skip_wsp_from,
};

verus! {

/// The value of an ASCII hex digit.
pub open spec fn hex_val(b: u8) -> Option<u8> {
    if 48 <= b && b <= 57 {
        Option::Some((b - 48) as u8)
    } else if 65 <= b && b <= 70 {
        Option::Some((b - 55) as u8)
    } else if 97 <= b && b <= 102 {
        Option::Some((b - 87) as u8)
    } else {
        Option::None
    }
}

pub fn hex_val_exec(b: u8) -> (r: Option<u8>)
    ensures
        r == hex_val(b),
{
    if 48 <= b && b <= 57 {
        Option::Some(b - 48)
    } else if 65 <= b && b <= 70 {
        Option::Some(b - 55)
    } else if 97 <= b && b <= 102 {
        Option::Some(b - 87)
    } else {
        Option::None
    }
}

/// Quoted-printable decoding from position `i`: `=XX` hex escapes, soft line
/// breaks, and, in encoded-word (header) mode, `_` standing for a space.
pub open spec fn qp_from(s: Seq<u8>, i: int, header: bool) -> Seq<u8>
    decreases s.len() - i when 0 <= i <= s.len()
{
    if i >= s.len() {
        Seq::empty()
    } else if s[i] == 61 {
        if i + 2 < s.len() && s[i + 1] == 13 && s[i + 2] == 10 {
            qp_from(s, i + 3, header)
        } else if i + 1 < s.len() && s[i + 1] == 10 {
            qp_from(s, i + 2, header)
        } else if i + 2 < s.len() && hex_val(s[i + 1]) is Some && hex_val(s[i + 2]) is Some {
            seq![(hex_val(s[i + 1]).unwrap() * 16 + hex_val(s[i + 2]).unwrap()) as u8] + qp_from(
                s,
                i + 3,
                header,
            )
        } else {
            seq![61u8] + qp_from(s, i + 1, header)
        }
    } else if s[i] == 95 && header {
        seq![32u8] + qp_from(s, i + 1, header)
    } else {
        seq![s[i]] + qp_from(s, i + 1, header)
    }
}

/// Quoted-printable decoding of a whole buffer.
pub open spec fn qp_decode_spec(s: Seq<u8>, header: bool) -> Seq<u8> {
    qp_from(s, 0, header)
}

pub fn qp_decode(s: &[u8], header: bool) -> (r: Vec<u8>)
    ensures
        r@ == qp_decode_spec(s@, header),
{
    let mut out: Vec<u8> = Vec::new();
    let mut i: usize = 0;
    while i < s.len()
        invariant
            0 <= i <= s@.len(),
            qp_decode_spec(s@, header) == out@ + qp_from(s@, i as int, header),
        decreases s@.len() - i,
    {
        let ghost o0 = out@;
        if s[i] == 61 {
            if s.len() - i > 2 && s[i + 1] == 13 && s[i + 2] == 10 {
                i += 3;
            } else if s.len() - i > 1 && s[i + 1] == 10 {
                i += 2;
            } else {
                let h1 = if s.len() - i > 2 {
                    hex_val_exec(s[i + 1])
                } else {
                    Option::None
                };
                let h2 = if s.len() - i > 2 {
                    hex_val_exec(s[i + 2])
                } else {
                    Option::None
                };
                match (h1, h2) {
                    (Option::Some(a), Option::Some(b)) => {
                        out.push(a * 16 + b);
                        proof {
                            assert(o0 + (seq![(a * 16 + b) as u8] + qp_from(
                                s@,
                                i + 3,
                                header,
                            )) =~= out@ + qp_from(s@, i + 3, header));
                        }
                        i += 3;
                    },
                    _ => {
                        out.push(61);
                        proof {
                            assert(o0 + (seq![61u8] + qp_from(s@, i + 1, header)) =~= out@
                                + qp_from(s@, i + 1, header));
                        }
                        i += 1;
                    },
                }
            }
        } else if s[i] == 95 && header {
            out.push(32);
            proof {
                assert(o0 + (seq![32u8] + qp_from(s@, i + 1, header)) =~= out@ + qp_from(
                    s@,
                    i + 1,
                    header,
                ));
            }
            i += 1;
        } else {
            out.push(s[i]);
            proof {
                assert(o0 + (seq![s@[i as int]] + qp_from(s@, i + 1, header)) =~= out@ + qp_from(
                    s@,
                    i + 1,
                    header,
                ));
            }
            i += 1;
        }
    }
    out
}

/// The 6-bit value of a base64 alphabet byte.
pub open spec fn b64_val(b: u8) -> Option<u8> {
    if 65 <= b && b <= 90 {
        Option::Some((b - 65) as u8)
    } else if 97 <= b && b <= 122 {
        Option::Some((b - 71) as u8)
    } else if 48 <= b && b <= 57 {
        Option::Some((b + 4) as u8)
    } else if b == 43 {
        Option::Some(62u8)
    } else if b == 47 {
        Option::Some(63u8)
    } else {
        Option::None
    }
}

pub fn b64_val_exec(b: u8) -> (r: Option<u8>)
    ensures
        r == b64_val(b),
{
    if 65 <= b && b <= 90 {
        Option::Some(b - 65)
    } else if 97 <= b && b <= 122 {
        Option::Some(b - 71)
    } else if 48 <= b && b <= 57 {
        Option::Some(b + 4)
    } else if b == 43 {
        Option::Some(62)
    } else if b == 47 {
        Option::Some(63)
    } else {
        Option::None
    }
}

/// The 6-bit values of the base64 alphabet bytes in `s`, everything else
/// (white space, line breaks, padding) ignored.
pub open spec fn b64_vals_from(s: Seq<u8>, i: int) -> Seq<u8>
    decreases s.len() - i when 0 <= i <= s.len()
{
    if i >= s.len() {
        Seq::empty()
    } else {
        match b64_val(s[i]) {
            Option::Some(v) => seq![v] + b64_vals_from(s, i + 1),
            Option::None => b64_vals_from(s, i + 1),
        }
    }
}

/// The first, second and third byte recovered from a base64 group.
pub open spec fn b64_b1(a: u8, b: u8) -> u8 {
    ((a % 64) * 4 + (b % 64) / 16) as u8
}

pub open spec fn b64_b2(b: u8, c: u8) -> u8 {
    ((b % 16) * 16 + (c % 64) / 4) as u8
}

pub open spec fn b64_b3(c: u8, d: u8) -> u8 {
    ((c % 4) * 64 + d % 64) as u8
}

pub fn b64_b1_exec(a: u8, b: u8) -> (r: u8)
    ensures
        r == b64_b1(a, b),
{
    (a % 64) * 4 + (b % 64) / 16
}

pub fn b64_b2_exec(b: u8, c: u8) -> (r: u8)
    ensures
        r == b64_b2(b, c),
{
    (b % 16) * 16 + (c % 64) / 4
}

pub fn b64_b3_exec(c: u8, d: u8) -> (r: u8)
    ensures
        r == b64_b3(c, d),
{
    (c % 4) * 64 + d % 64
}

/// Reassembly of 8-bit bytes from 6-bit values, four at a time; a final
/// group of three or two values yields two bytes or one.
pub open spec fn b64_bytes_from(v: Seq<u8>, j: int) -> Seq<u8>
    decreases v.len() - j when 0 <= j <= v.len()
{
    if j + 4 <= v.len() {
        seq![b64_b1(v[j], v[j + 1]), b64_b2(v[j + 1], v[j + 2]), b64_b3(v[j + 2], v[j + 3])]
            + b64_bytes_from(v, j + 4)
    } else if j + 3 == v.len() {
        seq![b64_b1(v[j], v[j + 1]), b64_b2(v[j + 1], v[j + 2])]
    } else if j + 2 == v.len() {
        seq![b64_b1(v[j], v[j + 1])]
    } else {
        Seq::empty()
    }
}

pub proof fn lemma_b64_group(v: Seq<u8>, j: int)
    requires
        0 <= j,
        j + 4 <= v.len(),
    ensures
        b64_bytes_from(v, j) == seq![
            b64_b1(v[j], v[j + 1]),
            b64_b2(v[j + 1], v[j + 2]),
            b64_b3(v[j + 2], v[j + 3]),
        ] + b64_bytes_from(v, j + 4),
{
}

/// Base64 decoding: filter the alphabet bytes, then reassemble.
pub open spec fn b64_decode_spec(s: Seq<u8>) -> Seq<u8> {
    b64_bytes_from(b64_vals_from(s, 0), 0)
}

#[verifier::rlimit(100)]
pub fn b64_decode(s: &[u8]) -> (r: Vec<u8>)
    ensures
        r@ == b64_decode_spec(s@),
{
    let mut vals: Vec<u8> = Vec::new();
    let mut i: usize = 0;
    while i < s.len()
        invariant
            0 <= i <= s@.len(),
            b64_vals_from(s@, 0) == vals@ + b64_vals_from(s@, i as int),
        decreases s@.len() - i,
    {
        let ghost v0 = vals@;
        match b64_val_exec(s[i]) {
            Option::Some(v) => {
                vals.push(v);
                proof {
                    assert(v0 + (seq![v] + b64_vals_from(s@, i + 1)) =~= vals@ + b64_vals_from(
                        s@,
                        i + 1,
                    ));
                }
            },
            Option::None => {},
        }
        i += 1;
    }
    proof {
        assert(b64_vals_from(s@, s@.len() as int) =~= Seq::<u8>::empty());
        assert(vals@ + Seq::<u8>::empty() =~= vals@);
    }
    let mut out: Vec<u8> = Vec::new();
    let mut j: usize = 0;
    while j < vals.len() && vals.len() - j >= 4
        invariant
            0 <= j <= vals@.len(),
            b64_bytes_from(vals@, 0) == out@ + b64_bytes_from(vals@, j as int),
        decreases vals@.len() - j,
    {
        let ghost o0 = out@;
        let ghost g = seq![
            b64_b1(vals@[j as int], vals@[j + 1]),
            b64_b2(vals@[j + 1], vals@[j + 2]),
            b64_b3(vals@[j + 2], vals@[j + 3]),
        ];
        proof {
            lemma_b64_group(vals@, j as int);
        }
        out.push(b64_b1_exec(vals[j], vals[j + 1]));
        out.push(b64_b2_exec(vals[j + 1], vals[j + 2]));
        out.push(b64_b3_exec(vals[j + 2], vals[j + 3]));
        proof {
            assert(out@ =~= o0 + g);
            assert(o0 + (g + b64_bytes_from(vals@, j + 4)) =~= (o0 + g) + b64_bytes_from(
                vals@,
                j + 4,
            ));
        }
        j += 4;
    }
    if vals.len() - j == 3 {
        out.push(b64_b1_exec(vals[j], vals[j + 1]));
        out.push(b64_b2_exec(vals[j + 1], vals[j + 2]));
        proof {
            assert(out@ =~= b64_bytes_from(vals@, 0));
        }
    } else if vals.len() - j == 2 {
        out.push(b64_b1_exec(vals[j], vals[j + 1]));
        proof {
            assert(out@ =~= b64_bytes_from(vals@, 0));
        }
    } else {
        proof {
            assert(out@ + b64_bytes_from(vals@, j as int) =~= out@);
        }
    }
    out
}

/// ISO 8859-1 bytes re-encoded as UTF-8.
pub open spec fn latin1_from(s: Seq<u8>, i: int) -> Seq<u8>
    decreases s.len() - i when 0 <= i <= s.len()
{
    if i >= s.len() {
        Seq::empty()
    } else if s[i] < 128 {
        seq![s[i]] + latin1_from(s, i + 1)
    } else {
        seq![(192 + s[i] / 64) as u8, (128 + s[i] % 64) as u8] + latin1_from(s, i + 1)
    }
}

pub fn latin1_to_utf8(s: &[u8]) -> (r: Vec<u8>)
    ensures
        r@ == latin1_from(s@, 0),
{
    let mut out: Vec<u8> = Vec::new();
    let mut i: usize = 0;
    while i < s.len()
        invariant
            0 <= i <= s@.len(),
            latin1_from(s@, 0) == out@ + latin1_from(s@, i as int),
        decreases s@.len() - i,
    {
        let ghost o0 = out@;
        if s[i] < 128 {
            out.push(s[i]);
            proof {
                assert(o0 + (seq![s@[i as int]] + latin1_from(s@, i + 1)) =~= out@ + latin1_from(
                    s@,
                    i + 1,
                ));
            }
        } else {
            out.push(192 + s[i] / 64);
            out.push(128 + s[i] % 64);
            proof {
                assert(o0 + (seq![(192 + s@[i as int] / 64) as u8, (128 + s@[i as int] % 64) as u8]
                    + latin1_from(s@, i + 1)) =~= out@ + latin1_from(s@, i + 1));
            }
        }
        i += 1;
    }
    out
}

/// Does `l` (already lower-cased) name the ISO 8859-1 charset family?
pub open spec fn is_latin1_name_spec(l: Seq<u8>) -> bool {
    ||| l == seq![105u8, 115u8, 111u8, 45u8, 56u8, 56u8, 53u8, 57u8, 45u8, 49u8]
    ||| l == seq![108u8, 97u8, 116u8, 105u8, 110u8, 49u8]
    ||| l == seq![108u8, 97u8, 116u8, 105u8, 110u8, 45u8, 49u8]
    ||| l == seq![119u8, 105u8, 110u8, 100u8, 111u8, 119u8, 115u8, 45u8, 49u8, 50u8, 53u8, 50u8]
}

pub fn is_latin1_name(cs: &[u8]) -> (r: bool)
    ensures
        r == is_latin1_name_spec(lower_seq(cs@)),
{
    let iso: Vec<u8> = vec![105u8, 115, 111, 45, 56, 56, 53, 57, 45, 49];
    let lat: Vec<u8> = vec![108u8, 97, 116, 105, 110, 49];
    let lat2: Vec<u8> = vec![108u8, 97, 116, 105, 110, 45, 49];
    let win: Vec<u8> = vec![119u8, 105, 110, 100, 111, 119, 115, 45, 49, 50, 53, 50];
    proof {
        assert(lower_seq(iso@) =~= iso@);
        assert(lower_seq(lat@) =~= lat@);
        assert(lower_seq(lat2@) =~= lat2@);
        assert(lower_seq(win@) =~= win@);
    }
    let r = eq_ignore_case(cs, iso.as_slice()) || eq_ignore_case(cs, lat.as_slice())
        || eq_ignore_case(cs, lat2.as_slice()) || eq_ignore_case(cs, win.as_slice());
    r
}

/// Charset conversion of decoded encoded-word bytes: the ISO 8859-1 family
/// is transcoded to UTF-8; UTF-8 and US-ASCII (and anything unrecognized)
/// pass through unchanged.
pub open spec fn charset_conv(cs: Seq<u8>, b: Seq<u8>) -> Seq<u8> {
    if is_latin1_name_spec(lower_seq(cs)) {
        latin1_from(b, 0)
    } else {
        b
    }
}

pub fn charset_convert(cs: &[u8], b: Vec<u8>) -> (r: Vec<u8>)
    ensures
        r@ == charset_conv(cs@, b@),
{
    if is_latin1_name(cs) {
        latin1_to_utf8(b.as_slice())
    } else {
        b
    }
}

/// An RFC 2047 encoded word `=?charset?B|Q?payload?=` starting at `i`
/// (callers check the leading `=?`): the decoded, charset-converted bytes
/// and the index just past the trailing `?=`.
pub open spec fn parse_ew(s: Seq<u8>, i: int) -> Option<(Seq<u8>, int)> {
    let q1 = find_from(s, i + 2, 63u8);
    if q1 + 2 >= s.len() || s[q1 + 2] != 63u8 {
        Option::None
    } else {
        let enc = lower(s[q1 + 1]);
        let q3 = find_from(s, q1 + 3, 63u8);
        if q3 + 1 >= s.len() || s[q3 + 1] != 61u8 {
            Option::None
        } else {
            let charset = s.subrange(i + 2, q1);
            let payload = s.subrange(q1 + 3, q3);
            if enc == 98 {
                Option::Some((charset_conv(charset, b64_decode_spec(payload)), q3 + 2))
            } else if enc == 113 {
                Option::Some((charset_conv(charset, qp_decode_spec(payload, true)), q3 + 2))
            } else {
                Option::None
            }
        }
    }
}

pub proof fn lemma_parse_ew_bounds(s: Seq<u8>, i: int)
    requires
        0 <= i,
        i + 2 <= s.len(),
    ensures
        parse_ew(s, i) matches Option::Some(r) ==> i < r.1 <= s.len(),
{
    lemma_find_from_bounds(s, i + 2, 63u8);
    let q1 = find_from(s, i + 2, 63u8);
    if q1 + 2 < s.len() && s[q1 + 2] == 63u8 {
        lemma_find_from_bounds(s, q1 + 3, 63u8);
    }
}

pub fn parse_ew_exec(s: &[u8], i: usize) -> (r: Option<(Vec<u8>, usize)>)
    requires
        i + 2 <= s@.len(),
    ensures
        match r {
            Option::Some(p) => parse_ew(s@, i as int) == Option::Some((p.0@, p.1 as int)) && i
                < p.1 <= s@.len(),
            Option::None => parse_ew(s@, i as int) is None,
        },
{
    proof {
        lemma_parse_ew_bounds(s@, i as int);
    }
    let n = s.len();
    let q1 = find_byte(s, i + 2, 63);
    if q1 >= s.len() || s.len() - q1 <= 2 || s[q1 + 2] != 63 {
        proof {
            assert(q1 + 2 >= s@.len() || s@[q1 + 2] != 63u8);
        }
        return Option::None;
    }
    let enc = byte_lower(s[q1 + 1]);
    let q3 = find_byte(s, q1 + 3, 63);
    if q3 >= s.len() || s.len() - q3 <= 1 || s[q3 + 1] != 61 {
        proof {
            assert(q3 + 1 >= s@.len() || s@[q3 + 1] != 61u8);
        }
        return Option::None;
    }
    let charset = slice_subrange(s, i + 2, q1);
    let payload = slice_subrange(s, q1 + 3, q3);
    if enc == 98 {
        let d = b64_decode(payload);
        Option::Some((charset_convert(charset, d), q3 + 2))
    } else if enc == 113 {
        let d = qp_decode(payload, true);
        Option::Some((charset_convert(charset, d), q3 + 2))
    } else {
        Option::None
    }
}

/// RFC 2047 decoding of an unstructured header value: encoded words are
/// decoded in place, white space between two adjacent encoded words is
/// dropped, everything else is kept as written.
pub open spec fn decode_unstructured_from(s: Seq<u8>, i: int) -> Seq<u8>
    decreases s.len() - i when 0 <= i <= s.len() via decode_unstructured_dec
{
    if i >= s.len() {
        Seq::empty()
    } else if i + 1 < s.len() && s[i] == 61 && s[i + 1] == 63 {
        match parse_ew(s, i) {
            Option::Some(r) => r.0 + ({
                let k = skip_wsp_from(s, r.1);
                if k > r.1 && k + 1 < s.len() && s[k] == 61 && s[k + 1] == 63 && parse_ew(s, k)
                    is Some {
                    decode_unstructured_from(s, k)
                } else {
                    decode_unstructured_from(s, r.1)
                }
            }),
            Option::None => seq![s[i]] + decode_unstructured_from(s, i + 1),
        }
    } else {
        seq![s[i]] + decode_unstructured_from(s, i + 1)
    }
}

#[via_fn]
proof fn decode_unstructured_dec(s: Seq<u8>, i: int) {
    if 0 <= i < s.len() && i + 1 < s.len() && s[i] == 61 && s[i + 1] == 63 {
        lemma_parse_ew_bounds(s, i);
        match parse_ew(s, i) {
            Option::Some(r) => lemma_skip_wsp_bounds(s, r.1),
            Option::None => {},
        }
    }
}

/// Whole-value RFC 2047 decoding.
pub open spec fn decode_unstructured_spec(s: Seq<u8>) -> Seq<u8> {
    decode_unstructured_from(s, 0)
}

pub fn decode_unstructured(s: &[u8]) -> (r: Vec<u8>)
    ensures
        r@ == decode_unstructured_spec(s@),
{
    let mut out: Vec<u8> = Vec::new();
    let mut i: usize = 0;
    while i < s.len()
        invariant
            0 <= i <= s@.len(),
            decode_unstructured_spec(s@) == out@ + decode_unstructured_from(s@, i as int),
        decreases s@.len() - i,
    {
        let ghost o0 = out@;
        if i + 1 < s.len() && s[i] == 61 && s[i + 1] == 63 {
            match parse_ew_exec(s, i) {
                Option::Some((d, nx)) => {
                    crate::bytes::push_all(&mut out, d.as_slice());
                    let k = skip_wsp(s, nx);
                    let mut next: usize = nx;
                    if k > nx && k < s.len() && s.len() - k > 1 && s[k] == 61 && s[k + 1] == 63 {
                        if parse_ew_exec(s, k).is_some() {
                            next = k;
                        }
                    }
                    proof {
                        assert(o0 + (d@ + decode_unstructured_from(s@, next as int)) =~= out@
                            + decode_unstructured_from(s@, next as int));
                    }
                    i = next;
                },
                Option::None => {
                    out.push(s[i]);
                    proof {
                        assert(o0 + (seq![s@[i as int]] + decode_unstructured_from(s@, i + 1))
                            =~= out@ + decode_unstructured_from(s@, i + 1));
                    }
                    i += 1;
                },
            }
        } else {
            out.push(s[i]);
            proof {
                assert(o0 + (seq![s@[i as int]] + decode_unstructured_from(s@, i + 1)) =~= out@
                    + decode_unstructured_from(s@, i + 1));
            }
            i += 1;
        }
    }
    proof {
        assert(out@ + decode_unstructured_from(s@, s@.len() as int) =~= out@);
    }
    out
}

} // verus!
