use vstd::prelude::*;
use vstd::slice::slice_subrange;

use crate::bytes::{eq_bytes, eq_ignore_case, find_byte, find_from, lower_seq, subvec, to_lower_vec,
    trim, trim_spec};
use crate::decode::{b64_decode, b64_decode_spec, charset_conv, charset_convert, qp_decode,
    qp_decode_spec};
use crate::lexer::{lex_message, lex_spec, line_bounds, line_content, line_next,
    lemma_line_next_bounds, raw_headers_view, RawHeader};
use crate::model::{lemma_parts_view_push, part_view, parts_view, vecs_view, BodyPart, PartView};

verus! {

/// The recursion cap of the MIME walker: a multipart part nested this deep
/// is kept as an opaque attachment instead of being descended into.
pub const MAX_MIME_DEPTH: usize = 100;

pub open spec fn lit_content_type() -> Seq<u8> {
    seq![99u8, 111u8, 110u8, 116u8, 101u8, 110u8, 116u8, 45u8, 116u8, 121u8, 112u8, 101u8]
}

pub open spec fn lit_cte() -> Seq<u8> {
    seq![
        99u8, 111u8, 110u8, 116u8, 101u8, 110u8, 116u8, 45u8, 116u8, 114u8, 97u8, 110u8, 115u8,
        102u8, 101u8, 114u8, 45u8, 101u8, 110u8, 99u8, 111u8, 100u8, 105u8, 110u8, 103u8,
    ]
}

pub open spec fn lit_content_disposition() -> Seq<u8> {
    seq![
        99u8, 111u8, 110u8, 116u8, 101u8, 110u8, 116u8, 45u8, 100u8, 105u8, 115u8, 112u8, 111u8,
        115u8, 105u8, 116u8, 105u8, 111u8, 110u8,
    ]
}

pub open spec fn lit_multipart() -> Seq<u8> {
    seq![109u8, 117u8, 108u8, 116u8, 105u8, 112u8, 97u8, 114u8, 116u8]
}

pub open spec fn lit_text() -> Seq<u8> {
    seq![116u8, 101u8, 120u8, 116u8]
}

pub open spec fn lit_plain() -> Seq<u8> {
    seq![112u8, 108u8, 97u8, 105u8, 110u8]
}

pub open spec fn lit_html() -> Seq<u8> {
    seq![104u8, 116u8, 109u8, 108u8]
}

pub open spec fn lit_boundary() -> Seq<u8> {
    seq![98u8, 111u8, 117u8, 110u8, 100u8, 97u8, 114u8, 121u8]
}

pub open spec fn lit_charset() -> Seq<u8> {
    seq![99u8, 104u8, 97u8, 114u8, 115u8, 101u8, 116u8]
}

pub open spec fn lit_filename() -> Seq<u8> {
    seq![102u8, 105u8, 108u8, 101u8, 110u8, 97u8, 109u8, 101u8]
}

pub open spec fn lit_name() -> Seq<u8> {
    seq![110u8, 97u8, 109u8, 101u8]
}

pub open spec fn lit_base64() -> Seq<u8> {
    seq![98u8, 97u8, 115u8, 101u8, 54u8, 52u8]
}

pub open spec fn lit_qp() -> Seq<u8> {
    seq![
        113u8, 117u8, 111u8, 116u8, 101u8, 100u8, 45u8, 112u8, 114u8, 105u8, 110u8, 116u8, 97u8,
        98u8, 108u8, 101u8,
    ]
}

/// The raw value of the first header named `lname` (lower case) in `hs`.
pub open spec fn find_hdr_from(hs: Seq<(Seq<u8>, Seq<u8>)>, i: int, lname: Seq<u8>) -> Option<
    Seq<u8>,
>
    decreases hs.len() - i when 0 <= i <= hs.len()
{
    if i >= hs.len() {
        Option::None
    } else if lower_seq(hs[i].0) == lname {
        Option::Some(hs[i].1)
    } else {
        find_hdr_from(hs, i + 1, lname)
    }
}

/// Exec lookup matching `find_hdr_from`; the header name comparison is
/// case-insensitive.
pub fn find_header(headers: &Vec<RawHeader>, target: &[u8]) -> (r: Option<Vec<u8>>)
    ensures
        match r {
            Option::Some(v) => find_hdr_from(raw_headers_view(headers@), 0, lower_seq(target@))
                == Option::Some(v@),
            Option::None => find_hdr_from(raw_headers_view(headers@), 0, lower_seq(target@))
                is None,
        },
{
    let ghost hs = raw_headers_view(headers@);
    proof {
        assert(hs.len() == headers@.len());
    }
    let mut i: usize = 0;
    while i < headers.len()
        invariant
            0 <= i <= headers@.len(),
            hs == raw_headers_view(headers@),
            hs.len() == headers@.len(),
            find_hdr_from(hs, 0, lower_seq(target@)) == find_hdr_from(hs, i as int, lower_seq(
                target@,
            )),
        decreases headers@.len() - i,
    {
        proof {
            assert(hs[i as int] == (headers@[i as int].name@, headers@[i as int].value@));
        }
        if eq_ignore_case(headers[i].name.as_slice(), target) {
            let v = crate::body::copy_bytes(&headers[i].value);
            return Option::Some(v);
        }
        i += 1;
    }
    Option::None
}

/// A parameter value stripped of surrounding double quotes.
pub open spec fn unquote(v: Seq<u8>) -> Seq<u8> {
    if v.len() >= 2 && v[0] == 34 && v.last() == 34 {
        v.subrange(1, v.len() - 1)
    } else {
        v
    }
}

/// The value of parameter `pname` (lower case) in a `;`-separated parameter
/// list, `name=value` or `name="value"` per segment.
pub open spec fn param_from(s: Seq<u8>, i: int, pname: Seq<u8>) -> Option<Seq<u8>>
    decreases s.len() - i when 0 <= i <= s.len() via param_from_dec
{
    if i >= s.len() {
        Option::None
    } else {
        let e = find_from(s, i, 59u8);
        let seg = s.subrange(i, e);
        let eq = find_from(seg, 0, 61u8);
        if eq < seg.len() && lower_seq(trim_spec(seg.subrange(0, eq))) == pname {
            Option::Some(unquote(trim_spec(seg.subrange(eq + 1, seg.len() as int))))
        } else if e < s.len() {
            param_from(s, e + 1, pname)
        } else {
            Option::None
        }
    }
}

#[via_fn]
proof fn param_from_dec(s: Seq<u8>, i: int, pname: Seq<u8>) {
    if 0 <= i < s.len() {
        crate::bytes::lemma_find_from_bounds(s, i, 59u8);
    }
}

/// Exec lookup matching `param_from`.
pub fn find_param(s: &[u8], target: &[u8]) -> (r: Option<Vec<u8>>)
    ensures
        match r {
            Option::Some(v) => param_from(s@, 0, lower_seq(target@)) == Option::Some(v@),
            Option::None => param_from(s@, 0, lower_seq(target@)) is None,
        },
{
    let ghost pname = lower_seq(target@);
    let mut i: usize = 0;
    loop
        invariant
            0 <= i <= s@.len(),
            pname == lower_seq(target@),
            param_from(s@, 0, pname) == param_from(s@, i as int, pname),
        ensures
            param_from(s@, 0, pname) is None,
        decreases s@.len() - i + 1,
    {
        if i >= s.len() {
            break;
        }
        let e = find_byte(s, i, 59);
        let seg = slice_subrange(s, i, e);
        let eq = find_byte(seg, 0, 61);
        if eq < seg.len() {
            let pn = trim(slice_subrange(seg, 0, eq));
            if eq_ignore_case(pn.as_slice(), target) {
                let v0 = trim(slice_subrange(seg, eq + 1, seg.len()));
                proof {
                    assert(seg@ == s@.subrange(i as int, find_from(s@, i as int, 59u8)));
                    assert(eq as int == find_from(seg@, 0, 61u8));
                    assert(lower_seq(trim_spec(seg@.subrange(0, eq as int))) == pname);
                    assert(param_from(s@, i as int, pname) == Option::Some(unquote(trim_spec(
                        seg@.subrange(eq as int + 1, seg@.len() as int),
                    ))));
                }
                if v0.len() >= 2 && v0[0] == 34 && v0[v0.len() - 1] == 34 {
                    let v = subvec(v0.as_slice(), 1, v0.len() - 1);
                    proof {
                        assert(v@ =~= unquote(v0@));
                    }
                    return Option::Some(v);
                }
                proof {
                    assert(unquote(v0@) =~= v0@);
                }
                return Option::Some(v0);
            }
        }
        if e >= s.len() {
            break;
        }
        i = e + 1;
    }
    Option::None
}

/// The media type of a `Content-Type` value: lower-cased trimmed type and
/// subtype, parameters ignored.
pub open spec fn media_type(raw: Seq<u8>) -> (Seq<u8>, Seq<u8>) {
    let semi = find_from(raw, 0, 59u8);
    let tp = raw.subrange(0, semi);
    let sl = find_from(tp, 0, 47u8);
    if sl < tp.len() {
        (
            lower_seq(trim_spec(tp.subrange(0, sl))),
            lower_seq(trim_spec(tp.subrange(sl + 1, tp.len() as int))),
        )
    } else {
        (lower_seq(trim_spec(tp)), Seq::empty())
    }
}

pub fn media_type_exec(raw: &[u8]) -> (r: (Vec<u8>, Vec<u8>))
    ensures
        r.0@ == media_type(raw@).0,
        r.1@ == media_type(raw@).1,
{
    let semi = find_byte(raw, 0, 59);
    let tp = slice_subrange(raw, 0, semi);
    let sl = find_byte(tp, 0, 47);
    if sl < tp.len() {
        let t = to_lower_vec(trim(slice_subrange(tp, 0, sl)).as_slice());
        let st = to_lower_vec(trim(slice_subrange(tp, sl + 1, tp.len())).as_slice());
        (t, st)
    } else {
        let t = to_lower_vec(trim(tp).as_slice());
        (t, Vec::new())
    }
}

/// The parameter region of a header value: everything after the first `;`.
pub open spec fn params_of(raw: Seq<u8>) -> Seq<u8> {
    let semi = find_from(raw, 0, 59u8);
    if semi < raw.len() {
        raw.subrange(semi + 1, raw.len() as int)
    } else {
        Seq::empty()
    }
}

pub fn params_of_exec(raw: &[u8]) -> (r: Vec<u8>)
    ensures
        r@ == params_of(raw@),
{
    let semi = find_byte(raw, 0, 59);
    if semi < raw.len() {
        subvec(raw, semi + 1, raw.len())
    } else {
        proof {
            assert(params_of(raw@) =~= Seq::<u8>::empty());
        }
        Vec::new()
    }
}

/// Option views of owned byte strings.
pub open spec fn opt_view(o: Option<Vec<u8>>) -> Option<Seq<u8>> {
    match o {
        Option::Some(v) => Option::Some(v@),
        Option::None => Option::None,
    }
}

/// The body of a leaf part: transfer decoding per
/// `Content-Transfer-Encoding` (base64, quoted-printable, or passthrough),
/// then charset conversion per the `charset` parameter.
pub open spec fn decode_body_spec(ct: Option<Seq<u8>>, cte: Option<Seq<u8>>, body: Seq<u8>) -> Seq<
    u8,
> {
    let d = match cte {
        Option::Some(e) => {
            let le = lower_seq(trim_spec(e));
            if le == lit_base64() {
                b64_decode_spec(body)
            } else if le == lit_qp() {
                qp_decode_spec(body, false)
            } else {
                body
            }
        },
        Option::None => body,
    };
    match ct {
        Option::Some(raw) => match param_from(params_of(raw), 0, lit_charset()) {
            Option::Some(cs) => charset_conv(cs, d),
            Option::None => d,
        },
        Option::None => d,
    }
}

pub fn decode_body(ct: &Option<Vec<u8>>, cte: &Option<Vec<u8>>, body: &[u8]) -> (r: Vec<u8>)
    ensures
        r@ == decode_body_spec(opt_view(*ct), opt_view(*cte), body@),
{
    let b64lit: Vec<u8> = vec![98u8, 97, 115, 101, 54, 52];
    let qplit: Vec<u8> = vec![113u8, 117, 111, 116, 101, 100, 45, 112, 114, 105, 110, 116, 97, 98,
        108, 101];
    proof {
        assert(b64lit@ =~= lit_base64());
        assert(qplit@ =~= lit_qp());
    }
    let d: Vec<u8> = match cte {
        Option::Some(e) => {
            let le = to_lower_vec(trim(e.as_slice()).as_slice());
            if eq_bytes(le.as_slice(), b64lit.as_slice()) {
                b64_decode(body)
            } else if eq_bytes(le.as_slice(), qplit.as_slice()) {
                qp_decode(body, false)
            } else {
                crate::bytes::subvec(body, 0, body.len())
            }
        },
        Option::None => crate::bytes::subvec(body, 0, body.len()),
    };
    proof {
        assert(body@.subrange(0, body@.len() as int) =~= body@);
    }
    let cslit: Vec<u8> = vec![99u8, 104, 97, 114, 115, 101, 116];
    proof {
        assert(cslit@ =~= lit_charset());
        assert(lower_seq(cslit@) =~= cslit@);
    }
    match ct {
        Option::Some(raw) => {
            let ps = params_of_exec(raw.as_slice());
            match find_param(ps.as_slice(), cslit.as_slice()) {
                Option::Some(cs) => charset_convert(cs.as_slice(), d),
                Option::None => d,
            }
        },
        Option::None => d,
    }
}

/// Is the line starting at `i` a boundary delimiter line (`--boundary`,
/// optionally `--` terminated, surrounding white space ignored)?
pub open spec fn is_delim_line(s: Seq<u8>, i: int, bd: Seq<u8>) -> bool {
    let l = trim_spec(line_content(s, i));
    l == seq![45u8, 45u8] + bd || l == seq![45u8, 45u8] + bd + seq![45u8, 45u8]
}

/// Is it the closing `--boundary--` delimiter?
pub open spec fn is_close_line(s: Seq<u8>, i: int, bd: Seq<u8>) -> bool {
    trim_spec(line_content(s, i)) == seq![45u8, 45u8] + bd + seq![45u8, 45u8]
}

/// The start index of the first delimiter line at or after `i`.
pub open spec fn next_delim(s: Seq<u8>, i: int, bd: Seq<u8>) -> int
    decreases s.len() - i when 0 <= i <= s.len() via next_delim_dec
{
    if i >= s.len() {
        s.len() as int
    } else if is_delim_line(s, i, bd) {
        i
    } else {
        next_delim(s, line_next(s, i), bd)
    }
}

#[via_fn]
proof fn next_delim_dec(s: Seq<u8>, i: int, bd: Seq<u8>) {
    if 0 <= i < s.len() {
        lemma_line_next_bounds(s, i);
    }
}

pub proof fn lemma_next_delim_bounds(s: Seq<u8>, i: int, bd: Seq<u8>)
    requires
        0 <= i <= s.len(),
    ensures
        i <= next_delim(s, i, bd) <= s.len(),
    decreases s.len() - i,
{
    if i < s.len() && !is_delim_line(s, i, bd) {
        lemma_line_next_bounds(s, i);
        lemma_next_delim_bounds(s, line_next(s, i), bd);
    }
}

/// The bodies of the parts between delimiter lines, `i` standing at the
/// first byte after a delimiter line.
pub open spec fn parts_ranges(s: Seq<u8>, i: int, bd: Seq<u8>) -> Seq<Seq<u8>>
    decreases s.len() - i when 0 <= i <= s.len() via parts_ranges_dec
{
    let d = next_delim(s, i, bd);
    let part = s.subrange(i, d);
    if d >= s.len() {
        seq![part]
    } else if is_close_line(s, d, bd) {
        seq![part]
    } else {
        seq![part] + parts_ranges(s, line_next(s, d), bd)
    }
}

#[via_fn]
proof fn parts_ranges_dec(s: Seq<u8>, i: int, bd: Seq<u8>) {
    lemma_next_delim_bounds(s, i, bd);
    let d = next_delim(s, i, bd);
    if d < s.len() {
        lemma_line_next_bounds(s, d);
    }
}

/// The part bodies of a multipart body: everything between the first
/// delimiter line and the closing delimiter.
pub open spec fn top_segments(s: Seq<u8>, bd: Seq<u8>) -> Seq<Seq<u8>> {
    let d0 = next_delim(s, 0, bd);
    if d0 >= s.len() || is_close_line(s, d0, bd) {
        Seq::empty()
    } else {
        parts_ranges(s, line_next(s, d0), bd)
    }
}

/// Is the line starting at `i` a delimiter line of `bd`? Exec twin.
fn is_delim_exec(s: &[u8], i: usize, dd: &[u8], ddc: &[u8], Ghost(bd): Ghost<Seq<u8>>) -> (r: (
    bool,
    bool,
    usize,
))
    requires
        i <= s@.len(),
        dd@ == seq![45u8, 45u8] + bd,
        ddc@ == seq![45u8, 45u8] + bd + seq![45u8, 45u8],
    ensures
        r.0 == is_delim_line(s@, i as int, bd),
        r.1 == is_close_line(s@, i as int, bd),
        r.2 == line_next(s@, i as int),
        i <= r.2 <= s@.len(),
        i < s@.len() ==> i < r.2,
{
    let (ce, nx) = line_bounds(s, i);
    let t = trim(slice_subrange(s, i, ce));
    let close = eq_bytes(t.as_slice(), ddc);
    let open = eq_bytes(t.as_slice(), dd);
    (open || close, close, nx)
}

/// Split a multipart body on its boundary delimiter lines.
fn split_segments(s: &[u8], bdv: &Vec<u8>) -> (r: Vec<Vec<u8>>)
    ensures
        vecs_view(r@) == top_segments(s@, bdv@),
{
    let ghost bd = bdv@;
    let mut dd: Vec<u8> = Vec::new();
    dd.push(45);
    dd.push(45);
    crate::bytes::push_all(&mut dd, bdv.as_slice());
    let mut ddc: Vec<u8> = crate::body::copy_bytes(&dd);
    ddc.push(45);
    ddc.push(45);
    proof {
        assert(dd@ =~= seq![45u8, 45u8] + bd);
        assert(ddc@ =~= seq![45u8, 45u8] + bd + seq![45u8, 45u8]);
    }
    let mut out: Vec<Vec<u8>> = Vec::new();
    // Find the first delimiter line.
    let mut i: usize = 0;
    loop
        invariant
            0 <= i <= s@.len(),
            dd@ == seq![45u8, 45u8] + bd,
            ddc@ == seq![45u8, 45u8] + bd + seq![45u8, 45u8],
            next_delim(s@, 0, bd) == next_delim(s@, i as int, bd),
        ensures
            0 <= i <= s@.len(),
            i as int == next_delim(s@, 0, bd),
        decreases s@.len() - i,
    {
        if i >= s.len() {
            break;
        }
        let (d, c, nx) = is_delim_exec(s, i, dd.as_slice(), ddc.as_slice(), Ghost(bd));
        if d {
            break;
        }
        i = nx;
    }
    if i >= s.len() {
        proof {
            assert(vecs_view(out@) =~= top_segments(s@, bd));
        }
        return out;
    }
    let (d0, c0, nx0) = is_delim_exec(s, i, dd.as_slice(), ddc.as_slice(), Ghost(bd));
    if c0 {
        proof {
            assert(vecs_view(out@) =~= top_segments(s@, bd));
        }
        return out;
    }
    let mut j: usize = nx0;
    proof {
        assert(top_segments(s@, bd) == parts_ranges(s@, j as int, bd));
    }
    loop
        invariant_except_break
            top_segments(s@, bd) =~= vecs_view(out@) + parts_ranges(s@, j as int, bd),
        invariant
            0 <= j <= s@.len(),
            dd@ == seq![45u8, 45u8] + bd,
            ddc@ == seq![45u8, 45u8] + bd + seq![45u8, 45u8],
        ensures
            vecs_view(out@) == top_segments(s@, bd),
        decreases s@.len() - j,
    {
        // Find the next delimiter line from j.
        let mut k: usize = j;
        loop
            invariant
                j <= k <= s@.len(),
                dd@ == seq![45u8, 45u8] + bd,
                ddc@ == seq![45u8, 45u8] + bd + seq![45u8, 45u8],
                next_delim(s@, j as int, bd) == next_delim(s@, k as int, bd),
            ensures
                j <= k <= s@.len(),
                k as int == next_delim(s@, j as int, bd),
            decreases s@.len() - k,
        {
            if k >= s.len() {
                break;
            }
            let (d, c, nx) = is_delim_exec(s, k, dd.as_slice(), ddc.as_slice(), Ghost(bd));
            if d {
                break;
            }
            k = nx;
        }
        let part = subvec(s, j, k);
        let ghost o0 = out@;
        out.push(part);
        proof {
            assert(vecs_view(out@) =~= vecs_view(o0).push(s@.subrange(j as int, k as int)));
        }
        if k >= s.len() {
            proof {
                assert(parts_ranges(s@, j as int, bd) =~= seq![s@.subrange(j as int, k as int)]);
                assert(vecs_view(o0) + seq![s@.subrange(j as int, k as int)] =~= vecs_view(out@));
            }
            break;
        }
        let (d, c, nx) = is_delim_exec(s, k, dd.as_slice(), ddc.as_slice(), Ghost(bd));
        if c {
            proof {
                assert(parts_ranges(s@, j as int, bd) =~= seq![s@.subrange(j as int, k as int)]);
                assert(vecs_view(o0) + seq![s@.subrange(j as int, k as int)] =~= vecs_view(out@));
            }
            break;
        }
        proof {
            assert(parts_ranges(s@, j as int, bd) =~= seq![s@.subrange(j as int, k as int)]
                + parts_ranges(s@, line_next(s@, k as int), bd));
            assert(vecs_view(o0) + (seq![s@.subrange(j as int, k as int)] + parts_ranges(
                s@,
                line_next(s@, k as int),
                bd,
            )) =~= vecs_view(out@) + parts_ranges(s@, line_next(s@, k as int), bd));
        }
        j = nx;
    }
    out
}

/// The attachment leaf built for a non-text part (or a depth-capped
/// multipart): media type text, file name from `Content-Disposition` or the
/// `name` parameter, and the undecoded body size.
pub open spec fn attachment_of(ctraw: Seq<u8>, cdraw: Option<Seq<u8>>, body: Seq<u8>) -> PartView {
    let from_ct = param_from(params_of(ctraw), 0, lit_name());
    let fname = match cdraw {
        Option::Some(cd) => match param_from(params_of(cd), 0, lit_filename()) {
            Option::Some(f) => Option::Some(f),
            Option::None => from_ct,
        },
        Option::None => from_ct,
    };
    PartView::Attachment {
        content_type: trim_spec(ctraw.subrange(0, find_from(ctraw, 0, 59u8))),
        filename: fname,
        size: body.len() as usize,
    }
}

fn attachment_exec(ctraw: &Vec<u8>, cdraw: &Option<Vec<u8>>, body: &[u8]) -> (r: BodyPart)
    ensures
        part_view(r) == attachment_of(ctraw@, opt_view(*cdraw), body@),
{
    let fnlit: Vec<u8> = vec![102u8, 105, 108, 101, 110, 97, 109, 101];
    let nmlit: Vec<u8> = vec![110u8, 97, 109, 101];
    proof {
        assert(fnlit@ =~= lit_filename());
        assert(lower_seq(fnlit@) =~= fnlit@);
        assert(nmlit@ =~= lit_name());
        assert(lower_seq(nmlit@) =~= nmlit@);
    }
    let ctps = params_of_exec(ctraw.as_slice());
    let from_ct = find_param(ctps.as_slice(), nmlit.as_slice());
    let fname: Option<Vec<u8>> = match cdraw {
        Option::Some(cd) => {
            let cdps = params_of_exec(cd.as_slice());
            match find_param(cdps.as_slice(), fnlit.as_slice()) {
                Option::Some(f) => Option::Some(f),
                Option::None => from_ct,
            }
        },
        Option::None => from_ct,
    };
    let semi = find_byte(ctraw.as_slice(), 0, 59);
    let ctt = trim(slice_subrange(ctraw.as_slice(), 0, semi));
    let r = BodyPart::Attachment { content_type: ctt, filename: fname, size: body.len() };
    proof {
        assert(part_view(r) =~~= attachment_of(ctraw@, opt_view(*cdraw), body@));
    }
    r
}

/// The children of a multipart part, built from its segments, with the
/// depth-exceeded flags of the subtrees combined.
pub open spec fn build_children(segs: Seq<Seq<u8>>, depth: int) -> (Seq<PartView>, bool)
    decreases (MAX_MIME_DEPTH as int) - depth, 1int, segs.len() when 0 <= depth <= MAX_MIME_DEPTH as int
{
    if segs.len() == 0 {
        (Seq::empty(), false)
    } else {
        let h = build_spec(segs[0], depth);
        let t = build_children(segs.drop_first(), depth);
        (seq![h.0] + t.0, h.1 || t.1)
    }
}

/// The MIME walker: one part (its own headers plus body bytes) becomes a
/// body-tree node; multipart parts recurse on their boundary segments up to
/// `MAX_MIME_DEPTH`, where the part degrades to an opaque attachment and the
/// flag is set.
pub open spec fn build_spec(s: Seq<u8>, depth: int) -> (PartView, bool)
    decreases (MAX_MIME_DEPTH as int) - depth, 0int, 0int when 0 <= depth <= MAX_MIME_DEPTH as int
{
    let lx = lex_spec(s);
    let body = s.subrange(lx.body_start, s.len() as int);
    let ct = find_hdr_from(lx.headers, 0, lit_content_type());
    let cte = find_hdr_from(lx.headers, 0, lit_cte());
    let cd = find_hdr_from(lx.headers, 0, lit_content_disposition());
    match ct {
        Option::None => (PartView::Text { content: decode_body_spec(ct, cte, body) }, false),
        Option::Some(raw) => {
            let mt = media_type(raw);
            if mt.0 == lit_multipart() {
                match param_from(params_of(raw), 0, lit_boundary()) {
                    Option::None => (
                        PartView::Text { content: decode_body_spec(ct, cte, body) },
                        false,
                    ),
                    Option::Some(bd) => {
                        if depth >= MAX_MIME_DEPTH as int {
                            (attachment_of(raw, cd, body), true)
                        } else {
                            let cs = build_children(top_segments(body, bd), depth + 1);
                            (PartView::Multipart { subtype: mt.1, children: cs.0 }, cs.1)
                        }
                    },
                }
            } else if mt.0 == lit_text() && mt.1 == lit_plain() {
                (PartView::Text { content: decode_body_spec(ct, cte, body) }, false)
            } else if mt.0 == lit_text() && mt.1 == lit_html() {
                (PartView::Html { content: decode_body_spec(ct, cte, body) }, false)
            } else {
                (attachment_of(raw, cd, body), false)
            }
        },
    }
}

/// Build the body tree of one part. Returns the node and whether the
/// recursion cap was reached anywhere below it.
pub fn build_part(s: &[u8], depth: usize) -> (r: (BodyPart, bool))
    requires
        depth <= MAX_MIME_DEPTH,
    ensures
        part_view(r.0) == build_spec(s@, depth as int).0,
        r.1 == build_spec(s@, depth as int).1,
    decreases MAX_MIME_DEPTH - depth,
{
    let ctlit: Vec<u8> = vec![99u8, 111, 110, 116, 101, 110, 116, 45, 116, 121, 112, 101];
    let ctelit: Vec<u8> = vec![99u8, 111, 110, 116, 101, 110, 116, 45, 116, 114, 97, 110, 115,
        102, 101, 114, 45, 101, 110, 99, 111, 100, 105, 110, 103];
    let cdlit: Vec<u8> = vec![99u8, 111, 110, 116, 101, 110, 116, 45, 100, 105, 115, 112, 111,
        115, 105, 116, 105, 111, 110];
    let bdlit: Vec<u8> = vec![98u8, 111, 117, 110, 100, 97, 114, 121];
    let mplit: Vec<u8> = vec![109u8, 117, 108, 116, 105, 112, 97, 114, 116];
    let txlit: Vec<u8> = vec![116u8, 101, 120, 116];
    let pllit: Vec<u8> = vec![112u8, 108, 97, 105, 110];
    let htlit: Vec<u8> = vec![104u8, 116, 109, 108];
    proof {
        assert(ctlit@ =~= lit_content_type());
        assert(lower_seq(ctlit@) =~= ctlit@);
        assert(ctelit@ =~= lit_cte());
        assert(lower_seq(ctelit@) =~= ctelit@);
        assert(cdlit@ =~= lit_content_disposition());
        assert(lower_seq(cdlit@) =~= cdlit@);
        assert(bdlit@ =~= lit_boundary());
        assert(lower_seq(bdlit@) =~= bdlit@);
        assert(mplit@ =~= lit_multipart());
        assert(txlit@ =~= lit_text());
        assert(pllit@ =~= lit_plain());
        assert(htlit@ =~= lit_html());
    }
    let lx = lex_message(s);
    let body = slice_subrange(s, lx.body_start, s.len());
    let ct = find_header(&lx.headers, ctlit.as_slice());
    let cte = find_header(&lx.headers, ctelit.as_slice());
    let cd = find_header(&lx.headers, cdlit.as_slice());
    match &ct {
        Option::None => {
            let c = decode_body(&ct, &cte, body);
            (BodyPart::Text { content: c }, false)
        },
        Option::Some(raw) => {
            let (mt, mst) = media_type_exec(raw.as_slice());
            if eq_bytes(mt.as_slice(), mplit.as_slice()) {
                let ps = params_of_exec(raw.as_slice());
                match find_param(ps.as_slice(), bdlit.as_slice()) {
                    Option::None => {
                        let c = decode_body(&ct, &cte, body);
                        (BodyPart::Text { content: c }, false)
                    },
                    Option::Some(bd) => {
                        if depth >= MAX_MIME_DEPTH {
                            let a = attachment_exec(raw, &cd, body);
                            (a, true)
                        } else {
                            let segs = split_segments(body, &bd);
                            let ghost svs = vecs_view(segs@);
                            proof {
                                assert(svs.len() == segs@.len());
                            }
                            let mut kids: Vec<BodyPart> = Vec::new();
                            let mut flag: bool = false;
                            let mut i: usize = 0;
                            proof {
                                assert(svs.skip(0) =~= svs);
                                assert(parts_view(kids@) =~= Seq::<PartView>::empty());
                                assert(parts_view(kids@) + build_children(svs, depth + 1).0
                                    =~= build_children(svs, depth + 1).0);
                            }
                            while i < segs.len()
                                invariant
                                    0 <= i <= segs@.len(),
                                    svs == vecs_view(segs@),
                                    svs.len() == segs@.len(),
                                    depth < MAX_MIME_DEPTH,
                                    parts_view(kids@) + build_children(svs.skip(i as int), depth
                                        + 1).0 =~= build_children(svs, depth + 1).0,
                                    (flag || build_children(svs.skip(i as int), depth + 1).1)
                                        == build_children(svs, depth + 1).1,
                                decreases segs@.len() - i,
                            {
                                let (k, f) = build_part(segs[i].as_slice(), depth + 1);
                                let ghost k0 = kids@;
                                kids.push(k);
                                flag = flag || f;
                                proof {
                                    assert(svs.skip(i as int).len() > 0);
                                    assert(svs.skip(i as int)[0] == segs@[i as int]@);
                                    assert(svs.skip(i as int).drop_first() =~= svs.skip(i + 1));
                                    lemma_parts_view_push(k0, kids@[k0.len() as int]);
                                    assert(parts_view(kids@) =~= parts_view(k0) + seq![part_view(
                                        kids@[k0.len() as int],
                                    )]);
                                    assert(parts_view(k0) + (seq![part_view(kids@[k0.len() as int])]
                                        + build_children(svs.skip(i + 1), depth + 1).0)
                                        =~= parts_view(kids@) + build_children(
                                        svs.skip(i + 1),
                                        depth + 1,
                                    ).0);
                                }
                                i += 1;
                            }
                            proof {
                                assert(svs.skip(segs@.len() as int).len() == 0);
                                assert(build_children(svs.skip(segs@.len() as int), depth + 1).0
                                    =~= Seq::<PartView>::empty());
                                assert(parts_view(kids@) + Seq::<PartView>::empty() =~= parts_view(
                                    kids@,
                                ));
                            }
                            let node = BodyPart::Multipart { subtype: mst, children: kids };
                            proof {
                                assert(part_view(node) =~~= build_spec(s@, depth as int).0);
                            }
                            (node, flag)
                        }
                    },
                }
            } else if eq_bytes(mt.as_slice(), txlit.as_slice()) && eq_bytes(
                mst.as_slice(),
                pllit.as_slice(),
            ) {
                let c = decode_body(&ct, &cte, body);
                (BodyPart::Text { content: c }, false)
            } else if eq_bytes(mt.as_slice(), txlit.as_slice()) && eq_bytes(
                mst.as_slice(),
                htlit.as_slice(),
            ) {
                let c = decode_body(&ct, &cte, body);
                (BodyPart::Html { content: c }, false)
            } else {
                let a = attachment_exec(raw, &cd, body);
                (a, false)
            }
        },
    }
}

} // verus!
