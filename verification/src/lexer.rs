use vstd::prelude::*;
use vstd::slice::slice_subrange;

use crate::bytes::{
    byte_is_wsp, find_byte, find_from, is_wsp, lemma_find_from_bounds, trim, trim_spec,
};

verus! {

/// What the lexer yields: the ordered header pairs, where the body starts,
/// and whether the blank-line header/body separator was found.
#[verifier::ext_equal]
pub struct LexOut {
    pub headers: Seq<(Seq<u8>, Seq<u8>)>,
    pub body_start: int,
    pub has_sep: bool,
}

/// Index one past the line starting at `i`: after the terminating newline,
/// or the end of the input for the final, unterminated line.
pub open spec fn line_end(s: Seq<u8>, i: int) -> int {
    find_from(s, i, 10u8)
}

/// The content of the line starting at `i`, without its CRLF or LF ending.
pub open spec fn line_content(s: Seq<u8>, i: int) -> Seq<u8> {
    let e = line_end(s, i);
    if e > i && s[e - 1] == 13u8 {
        s.subrange(i, e - 1)
    } else {
        s.subrange(i, e)
    }
}

/// The start of the line after the one starting at `i`.
pub open spec fn line_next(s: Seq<u8>, i: int) -> int {
    if line_end(s, i) < s.len() {
        line_end(s, i) + 1
    } else {
        s.len() as int
    }
}

pub proof fn lemma_line_next_bounds(s: Seq<u8>, i: int)
    requires
        0 <= i <= s.len(),
    ensures
        i <= line_next(s, i) <= s.len(),
        i < s.len() ==> i < line_next(s, i),
{
    lemma_find_from_bounds(s, i, 10u8);
}

/// A header line split at the first colon: trimmed name and trimmed value.
/// `None` when there is no colon or the name is empty.
pub open spec fn split_header_line(l: Seq<u8>) -> Option<(Seq<u8>, Seq<u8>)> {
    let c = find_from(l, 0, 58u8);
    if c >= l.len() {
        Option::None
    } else {
        let name = trim_spec(l.subrange(0, c));
        let value = trim_spec(l.subrange(c + 1, l.len() as int));
        if name.len() == 0 {
            Option::None
        } else {
            Option::Some((name, value))
        }
    }
}

/// Is the line starting at `i` a folded continuation line?
pub open spec fn is_continuation(s: Seq<u8>, i: int) -> bool {
    let l = line_content(s, i);
    l.len() > 0 && is_wsp(l[0])
}

/// The first line index at or after `i` that is not a continuation line.
pub open spec fn fold_end(s: Seq<u8>, i: int) -> int
    decreases s.len() - i when 0 <= i <= s.len() via fold_end_dec
{
    if i >= s.len() {
        i
    } else if is_continuation(s, i) {
        fold_end(s, line_next(s, i))
    } else {
        i
    }
}

#[via_fn]
proof fn fold_end_dec(s: Seq<u8>, i: int) {
    if 0 <= i < s.len() {
        lemma_line_next_bounds(s, i);
    }
}

pub proof fn lemma_fold_end_bounds(s: Seq<u8>, i: int)
    requires
        0 <= i <= s.len(),
    ensures
        i <= fold_end(s, i) <= s.len(),
    decreases s.len() - i,
{
    if i < s.len() && is_continuation(s, i) {
        lemma_line_next_bounds(s, i);
        lemma_fold_end_bounds(s, line_next(s, i));
    }
}

/// The header value accumulated over the continuation lines starting at `i`:
/// each folded line is trimmed and joined with a single space.
pub open spec fn folded_value(s: Seq<u8>, i: int, acc: Seq<u8>) -> Seq<u8>
    decreases s.len() - i when 0 <= i <= s.len() via folded_value_dec
{
    if i >= s.len() {
        acc
    } else if is_continuation(s, i) {
        folded_value(s, line_next(s, i), acc + seq![32u8] + trim_spec(line_content(s, i)))
    } else {
        acc
    }
}

#[via_fn]
proof fn folded_value_dec(s: Seq<u8>, i: int, acc: Seq<u8>) {
    if 0 <= i < s.len() {
        lemma_line_next_bounds(s, i);
    }
}

/// The lexer, from position `i`: header lines (with folding unfolded and
/// invalid lines skipped) up to the first blank line or the end of input.
pub open spec fn lex_from(s: Seq<u8>, i: int) -> LexOut
    decreases s.len() - i when 0 <= i <= s.len() via lex_from_dec
{
    if i >= s.len() {
        LexOut { headers: Seq::empty(), body_start: s.len() as int, has_sep: false }
    } else {
        let l = line_content(s, i);
        let nx = line_next(s, i);
        if l.len() == 0 {
            LexOut { headers: Seq::empty(), body_start: nx, has_sep: true }
        } else if is_wsp(l[0]) {
            lex_from(s, nx)
        } else {
            match split_header_line(l) {
                Option::None => lex_from(s, nx),
                Option::Some(nv) => {
                    let v = folded_value(s, nx, nv.1);
                    let rest = lex_from(s, fold_end(s, nx));
                    LexOut {
                        headers: seq![(nv.0, v)] + rest.headers,
                        body_start: rest.body_start,
                        has_sep: rest.has_sep,
                    }
                },
            }
        }
    }
}

#[via_fn]
proof fn lex_from_dec(s: Seq<u8>, i: int) {
    if 0 <= i < s.len() {
        lemma_line_next_bounds(s, i);
        lemma_fold_end_bounds(s, line_next(s, i));
    }
}

/// The lexer's view of the whole input.
pub open spec fn lex_spec(s: Seq<u8>) -> LexOut {
    lex_from(s, 0)
}

/// Without a separator the body is empty: everything was header material.
pub proof fn lemma_no_separator_empty_body(s: Seq<u8>, i: int)
    requires
        0 <= i <= s.len(),
        !lex_from(s, i).has_sep,
    ensures
        lex_from(s, i).body_start == s.len(),
    decreases s.len() - i,
{
    if i < s.len() {
        lemma_line_next_bounds(s, i);
        let nx = line_next(s, i);
        let l = line_content(s, i);
        if l.len() == 0 {
        } else if is_wsp(l[0]) || split_header_line(l) is None {
            lemma_no_separator_empty_body(s, nx);
        } else {
            lemma_fold_end_bounds(s, nx);
            lemma_no_separator_empty_body(s, fold_end(s, nx));
        }
    }
}

/// Lenient parsing: a message whose first line is a well-formed header line
/// still yields a non-empty header sequence even when the blank-line
/// separator is missing, and in that case the body is empty.
pub proof fn lemma_lenient_no_separator(s: Seq<u8>)
    requires
        s.len() > 0,
        line_content(s, 0).len() > 0,
        !is_wsp(line_content(s, 0)[0]),
        split_header_line(line_content(s, 0)) is Some,
        !lex_spec(s).has_sep,
    ensures
        lex_spec(s).headers.len() >= 1,
        lex_spec(s).body_start == s.len(),
{
    lemma_no_separator_empty_body(s, 0);
}

/// A header name with no colon, white space or line break in it.
pub open spec fn plain_name(n: Seq<u8>) -> bool {
    n.len() > 0 && forall|k: int| 0 <= k < n.len() ==> #[trigger] n[k] != 58 && n[k] != 10
        && n[k] != 13 && !is_wsp(n[k])
}

/// Header text with no line break, and no white space at either end.
pub open spec fn plain_value(v: Seq<u8>) -> bool {
    v.len() > 0 && !is_wsp(v[0]) && !is_wsp(v.last()) && forall|k: int| 0 <= k < v.len()
        ==> #[trigger] v[k] != 10 && v[k] != 13
}

/// Folding law: a header value folded across two lines lexes exactly like
/// the same value written on one line, and both read `name` to `v SP w`.
pub proof fn lemma_fold_equivalence(n: Seq<u8>, v: Seq<u8>, w: Seq<u8>)
    requires
        plain_name(n),
        plain_value(v),
        plain_value(w),
    ensures
        ({
            let folded = n + seq![58u8, 32u8] + v + seq![13u8, 10u8, 32u8] + w + seq![
                13u8, 10u8, 13u8, 10u8,
            ];
            let plain = n + seq![58u8, 32u8] + v + seq![32u8] + w + seq![13u8, 10u8, 13u8, 10u8];
            lex_spec(folded).headers == lex_spec(plain).headers && lex_spec(folded).headers
                == seq![(n, v + seq![32u8] + w)] && lex_spec(folded).has_sep && lex_spec(
                plain,
            ).has_sep
        }),
{
    lemma_fold_folded(n, v, w);
    lemma_fold_plain(n, v, w);
}

#[verifier::rlimit(100)]
proof fn lemma_fold_folded(n: Seq<u8>, v: Seq<u8>, w: Seq<u8>)
    requires
        plain_name(n),
        plain_value(v),
        plain_value(w),
    ensures
        ({
            let s = n + seq![58u8, 32u8] + v + seq![13u8, 10u8, 32u8] + w + seq![
                13u8, 10u8, 13u8, 10u8,
            ];
            lex_spec(s).headers == seq![(n, v + seq![32u8] + w)] && lex_spec(s).has_sep
        }),
{
    let nl = n.len() as int;
    let vl = v.len() as int;
    let wl = w.len() as int;
    let s = n + seq![58u8, 32u8] + v + seq![13u8, 10u8, 32u8] + w + seq![13u8, 10u8, 13u8, 10u8];
    assert(s.len() == nl + vl + wl + 9);
    assert forall|k: int| 0 <= k < nl implies #[trigger] s[k] == n[k] by {}
    assert(s[nl] == 58);
    assert(s[nl + 1] == 32);
    assert forall|k: int| nl + 2 <= k < nl + 2 + vl implies #[trigger] s[k] == v[k - nl - 2] by {}
    assert(s[nl + 2 + vl] == 13);
    assert(s[nl + 3 + vl] == 10);
    assert(s[nl + 4 + vl] == 32);
    assert forall|k: int| nl + 5 + vl <= k < nl + 5 + vl + wl implies #[trigger] s[k] == w[k - nl
        - 5 - vl] by {}
    assert(s[nl + 5 + vl + wl] == 13);
    assert(s[nl + 6 + vl + wl] == 10);
    assert(s[nl + 7 + vl + wl] == 13);
    assert(s[nl + 8 + vl + wl] == 10);
    // First line: `n: v` ending in CRLF.
    crate::bytes::lemma_find_from_is(s, 0, nl + 3 + vl, 10u8);
    assert(line_end(s, 0) == nl + 3 + vl);
    let l = line_content(s, 0);
    assert(l =~= n + seq![58u8, 32u8] + v);
    assert(line_next(s, 0) == nl + 4 + vl);
    assert(l.len() > 0 && !is_wsp(l[0]));
    crate::bytes::lemma_find_from_is(l, 0, nl, 58u8);
    assert(l.subrange(0, nl) =~= n);
    crate::bytes::lemma_trim_id(n);
    let tail = l.subrange(nl + 1, l.len() as int);
    assert(tail =~= seq![32u8] + v);
    crate::bytes::lemma_trim_start_skip(tail, 1);
    assert(tail.skip(1) =~= v);
    crate::bytes::lemma_trim_end_take(v, vl);
    assert(v.take(vl) =~= v);
    assert(split_header_line(l) == Option::Some((n, v)));
    // Second line: the continuation ` w` ending in CRLF.
    let c = nl + 4 + vl;
    crate::bytes::lemma_find_from_is(s, c, nl + 6 + vl + wl, 10u8);
    assert(line_end(s, c) == nl + 6 + vl + wl);
    let l2 = line_content(s, c);
    assert(l2 =~= seq![32u8] + w);
    assert(is_continuation(s, c));
    assert(line_next(s, c) == nl + 7 + vl + wl);
    crate::bytes::lemma_trim_start_skip(l2, 1);
    assert(l2.skip(1) =~= w);
    crate::bytes::lemma_trim_end_take(w, wl);
    assert(w.take(wl) =~= w);
    assert(trim_spec(l2) == w);
    // Third line is blank: the separator.
    let b = nl + 7 + vl + wl;
    crate::bytes::lemma_find_from_is(s, b, b + 1, 10u8);
    assert(line_end(s, b) == b + 1);
    assert(line_content(s, b) =~= Seq::<u8>::empty());
    assert(!is_continuation(s, b));
    assert(line_next(s, b) == b + 2);
    assert(fold_end(s, b) == b);
    assert(fold_end(s, c) == fold_end(s, b));
    assert(folded_value(s, b, v + seq![32u8] + w) == v + seq![32u8] + w);
    assert(folded_value(s, c, v) == folded_value(s, b, v + seq![32u8] + trim_spec(
        line_content(s, c),
    )));
    assert(folded_value(s, c, v) == v + seq![32u8] + w);
    assert(lex_from(s, b).has_sep);
    assert(lex_from(s, b).headers =~= Seq::<(Seq<u8>, Seq<u8>)>::empty());
    assert(lex_spec(s).headers =~= seq![(n, v + seq![32u8] + w)]);
}

#[verifier::rlimit(100)]
proof fn lemma_fold_plain(n: Seq<u8>, v: Seq<u8>, w: Seq<u8>)
    requires
        plain_name(n),
        plain_value(v),
        plain_value(w),
    ensures
        ({
            let s = n + seq![58u8, 32u8] + v + seq![32u8] + w + seq![13u8, 10u8, 13u8, 10u8];
            lex_spec(s).headers == seq![(n, v + seq![32u8] + w)] && lex_spec(s).has_sep
        }),
{
    let nl = n.len() as int;
    let vl = v.len() as int;
    let wl = w.len() as int;
    let s = n + seq![58u8, 32u8] + v + seq![32u8] + w + seq![13u8, 10u8, 13u8, 10u8];
    assert(s.len() == nl + vl + wl + 7);
    assert forall|k: int| 0 <= k < nl implies #[trigger] s[k] == n[k] by {}
    assert(s[nl] == 58);
    assert(s[nl + 1] == 32);
    assert forall|k: int| nl + 2 <= k < nl + 2 + vl implies #[trigger] s[k] == v[k - nl - 2] by {}
    assert(s[nl + 2 + vl] == 32);
    assert forall|k: int| nl + 3 + vl <= k < nl + 3 + vl + wl implies #[trigger] s[k] == w[k - nl
        - 3 - vl] by {}
    assert(s[nl + 3 + vl + wl] == 13);
    assert(s[nl + 4 + vl + wl] == 10);
    assert(s[nl + 5 + vl + wl] == 13);
    assert(s[nl + 6 + vl + wl] == 10);
    crate::bytes::lemma_find_from_is(s, 0, nl + 4 + vl + wl, 10u8);
    assert(line_end(s, 0) == nl + 4 + vl + wl);
    let l = line_content(s, 0);
    assert(l =~= n + seq![58u8, 32u8] + v + seq![32u8] + w);
    assert(line_next(s, 0) == nl + 5 + vl + wl);
    assert(l.len() > 0 && !is_wsp(l[0]));
    crate::bytes::lemma_find_from_is(l, 0, nl, 58u8);
    assert(l.subrange(0, nl) =~= n);
    crate::bytes::lemma_trim_id(n);
    let tail = l.subrange(nl + 1, l.len() as int);
    assert(tail =~= seq![32u8] + (v + seq![32u8] + w));
    crate::bytes::lemma_trim_start_skip(tail, 1);
    assert(tail.skip(1) =~= v + seq![32u8] + w);
    let u = v + seq![32u8] + w;
    assert(u.len() > 0 && !is_wsp(u[0]) && !is_wsp(u.last()));
    crate::bytes::lemma_trim_end_take(u, u.len() as int);
    assert(u.take(u.len() as int) =~= u);
    assert(split_header_line(l) == Option::Some((n, u)));
    // Second line is blank: the separator.
    let b = nl + 5 + vl + wl;
    crate::bytes::lemma_find_from_is(s, b, b + 1, 10u8);
    assert(line_end(s, b) == b + 1);
    assert(line_content(s, b) =~= Seq::<u8>::empty());
    assert(!is_continuation(s, b));
    assert(fold_end(s, b) == b);
    assert(folded_value(s, b, u) == u);
    assert(lex_from(s, b).has_sep);
    assert(lex_from(s, b).headers =~= Seq::<(Seq<u8>, Seq<u8>)>::empty());
    assert(lex_spec(s).headers =~= seq![(n, u)]);
}

/// One raw header as the lexer hands it on: the field name as written and
/// the unfolded raw value.
pub struct RawHeader {
    pub name: Vec<u8>,
    pub value: Vec<u8>,
}

pub open spec fn raw_headers_view(s: Seq<RawHeader>) -> Seq<(Seq<u8>, Seq<u8>)> {
    s.map_values(|h: RawHeader| (h.name@, h.value@))
}

/// The lexer's result: ordered raw headers, body start offset, and whether
/// the blank-line separator was present.
pub struct Lexed {
    pub headers: Vec<RawHeader>,
    pub body_start: usize,
    pub has_separator: bool,
}

/// Bounds of the line starting at `i`: the end of its content and the start
/// of the next line.
pub fn line_bounds(s: &[u8], i: usize) -> (r: (usize, usize))
    requires
        i <= s@.len(),
    ensures
        i <= r.0 <= s@.len(),
        r.0 <= r.1 <= s@.len(),
        s@.subrange(i as int, r.0 as int) == line_content(s@, i as int),
        r.1 == line_next(s@, i as int),
        i < s@.len() ==> i < r.1,
{
    let e = find_byte(s, i, 10);
    proof {
        lemma_find_from_bounds(s@, i as int, 10u8);
    }
    let nx = if e < s.len() {
        e + 1
    } else {
        s.len()
    };
    if e > i && s[e - 1] == 13 {
        (e - 1, nx)
    } else {
        (e, nx)
    }
}

/// Split raw message bytes into the ordered header sequence and the body
/// region, unfolding folded header values and skipping malformed lines.
pub fn lex_message(s: &[u8]) -> (r: Lexed)
    ensures
        raw_headers_view(r.headers@) == lex_spec(s@).headers,
        r.body_start as int == lex_spec(s@).body_start,
        r.has_separator == lex_spec(s@).has_sep,
        r.body_start <= s@.len(),
{
    let mut headers: Vec<RawHeader> = Vec::new();
    let mut i: usize = 0;
    let mut body_start: usize = s.len();
    let mut has_separator: bool = false;
    loop
        invariant_except_break
            lex_spec(s@).headers =~= raw_headers_view(headers@) + lex_from(s@, i as int).headers,
            lex_spec(s@).body_start == lex_from(s@, i as int).body_start,
            lex_spec(s@).has_sep == lex_from(s@, i as int).has_sep,
            !has_separator,
            body_start == s@.len(),
        invariant
            0 <= i <= s@.len(),
            body_start <= s@.len(),
        ensures
            raw_headers_view(headers@) == lex_spec(s@).headers,
            body_start as int == lex_spec(s@).body_start,
            has_separator == lex_spec(s@).has_sep,
            body_start <= s@.len(),
        decreases s@.len() - i,
    {
        if i >= s.len() {
            proof {
                assert(raw_headers_view(headers@) + lex_from(s@, i as int).headers
                    =~= raw_headers_view(headers@));
            }
            break;
        }
        let (ce, nx) = line_bounds(s, i);
        let line = slice_subrange(s, i, ce);
        if line.len() == 0 {
            body_start = nx;
            has_separator = true;
            proof {
                assert(raw_headers_view(headers@) + lex_from(s@, i as int).headers
                    =~= raw_headers_view(headers@));
            }
            break;
        }
        if byte_is_wsp(line[0]) {
            i = nx;
            continue;
        }
        let colon = find_byte(line, 0, 58);
        if colon >= line.len() {
            i = nx;
            continue;
        }
        let name = trim(slice_subrange(line, 0, colon));
        if name.len() == 0 {
            i = nx;
            continue;
        }
        let mut value = trim(slice_subrange(line, colon + 1, line.len()));
        let ghost l = line_content(s@, i as int);
        let ghost nv = split_header_line(l).unwrap();
        proof {
            assert(nv.0 == name@);
            assert(nv.1 == value@);
        }
        // Consume the continuation lines of this header.
        let ghost nx0 = nx as int;
        let mut j: usize = nx;
        loop
            invariant
                0 <= nx0 <= j <= s@.len(),
                folded_value(s@, nx0, nv.1) == folded_value(s@, j as int, value@),
                fold_end(s@, nx0) == fold_end(s@, j as int),
            ensures
                nx0 <= j <= s@.len(),
                folded_value(s@, nx0, nv.1) == value@,
                fold_end(s@, nx0) == j,
            decreases s@.len() - j,
        {
            if j >= s.len() {
                break;
            }
            let (ce2, nx2) = line_bounds(s, j);
            if ce2 == j || !byte_is_wsp(s[j]) {
                proof {
                    assert(ce2 > j ==> line_content(s@, j as int)[0] == s@[j as int]);
                    assert(!is_continuation(s@, j as int));
                }
                break;
            }
            proof {
                assert(line_content(s@, j as int)[0] == s@[j as int]);
                assert(is_continuation(s@, j as int));
            }
            let ghost v0 = value@;
            let cont = trim(slice_subrange(s, j, ce2));
            value.push(32);
            crate::bytes::push_all(&mut value, cont.as_slice());
            proof {
                assert(value@ =~= v0 + seq![32u8] + trim_spec(line_content(s@, j as int)));
                assert(folded_value(s@, j as int, v0) == folded_value(s@, nx2 as int, value@));
            }
            j = nx2;
        }
        headers.push(RawHeader { name, value });
        proof {
            let rest = lex_from(s@, j as int);
            assert(lex_from(s@, i as int).headers =~= seq![(nv.0, folded_value(s@, nx0, nv.1))]
                + rest.headers);
            assert(raw_headers_view(headers@) =~= raw_headers_view(headers@.drop_last()).push(
                (nv.0, folded_value(s@, nx0, nv.1)),
            ));
            assert(raw_headers_view(headers@.drop_last()) + lex_from(s@, i as int).headers
                =~= raw_headers_view(headers@) + rest.headers);
        }
        i = j;
    }
    Lexed { headers, body_start, has_separator }
}

} // verus!
