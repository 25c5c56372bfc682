use vstd::prelude::*;
use vstd::slice::slice_subrange;

use crate::addr::{parse_address_list, parse_address_list_spec};
use crate::bytes::{eq_ignore_case, find_from, find_byte, is_wsp, lower_seq, subvec, trim,
    trim_spec};
use crate::date::{parse_date, parse_date_spec};
use crate::decode::{decode_unstructured, decode_unstructured_spec};
use crate::model::{header_value_view, vecs_view, HeaderValue, HeaderValueView};

verus! {

/// The semantic class a header name selects.
#[derive(Clone, Copy, Debug, PartialEq, Eq, Structural)]
pub enum HeaderClass {
    AddressClass,
    DateClass,
    IdClass,
    TokenClass,
    TextClass,
}

/// The class of a lower-cased header name.
pub open spec fn classify(l: Seq<u8>) -> HeaderClass {
    if l == seq![116u8, 111u8] || l == seq![102u8, 114u8, 111u8, 109u8] || l == seq![99u8, 99u8] || l == seq![98u8, 99u8, 99u8] || l == seq![115u8, 101u8, 110u8, 100u8, 101u8, 114u8] || l == seq![114u8, 101u8, 112u8, 108u8, 121u8, 45u8, 116u8, 111u8] || l == seq![114u8, 101u8, 115u8, 101u8, 110u8, 116u8, 45u8, 116u8, 111u8] || l == seq![114u8, 101u8, 115u8, 101u8, 110u8, 116u8, 45u8, 102u8, 114u8, 111u8, 109u8] || l == seq![114u8, 101u8, 115u8, 101u8, 110u8, 116u8, 45u8, 99u8, 99u8] || l == seq![114u8, 101u8, 115u8, 101u8, 110u8, 116u8, 45u8, 98u8, 99u8, 99u8] || l == seq![114u8, 101u8, 115u8, 101u8, 110u8, 116u8, 45u8, 115u8, 101u8, 110u8, 100u8, 101u8, 114u8] || l == seq![114u8, 101u8, 116u8, 117u8, 114u8, 110u8, 45u8, 112u8, 97u8, 116u8, 104u8] {
        HeaderClass::AddressClass
    } else if l == seq![100u8, 97u8, 116u8, 101u8] || l == seq![114u8, 101u8, 115u8, 101u8, 110u8, 116u8, 45u8, 100u8, 97u8, 116u8, 101u8] {
        HeaderClass::DateClass
    } else if l == seq![109u8, 101u8, 115u8, 115u8, 97u8, 103u8, 101u8, 45u8, 105u8, 100u8] || l == seq![105u8, 110u8, 45u8, 114u8, 101u8, 112u8, 108u8, 121u8, 45u8, 116u8, 111u8] || l == seq![114u8, 101u8, 102u8, 101u8, 114u8, 101u8, 110u8, 99u8, 101u8, 115u8] || l == seq![114u8, 101u8, 115u8, 101u8, 110u8, 116u8, 45u8, 109u8, 101u8, 115u8, 115u8, 97u8, 103u8, 101u8, 45u8, 105u8, 100u8] {
        HeaderClass::IdClass
    } else if l == seq![107u8, 101u8, 121u8, 119u8, 111u8, 114u8, 100u8, 115u8] || l == seq![108u8, 105u8, 115u8, 116u8, 45u8, 97u8, 114u8, 99u8, 104u8, 105u8, 118u8, 101u8] || l == seq![108u8, 105u8, 115u8, 116u8, 45u8, 104u8, 101u8, 108u8, 112u8] || l == seq![108u8, 105u8, 115u8, 116u8, 45u8, 105u8, 100u8] || l == seq![108u8, 105u8, 115u8, 116u8, 45u8, 111u8, 119u8, 110u8, 101u8, 114u8] || l == seq![108u8, 105u8, 115u8, 116u8, 45u8, 112u8, 111u8, 115u8, 116u8] || l == seq![108u8, 105u8, 115u8, 116u8, 45u8, 115u8, 117u8, 98u8, 115u8, 99u8, 114u8, 105u8, 98u8, 101u8] || l == seq![108u8, 105u8, 115u8, 116u8, 45u8, 117u8, 110u8, 115u8, 117u8, 98u8, 115u8, 99u8, 114u8, 105u8, 98u8, 101u8] {
        HeaderClass::TokenClass
    } else {
        HeaderClass::TextClass
    }
}

/// Exec twin of `classify`; the comparison is case-insensitive.
pub fn classify_exec(name: &[u8]) -> (r: HeaderClass)
    ensures
        r == classify(lower_seq(name@)),
{
    let n0: Vec<u8> = vec![116u8, 111u8];
    let n1: Vec<u8> = vec![102u8, 114u8, 111u8, 109u8];
    let n2: Vec<u8> = vec![99u8, 99u8];
    let n3: Vec<u8> = vec![98u8, 99u8, 99u8];
    let n4: Vec<u8> = vec![115u8, 101u8, 110u8, 100u8, 101u8, 114u8];
    let n5: Vec<u8> = vec![114u8, 101u8, 112u8, 108u8, 121u8, 45u8, 116u8, 111u8];
    let n6: Vec<u8> = vec![114u8, 101u8, 115u8, 101u8, 110u8, 116u8, 45u8, 116u8, 111u8];
    let n7: Vec<u8> = vec![114u8, 101u8, 115u8, 101u8, 110u8, 116u8, 45u8, 102u8, 114u8, 111u8, 109u8];
    let n8: Vec<u8> = vec![114u8, 101u8, 115u8, 101u8, 110u8, 116u8, 45u8, 99u8, 99u8];
    let n9: Vec<u8> = vec![114u8, 101u8, 115u8, 101u8, 110u8, 116u8, 45u8, 98u8, 99u8, 99u8];
    let n10: Vec<u8> = vec![114u8, 101u8, 115u8, 101u8, 110u8, 116u8, 45u8, 115u8, 101u8, 110u8, 100u8, 101u8, 114u8];
    let n11: Vec<u8> = vec![114u8, 101u8, 116u8, 117u8, 114u8, 110u8, 45u8, 112u8, 97u8, 116u8, 104u8];
    let n12: Vec<u8> = vec![100u8, 97u8, 116u8, 101u8];
    let n13: Vec<u8> = vec![114u8, 101u8, 115u8, 101u8, 110u8, 116u8, 45u8, 100u8, 97u8, 116u8, 101u8];
    let n14: Vec<u8> = vec![109u8, 101u8, 115u8, 115u8, 97u8, 103u8, 101u8, 45u8, 105u8, 100u8];
    let n15: Vec<u8> = vec![105u8, 110u8, 45u8, 114u8, 101u8, 112u8, 108u8, 121u8, 45u8, 116u8, 111u8];
    let n16: Vec<u8> = vec![114u8, 101u8, 102u8, 101u8, 114u8, 101u8, 110u8, 99u8, 101u8, 115u8];
    let n17: Vec<u8> = vec![114u8, 101u8, 115u8, 101u8, 110u8, 116u8, 45u8, 109u8, 101u8, 115u8, 115u8, 97u8, 103u8, 101u8, 45u8, 105u8, 100u8];
    let n18: Vec<u8> = vec![107u8, 101u8, 121u8, 119u8, 111u8, 114u8, 100u8, 115u8];
    let n19: Vec<u8> = vec![108u8, 105u8, 115u8, 116u8, 45u8, 97u8, 114u8, 99u8, 104u8, 105u8, 118u8, 101u8];
    let n20: Vec<u8> = vec![108u8, 105u8, 115u8, 116u8, 45u8, 104u8, 101u8, 108u8, 112u8];
    let n21: Vec<u8> = vec![108u8, 105u8, 115u8, 116u8, 45u8, 105u8, 100u8];
    let n22: Vec<u8> = vec![108u8, 105u8, 115u8, 116u8, 45u8, 111u8, 119u8, 110u8, 101u8, 114u8];
    let n23: Vec<u8> = vec![108u8, 105u8, 115u8, 116u8, 45u8, 112u8, 111u8, 115u8, 116u8];
    let n24: Vec<u8> = vec![108u8, 105u8, 115u8, 116u8, 45u8, 115u8, 117u8, 98u8, 115u8, 99u8, 114u8, 105u8, 98u8, 101u8];
    let n25: Vec<u8> = vec![108u8, 105u8, 115u8, 116u8, 45u8, 117u8, 110u8, 115u8, 117u8, 98u8, 115u8, 99u8, 114u8, 105u8, 98u8, 101u8];
    proof {
        assert(n0@ =~= seq![116u8, 111u8]);
        assert(lower_seq(n0@) =~= n0@);
        assert(n1@ =~= seq![102u8, 114u8, 111u8, 109u8]);
        assert(lower_seq(n1@) =~= n1@);
        assert(n2@ =~= seq![99u8, 99u8]);
        assert(lower_seq(n2@) =~= n2@);
        assert(n3@ =~= seq![98u8, 99u8, 99u8]);
        assert(lower_seq(n3@) =~= n3@);
        assert(n4@ =~= seq![115u8, 101u8, 110u8, 100u8, 101u8, 114u8]);
        assert(lower_seq(n4@) =~= n4@);
        assert(n5@ =~= seq![114u8, 101u8, 112u8, 108u8, 121u8, 45u8, 116u8, 111u8]);
        assert(lower_seq(n5@) =~= n5@);
        assert(n6@ =~= seq![114u8, 101u8, 115u8, 101u8, 110u8, 116u8, 45u8, 116u8, 111u8]);
        assert(lower_seq(n6@) =~= n6@);
        assert(n7@ =~= seq![114u8, 101u8, 115u8, 101u8, 110u8, 116u8, 45u8, 102u8, 114u8, 111u8, 109u8]);
        assert(lower_seq(n7@) =~= n7@);
        assert(n8@ =~= seq![114u8, 101u8, 115u8, 101u8, 110u8, 116u8, 45u8, 99u8, 99u8]);
        assert(lower_seq(n8@) =~= n8@);
        assert(n9@ =~= seq![114u8, 101u8, 115u8, 101u8, 110u8, 116u8, 45u8, 98u8, 99u8, 99u8]);
        assert(lower_seq(n9@) =~= n9@);
        assert(n10@ =~= seq![114u8, 101u8, 115u8, 101u8, 110u8, 116u8, 45u8, 115u8, 101u8, 110u8, 100u8, 101u8, 114u8]);
        assert(lower_seq(n10@) =~= n10@);
        assert(n11@ =~= seq![114u8, 101u8, 116u8, 117u8, 114u8, 110u8, 45u8, 112u8, 97u8, 116u8, 104u8]);
        assert(lower_seq(n11@) =~= n11@);
        assert(n12@ =~= seq![100u8, 97u8, 116u8, 101u8]);
        assert(lower_seq(n12@) =~= n12@);
        assert(n13@ =~= seq![114u8, 101u8, 115u8, 101u8, 110u8, 116u8, 45u8, 100u8, 97u8, 116u8, 101u8]);
        assert(lower_seq(n13@) =~= n13@);
        assert(n14@ =~= seq![109u8, 101u8, 115u8, 115u8, 97u8, 103u8, 101u8, 45u8, 105u8, 100u8]);
        assert(lower_seq(n14@) =~= n14@);
        assert(n15@ =~= seq![105u8, 110u8, 45u8, 114u8, 101u8, 112u8, 108u8, 121u8, 45u8, 116u8, 111u8]);
        assert(lower_seq(n15@) =~= n15@);
        assert(n16@ =~= seq![114u8, 101u8, 102u8, 101u8, 114u8, 101u8, 110u8, 99u8, 101u8, 115u8]);
        assert(lower_seq(n16@) =~= n16@);
        assert(n17@ =~= seq![114u8, 101u8, 115u8, 101u8, 110u8, 116u8, 45u8, 109u8, 101u8, 115u8, 115u8, 97u8, 103u8, 101u8, 45u8, 105u8, 100u8]);
        assert(lower_seq(n17@) =~= n17@);
        assert(n18@ =~= seq![107u8, 101u8, 121u8, 119u8, 111u8, 114u8, 100u8, 115u8]);
        assert(lower_seq(n18@) =~= n18@);
        assert(n19@ =~= seq![108u8, 105u8, 115u8, 116u8, 45u8, 97u8, 114u8, 99u8, 104u8, 105u8, 118u8, 101u8]);
        assert(lower_seq(n19@) =~= n19@);
        assert(n20@ =~= seq![108u8, 105u8, 115u8, 116u8, 45u8, 104u8, 101u8, 108u8, 112u8]);
        assert(lower_seq(n20@) =~= n20@);
        assert(n21@ =~= seq![108u8, 105u8, 115u8, 116u8, 45u8, 105u8, 100u8]);
        assert(lower_seq(n21@) =~= n21@);
        assert(n22@ =~= seq![108u8, 105u8, 115u8, 116u8, 45u8, 111u8, 119u8, 110u8, 101u8, 114u8]);
        assert(lower_seq(n22@) =~= n22@);
        assert(n23@ =~= seq![108u8, 105u8, 115u8, 116u8, 45u8, 112u8, 111u8, 115u8, 116u8]);
        assert(lower_seq(n23@) =~= n23@);
        assert(n24@ =~= seq![108u8, 105u8, 115u8, 116u8, 45u8, 115u8, 117u8, 98u8, 115u8, 99u8, 114u8, 105u8, 98u8, 101u8]);
        assert(lower_seq(n24@) =~= n24@);
        assert(n25@ =~= seq![108u8, 105u8, 115u8, 116u8, 45u8, 117u8, 110u8, 115u8, 117u8, 98u8, 115u8, 99u8, 114u8, 105u8, 98u8, 101u8]);
        assert(lower_seq(n25@) =~= n25@);
    }
    if eq_ignore_case(name, n0.as_slice()) {
        HeaderClass::AddressClass
    } else if eq_ignore_case(name, n1.as_slice()) {
        HeaderClass::AddressClass
    } else if eq_ignore_case(name, n2.as_slice()) {
        HeaderClass::AddressClass
    } else if eq_ignore_case(name, n3.as_slice()) {
        HeaderClass::AddressClass
    } else if eq_ignore_case(name, n4.as_slice()) {
        HeaderClass::AddressClass
    } else if eq_ignore_case(name, n5.as_slice()) {
        HeaderClass::AddressClass
    } else if eq_ignore_case(name, n6.as_slice()) {
        HeaderClass::AddressClass
    } else if eq_ignore_case(name, n7.as_slice()) {
        HeaderClass::AddressClass
    } else if eq_ignore_case(name, n8.as_slice()) {
        HeaderClass::AddressClass
    } else if eq_ignore_case(name, n9.as_slice()) {
        HeaderClass::AddressClass
    } else if eq_ignore_case(name, n10.as_slice()) {
        HeaderClass::AddressClass
    } else if eq_ignore_case(name, n11.as_slice()) {
        HeaderClass::AddressClass
    } else if eq_ignore_case(name, n12.as_slice()) {
        HeaderClass::DateClass
    } else if eq_ignore_case(name, n13.as_slice()) {
        HeaderClass::DateClass
    } else if eq_ignore_case(name, n14.as_slice()) {
        HeaderClass::IdClass
    } else if eq_ignore_case(name, n15.as_slice()) {
        HeaderClass::IdClass
    } else if eq_ignore_case(name, n16.as_slice()) {
        HeaderClass::IdClass
    } else if eq_ignore_case(name, n17.as_slice()) {
        HeaderClass::IdClass
    } else if eq_ignore_case(name, n18.as_slice()) {
        HeaderClass::TokenClass
    } else if eq_ignore_case(name, n19.as_slice()) {
        HeaderClass::TokenClass
    } else if eq_ignore_case(name, n20.as_slice()) {
        HeaderClass::TokenClass
    } else if eq_ignore_case(name, n21.as_slice()) {
        HeaderClass::TokenClass
    } else if eq_ignore_case(name, n22.as_slice()) {
        HeaderClass::TokenClass
    } else if eq_ignore_case(name, n23.as_slice()) {
        HeaderClass::TokenClass
    } else if eq_ignore_case(name, n24.as_slice()) {
        HeaderClass::TokenClass
    } else if eq_ignore_case(name, n25.as_slice()) {
        HeaderClass::TokenClass
    } else {
        HeaderClass::TextClass
    }
}

/// The `<...>`-delimited identifiers of a Message-ID-class header, in order.
pub open spec fn ids_from(s: Seq<u8>, i: int) -> Seq<Seq<u8>>
    decreases s.len() - i when 0 <= i <= s.len() via ids_from_dec
{
    let lt = find_from(s, i, 60u8);
    if lt >= s.len() {
        Seq::empty()
    } else {
        let gt = find_from(s, lt + 1, 62u8);
        if gt >= s.len() {
            Seq::empty()
        } else {
            seq![s.subrange(lt + 1, gt)] + ids_from(s, gt + 1)
        }
    }
}

#[via_fn]
proof fn ids_from_dec(s: Seq<u8>, i: int) {
    crate::bytes::lemma_find_from_bounds(s, i, 60u8);
    let lt = find_from(s, i, 60u8);
    if lt < s.len() {
        crate::bytes::lemma_find_from_bounds(s, lt + 1, 62u8);
    }
}

/// Exec twin of `ids_from`.
pub fn collect_ids(s: &[u8]) -> (r: Vec<Vec<u8>>)
    ensures
        vecs_view(r@) == ids_from(s@, 0),
{
    let mut out: Vec<Vec<u8>> = Vec::new();
    let mut i: usize = 0;
    loop
        invariant_except_break
            ids_from(s@, 0) =~= vecs_view(out@) + ids_from(s@, i as int),
        invariant
            0 <= i <= s@.len(),
        ensures
            vecs_view(out@) == ids_from(s@, 0),
        decreases s@.len() - i + 1,
    {
        let lt = find_byte(s, i, 60);
        if lt >= s.len() {
            proof {
                assert(vecs_view(out@) + Seq::<Seq<u8>>::empty() =~= vecs_view(out@));
            }
            break;
        }
        let gt = find_byte(s, lt + 1, 62);
        if gt >= s.len() {
            proof {
                assert(vecs_view(out@) + Seq::<Seq<u8>>::empty() =~= vecs_view(out@));
            }
            break;
        }
        let id = subvec(s, lt + 1, gt);
        let ghost o0 = out@;
        out.push(id);
        proof {
            assert(vecs_view(out@) =~= vecs_view(o0).push(s@.subrange(lt + 1, gt as int)));
            assert(vecs_view(o0) + (seq![s@.subrange(lt + 1, gt as int)] + ids_from(s@, gt + 1))
                =~= vecs_view(out@) + ids_from(s@, gt + 1));
        }
        i = gt + 1;
    }
    out
}

/// Is `b` a token separator (white space, or a comma)?
pub open spec fn is_sep(b: u8) -> bool {
    is_wsp(b) || b == 44
}

/// The first index at or after `i` whose byte is not a separator.
pub open spec fn skip_seps(s: Seq<u8>, i: int) -> int
    decreases s.len() - i when 0 <= i <= s.len()
{
    if i >= s.len() {
        i
    } else if is_sep(s[i]) {
        skip_seps(s, i + 1)
    } else {
        i
    }
}

pub proof fn lemma_skip_seps(s: Seq<u8>, i: int)
    requires
        0 <= i <= s.len(),
    ensures
        i <= skip_seps(s, i) <= s.len(),
        skip_seps(s, i) < s.len() ==> !is_sep(s[skip_seps(s, i)]),
    decreases s.len() - i,
{
    if i < s.len() && is_sep(s[i]) {
        lemma_skip_seps(s, i + 1);
    }
}

/// The first separator index at or after `i`.
pub open spec fn find_sep(s: Seq<u8>, i: int) -> int
    decreases s.len() - i when 0 <= i <= s.len()
{
    if i >= s.len() {
        s.len() as int
    } else if is_sep(s[i]) {
        i
    } else {
        find_sep(s, i + 1)
    }
}

pub proof fn lemma_find_sep(s: Seq<u8>, i: int)
    requires
        0 <= i <= s.len(),
    ensures
        i <= find_sep(s, i) <= s.len(),
        i < s.len() && !is_sep(s[i]) ==> i < find_sep(s, i),
    decreases s.len() - i,
{
    if i < s.len() && !is_sep(s[i]) {
        lemma_find_sep(s, i + 1);
    }
}

/// The comma- or space-separated tokens of a structured list header.
pub open spec fn toks_from(s: Seq<u8>, i: int) -> Seq<Seq<u8>>
    decreases s.len() - i when 0 <= i <= s.len() via toks_from_dec
{
    let k = skip_seps(s, i);
    if k >= s.len() {
        Seq::empty()
    } else {
        let e = find_sep(s, k);
        seq![s.subrange(k, e)] + toks_from(s, e)
    }
}

#[via_fn]
proof fn toks_from_dec(s: Seq<u8>, i: int) {
    lemma_skip_seps(s, i);
    let k = skip_seps(s, i);
    if k < s.len() {
        lemma_find_sep(s, k);
    }
}

/// Exec twin of `toks_from`.
pub fn collect_tokens(s: &[u8]) -> (r: Vec<Vec<u8>>)
    ensures
        vecs_view(r@) == toks_from(s@, 0),
{
    let mut out: Vec<Vec<u8>> = Vec::new();
    let mut i: usize = 0;
    loop
        invariant_except_break
            toks_from(s@, 0) =~= vecs_view(out@) + toks_from(s@, i as int),
        invariant
            0 <= i <= s@.len(),
        ensures
            vecs_view(out@) == toks_from(s@, 0),
        decreases s@.len() - i + 1,
    {
        let mut k: usize = i;
        while k < s.len() && (s[k] == 32 || s[k] == 9 || s[k] == 44)
            invariant
                i <= k <= s@.len(),
                skip_seps(s@, i as int) == skip_seps(s@, k as int),
            decreases s@.len() - k,
        {
            k += 1;
        }
        proof {
            lemma_skip_seps(s@, k as int);
        }
        if k >= s.len() {
            proof {
                assert(vecs_view(out@) + Seq::<Seq<u8>>::empty() =~= vecs_view(out@));
            }
            break;
        }
        let mut e: usize = k;
        while e < s.len() && !(s[e] == 32 || s[e] == 9 || s[e] == 44)
            invariant
                k <= e <= s@.len(),
                find_sep(s@, k as int) == find_sep(s@, e as int),
            decreases s@.len() - e,
        {
            e += 1;
        }
        proof {
            lemma_find_sep(s@, e as int);
        }
        let w = subvec(s, k, e);
        let ghost o0 = out@;
        out.push(w);
        proof {
            assert(vecs_view(out@) =~= vecs_view(o0).push(s@.subrange(k as int, e as int)));
            assert(vecs_view(o0) + (seq![s@.subrange(k as int, e as int)] + toks_from(
                s@,
                e as int,
            )) =~= vecs_view(out@) + toks_from(s@, e as int));
        }
        i = e;
    }
    out
}

/// The typed value of a header, chosen by the header's name class; an
/// all-white-space value is `Empty`.
pub open spec fn parse_value_spec(lname: Seq<u8>, raw: Seq<u8>) -> HeaderValueView {
    if trim_spec(raw).len() == 0 {
        HeaderValueView::Empty
    } else {
        match classify(lname) {
            HeaderClass::AddressClass => HeaderValueView::Addresses(parse_address_list_spec(raw)),
            HeaderClass::DateClass => match parse_date_spec(raw) {
                Option::Some(d) => HeaderValueView::Date(d),
                Option::None => HeaderValueView::Unstructured(decode_unstructured_spec(raw)),
            },
            HeaderClass::IdClass => HeaderValueView::MessageIds(ids_from(raw, 0)),
            HeaderClass::TokenClass => HeaderValueView::Tokens(toks_from(raw, 0)),
            HeaderClass::TextClass => HeaderValueView::Unstructured(decode_unstructured_spec(raw)),
        }
    }
}

/// Parse one header value according to its name's class.
pub fn parse_value(name: &[u8], raw: &[u8]) -> (r: HeaderValue)
    ensures
        header_value_view(r) == parse_value_spec(lower_seq(name@), raw@),
{
    let t = trim(raw);
    if t.len() == 0 {
        return HeaderValue::Empty;
    }
    match classify_exec(name) {
        HeaderClass::AddressClass => {
            let a = parse_address_list(raw);
            let r = HeaderValue::Addresses(a);
            proof {
                assert(header_value_view(r) =~~= parse_value_spec(lower_seq(name@), raw@));
            }
            r
        },
        HeaderClass::DateClass => {
            match parse_date(raw) {
                Option::Some(d) => HeaderValue::Date(d),
                Option::None => {
                    let u = decode_unstructured(raw);
                    let r = HeaderValue::Unstructured(u);
                    proof {
                        assert(header_value_view(r) =~~= parse_value_spec(lower_seq(name@), raw@));
                    }
                    r
                },
            }
        },
        HeaderClass::IdClass => {
            let v = collect_ids(raw);
            let r = HeaderValue::MessageIds(v);
            proof {
                assert(header_value_view(r) =~~= parse_value_spec(lower_seq(name@), raw@));
            }
            r
        },
        HeaderClass::TokenClass => {
            let v = collect_tokens(raw);
            let r = HeaderValue::Tokens(v);
            proof {
                assert(header_value_view(r) =~~= parse_value_spec(lower_seq(name@), raw@));
            }
            r
        },
        HeaderClass::TextClass => {
            let u = decode_unstructured(raw);
            let r = HeaderValue::Unstructured(u);
            proof {
                assert(header_value_view(r) =~~= parse_value_spec(lower_seq(name@), raw@));
            }
            r
        },
    }
}

} // verus!
