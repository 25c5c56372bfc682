use vstd::prelude::*;
use vstd::slice::slice_subrange;

use crate::bytes::{eq_bytes, find_from, find_byte, is_wsp, lemma_skip_wsp_bounds,
    lemma_skip_wsp_char, lower_seq, skip_wsp, skip_wsp_from, subvec, to_lower_vec};
use crate::model::DateTime;

verus! {

/// Are all bytes ASCII digits?
pub open spec fn all_digits(s: Seq<u8>) -> bool {
    forall|k: int| 0 <= k < s.len() ==> 48 <= #[trigger] s[k] <= 57
}

/// The number written in decimal digits.
pub open spec fn to_num(s: Seq<u8>) -> int
    decreases s.len(),
{
    if s.len() == 0 {
        0
    } else {
        to_num(s.drop_last()) * 10 + (s.last() - 48)
    }
}

pub proof fn lemma_to_num_bound(s: Seq<u8>)
    requires
        all_digits(s),
        s.len() <= 4,
    ensures
        0 <= to_num(s) <= 9999,
{
    if s.len() > 0 {
        assert(all_digits(s.drop_last()));
        lemma_to_num_small(s.drop_last());
        assert(48 <= s[s.len() - 1] <= 57);
    }
}

pub proof fn lemma_to_num_small(s: Seq<u8>)
    requires
        all_digits(s),
        s.len() <= 3,
    ensures
        0 <= to_num(s) <= 999,
    decreases s.len(),
{
    if s.len() > 0 {
        assert(all_digits(s.drop_last()));
        lemma_to_num_small2(s.drop_last());
        assert(48 <= s[s.len() - 1] <= 57);
    }
}

pub proof fn lemma_to_num_small2(s: Seq<u8>)
    requires
        all_digits(s),
        s.len() <= 2,
    ensures
        0 <= to_num(s) <= 99,
    decreases s.len(),
{
    if s.len() > 0 {
        assert(all_digits(s.drop_last()));
        lemma_to_num_small3(s.drop_last());
        assert(48 <= s[s.len() - 1] <= 57);
    }
}

pub proof fn lemma_to_num_small3(s: Seq<u8>)
    requires
        all_digits(s),
        s.len() <= 1,
    ensures
        0 <= to_num(s) <= 9,
{
    if s.len() > 0 {
        assert(s.drop_last().len() == 0);
        assert(to_num(s.drop_last()) == 0);
        assert(48 <= s[s.len() - 1] <= 57);
    }
}

/// A 1-4 digit number, `None` on anything else.
pub open spec fn num_opt(w: Seq<u8>) -> Option<int> {
    if 1 <= w.len() <= 4 && all_digits(w) {
        Option::Some(to_num(w))
    } else {
        Option::None
    }
}

/// Exec twin of `num_opt`.
pub fn parse_num(w: &[u8]) -> (r: Option<u16>)
    ensures
        match r {
            Option::Some(v) => num_opt(w@) == Option::Some(v as int),
            Option::None => num_opt(w@) is None,
        },
{
    if w.len() < 1 || w.len() > 4 {
        return Option::None;
    }
    let mut acc: u32 = 0;
    let mut i: usize = 0;
    while i < w.len()
        invariant
            0 <= i <= w@.len(),
            w@.len() <= 4,
            forall|k: int| 0 <= k < i ==> 48 <= #[trigger] w@[k] <= 57,
            acc as int == to_num(w@.take(i as int)),
            acc <= 9999,
        decreases w@.len() - i,
    {
        if w[i] < 48 || w[i] > 57 {
            return Option::None;
        }
        proof {
            assert(w@.take(i + 1).drop_last() =~= w@.take(i as int));
            assert(w@.take(i + 1).last() == w@[i as int]);
            assert(all_digits(w@.take(i as int)));
            lemma_to_num_small(w@.take(i as int));
        }
        acc = acc * 10 + ((w[i] - 48) as u32);
        i += 1;
    }
    proof {
        assert(w@.take(w@.len() as int) =~= w@);
        assert(all_digits(w@));
    }
    Option::Some(acc as u16)
}

/// The index of the first white-space byte at or after `i`.
pub open spec fn find_wsp(s: Seq<u8>, i: int) -> int
    decreases s.len() - i when 0 <= i <= s.len()
{
    if i >= s.len() {
        s.len() as int
    } else if is_wsp(s[i]) {
        i
    } else {
        find_wsp(s, i + 1)
    }
}

pub proof fn lemma_find_wsp_bounds(s: Seq<u8>, i: int)
    requires
        0 <= i <= s.len(),
    ensures
        i <= find_wsp(s, i) <= s.len(),
        i < s.len() && !is_wsp(s[i]) ==> i < find_wsp(s, i),
    decreases s.len() - i,
{
    if i < s.len() && !is_wsp(s[i]) {
        lemma_find_wsp_bounds(s, i + 1);
    }
}

pub fn find_wsp_exec(s: &[u8], i: usize) -> (r: usize)
    requires
        i <= s@.len(),
    ensures
        r == find_wsp(s@, i as int),
        i <= r <= s@.len(),
{
    let mut j: usize = i;
    while j < s.len() && !(s[j] == 32 || s[j] == 9)
        invariant
            i <= j <= s@.len(),
            find_wsp(s@, i as int) == find_wsp(s@, j as int),
        decreases s@.len() - j,
    {
        j += 1;
    }
    proof {
        lemma_find_wsp_bounds(s@, j as int);
    }
    j
}

/// The white-space separated words of `s`, in order.
pub open spec fn words_from(s: Seq<u8>, i: int) -> Seq<Seq<u8>>
    decreases s.len() - i when 0 <= i <= s.len() via words_from_dec
{
    let k = skip_wsp_from(s, i);
    if k >= s.len() {
        Seq::empty()
    } else {
        let e = find_wsp(s, k);
        seq![s.subrange(k, e)] + words_from(s, e)
    }
}

#[via_fn]
proof fn words_from_dec(s: Seq<u8>, i: int) {
    lemma_skip_wsp_bounds(s, i);
    lemma_skip_wsp_char(s, i);
    let k = skip_wsp_from(s, i);
    if k < s.len() {
        lemma_find_wsp_bounds(s, k);
    }
}

/// Exec twin of `words_from`.
pub fn collect_words(s: &[u8]) -> (r: Vec<Vec<u8>>)
    ensures
        crate::model::vecs_view(r@) == words_from(s@, 0),
{
    let mut out: Vec<Vec<u8>> = Vec::new();
    let mut i: usize = 0;
    loop
        invariant_except_break
            words_from(s@, 0) =~= crate::model::vecs_view(out@) + words_from(s@, i as int),
        invariant
            0 <= i <= s@.len(),
        ensures
            crate::model::vecs_view(out@) == words_from(s@, 0),
        decreases s@.len() - i + 1,
    {
        let k = skip_wsp(s, i);
        if k >= s.len() {
            proof {
                assert(words_from(s@, i as int) =~= Seq::<Seq<u8>>::empty());
                assert(crate::model::vecs_view(out@) + Seq::<Seq<u8>>::empty()
                    =~= crate::model::vecs_view(out@));
            }
            break;
        }
        let e = find_wsp_exec(s, k);
        let w = subvec(s, k, e);
        let ghost o0 = out@;
        out.push(w);
        proof {
            assert(crate::model::vecs_view(out@) =~= crate::model::vecs_view(o0).push(
                s@.subrange(k as int, e as int),
            ));
            assert(crate::model::vecs_view(o0) + (seq![s@.subrange(k as int, e as int)]
                + words_from(s@, e as int)) =~= crate::model::vecs_view(out@) + words_from(
                s@,
                e as int,
            ));
        }
        i = e;
    }
    out
}

/// The month number of a lower-cased three-letter month name, 0 if unknown.
pub open spec fn month_of(l: Seq<u8>) -> int {
    if l == seq![106u8, 97u8, 110u8] {
        1
    } else if l == seq![102u8, 101u8, 98u8] {
        2
    } else if l == seq![109u8, 97u8, 114u8] {
        3
    } else if l == seq![97u8, 112u8, 114u8] {
        4
    } else if l == seq![109u8, 97u8, 121u8] {
        5
    } else if l == seq![106u8, 117u8, 110u8] {
        6
    } else if l == seq![106u8, 117u8, 108u8] {
        7
    } else if l == seq![97u8, 117u8, 103u8] {
        8
    } else if l == seq![115u8, 101u8, 112u8] {
        9
    } else if l == seq![111u8, 99u8, 116u8] {
        10
    } else if l == seq![110u8, 111u8, 118u8] {
        11
    } else if l == seq![100u8, 101u8, 99u8] {
        12
    } else {
        0
    }
}

fn month_of_exec(l: &[u8]) -> (r: u8)
    ensures
        r as int == month_of(l@),
{
    let m1: Vec<u8> = vec![106u8, 97u8, 110u8];
    let m2: Vec<u8> = vec![102u8, 101u8, 98u8];
    let m3: Vec<u8> = vec![109u8, 97u8, 114u8];
    let m4: Vec<u8> = vec![97u8, 112u8, 114u8];
    let m5: Vec<u8> = vec![109u8, 97u8, 121u8];
    let m6: Vec<u8> = vec![106u8, 117u8, 110u8];
    let m7: Vec<u8> = vec![106u8, 117u8, 108u8];
    let m8: Vec<u8> = vec![97u8, 117u8, 103u8];
    let m9: Vec<u8> = vec![115u8, 101u8, 112u8];
    let m10: Vec<u8> = vec![111u8, 99u8, 116u8];
    let m11: Vec<u8> = vec![110u8, 111u8, 118u8];
    let m12: Vec<u8> = vec![100u8, 101u8, 99u8];
    proof {
        assert(m1@ =~= seq![106u8, 97u8, 110u8]);
        assert(m2@ =~= seq![102u8, 101u8, 98u8]);
        assert(m3@ =~= seq![109u8, 97u8, 114u8]);
        assert(m4@ =~= seq![97u8, 112u8, 114u8]);
        assert(m5@ =~= seq![109u8, 97u8, 121u8]);
        assert(m6@ =~= seq![106u8, 117u8, 110u8]);
        assert(m7@ =~= seq![106u8, 117u8, 108u8]);
        assert(m8@ =~= seq![97u8, 117u8, 103u8]);
        assert(m9@ =~= seq![115u8, 101u8, 112u8]);
        assert(m10@ =~= seq![111u8, 99u8, 116u8]);
        assert(m11@ =~= seq![110u8, 111u8, 118u8]);
        assert(m12@ =~= seq![100u8, 101u8, 99u8]);
    }
    if eq_bytes(l, m1.as_slice()) {
        1
    } else if eq_bytes(l, m2.as_slice()) {
        2
    } else if eq_bytes(l, m3.as_slice()) {
        3
    } else if eq_bytes(l, m4.as_slice()) {
        4
    } else if eq_bytes(l, m5.as_slice()) {
        5
    } else if eq_bytes(l, m6.as_slice()) {
        6
    } else if eq_bytes(l, m7.as_slice()) {
        7
    } else if eq_bytes(l, m8.as_slice()) {
        8
    } else if eq_bytes(l, m9.as_slice()) {
        9
    } else if eq_bytes(l, m10.as_slice()) {
        10
    } else if eq_bytes(l, m11.as_slice()) {
        11
    } else if eq_bytes(l, m12.as_slice()) {
        12
    } else {
        0
    }
}

/// The zone offset of a lower-cased named zone: negative flag and minutes
/// west or east of UTC; unknown names read as `-0000`.
pub open spec fn zone_name_of(l: Seq<u8>) -> (bool, int) {
    if l == seq![117u8, 116u8] {
        (false, 0)
    } else if l == seq![103u8, 109u8, 116u8] {
        (false, 0)
    } else if l == seq![122u8] {
        (false, 0)
    } else if l == seq![101u8, 115u8, 116u8] {
        (true, 300)
    } else if l == seq![101u8, 100u8, 116u8] {
        (true, 240)
    } else if l == seq![99u8, 115u8, 116u8] {
        (true, 360)
    } else if l == seq![99u8, 100u8, 116u8] {
        (true, 300)
    } else if l == seq![109u8, 115u8, 116u8] {
        (true, 420)
    } else if l == seq![109u8, 100u8, 116u8] {
        (true, 360)
    } else if l == seq![112u8, 115u8, 116u8] {
        (true, 480)
    } else if l == seq![112u8, 100u8, 116u8] {
        (true, 420)
    } else {
        (true, 0)
    }
}

fn zone_name_exec(l: &[u8]) -> (r: (bool, u16))
    ensures
        r.0 == zone_name_of(l@).0,
        r.1 as int == zone_name_of(l@).1,
{
    let z1: Vec<u8> = vec![117u8, 116u8];
    let z2: Vec<u8> = vec![103u8, 109u8, 116u8];
    let z3: Vec<u8> = vec![122u8];
    let z4: Vec<u8> = vec![101u8, 115u8, 116u8];
    let z5: Vec<u8> = vec![101u8, 100u8, 116u8];
    let z6: Vec<u8> = vec![99u8, 115u8, 116u8];
    let z7: Vec<u8> = vec![99u8, 100u8, 116u8];
    let z8: Vec<u8> = vec![109u8, 115u8, 116u8];
    let z9: Vec<u8> = vec![109u8, 100u8, 116u8];
    let z10: Vec<u8> = vec![112u8, 115u8, 116u8];
    let z11: Vec<u8> = vec![112u8, 100u8, 116u8];
    proof {
        assert(z1@ =~= seq![117u8, 116u8]);
        assert(z2@ =~= seq![103u8, 109u8, 116u8]);
        assert(z3@ =~= seq![122u8]);
        assert(z4@ =~= seq![101u8, 115u8, 116u8]);
        assert(z5@ =~= seq![101u8, 100u8, 116u8]);
        assert(z6@ =~= seq![99u8, 115u8, 116u8]);
        assert(z7@ =~= seq![99u8, 100u8, 116u8]);
        assert(z8@ =~= seq![109u8, 115u8, 116u8]);
        assert(z9@ =~= seq![109u8, 100u8, 116u8]);
        assert(z10@ =~= seq![112u8, 115u8, 116u8]);
        assert(z11@ =~= seq![112u8, 100u8, 116u8]);
    }
    if eq_bytes(l, z1.as_slice()) {
        (false, 0)
    } else if eq_bytes(l, z2.as_slice()) {
        (false, 0)
    } else if eq_bytes(l, z3.as_slice()) {
        (false, 0)
    } else if eq_bytes(l, z4.as_slice()) {
        (true, 300)
    } else if eq_bytes(l, z5.as_slice()) {
        (true, 240)
    } else if eq_bytes(l, z6.as_slice()) {
        (true, 360)
    } else if eq_bytes(l, z7.as_slice()) {
        (true, 300)
    } else if eq_bytes(l, z8.as_slice()) {
        (true, 420)
    } else if eq_bytes(l, z9.as_slice()) {
        (true, 360)
    } else if eq_bytes(l, z10.as_slice()) {
        (true, 480)
    } else if eq_bytes(l, z11.as_slice()) {
        (true, 420)
    } else {
        (true, 0)
    }
}

/// The zone of the last date word: `+HHMM` / `-HHMM`, or a named zone.
pub open spec fn zone_of(w: Seq<u8>) -> (bool, int) {
    if w.len() == 5 && (w[0] == 43 || w[0] == 45) && all_digits(w.subrange(1, 5)) {
        (w[0] == 45, to_num(w.subrange(1, 3)) * 60 + to_num(w.subrange(3, 5)))
    } else {
        zone_name_of(lower_seq(w))
    }
}

fn zone_of_exec(w: &[u8]) -> (r: (bool, u16))
    ensures
        r.0 == zone_of(w@).0,
        r.1 as int == zone_of(w@).1,
{
    if w.len() == 5 && (w[0] == 43 || w[0] == 45) {
        let hh = parse_num(slice_subrange(w, 1, 3));
        let mm = parse_num(slice_subrange(w, 3, 5));
        match (hh, mm) {
            (Option::Some(h), Option::Some(m)) => {
                proof {
                    assert(w@.subrange(1, 5) =~= w@.subrange(1, 3) + w@.subrange(3, 5));
                    assert(all_digits(w@.subrange(1, 5)));
                    assert(w@.subrange(1, 3) =~= w@.subrange(1, 5).subrange(0, 2));
                    assert(w@.subrange(3, 5) =~= w@.subrange(1, 5).subrange(2, 4));
                    lemma_to_num_small2(w@.subrange(1, 3));
                    lemma_to_num_small2(w@.subrange(3, 5));
                }
                return (w[0] == 45, h * 60 + m);
            },
            _ => {
                proof {
                    assert(!all_digits(w@.subrange(1, 5))) by {
                        if all_digits(w@.subrange(1, 5)) {
                            assert(forall|k: int| 0 <= k < 2 ==> 48 <= #[trigger] w@.subrange(
                                1,
                                3,
                            )[k] <= 57) by {
                                assert(forall|k: int| 0 <= k < 2 ==> w@.subrange(1, 3)[k]
                                    == w@.subrange(1, 5)[k]);
                            }
                            assert(forall|k: int| 0 <= k < 2 ==> 48 <= #[trigger] w@.subrange(
                                3,
                                5,
                            )[k] <= 57) by {
                                assert(forall|k: int| 0 <= k < 2 ==> w@.subrange(3, 5)[k]
                                    == w@.subrange(1, 5)[k + 2]);
                            }
                            assert(num_opt(w@.subrange(1, 3)) is Some);
                            assert(num_opt(w@.subrange(3, 5)) is Some);
                        }
                    }
                }
            },
        }
    }
    let l = to_lower_vec(w);
    zone_name_exec(l.as_slice())
}

/// RFC 5322 date-time: optional day-of-week before a comma, then
/// `day month year hh:mm[:ss] zone`; `None` when the grammar or the field
/// ranges are not met.
pub open spec fn parse_date_spec(s: Seq<u8>) -> Option<DateTime> {
    let c = find_from(s, 0, 44u8);
    let t = if c < s.len() {
        s.subrange(c + 1, s.len() as int)
    } else {
        s
    };
    let ws = words_from(t, 0);
    if ws.len() < 4 {
        Option::None
    } else {
        let day = num_opt(ws[0]);
        let mon = if ws[1].len() >= 3 {
            month_of(lower_seq(ws[1]).take(3))
        } else {
            0
        };
        let yr = num_opt(ws[2]);
        let tm = time_of(ws[3]);
        let zone = if ws.len() >= 5 {
            zone_of(ws[4])
        } else {
            (true, 0)
        };
        if day is Some && ws[0].len() <= 2 && 1 <= day.unwrap() <= 31 && mon >= 1 && yr is Some
            && 2 <= ws[2].len() && tm is Some && zone.1 <= 5999 {
            let y = fix_year(yr.unwrap(), ws[2].len() as int);
            Option::Some(
                DateTime {
                    year: y as u16,
                    month: mon as u8,
                    day: day.unwrap() as u8,
                    hour: tm.unwrap().0 as u8,
                    minute: tm.unwrap().1 as u8,
                    second: tm.unwrap().2 as u8,
                    tz_negative: zone.0,
                    tz_minutes: zone.1 as u16,
                },
            )
        } else {
            Option::None
        }
    }
}

/// Two-digit years read as 1950-2049; three-digit years as an offset from
/// 1900; four-digit years stand as written.
pub open spec fn fix_year(y: int, l: int) -> int {
    if l == 2 {
        if y < 50 {
            y + 2000
        } else {
            y + 1900
        }
    } else if l == 3 {
        y + 1900
    } else {
        y
    }
}

/// `hh:mm[:ss]` with hours below 24 and minutes/seconds below 60.
pub open spec fn time_of(w: Seq<u8>) -> Option<(int, int, int)> {
    let c1 = find_from(w, 0, 58u8);
    if c1 >= w.len() {
        Option::None
    } else {
        let hh = num_opt(w.subrange(0, c1));
        let rest = w.subrange(c1 + 1, w.len() as int);
        let c2 = find_from(rest, 0, 58u8);
        let mm = if c2 < rest.len() {
            num_opt(rest.subrange(0, c2))
        } else {
            num_opt(rest)
        };
        let ss = if c2 < rest.len() {
            num_opt(rest.subrange(c2 + 1, rest.len() as int))
        } else {
            Option::Some(0)
        };
        if hh is Some && mm is Some && ss is Some && hh.unwrap() <= 23 && mm.unwrap() <= 59
            && ss.unwrap() <= 60 {
            Option::Some((hh.unwrap(), mm.unwrap(), ss.unwrap()))
        } else {
            Option::None
        }
    }
}

fn time_of_exec(w: &[u8]) -> (r: Option<(u8, u8, u8)>)
    ensures
        match r {
            Option::Some(t) => time_of(w@) == Option::Some((t.0 as int, t.1 as int, t.2 as int)),
            Option::None => time_of(w@) is None,
        },
{
    let c1 = find_byte(w, 0, 58);
    if c1 >= w.len() {
        return Option::None;
    }
    let hh = parse_num(slice_subrange(w, 0, c1));
    let rest = slice_subrange(w, c1 + 1, w.len());
    let c2 = find_byte(rest, 0, 58);
    let mm = if c2 < rest.len() {
        parse_num(slice_subrange(rest, 0, c2))
    } else {
        parse_num(rest)
    };
    let ss: Option<u16> = if c2 < rest.len() {
        parse_num(slice_subrange(rest, c2 + 1, rest.len()))
    } else {
        Option::Some(0u16)
    };
    proof {
        if c2 >= rest@.len() {
            assert(time_of(w@) matches Option::Some(t) ==> t.2 == 0);
        }
    }
    match (hh, mm, ss) {
        (Option::Some(h), Option::Some(m), Option::Some(sec)) => {
            if h <= 23 && m <= 59 && sec <= 60 {
                Option::Some((h as u8, m as u8, sec as u8))
            } else {
                Option::None
            }
        },
        _ => Option::None,
    }
}

/// Exec twin of `parse_date_spec`.
pub fn parse_date(s: &[u8]) -> (r: Option<DateTime>)
    ensures
        r == parse_date_spec(s@),
{
    let c = find_byte(s, 0, 44);
    let t = if c < s.len() {
        slice_subrange(s, c + 1, s.len())
    } else {
        s
    };
    proof {
        if c >= s@.len() {
            assert(t@ == s@);
        }
    }
    let ws = collect_words(t);
    proof {
        assert(crate::model::vecs_view(ws@).len() == ws@.len());
    }
    if ws.len() < 4 {
        return Option::None;
    }
    let day = parse_num(ws[0].as_slice());
    let mon: u8 = if ws[1].len() >= 3 {
        let l3 = to_lower_vec(slice_subrange(ws[1].as_slice(), 0, 3));
        proof {
            assert(lower_seq(ws@[1]@).take(3) =~= lower_seq(ws@[1]@.subrange(0, 3)));
        }
        month_of_exec(l3.as_slice())
    } else {
        0
    };
    let yr = parse_num(ws[2].as_slice());
    let tm = time_of_exec(ws[3].as_slice());
    let zone: (bool, u16) = if ws.len() >= 5 {
        zone_of_exec(ws[4].as_slice())
    } else {
        (true, 0)
    };
    match (day, yr, tm) {
        (Option::Some(d), Option::Some(y), Option::Some(t3)) => {
            if ws[0].len() <= 2 && 1 <= d && d <= 31 && mon >= 1 && 2 <= ws[2].len() && zone.1
                <= 5999 {
                proof {
                    if ws@[2]@.len() == 2 {
                        lemma_to_num_small2(ws@[2]@);
                    }
                    if ws@[2]@.len() == 3 {
                        lemma_to_num_small(ws@[2]@);
                    }
                }
                let yy: u16 = if ws[2].len() == 2 {
                    if y < 50 {
                        y + 2000
                    } else {
                        y + 1900
                    }
                } else if ws[2].len() == 3 {
                    y + 1900
                } else {
                    y
                };
                Option::Some(
                    DateTime {
                        year: yy,
                        month: mon,
                        day: d as u8,
                        hour: t3.0,
                        minute: t3.1,
                        second: t3.2,
                        tz_negative: zone.0,
                        tz_minutes: zone.1,
                    },
                )
            } else {
                Option::None
            }
        },
        _ => Option::None,
    }
}

/// One decimal digit character.
pub open spec fn digit(n: int) -> u8 {
    (48 + n % 10) as u8
}

/// The ISO 8601 text of a parsed date: `yyyy-mm-ddThh:mm:ss+hh:mm`.
pub open spec fn iso_of(dt: DateTime) -> Seq<u8> {
    seq![
        digit(dt.year as int / 1000),
        digit(dt.year as int / 100),
        digit(dt.year as int / 10),
        digit(dt.year as int),
        45u8,
        digit(dt.month as int / 10),
        digit(dt.month as int),
        45u8,
        digit(dt.day as int / 10),
        digit(dt.day as int),
        84u8,
        digit(dt.hour as int / 10),
        digit(dt.hour as int),
        58u8,
        digit(dt.minute as int / 10),
        digit(dt.minute as int),
        58u8,
        digit(dt.second as int / 10),
        digit(dt.second as int),
        if dt.tz_negative {
            45u8
        } else {
            43u8
        },
        digit(dt.tz_minutes as int / 600),
        digit(dt.tz_minutes as int / 60),
        58u8,
        digit((dt.tz_minutes as int % 60) / 10),
        digit(dt.tz_minutes as int),
    ]
}

/// Exec twin of `iso_of`.
pub fn format_iso(dt: &DateTime) -> (r: Vec<u8>)
    ensures
        r@ == iso_of(*dt),
{
    let y1: u8 = 48 + ((dt.year / 1000) % 10) as u8;
    let y2: u8 = 48 + ((dt.year / 100) % 10) as u8;
    let y3: u8 = 48 + ((dt.year / 10) % 10) as u8;
    let y4: u8 = 48 + (dt.year % 10) as u8;
    let mo1: u8 = 48 + (dt.month / 10) % 10;
    let mo2: u8 = 48 + dt.month % 10;
    let d1: u8 = 48 + (dt.day / 10) % 10;
    let d2: u8 = 48 + dt.day % 10;
    let h1: u8 = 48 + (dt.hour / 10) % 10;
    let h2: u8 = 48 + dt.hour % 10;
    let mi1: u8 = 48 + (dt.minute / 10) % 10;
    let mi2: u8 = 48 + dt.minute % 10;
    let s1: u8 = 48 + (dt.second / 10) % 10;
    let s2: u8 = 48 + dt.second % 10;
    let sign: u8 = if dt.tz_negative {
        45
    } else {
        43
    };
    let z1: u8 = 48 + ((dt.tz_minutes / 600) % 10) as u8;
    let z2: u8 = 48 + ((dt.tz_minutes / 60) % 10) as u8;
    let z3: u8 = 48 + (((dt.tz_minutes % 60) / 10) % 10) as u8;
    let z4: u8 = 48 + (dt.tz_minutes % 10) as u8;
    let out: Vec<u8> = vec![
        y1, y2, y3, y4, 45, mo1, mo2, 45, d1, d2, 84, h1, h2, 58, mi1, mi2, 58, s1, s2, sign, z1,
        z2, 58, z3, z4,
    ];
    proof {
        assert(out@ =~= iso_of(*dt));
    }
    out
}

} // verus!
