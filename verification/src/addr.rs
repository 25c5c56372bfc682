use vstd::prelude::*;
use vstd::slice::slice_subrange;

use crate::bytes::{find_from, find_byte, is_wsp, lemma_find_from_is, lemma_trim_id,
    lemma_trim_end_take, lemma_trim_start_skip, trim, trim_spec};
use crate::decode::{decode_unstructured, decode_unstructured_spec};
use crate::model::{addr_view, addrs_view, lemma_addrs_view_index, lemma_addrs_view_len,
    lemma_addrs_view_push, Address, AddrView};

verus! {

/// The scanner state while walking an address header: inside a quoted
/// string, comment (parenthesis) depth, angle-bracket depth, and whether a
/// group (`name: ... ;`) is open.
#[derive(Clone, Copy, Debug, PartialEq, Eq, Structural)]
pub struct ScanSt {
    pub q: bool,
    pub par: usize,
    pub ang: usize,
    pub grp: bool,
}

pub open spec fn st_init() -> ScanSt {
    ScanSt { q: false, par: 0, ang: 0, grp: false }
}

pub fn st_init_exec() -> (r: ScanSt)
    ensures
        r == st_init(),
{
    ScanSt { q: false, par: 0, ang: 0, grp: false }
}

/// Is the scanner outside every quote, comment, angle bracket and group?
pub open spec fn st_neutral(st: ScanSt) -> bool {
    !st.q && st.par == 0 && st.ang == 0 && !st.grp
}

/// One scanner step.
pub open spec fn st_next(st: ScanSt, b: u8) -> ScanSt {
    if st.q {
        if b == 34 {
            ScanSt { q: false, par: st.par, ang: st.ang, grp: st.grp }
        } else {
            st
        }
    } else if b == 34 {
        ScanSt { q: true, par: st.par, ang: st.ang, grp: st.grp }
    } else if b == 40 {
        if st.par < usize::MAX {
            ScanSt { q: st.q, par: (st.par + 1) as usize, ang: st.ang, grp: st.grp }
        } else {
            st
        }
    } else if b == 41 {
        if st.par > 0 {
            ScanSt { q: st.q, par: (st.par - 1) as usize, ang: st.ang, grp: st.grp }
        } else {
            st
        }
    } else if st.par > 0 {
        st
    } else if b == 60 {
        if st.ang < usize::MAX {
            ScanSt { q: st.q, par: st.par, ang: (st.ang + 1) as usize, grp: st.grp }
        } else {
            st
        }
    } else if b == 62 {
        if st.ang > 0 {
            ScanSt { q: st.q, par: st.par, ang: (st.ang - 1) as usize, grp: st.grp }
        } else {
            st
        }
    } else if b == 58 && st.ang == 0 && !st.grp {
        ScanSt { q: st.q, par: st.par, ang: st.ang, grp: true }
    } else if b == 59 && st.ang == 0 {
        ScanSt { q: st.q, par: st.par, ang: st.ang, grp: false }
    } else {
        st
    }
}

pub fn st_next_exec(st: ScanSt, b: u8) -> (r: ScanSt)
    ensures
        r == st_next(st, b),
{
    if st.q {
        if b == 34 {
            ScanSt { q: false, par: st.par, ang: st.ang, grp: st.grp }
        } else {
            st
        }
    } else if b == 34 {
        ScanSt { q: true, par: st.par, ang: st.ang, grp: st.grp }
    } else if b == 40 {
        if st.par < usize::MAX {
            ScanSt { q: st.q, par: st.par + 1, ang: st.ang, grp: st.grp }
        } else {
            st
        }
    } else if b == 41 {
        if st.par > 0 {
            ScanSt { q: st.q, par: st.par - 1, ang: st.ang, grp: st.grp }
        } else {
            st
        }
    } else if st.par > 0 {
        st
    } else if b == 60 {
        if st.ang < usize::MAX {
            ScanSt { q: st.q, par: st.par, ang: st.ang + 1, grp: st.grp }
        } else {
            st
        }
    } else if b == 62 {
        if st.ang > 0 {
            ScanSt { q: st.q, par: st.par, ang: st.ang - 1, grp: st.grp }
        } else {
            st
        }
    } else if b == 58 && st.ang == 0 && !st.grp {
        ScanSt { q: st.q, par: st.par, ang: st.ang, grp: true }
    } else if b == 59 && st.ang == 0 {
        ScanSt { q: st.q, par: st.par, ang: st.ang, grp: false }
    } else {
        st
    }
}

/// The first index at or after `i` where the scanner, started in state `st`,
/// sees byte `t` in neutral position; `s.len()` when there is none.
pub open spec fn scan_find(s: Seq<u8>, i: int, st: ScanSt, t: u8) -> int
    decreases s.len() - i when 0 <= i <= s.len()
{
    if i >= s.len() {
        s.len() as int
    } else if st_neutral(st) && s[i] == t {
        i
    } else {
        scan_find(s, i + 1, st_next(st, s[i]), t)
    }
}

pub proof fn lemma_scan_find_bounds(s: Seq<u8>, i: int, st: ScanSt, t: u8)
    requires
        0 <= i <= s.len(),
    ensures
        i <= scan_find(s, i, st, t) <= s.len(),
    decreases s.len() - i,
{
    if i < s.len() && !(st_neutral(st) && s[i] == t) {
        lemma_scan_find_bounds(s, i + 1, st_next(st, s[i]), t);
    }
}

/// Exec search matching `scan_find`.
pub fn scan_find_exec(s: &[u8], i: usize, st: ScanSt, t: u8) -> (r: usize)
    requires
        i <= s@.len(),
    ensures
        r == scan_find(s@, i as int, st, t),
        i <= r <= s@.len(),
{
    proof {
        lemma_scan_find_bounds(s@, i as int, st, t);
    }
    let mut j: usize = i;
    let mut cur: ScanSt = st;
    loop
        invariant
            i <= j <= s@.len(),
            scan_find(s@, i as int, st, t) == scan_find(s@, j as int, cur, t),
        ensures
            j == scan_find(s@, i as int, st, t),
        decreases s@.len() - j,
    {
        if j >= s.len() {
            break;
        }
        if (cur.q == false && cur.par == 0 && cur.ang == 0 && cur.grp == false) && s[j] == t {
            proof {
                assert(st_neutral(cur));
            }
            break;
        }
        proof {
            assert(!(st_neutral(cur) && s@[j as int] == t));
        }
        cur = st_next_exec(cur, s[j]);
        j += 1;
    }
    j
}

/// The bytes of `s` that lie outside comments, with the parentheses
/// themselves dropped; `par` is the comment depth already open.
pub open spec fn strip_comments_from(s: Seq<u8>, i: int, par: usize) -> Seq<u8>
    decreases s.len() - i when 0 <= i <= s.len()
{
    if i >= s.len() {
        Seq::empty()
    } else if s[i] == 40 {
        strip_comments_from(s, i + 1, if par < usize::MAX { (par + 1) as usize } else { par })
    } else if s[i] == 41 && par > 0 {
        strip_comments_from(s, i + 1, (par - 1) as usize)
    } else if par > 0 {
        strip_comments_from(s, i + 1, par)
    } else {
        seq![s[i]] + strip_comments_from(s, i + 1, par)
    }
}

pub fn strip_comments(s: &[u8]) -> (r: Vec<u8>)
    ensures
        r@ == strip_comments_from(s@, 0, 0),
{
    let mut out: Vec<u8> = Vec::new();
    let mut i: usize = 0;
    let mut par: usize = 0;
    while i < s.len()
        invariant
            0 <= i <= s@.len(),
            strip_comments_from(s@, 0, 0) == out@ + strip_comments_from(s@, i as int, par),
        decreases s@.len() - i,
    {
        let ghost o0 = out@;
        if s[i] == 40 {
            if par < usize::MAX {
                par += 1;
            }
        } else if s[i] == 41 && par > 0 {
            par -= 1;
        } else if par > 0 {
        } else {
            out.push(s[i]);
            proof {
                assert(o0 + (seq![s@[i as int]] + strip_comments_from(s@, i + 1, par)) =~= out@
                    + strip_comments_from(s@, i + 1, par));
            }
        }
        i += 1;
    }
    proof {
        assert(out@ + strip_comments_from(s@, s@.len() as int, par) =~= out@);
    }
    out
}

/// The display name of a mailbox: a quoted string is taken verbatim
/// (without its quotes); anything else is RFC 2047 decoded.
pub open spec fn display_name(n: Seq<u8>) -> Seq<u8> {
    if n.len() >= 2 && n[0] == 34 && n.last() == 34 {
        n.subrange(1, n.len() - 1)
    } else {
        decode_unstructured_spec(n)
    }
}

pub fn display_name_exec(n: &[u8]) -> (r: Vec<u8>)
    ensures
        r@ == display_name(n@),
{
    if n.len() >= 2 && n[0] == 34 && n[n.len() - 1] == 34 {
        crate::bytes::subvec(n, 1, n.len() - 1)
    } else {
        decode_unstructured(n)
    }
}

/// One mailbox parsed from a list segment: `name <addr>` or a bare `addr`
/// (comments stripped); `None` when no address remains (the entry is
/// skipped, not an error).
pub open spec fn parse_mailbox(seg: Seq<u8>) -> Option<AddrView> {
    let lt = scan_find(seg, 0, st_init(), 60u8);
    if lt < seg.len() {
        let gt = find_from(seg, lt + 1, 62u8);
        let addr = trim_spec(seg.subrange(lt + 1, gt));
        let namepart = trim_spec(seg.subrange(0, lt));
        if addr.len() == 0 {
            Option::None
        } else if namepart.len() == 0 {
            Option::Some(AddrView::Mailbox { name: Option::None, address: addr })
        } else {
            Option::Some(
                AddrView::Mailbox { name: Option::Some(display_name(namepart)), address: addr },
            )
        }
    } else {
        let addr = trim_spec(strip_comments_from(seg, 0, 0));
        if addr.len() == 0 {
            Option::None
        } else {
            Option::Some(AddrView::Mailbox { name: Option::None, address: addr })
        }
    }
}

pub fn parse_mailbox_exec(seg: &[u8]) -> (r: Option<Address>)
    ensures
        match r {
            Option::Some(a) => parse_mailbox(seg@) == Option::Some(addr_view(a)),
            Option::None => parse_mailbox(seg@) is None,
        },
{
    let lt = scan_find_exec(seg, 0, st_init_exec(), 60);
    if lt < seg.len() {
        let gt = find_byte(seg, lt + 1, 62);
        let addr = trim(slice_subrange(seg, lt + 1, gt));
        let namepart = trim(slice_subrange(seg, 0, lt));
        if addr.len() == 0 {
            Option::None
        } else if namepart.len() == 0 {
            let a = Address::Mailbox { name: Option::None, address: addr };
            proof {
                assert(addr_view(a) =~~= parse_mailbox(seg@).unwrap());
            }
            Option::Some(a)
        } else {
            let dn = display_name_exec(namepart.as_slice());
            let a = Address::Mailbox { name: Option::Some(dn), address: addr };
            proof {
                assert(addr_view(a) =~~= parse_mailbox(seg@).unwrap());
            }
            Option::Some(a)
        }
    } else {
        let sc = strip_comments(seg);
        let addr = trim(sc.as_slice());
        if addr.len() == 0 {
            Option::None
        } else {
            let a = Address::Mailbox { name: Option::None, address: addr };
            proof {
                assert(addr_view(a) =~~= parse_mailbox(seg@).unwrap());
            }
            Option::Some(a)
        }
    }
}

/// The mailboxes of a group body, split on neutral commas; unparsable
/// entries are skipped.
pub open spec fn parse_members_from(s: Seq<u8>, i: int) -> Seq<AddrView>
    decreases s.len() - i when 0 <= i <= s.len() via parse_members_dec
{
    let e = scan_find(s, i, st_init(), 44u8);
    let item = parse_mailbox(s.subrange(i, e));
    let rest = if e < s.len() {
        parse_members_from(s, e + 1)
    } else {
        Seq::empty()
    };
    match item {
        Option::Some(a) => seq![a] + rest,
        Option::None => rest,
    }
}

#[via_fn]
proof fn parse_members_dec(s: Seq<u8>, i: int) {
    lemma_scan_find_bounds(s, i, st_init(), 44u8);
}

/// One address-list entry: a group `name: members;` when a neutral colon is
/// present, otherwise a mailbox.
pub open spec fn parse_item(seg: Seq<u8>) -> Option<AddrView> {
    let c = scan_find(seg, 0, st_init(), 58u8);
    if c < seg.len() {
        let name = decode_unstructured_spec(trim_spec(seg.subrange(0, c)));
        let body0 = trim_spec(seg.subrange(c + 1, seg.len() as int));
        let body = if body0.len() > 0 && body0.last() == 59 {
            body0.drop_last()
        } else {
            body0
        };
        Option::Some(AddrView::Group { name, members: parse_members_from(body, 0) })
    } else {
        parse_mailbox(seg)
    }
}

/// The address list parsed from a raw header value, split on neutral
/// commas; empty or unparsable entries are skipped.
pub open spec fn parse_list_from(s: Seq<u8>, i: int) -> Seq<AddrView>
    decreases s.len() - i when 0 <= i <= s.len() via parse_list_dec
{
    let e = scan_find(s, i, st_init(), 44u8);
    let item = parse_item(s.subrange(i, e));
    let rest = if e < s.len() {
        parse_list_from(s, e + 1)
    } else {
        Seq::empty()
    };
    match item {
        Option::Some(a) => seq![a] + rest,
        Option::None => rest,
    }
}

#[via_fn]
proof fn parse_list_dec(s: Seq<u8>, i: int) {
    lemma_scan_find_bounds(s, i, st_init(), 44u8);
}

pub open spec fn parse_address_list_spec(s: Seq<u8>) -> Seq<AddrView> {
    parse_list_from(s, 0)
}

fn parse_members_exec(s: &[u8]) -> (r: Vec<Address>)
    ensures
        addrs_view(r@) == parse_members_from(s@, 0),
{
    let mut out: Vec<Address> = Vec::new();
    let mut i: usize = 0;
    loop
        invariant_except_break
            parse_members_from(s@, 0) =~= addrs_view(out@) + parse_members_from(s@, i as int),
        invariant
            0 <= i <= s@.len(),
        ensures
            addrs_view(out@) == parse_members_from(s@, 0),
        decreases s@.len() - i + 1,
    {
        let e = scan_find_exec(s, i, st_init_exec(), 44);
        let seg = slice_subrange(s, i, e);
        let m = parse_mailbox_exec(seg);
        let ghost o0 = out@;
        let ghost rest = if e < s@.len() {
            parse_members_from(s@, e + 1)
        } else {
            Seq::<AddrView>::empty()
        };
        proof {
            assert(parse_members_from(s@, i as int) == match parse_mailbox(seg@) {
                Option::Some(a) => seq![a] + rest,
                Option::None => rest,
            });
        }
        match m {
            Option::Some(a) => {
                let ghost av = addr_view(a);
                out.push(a);
                proof {
                    lemma_addrs_view_push(o0, out@[o0.len() as int]);
                    assert(addrs_view(out@) =~= addrs_view(o0) + seq![av]);
                    assert(addrs_view(o0) + (seq![av] + rest) =~= (addrs_view(o0) + seq![av])
                        + rest);
                }
            },
            Option::None => {},
        }
        if e >= s.len() {
            proof {
                assert(rest =~= Seq::<AddrView>::empty());
                if parse_mailbox(seg@) is Some {
                    assert(seq![parse_mailbox(seg@).unwrap()] + rest =~= seq![parse_mailbox(
                        seg@,
                    ).unwrap()]);
                }
                assert(parse_members_from(s@, 0) =~= addrs_view(out@));
            }
            break;
        }
        i = e + 1;
    }
    out
}

/// Parse an address-list header value.
pub fn parse_address_list(s: &[u8]) -> (r: Vec<Address>)
    ensures
        addrs_view(r@) == parse_address_list_spec(s@),
{
    let mut out: Vec<Address> = Vec::new();
    let mut i: usize = 0;
    loop
        invariant_except_break
            parse_list_from(s@, 0) =~= addrs_view(out@) + parse_list_from(s@, i as int),
        invariant
            0 <= i <= s@.len(),
        ensures
            addrs_view(out@) == parse_list_from(s@, 0),
        decreases s@.len() - i + 1,
    {
        let e = scan_find_exec(s, i, st_init_exec(), 44);
        let seg = slice_subrange(s, i, e);
        let c = scan_find_exec(seg, 0, st_init_exec(), 58);
        let item: Option<Address> = if c < seg.len() {
            let name = decode_unstructured(trim(slice_subrange(seg, 0, c)).as_slice());
            let mut body = trim(slice_subrange(seg, c + 1, seg.len()));
            if body.len() > 0 && body[body.len() - 1] == 59 {
                let _ = body.pop();
            }
            let members = parse_members_exec(body.as_slice());
            let g = Address::Group { name, members };
            proof {
                assert(addr_view(g) =~~= parse_item(seg@).unwrap());
            }
            Option::Some(g)
        } else {
            let m = parse_mailbox_exec(seg);
            proof {
                assert(parse_item(seg@) == parse_mailbox(seg@));
            }
            m
        };
        let ghost o0 = out@;
        let ghost rest = if e < s@.len() {
            parse_list_from(s@, e + 1)
        } else {
            Seq::<AddrView>::empty()
        };
        proof {
            assert(parse_list_from(s@, i as int) == match parse_item(seg@) {
                Option::Some(a) => seq![a] + rest,
                Option::None => rest,
            });
        }
        match item {
            Option::Some(a) => {
                let ghost av = addr_view(a);
                out.push(a);
                proof {
                    lemma_addrs_view_push(o0, out@[o0.len() as int]);
                    assert(addrs_view(out@) =~= addrs_view(o0) + seq![av]);
                    assert(addrs_view(o0) + (seq![av] + rest) =~= (addrs_view(o0) + seq![av])
                        + rest);
                }
            },
            Option::None => {},
        }
        if e >= s.len() {
            proof {
                assert(rest =~= Seq::<AddrView>::empty());
                if parse_item(seg@) is Some {
                    assert(seq![parse_item(seg@).unwrap()] + rest =~= seq![parse_item(
                        seg@,
                    ).unwrap()]);
                }
                assert(parse_list_from(s@, 0) =~= addrs_view(out@));
            }
            break;
        }
        i = e + 1;
    }
    out
}

/// Canonical rendering of one address: `"name" <addr>` or `addr` for a
/// mailbox, `name: member, member;` for a group.
pub open spec fn render_addr(a: AddrView) -> Seq<u8>
    decreases a,
{
    match a {
        AddrView::Mailbox { name, address } => match name {
            Option::None => address,
            Option::Some(n) => seq![34u8] + n + seq![34u8, 32u8, 60u8] + address + seq![62u8],
        },
        AddrView::Group { name, members } => name + seq![58u8, 32u8] + render_list(members) + seq![
            59u8,
        ],
    }
}

/// Canonical rendering of an address list, comma-separated.
pub open spec fn render_list(s: Seq<AddrView>) -> Seq<u8>
    decreases s,
{
    if s.len() == 0 {
        Seq::empty()
    } else {
        render_addr(s[0]) + render_tail(s.drop_first())
    }
}

pub open spec fn render_tail(s: Seq<AddrView>) -> Seq<u8>
    decreases s,
{
    if s.len() == 0 {
        Seq::empty()
    } else {
        seq![44u8] + render_addr(s[0]) + render_tail(s.drop_first())
    }
}

/// Render one address.
#[verifier::loop_isolation(false)]
pub fn render_one(a: &Address) -> (r: Vec<u8>)
    ensures
        r@ == render_addr(addr_view(*a)),
    decreases *a,
{
    match a {
        Address::Mailbox { name, address } => {
            match name {
                Option::None => crate::body::copy_bytes(address),
                Option::Some(n) => {
                    let mut out: Vec<u8> = Vec::new();
                    out.push(34);
                    crate::bytes::push_all(&mut out, n.as_slice());
                    out.push(34);
                    out.push(32);
                    out.push(60);
                    crate::bytes::push_all(&mut out, address.as_slice());
                    out.push(62);
                    proof {
                        assert(out@ =~= seq![34u8] + n@ + seq![34u8, 32u8, 60u8] + address@
                            + seq![62u8]);
                    }
                    out
                },
            }
        },
        Address::Group { name, members } => {
            let mut out: Vec<u8> = Vec::new();
            crate::bytes::push_all(&mut out, name.as_slice());
            out.push(58);
            out.push(32);
            let ghost ms = addrs_view(members@);
            proof {
                lemma_addrs_view_len(members@);
            }
            let mut i: usize = 0;
            while i < members.len()
                invariant
                    0 <= i <= members@.len(),
                    ms == addrs_view(members@),
                    ms.len() == members@.len(),
                    i == 0 ==> out@ == name@ + seq![58u8, 32u8],
                    i > 0 ==> out@ == name@ + seq![58u8, 32u8] + (render_addr(ms[0]) + rendered_prefix(ms, i as int)),
                decreases members@.len() - i,
            {
                proof {
                    lemma_addrs_view_index(members@, i as int);
                }
                let ghost o0 = out@;
                if i > 0 {
                    out.push(44);
                }
                let piece = render_one(&members[i]);
                crate::bytes::push_all(&mut out, piece.as_slice());
                proof {
                    if i == 0 {
                        assert(rendered_prefix(ms, 1) =~= Seq::<u8>::empty());
                        assert(out@ =~= name@ + seq![58u8, 32u8] + (render_addr(ms[0])
                            + rendered_prefix(ms, 1)));
                    } else {
                        assert(out@ =~= name@ + seq![58u8, 32u8] + (render_addr(ms[0])
                            + (rendered_prefix(ms, i as int) + (seq![44u8] + render_addr(
                            ms[i as int],
                        )))));
                        lemma_rendered_prefix_step(ms, i as int);
                        assert(out@ =~= name@ + seq![58u8, 32u8] + (render_addr(ms[0])
                            + rendered_prefix(ms, i + 1)));
                    }
                }
                i += 1;
            }
            out.push(59);
            proof {
                if members@.len() == 0 {
                    assert(render_list(ms) =~= Seq::<u8>::empty());
                    assert(out@ =~= name@ + seq![58u8, 32u8] + render_list(ms) + seq![59u8]);
                } else {
                    lemma_rendered_prefix_full(ms);
                    assert(out@ =~= name@ + seq![58u8, 32u8] + render_list(ms) + seq![59u8]);
                }
            }
            out
        },
    }
}

/// The separators-and-items text of `s[1..i]` in a rendered list.
pub open spec fn rendered_prefix(s: Seq<AddrView>, i: int) -> Seq<u8>
    decreases i,
{
    if i <= 1 {
        Seq::empty()
    } else {
        rendered_prefix(s, i - 1) + (seq![44u8] + render_addr(s[i - 1]))
    }
}

pub proof fn lemma_rendered_prefix_step(s: Seq<AddrView>, i: int)
    requires
        1 <= i,
    ensures
        rendered_prefix(s, i + 1) == rendered_prefix(s, i) + (seq![44u8] + render_addr(s[i])),
{
}

/// `render_tail` over a suffix equals the prefix-complement of the prefix
/// rendering.
pub proof fn lemma_rendered_prefix_parts(s: Seq<AddrView>, i: int)
    requires
        1 <= i <= s.len(),
    ensures
        rendered_prefix(s, i) + render_tail(s.skip(i)) == render_tail(s.skip(1)),
    decreases i,
{
    if i == 1 {
        assert(rendered_prefix(s, 1) + render_tail(s.skip(1)) =~= render_tail(s.skip(1)));
    } else {
        lemma_rendered_prefix_parts(s, i - 1);
        assert(s.skip(i - 1).len() > 0);
        assert(s.skip(i - 1)[0] == s[i - 1]);
        assert(s.skip(i - 1).drop_first() =~= s.skip(i));
        assert(render_tail(s.skip(i - 1)) == seq![44u8] + render_addr(s[i - 1]) + render_tail(
            s.skip(i),
        ));
        assert(rendered_prefix(s, i) + render_tail(s.skip(i)) =~= rendered_prefix(s, i - 1)
            + render_tail(s.skip(i - 1)));
    }
}

pub proof fn lemma_rendered_prefix_full(s: Seq<AddrView>)
    requires
        s.len() >= 1,
    ensures
        render_addr(s[0]) + rendered_prefix(s, s.len() as int) == render_list(s),
{
    lemma_rendered_prefix_parts(s, s.len() as int);
    assert(s.skip(s.len() as int).len() == 0);
    assert(render_tail(s.skip(s.len() as int)) =~= Seq::<u8>::empty());
    assert(rendered_prefix(s, s.len() as int) + Seq::<u8>::empty() =~= rendered_prefix(
        s,
        s.len() as int,
    ));
    assert(s.drop_first() =~= s.skip(1));
    assert(render_addr(s[0]) + rendered_prefix(s, s.len() as int) =~= render_addr(s[0])
        + render_tail(s.drop_first()));
}

/// Render a whole address list in canonical form.
pub fn render_address_list(list: &Vec<Address>) -> (r: Vec<u8>)
    ensures
        r@ == render_list(addrs_view(list@)),
{
    let ghost vs = addrs_view(list@);
    proof {
        lemma_addrs_view_len(list@);
    }
    let mut out: Vec<u8> = Vec::new();
    let mut i: usize = 0;
    while i < list.len()
        invariant
            0 <= i <= list@.len(),
            vs == addrs_view(list@),
            vs.len() == list@.len(),
            i == 0 ==> out@ == Seq::<u8>::empty(),
            i > 0 ==> out@ == render_addr(vs[0]) + rendered_prefix(vs, i as int),
        decreases list@.len() - i,
    {
        proof {
            lemma_addrs_view_index(list@, i as int);
        }
        if i > 0 {
            out.push(44);
        }
        let piece = render_one(&list[i]);
        crate::bytes::push_all(&mut out, piece.as_slice());
        proof {
            if i == 0 {
                assert(rendered_prefix(vs, 1) =~= Seq::<u8>::empty());
                assert(out@ =~= render_addr(vs[0]) + rendered_prefix(vs, 1));
            } else {
                assert(out@ =~= render_addr(vs[0]) + (rendered_prefix(vs, i as int) + (seq![
                    44u8,
                ] + render_addr(vs[i as int]))));
                lemma_rendered_prefix_step(vs, i as int);
                assert(out@ =~= render_addr(vs[0]) + rendered_prefix(vs, i + 1));
            }
        }
        i += 1;
    }
    proof {
        if list@.len() == 0 {
            assert(render_list(vs) =~= Seq::<u8>::empty());
        } else {
            lemma_rendered_prefix_full(vs);
        }
    }
    out
}

} // verus!

verus! {

/// A byte that may stand in a rendered address without affecting how the
/// list is tokenized: no white space, control, quote, comment, separator or
/// angle-bracket characters.
pub open spec fn safe_addr_byte(b: u8) -> bool {
    &&& !is_wsp(b)
    &&& b != 10
    &&& b != 13
    &&& b != 34
    &&& b != 40
    &&& b != 41
    &&& b != 44
    &&& b != 58
    &&& b != 59
    &&& b != 60
    &&& b != 62
}

/// A mailbox whose canonical rendering re-parses exactly: a non-empty
/// address of safe bytes, and a display name free of double quotes.
pub open spec fn wf_mailbox(a: AddrView) -> bool {
    match a {
        AddrView::Mailbox { name, address } => {
            &&& address.len() > 0
            &&& (forall|k: int| 0 <= k < address.len() ==> safe_addr_byte(#[trigger] address[k]))
            &&& (match name {
                Option::Some(n) => forall|k: int| 0 <= k < n.len() ==> #[trigger] n[k] != 34,
                Option::None => true,
            })
        },
        AddrView::Group { name, members } => false,
    }
}

/// A scan over bytes that neither change the state nor match the target
/// finds nothing there.
pub proof fn lemma_scan_inert(s: Seq<u8>, i: int, j: int, st: ScanSt, t: u8)
    requires
        0 <= i <= j <= s.len(),
        forall|k: int| i <= k < j ==> st_next(st, #[trigger] s[k]) == st && !(st_neutral(st)
            && s[k] == t),
    ensures
        scan_find(s, i, st, t) == scan_find(s, j, st, t),
    decreases j - i,
{
    if i < j {
        assert(st_next(st, s[i]) == st);
        lemma_scan_inert(s, i + 1, j, st, t);
    }
}

/// The quote-open scanner state.
pub open spec fn st_quote() -> ScanSt {
    ScanSt { q: true, par: 0, ang: 0, grp: false }
}

/// The angle-bracket-open scanner state.
pub open spec fn st_angle() -> ScanSt {
    ScanSt { q: false, par: 0, ang: 1, grp: false }
}

/// Scanning the rendering of a well-formed mailbox for a comma or colon
/// finds none.
pub proof fn lemma_scan_render_no_match(a: AddrView, t: u8)
    requires
        wf_mailbox(a),
        t == 44 || t == 58,
    ensures
        scan_find(render_addr(a), 0, st_init(), t) == render_addr(a).len(),
{
    let m = render_addr(a);
    match a {
        AddrView::Mailbox { name, address } => {
            match name {
                Option::None => {
                    assert(m == address);
                    lemma_scan_inert(m, 0, m.len() as int, st_init(), t);
                },
                Option::Some(n) => {
                    let nl = n.len() as int;
                    let al = address.len() as int;
                    assert(m.len() == nl + al + 5);
                    assert(m[0] == 34);
                    assert forall|k: int| 1 <= k < nl + 1 implies #[trigger] m[k] == n[k - 1] by {}
                    assert(m[nl + 1] == 34);
                    assert(m[nl + 2] == 32);
                    assert(m[nl + 3] == 60);
                    assert forall|k: int| nl + 4 <= k < nl + 4 + al implies #[trigger] m[k]
                        == address[k - nl - 4] by {}
                    assert(m[nl + 4 + al] == 62);
                    assert(st_next(st_init(), 34u8) == st_quote());
                    assert(scan_find(m, 0, st_init(), t) == scan_find(m, 1, st_quote(), t));
                    lemma_scan_inert(m, 1, nl + 1, st_quote(), t);
                    assert(st_next(st_quote(), 34u8) == st_init());
                    assert(scan_find(m, nl + 1, st_quote(), t) == scan_find(
                        m,
                        nl + 2,
                        st_init(),
                        t,
                    ));
                    assert(st_next(st_init(), 32u8) == st_init());
                    assert(scan_find(m, nl + 2, st_init(), t) == scan_find(
                        m,
                        nl + 3,
                        st_init(),
                        t,
                    ));
                    assert(st_next(st_init(), 60u8) == st_angle());
                    assert(scan_find(m, nl + 3, st_init(), t) == scan_find(
                        m,
                        nl + 4,
                        st_angle(),
                        t,
                    ));
                    lemma_scan_inert(m, nl + 4, nl + 4 + al, st_angle(), t);
                    assert(st_next(st_angle(), 62u8) == st_init());
                    assert(scan_find(m, nl + 4 + al, st_angle(), t) == scan_find(
                        m,
                        nl + 5 + al,
                        st_init(),
                        t,
                    ));
                },
            }
        },
        AddrView::Group { name, members } => {},
    }
}

/// Parsing the canonical rendering of a well-formed mailbox yields exactly
/// that mailbox: its display name and its address survive the round trip.
pub proof fn lemma_mailbox_round_trip(a: AddrView)
    requires
        wf_mailbox(a),
    ensures
        parse_item(render_addr(a)) == Option::Some(a),
{
    let m = render_addr(a);
    lemma_scan_render_no_match(a, 58u8);
    match a {
        AddrView::Mailbox { name, address } => {
            match name {
                Option::None => {
                    assert(m == address);
                    lemma_scan_inert(m, 0, m.len() as int, st_init(), 60u8);
                    lemma_strip_comments_id(m, 0);
                    assert(m.skip(0) =~= m);
                    lemma_trim_id(m);
                    assert(parse_mailbox(m) == Option::Some(a));
                },
                Option::Some(n) => {
                    let nl = n.len() as int;
                    let al = address.len() as int;
                    assert(m.len() == nl + al + 5);
                    assert(m[0] == 34);
                    assert forall|k: int| 1 <= k < nl + 1 implies #[trigger] m[k] == n[k - 1] by {}
                    assert(m[nl + 1] == 34);
                    assert(m[nl + 2] == 32);
                    assert(m[nl + 3] == 60);
                    assert forall|k: int| nl + 4 <= k < nl + 4 + al implies #[trigger] m[k]
                        == address[k - nl - 4] by {}
                    assert(m[nl + 4 + al] == 62);
                    // The first neutral '<' stands after the quoted name.
                    assert(st_next(st_init(), 34u8) == st_quote());
                    assert(scan_find(m, 0, st_init(), 60u8) == scan_find(m, 1, st_quote(), 60u8));
                    lemma_scan_inert(m, 1, nl + 1, st_quote(), 60u8);
                    assert(st_next(st_quote(), 34u8) == st_init());
                    assert(scan_find(m, nl + 1, st_quote(), 60u8) == scan_find(
                        m,
                        nl + 2,
                        st_init(),
                        60u8,
                    ));
                    assert(st_next(st_init(), 32u8) == st_init());
                    assert(scan_find(m, nl + 2, st_init(), 60u8) == scan_find(
                        m,
                        nl + 3,
                        st_init(),
                        60u8,
                    ));
                    assert(scan_find(m, nl + 3, st_init(), 60u8) == nl + 3);
                    let lt = nl + 3;
                    // The closing '>' ends the address.
                    lemma_find_from_is(m, lt + 1, nl + 4 + al, 62u8);
                    let gt = nl + 4 + al;
                    assert(m.subrange(lt + 1, gt) =~= address);
                    lemma_trim_id(address);
                    let np = m.subrange(0, lt);
                    assert(np.len() == nl + 3);
                    lemma_trim_start_skip(np, 0);
                    assert(np.skip(0) =~= np);
                    lemma_trim_end_take(np, nl + 2);
                    assert(trim_spec(np) == np.take(nl + 2));
                    assert(np.take(nl + 2) =~= seq![34u8] + n + seq![34u8]);
                    let q = seq![34u8] + n + seq![34u8];
                    assert(q.len() >= 2 && q[0] == 34 && q.last() == 34);
                    assert(q.subrange(1, q.len() - 1) =~= n);
                    assert(parse_mailbox(m) == Option::Some(a));
                },
            }
        },
        AddrView::Group { name, members } => {},
    }
}

/// Comments stripped from a comment-free string leave it unchanged.
pub proof fn lemma_strip_comments_id(s: Seq<u8>, i: int)
    requires
        0 <= i <= s.len(),
        forall|k: int| 0 <= k < s.len() ==> #[trigger] s[k] != 40 && s[k] != 41,
    ensures
        strip_comments_from(s, i, 0) == s.skip(i),
    decreases s.len() - i,
{
    if i < s.len() {
        lemma_strip_comments_id(s, i + 1);
        assert(s.skip(i) =~= seq![s[i]] + s.skip(i + 1));
    } else {
        assert(s.skip(i) =~= Seq::<u8>::empty());
    }
}

/// Scanning passes straight through an embedded rendered mailbox: nothing
/// in it matches a neutral comma or colon, and the scanner leaves it in the
/// state it entered with.
pub proof fn lemma_scan_render_pass(s: Seq<u8>, i: int, a: AddrView, t: u8)
    requires
        wf_mailbox(a),
        t == 44 || t == 58,
        0 <= i,
        i + render_addr(a).len() <= s.len(),
        s.subrange(i, i + render_addr(a).len() as int) == render_addr(a),
    ensures
        scan_find(s, i, st_init(), t) == scan_find(
            s,
            i + render_addr(a).len() as int,
            st_init(),
            t,
        ),
{
    let ra = render_addr(a);
    let e = i + ra.len() as int;
    assert forall|k: int| i <= k < e implies #[trigger] s[k] == ra[k - i] by {
        assert(s.subrange(i, e)[k - i] == s[k]);
    }
    match a {
        AddrView::Mailbox { name, address } => {
            match name {
                Option::None => {
                    assert(ra == address);
                    assert forall|k: int| i <= k < e implies st_next(st_init(), #[trigger] s[k])
                        == st_init() && !(st_neutral(st_init()) && s[k] == t) by {
                        assert(safe_addr_byte(address[k - i]));
                    }
                    lemma_scan_inert(s, i, e, st_init(), t);
                },
                Option::Some(n) => {
                    let nl = n.len() as int;
                    let al = address.len() as int;
                    assert(ra.len() == nl + al + 5);
                    assert(ra[0] == 34);
                    assert(ra[nl + 1] == 34);
                    assert(ra[nl + 2] == 32);
                    assert(ra[nl + 3] == 60);
                    assert(ra[nl + 4 + al] == 62);
                    assert(s[i] == 34);
                    assert(s[i + nl + 1] == 34);
                    assert(s[i + nl + 2] == 32);
                    assert(s[i + nl + 3] == 60);
                    assert(s[i + nl + 4 + al] == 62);
                    assert(st_next(st_init(), 34u8) == st_quote());
                    assert(scan_find(s, i, st_init(), t) == scan_find(s, i + 1, st_quote(), t));
                    assert forall|k: int| i + 1 <= k < i + nl + 1 implies st_next(
                        st_quote(),
                        #[trigger] s[k],
                    ) == st_quote() && !(st_neutral(st_quote()) && s[k] == t) by {
                        assert(ra[k - i] == n[k - i - 1]);
                        assert(n[k - i - 1] != 34);
                    }
                    lemma_scan_inert(s, i + 1, i + nl + 1, st_quote(), t);
                    assert(st_next(st_quote(), 34u8) == st_init());
                    assert(scan_find(s, i + nl + 1, st_quote(), t) == scan_find(
                        s,
                        i + nl + 2,
                        st_init(),
                        t,
                    ));
                    assert(st_next(st_init(), 32u8) == st_init());
                    assert(scan_find(s, i + nl + 2, st_init(), t) == scan_find(
                        s,
                        i + nl + 3,
                        st_init(),
                        t,
                    ));
                    assert(st_next(st_init(), 60u8) == st_angle());
                    assert(scan_find(s, i + nl + 3, st_init(), t) == scan_find(
                        s,
                        i + nl + 4,
                        st_angle(),
                        t,
                    ));
                    assert forall|k: int| i + nl + 4 <= k < i + nl + 4 + al implies st_next(
                        st_angle(),
                        #[trigger] s[k],
                    ) == st_angle() && !(st_neutral(st_angle()) && s[k] == t) by {
                        assert(ra[k - i] == address[k - i - nl - 4]);
                        assert(safe_addr_byte(address[k - i - nl - 4]));
                    }
                    lemma_scan_inert(s, i + nl + 4, i + nl + 4 + al, st_angle(), t);
                    assert(st_next(st_angle(), 62u8) == st_init());
                    assert(scan_find(s, i + nl + 4 + al, st_angle(), t) == scan_find(
                        s,
                        i + nl + 5 + al,
                        st_init(),
                        t,
                    ));
                },
            }
        },
        AddrView::Group { name, members } => {},
    }
}

/// The scan does not depend on where the buffer begins.
pub proof fn lemma_scan_find_shift(s: Seq<u8>, d: int, i: int, st: ScanSt, t: u8)
    requires
        0 <= d <= i <= s.len(),
    ensures
        scan_find(s, i, st, t) == d + scan_find(s.skip(d), i - d, st, t),
    decreases s.len() - i,
{
    assert(s.skip(d).len() == s.len() - d);
    if i < s.len() {
        assert(s.skip(d)[i - d] == s[i]);
        if !(st_neutral(st) && s[i] == t) {
            lemma_scan_find_shift(s, d, i + 1, st_next(st, s[i]), t);
        }
    }
}

/// Neither does list parsing.
pub proof fn lemma_parse_list_shift(s: Seq<u8>, i: int)
    requires
        0 <= i <= s.len(),
    ensures
        parse_list_from(s, i) == parse_list_from(s.skip(i), 0),
    decreases s.len() - i,
{
    let e = scan_find(s, i, st_init(), 44u8);
    lemma_scan_find_bounds(s, i, st_init(), 44u8);
    lemma_scan_find_shift(s, i, i, st_init(), 44u8);
    assert(s.skip(i).len() == s.len() - i);
    assert(scan_find(s.skip(i), 0, st_init(), 44u8) == e - i);
    assert(s.subrange(i, e) =~= s.skip(i).subrange(0, e - i));
    if e < s.len() {
        lemma_parse_list_shift(s, e + 1);
        lemma_parse_list_shift(s.skip(i), e - i + 1);
        assert(s.skip(i).skip(e - i + 1) =~= s.skip(e + 1));
    }
}

/// The round-trip law for mailbox lists: a list of well-formed mailboxes,
/// rendered canonically and parsed again, comes back exactly, so in
/// particular the multiset of (name, address) pairs is preserved.
pub proof fn lemma_mailbox_list_round_trip(l: Seq<AddrView>)
    requires
        forall|k: int| 0 <= k < l.len() ==> wf_mailbox(#[trigger] l[k]),
    ensures
        parse_address_list_spec(render_list(l)) == l,
    decreases l.len(),
{
    let m = render_list(l);
    if l.len() == 0 {
        assert(m =~= Seq::<u8>::empty());
        lemma_strip_comments_id(m, 0);
        assert(m.skip(0) =~= m);
        assert(m.subrange(0, 0) =~= m);
        assert(parse_list_from(m, 0) =~= l);
    } else if l.len() == 1 {
        assert(l =~= seq![l[0]]);
        lemma_single_mailbox_list_round_trip(l[0]);
        assert(parse_address_list_spec(render_list(l)) =~= l);
    } else {
        let a = l[0];
        let ra = render_addr(a);
        let rest = l.drop_first();
        assert(rest.len() > 0);
        assert(rest[0] == l[1]);
        assert(render_tail(rest) == seq![44u8] + render_addr(rest[0]) + render_tail(
            rest.drop_first(),
        ));
        assert(render_list(rest) == render_addr(rest[0]) + render_tail(rest.drop_first()));
        assert(m =~= ra + (seq![44u8] + render_list(rest)));
        assert(m.subrange(0, ra.len() as int) =~= ra);
        lemma_scan_render_pass(m, 0, a, 44u8);
        assert(m[ra.len() as int] == 44);
        assert(scan_find(m, ra.len() as int, st_init(), 44u8) == ra.len());
        lemma_mailbox_round_trip(a);
        lemma_parse_list_shift(m, ra.len() as int + 1);
        assert(m.skip(ra.len() as int + 1) =~= render_list(rest));
        assert forall|k: int| 0 <= k < rest.len() implies wf_mailbox(#[trigger] rest[k]) by {
            assert(rest[k] == l[k + 1]);
        }
        lemma_mailbox_list_round_trip(rest);
        assert(parse_list_from(m, 0) =~= seq![a] + rest);
        assert(seq![a] + rest =~= l);
    }
}

/// A one-mailbox list rendered canonically re-parses to the same list.
pub proof fn lemma_single_mailbox_list_round_trip(a: AddrView)
    requires
        wf_mailbox(a),
    ensures
        parse_address_list_spec(render_list(seq![a])) == seq![a],
{
    let m = render_list(seq![a]);
    assert(seq![a][0] == a);
    assert(seq![a].drop_first() =~= Seq::<AddrView>::empty());
    assert(render_tail(Seq::<AddrView>::empty()) =~= Seq::<u8>::empty());
    assert(m =~= render_addr(a));
    lemma_scan_render_no_match(a, 44u8);
    assert(m.subrange(0, m.len() as int) =~= m);
    lemma_mailbox_round_trip(a);
    assert(parse_list_from(m, 0) =~= seq![a]);
}

} // verus!
