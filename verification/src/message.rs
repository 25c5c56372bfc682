use vstd::prelude::*;

use crate::bytes::{lemma_trim_le, lower_seq, subvec, trim, trim_spec};
use crate::headers::parse_value_spec;
use crate::lexer::{lex_message, lex_spec};
use crate::mime::build_spec;
use crate::model::{addr_view, addrs_view, header_field_view, header_value_view, headers_view,
    lemma_addrs_view_push, message_view, part_view, Address, AddrView, DateTime, HeaderField,
    HeaderFieldView, HeaderValue, HeaderValueView, MailError, Message, MessageView};

verus! {

/// The parsed form of one raw header pair.
pub open spec fn field_of(h: (Seq<u8>, Seq<u8>)) -> HeaderFieldView {
    HeaderFieldView { name: h.0, raw: h.1, value: parse_value_spec(lower_seq(h.0), h.1) }
}

pub open spec fn parse_fields_from(hs: Seq<(Seq<u8>, Seq<u8>)>, i: int) -> Seq<HeaderFieldView>
    decreases hs.len() - i when 0 <= i <= hs.len()
{
    if i >= hs.len() {
        Seq::empty()
    } else {
        seq![field_of(hs[i])] + parse_fields_from(hs, i + 1)
    }
}

/// What parsing a whole message yields: every header parsed by its class,
/// the body tree built by the MIME walker, and the two lenient-parsing
/// flags.
pub open spec fn parse_message_spec(s: Seq<u8>) -> MessageView {
    let lx = lex_spec(s);
    let b = build_spec(s, 0);
    MessageView {
        headers: parse_fields_from(lx.headers, 0),
        root: b.0,
        has_separator: lx.has_sep,
        depth_exceeded: b.1,
    }
}

/// Parse one raw message.
pub fn parse_message(s: &[u8]) -> (m: Message)
    ensures
        message_view(m) == parse_message_spec(s@),
{
    let lx = lex_message(s);
    let ghost hs = crate::lexer::raw_headers_view(lx.headers@);
    proof {
        assert(hs.len() == lx.headers@.len());
    }
    let mut fields: Vec<HeaderField> = Vec::new();
    let mut i: usize = 0;
    while i < lx.headers.len()
        invariant
            0 <= i <= lx.headers@.len(),
            hs == crate::lexer::raw_headers_view(lx.headers@),
            hs.len() == lx.headers@.len(),
            headers_view(fields@) + parse_fields_from(hs, i as int) =~= parse_fields_from(hs, 0),
        decreases lx.headers@.len() - i,
    {
        proof {
            assert(hs[i as int] == (lx.headers@[i as int].name@, lx.headers@[i as int].value@));
        }
        let value = crate::headers::parse_value(
            lx.headers[i].name.as_slice(),
            lx.headers[i].value.as_slice(),
        );
        let name = crate::body::copy_bytes(&lx.headers[i].name);
        let raw = crate::body::copy_bytes(&lx.headers[i].value);
        let ghost f0 = fields@;
        fields.push(HeaderField { name, raw, value });
        proof {
            assert(headers_view(fields@) =~= headers_view(f0).push(header_field_view(
                fields@[f0.len() as int],
            )));
            assert(header_field_view(fields@[f0.len() as int]) == field_of(hs[i as int]));
            assert(headers_view(f0) + (seq![field_of(hs[i as int])] + parse_fields_from(
                hs,
                i + 1,
            )) =~= headers_view(fields@) + parse_fields_from(hs, i + 1));
        }
        i += 1;
    }
    proof {
        assert(parse_fields_from(hs, hs.len() as int) =~= Seq::<HeaderFieldView>::empty());
        assert(headers_view(fields@) + Seq::<HeaderFieldView>::empty() =~= headers_view(fields@));
    }
    let (root, depth_exceeded) = crate::mime::build_part(s, 0);
    let m = Message { headers: fields, root, has_separator: lx.has_separator, depth_exceeded };
    proof {
        assert(message_view(m) =~~= parse_message_spec(s@));
    }
    m
}

/// All addresses carried by headers named `lname`, in declaration order
/// (RFC semantics: repeated address headers aggregate).
pub open spec fn addr_values_from(hs: Seq<HeaderFieldView>, i: int, lname: Seq<u8>) -> Seq<
    AddrView,
>
    decreases hs.len() - i when 0 <= i <= hs.len()
{
    if i >= hs.len() {
        Seq::empty()
    } else {
        let rest = addr_values_from(hs, i + 1, lname);
        if lower_seq(hs[i].name) == lname {
            match hs[i].value {
                HeaderValueView::Addresses(a) => a + rest,
                _ => rest,
            }
        } else {
            rest
        }
    }
}

/// The first Unstructured value of a header named `lname`.
pub open spec fn first_text_from(hs: Seq<HeaderFieldView>, i: int, lname: Seq<u8>) -> Option<
    Seq<u8>,
>
    decreases hs.len() - i when 0 <= i <= hs.len()
{
    if i >= hs.len() {
        Option::None
    } else if lower_seq(hs[i].name) == lname && hs[i].value is Unstructured {
        Option::Some(hs[i].value.arrow_Unstructured_0())
    } else {
        first_text_from(hs, i + 1, lname)
    }
}

/// The first identifier list of a header named `lname`.
pub open spec fn first_ids_from(hs: Seq<HeaderFieldView>, i: int, lname: Seq<u8>) -> Option<
    Seq<Seq<u8>>,
>
    decreases hs.len() - i when 0 <= i <= hs.len()
{
    if i >= hs.len() {
        Option::None
    } else if lower_seq(hs[i].name) == lname && hs[i].value is MessageIds {
        Option::Some(hs[i].value.arrow_MessageIds_0())
    } else {
        first_ids_from(hs, i + 1, lname)
    }
}

/// The first parsed date of a header named `lname`.
pub open spec fn first_date_from(hs: Seq<HeaderFieldView>, i: int, lname: Seq<u8>) -> Option<
    DateTime,
>
    decreases hs.len() - i when 0 <= i <= hs.len()
{
    if i >= hs.len() {
        Option::None
    } else if lower_seq(hs[i].name) == lname && hs[i].value is Date {
        Option::Some(hs[i].value.arrow_Date_0())
    } else {
        first_date_from(hs, i + 1, lname)
    }
}

/// A deep copy of an address.
#[verifier::loop_isolation(false)]
pub fn clone_address(a: &Address) -> (r: Address)
    ensures
        addr_view(r) == addr_view(*a),
    decreases *a,
{
    match a {
        Address::Mailbox { name, address } => {
            let n: Option<Vec<u8>> = match name {
                Option::Some(v) => Option::Some(crate::body::copy_bytes(v)),
                Option::None => Option::None,
            };
            let r = Address::Mailbox { name: n, address: crate::body::copy_bytes(address) };
            proof {
                assert(addr_view(r) =~~= addr_view(*a));
            }
            r
        },
        Address::Group { name, members } => {
            let mut ms: Vec<Address> = Vec::new();
            let mut i: usize = 0;
            while i < members.len()
                invariant
                    0 <= i <= members@.len(),
                    addrs_view(ms@) =~= addrs_view(members@.take(i as int)),
                decreases members@.len() - i,
            {
                let c = clone_address(&members[i]);
                let ghost m0 = ms@;
                ms.push(c);
                proof {
                    lemma_addrs_view_push(m0, ms@[m0.len() as int]);
                    lemma_addrs_view_push(members@.take(i as int), members@[i as int]);
                    assert(members@.take(i + 1) =~= members@.take(i as int).push(
                        members@[i as int],
                    ));
                }
                i += 1;
            }
            proof {
                assert(members@.take(members@.len() as int) =~= members@);
            }
            let r = Address::Group { name: crate::body::copy_bytes(name), members: ms };
            proof {
                assert(addr_view(r) =~~= addr_view(*a));
            }
            r
        },
    }
}

/// The address of the first mailbox in the list, groups searched in place.
pub open spec fn first_mailbox(s: Seq<AddrView>) -> Option<Seq<u8>>
    decreases s,
{
    if s.len() == 0 {
        Option::None
    } else {
        match s[0] {
            AddrView::Mailbox { name, address } => Option::Some(address),
            AddrView::Group { name, members } => match first_mailbox(members) {
                Option::Some(a) => Option::Some(a),
                Option::None => first_mailbox(s.drop_first()),
            },
        }
    }
}

/// Exec twin of `first_mailbox`.
#[verifier::loop_isolation(false)]
pub fn first_mailbox_exec(list: &Vec<Address>) -> (r: Option<Vec<u8>>)
    ensures
        match r {
            Option::Some(v) => first_mailbox(addrs_view(list@)) == Option::Some(v@),
            Option::None => first_mailbox(addrs_view(list@)) is None,
        },
    decreases *list,
{
    let ghost vs = addrs_view(list@);
    proof {
        crate::model::lemma_addrs_view_len(list@);
    }
    let mut i: usize = 0;
    proof {
        assert(vs.skip(0) =~= vs);
    }
    while i < list.len()
        invariant
            0 <= i <= list@.len(),
            first_mailbox(vs) == first_mailbox(vs.skip(i as int)),
        decreases list@.len() - i,
    {
        proof {
            crate::model::lemma_addrs_view_index(list@, i as int);
            assert(vs.skip(i as int)[0] == vs[i as int]);
            assert(vs.skip(i as int).drop_first() =~= vs.skip(i + 1));
        }
        match &list[i] {
            Address::Mailbox { name, address } => {
                return Option::Some(crate::body::copy_bytes(address));
            },
            Address::Group { name, members } => {
                match first_mailbox_exec(members) {
                    Option::Some(v) => {
                        return Option::Some(v);
                    },
                    Option::None => {},
                }
            },
        }
        i += 1;
    }
    proof {
        assert(vs.skip(list@.len() as int).len() == 0);
    }
    Option::None
}

/// Reply/forward prefixes (`Re:`, `Fw:`, `Fwd:`, any case) stripped
/// repeatedly from a trimmed subject.
pub open spec fn strip_thread(s: Seq<u8>) -> Seq<u8>
    decreases s.len() via strip_thread_dec
{
    let t = trim_spec(s);
    if t.len() >= 3 && lower_seq(t.take(3)) == seq![114u8, 101u8, 58u8] {
        strip_thread(t.skip(3))
    } else if t.len() >= 4 && lower_seq(t.take(4)) == seq![102u8, 119u8, 100u8, 58u8] {
        strip_thread(t.skip(4))
    } else if t.len() >= 3 && lower_seq(t.take(3)) == seq![102u8, 119u8, 58u8] {
        strip_thread(t.skip(3))
    } else {
        t
    }
}

#[via_fn]
proof fn strip_thread_dec(s: Seq<u8>) {
    lemma_trim_le(s);
}

/// Exec twin of `strip_thread`.
pub fn strip_thread_exec(s: &[u8]) -> (r: Vec<u8>)
    ensures
        r@ == strip_thread(s@),
{
    let re_lit: Vec<u8> = vec![114u8, 101u8, 58u8];
    let fwd_lit: Vec<u8> = vec![102u8, 119u8, 100u8, 58u8];
    let fw_lit: Vec<u8> = vec![102u8, 119u8, 58u8];
    proof {
        assert(re_lit@ =~= seq![114u8, 101u8, 58u8]);
        assert(lower_seq(re_lit@) =~= re_lit@);
        assert(fwd_lit@ =~= seq![102u8, 119u8, 100u8, 58u8]);
        assert(lower_seq(fwd_lit@) =~= fwd_lit@);
        assert(fw_lit@ =~= seq![102u8, 119u8, 58u8]);
        assert(lower_seq(fw_lit@) =~= fw_lit@);
    }
    let mut cur: Vec<u8> = crate::bytes::subvec(s, 0, s.len());
    proof {
        assert(cur@ =~= s@);
    }
    loop
        invariant_except_break
            strip_thread(s@) == strip_thread(cur@),
        invariant
            re_lit@ == seq![114u8, 101u8, 58u8],
            fwd_lit@ == seq![102u8, 119u8, 100u8, 58u8],
            fw_lit@ == seq![102u8, 119u8, 58u8],
            lower_seq(re_lit@) == re_lit@,
            lower_seq(fwd_lit@) == fwd_lit@,
            lower_seq(fw_lit@) == fw_lit@,
        ensures
            cur@ == strip_thread(s@),
        decreases cur@.len(),
    {
        let t = trim(cur.as_slice());
        proof {
            lemma_trim_le(cur@);
        }
        if t.len() >= 3 && crate::bytes::eq_ignore_case(
            vstd::slice::slice_subrange(t.as_slice(), 0, 3),
            re_lit.as_slice(),
        ) {
            proof {
                assert(t@.take(3) =~= t@.subrange(0, 3));
            }
            cur = crate::bytes::subvec(t.as_slice(), 3, t.len());
            proof {
                assert(cur@ =~= t@.skip(3));
            }
        } else if t.len() >= 4 && crate::bytes::eq_ignore_case(
            vstd::slice::slice_subrange(t.as_slice(), 0, 4),
            fwd_lit.as_slice(),
        ) {
            proof {
                assert(t@.take(4) =~= t@.subrange(0, 4));
            }
            cur = crate::bytes::subvec(t.as_slice(), 4, t.len());
            proof {
                assert(cur@ =~= t@.skip(4));
            }
        } else if t.len() >= 3 && crate::bytes::eq_ignore_case(
            vstd::slice::slice_subrange(t.as_slice(), 0, 3),
            fw_lit.as_slice(),
        ) {
            proof {
                assert(t@.take(3) =~= t@.subrange(0, 3));
            }
            cur = crate::bytes::subvec(t.as_slice(), 3, t.len());
            proof {
                assert(cur@ =~= t@.skip(3));
            }
        } else {
            proof {
                if t@.len() >= 3 {
                    assert(t@.take(3) =~= t@.subrange(0, 3));
                }
                if t@.len() >= 4 {
                    assert(t@.take(4) =~= t@.subrange(0, 4));
                }
                assert(strip_thread(cur@) == t@);
            }
            cur = t;
            break;
        }
    }
    cur
}

impl Message {
    /// All addresses of every header named `name` (case-insensitive), in
    /// declaration order.
    pub fn address_field(&self, name: &[u8]) -> (r: Vec<Address>)
        ensures
            addrs_view(r@) == addr_values_from(
                message_view(*self).headers,
                0,
                lower_seq(name@),
            ),
    {
        let ghost hs = message_view(*self).headers;
        let ghost lname = lower_seq(name@);
        proof {
            assert(hs.len() == self.headers@.len());
        }
        let mut out: Vec<Address> = Vec::new();
        let mut i: usize = 0;
        while i < self.headers.len()
            invariant
                0 <= i <= self.headers@.len(),
                hs == message_view(*self).headers,
                lname == lower_seq(name@),
                hs.len() == self.headers@.len(),
                addrs_view(out@) + addr_values_from(hs, i as int, lname) =~= addr_values_from(
                    hs,
                    0,
                    lname,
                ),
            decreases self.headers@.len() - i,
        {
            proof {
                assert(hs[i as int] == header_field_view(self.headers@[i as int]));
            }
            if crate::bytes::eq_ignore_case(self.headers[i].name.as_slice(), name) {
                match &self.headers[i].value {
                    HeaderValue::Addresses(a) => {
                        let ghost av = addrs_view(a@);
                        proof {
                            crate::model::lemma_addrs_view_len(a@);
                        }
                        let mut j: usize = 0;
                        while j < a.len()
                            invariant
                                0 <= j <= a@.len(),
                                av == addrs_view(a@),
                                av.len() == a@.len(),
                                addrs_view(out@) + av.skip(j as int) + addr_values_from(
                                    hs,
                                    i + 1,
                                    lname,
                                ) =~= addr_values_from(hs, 0, lname),
                            decreases a@.len() - j,
                        {
                            let c = clone_address(&a[j]);
                            let ghost o0 = out@;
                            out.push(c);
                            proof {
                                crate::model::lemma_addrs_view_index(a@, j as int);
                                lemma_addrs_view_push(o0, out@[o0.len() as int]);
                                assert(av.skip(j as int)[0] == av[j as int]);
                                assert(av.skip(j as int).drop_first() =~= av.skip(j + 1));
                                assert(av.skip(j as int) =~= seq![av[j as int]] + av.skip(j + 1));
                                assert(addrs_view(out@) + av.skip(j + 1) =~= addrs_view(o0)
                                    + av.skip(j as int));
                            }
                            j += 1;
                        }
                        proof {
                            assert(av.skip(a@.len() as int).len() == 0);
                            assert(addrs_view(out@) + av.skip(a@.len() as int) =~= addrs_view(
                                out@,
                            ));
                        }
                    },
                    _ => {},
                }
            }
            i += 1;
        }
        proof {
            assert(addr_values_from(hs, hs.len() as int, lname) =~= Seq::<AddrView>::empty());
            assert(addrs_view(out@) + Seq::<AddrView>::empty() =~= addrs_view(out@));
        }
        out
    }

    /// The first Unstructured value of the header `name`.
    pub fn first_text(&self, name: &[u8]) -> (r: Option<Vec<u8>>)
        ensures
            match r {
                Option::Some(v) => first_text_from(
                    message_view(*self).headers,
                    0,
                    lower_seq(name@),
                ) == Option::Some(v@),
                Option::None => first_text_from(
                    message_view(*self).headers,
                    0,
                    lower_seq(name@),
                ) is None,
            },
    {
        let ghost hs = message_view(*self).headers;
        let ghost lname = lower_seq(name@);
        proof {
            assert(hs.len() == self.headers@.len());
        }
        let mut i: usize = 0;
        while i < self.headers.len()
            invariant
                0 <= i <= self.headers@.len(),
                hs == message_view(*self).headers,
                lname == lower_seq(name@),
                hs.len() == self.headers@.len(),
                first_text_from(hs, 0, lname) == first_text_from(hs, i as int, lname),
            decreases self.headers@.len() - i,
        {
            proof {
                assert(hs[i as int] == header_field_view(self.headers@[i as int]));
            }
            if crate::bytes::eq_ignore_case(self.headers[i].name.as_slice(), name) {
                match &self.headers[i].value {
                    HeaderValue::Unstructured(v) => {
                        return Option::Some(crate::body::copy_bytes(v));
                    },
                    _ => {},
                }
            }
            i += 1;
        }
        Option::None
    }

    /// The first identifier of the first MessageIds value of header `name`.
    pub fn first_id(&self, name: &[u8]) -> (r: Option<Vec<u8>>)
        ensures
            match r {
                Option::Some(v) => {
                    &&& first_ids_from(message_view(*self).headers, 0, lower_seq(name@))
                        matches Option::Some(l)
                    &&& l.len() > 0 && l[0] == v@
                },
                Option::None => match first_ids_from(
                    message_view(*self).headers,
                    0,
                    lower_seq(name@),
                ) {
                    Option::Some(l) => l.len() == 0,
                    Option::None => true,
                },
            },
    {
        let ghost hs = message_view(*self).headers;
        let ghost lname = lower_seq(name@);
        proof {
            assert(hs.len() == self.headers@.len());
        }
        let mut i: usize = 0;
        while i < self.headers.len()
            invariant
                0 <= i <= self.headers@.len(),
                hs == message_view(*self).headers,
                lname == lower_seq(name@),
                hs.len() == self.headers@.len(),
                first_ids_from(hs, 0, lname) == first_ids_from(hs, i as int, lname),
            decreases self.headers@.len() - i,
        {
            proof {
                assert(hs[i as int] == header_field_view(self.headers@[i as int]));
            }
            if crate::bytes::eq_ignore_case(self.headers[i].name.as_slice(), name) {
                match &self.headers[i].value {
                    HeaderValue::MessageIds(l) => {
                        proof {
                            assert(crate::model::vecs_view(l@).len() == l@.len());
                        }
                        if l.len() > 0 {
                            return Option::Some(crate::body::copy_bytes(&l[0]));
                        } else {
                            return Option::None;
                        }
                    },
                    _ => {},
                }
            }
            i += 1;
        }
        Option::None
    }

    /// The first parsed date of the header `name`.
    pub fn first_date(&self, name: &[u8]) -> (r: Option<DateTime>)
        ensures
            r == first_date_from(message_view(*self).headers, 0, lower_seq(name@)),
    {
        let ghost hs = message_view(*self).headers;
        let ghost lname = lower_seq(name@);
        proof {
            assert(hs.len() == self.headers@.len());
        }
        let mut i: usize = 0;
        while i < self.headers.len()
            invariant
                0 <= i <= self.headers@.len(),
                hs == message_view(*self).headers,
                lname == lower_seq(name@),
                hs.len() == self.headers@.len(),
                first_date_from(hs, 0, lname) == first_date_from(hs, i as int, lname),
            decreases self.headers@.len() - i,
        {
            proof {
                assert(hs[i as int] == header_field_view(self.headers@[i as int]));
            }
            if crate::bytes::eq_ignore_case(self.headers[i].name.as_slice(), name) {
                match &self.headers[i].value {
                    HeaderValue::Date(d) => {
                        return Option::Some(*d);
                    },
                    _ => {},
                }
            }
            i += 1;
        }
        Option::None
    }

    /// The decoded Subject text, if a Subject header is present.
    pub fn subject(&self) -> (r: Option<Vec<u8>>)
        ensures
            match r {
                Option::Some(v) => first_text_from(
                    message_view(*self).headers,
                    0,
                    seq![115u8, 117u8, 98u8, 106u8, 101u8, 99u8, 116u8],
                ) == Option::Some(v@),
                Option::None => first_text_from(
                    message_view(*self).headers,
                    0,
                    seq![115u8, 117u8, 98u8, 106u8, 101u8, 99u8, 116u8],
                ) is None,
            },
    {
        let subj: Vec<u8> = vec![115u8, 117u8, 98u8, 106u8, 101u8, 99u8, 116u8];
        proof {
            assert(subj@ =~= seq![115u8, 117u8, 98u8, 106u8, 101u8, 99u8, 116u8]);
            assert(lower_seq(subj@) =~= subj@);
        }
        self.first_text(subj.as_slice())
    }

    /// The first Message-ID identifier, if present.
    pub fn message_id(&self) -> (r: Option<Vec<u8>>)
        ensures
            match r {
                Option::Some(v) => {
                    &&& first_ids_from(
                        message_view(*self).headers,
                        0,
                        seq![109u8, 101u8, 115u8, 115u8, 97u8, 103u8, 101u8, 45u8, 105u8, 100u8],
                    ) matches Option::Some(l)
                    &&& l.len() > 0 && l[0] == v@
                },
                Option::None => match first_ids_from(
                    message_view(*self).headers,
                    0,
                    seq![109u8, 101u8, 115u8, 115u8, 97u8, 103u8, 101u8, 45u8, 105u8, 100u8],
                ) {
                    Option::Some(l) => l.len() == 0,
                    Option::None => true,
                },
            },
    {
        let mid: Vec<u8> = vec![109u8, 101u8, 115u8, 115u8, 97u8, 103u8, 101u8, 45u8, 105u8, 100u8];
        proof {
            assert(mid@ =~= seq![109u8, 101u8, 115u8, 115u8, 97u8, 103u8, 101u8, 45u8, 105u8, 100u8]);
            assert(lower_seq(mid@) =~= mid@);
        }
        self.first_id(mid.as_slice())
    }

    /// The parsed Date header, absent when missing or unparsable.
    pub fn date(&self) -> (r: Option<DateTime>)
        ensures
            r == first_date_from(message_view(*self).headers, 0, seq![100u8, 97u8, 116u8, 101u8]),
    {
        let d: Vec<u8> = vec![100u8, 97u8, 116u8, 101u8];
        proof {
            assert(d@ =~= seq![100u8, 97u8, 116u8, 101u8]);
            assert(lower_seq(d@) =~= d@);
        }
        self.first_date(d.as_slice())
    }

    /// The subject with reply/forward prefixes stripped.
    pub fn thread_name(&self) -> (r: Option<Vec<u8>>)
        ensures
            match r {
                Option::Some(v) => {
                    &&& first_text_from(
                        message_view(*self).headers,
                        0,
                        seq![115u8, 117u8, 98u8, 106u8, 101u8, 99u8, 116u8],
                    ) matches Option::Some(t)
                    &&& v@ == strip_thread(t)
                },
                Option::None => first_text_from(
                    message_view(*self).headers,
                    0,
                    seq![115u8, 117u8, 98u8, 106u8, 101u8, 99u8, 116u8],
                ) is None,
            },
    {
        match self.subject() {
            Option::Some(t) => Option::Some(strip_thread_exec(t.as_slice())),
            Option::None => Option::None,
        }
    }

    /// The return address: the first mailbox of Reply-To, else of From,
    /// else of Sender.
    pub fn return_address(&self) -> (r: Option<Vec<u8>>)
        ensures
            match r {
                Option::Some(v) => Option::Some(v@) == return_address_spec(message_view(*self)),
                Option::None => return_address_spec(message_view(*self)) is None,
            },
    {
        let rt: Vec<u8> = vec![114u8, 101u8, 112u8, 108u8, 121u8, 45u8, 116u8, 111u8];
        let fr: Vec<u8> = vec![102u8, 114u8, 111u8, 109u8];
        let se: Vec<u8> = vec![115u8, 101u8, 110u8, 100u8, 101u8, 114u8];
        proof {
            assert(rt@ =~= seq![114u8, 101u8, 112u8, 108u8, 121u8, 45u8, 116u8, 111u8]);
            assert(lower_seq(rt@) =~= rt@);
            assert(fr@ =~= seq![102u8, 114u8, 111u8, 109u8]);
            assert(lower_seq(fr@) =~= fr@);
            assert(se@ =~= seq![115u8, 101u8, 110u8, 100u8, 101u8, 114u8]);
            assert(lower_seq(se@) =~= se@);
        }
        let a = self.address_field(rt.as_slice());
        match first_mailbox_exec(&a) {
            Option::Some(v) => {
                return Option::Some(v);
            },
            Option::None => {},
        }
        let b = self.address_field(fr.as_slice());
        match first_mailbox_exec(&b) {
            Option::Some(v) => {
                return Option::Some(v);
            },
            Option::None => {},
        }
        let c = self.address_field(se.as_slice());
        first_mailbox_exec(&c)
    }

    /// The non-fatal conditions met while parsing: a missing header/body
    /// separator, and the MIME recursion cap.
    pub fn issues(&self) -> (r: Vec<MailError>)
        ensures
            r@.contains(MailError::MalformedMessage) <==> !message_view(*self).has_separator,
            r@.contains(MailError::MimeDepthExceeded) <==> message_view(*self).depth_exceeded,
    {
        let mut out: Vec<MailError> = Vec::new();
        if !self.has_separator {
            out.push(MailError::MalformedMessage);
        }
        if self.depth_exceeded {
            out.push(MailError::MimeDepthExceeded);
        }
        proof {
            if !self.has_separator && self.depth_exceeded {
                assert(out@ =~= seq![MailError::MalformedMessage, MailError::MimeDepthExceeded]);
                assert(out@[0] == MailError::MalformedMessage);
                assert(out@[1] == MailError::MimeDepthExceeded);
            } else if !self.has_separator {
                assert(out@ =~= seq![MailError::MalformedMessage]);
                assert(out@[0] == MailError::MalformedMessage);
            } else if self.depth_exceeded {
                assert(out@ =~= seq![MailError::MimeDepthExceeded]);
                assert(out@[0] == MailError::MimeDepthExceeded);
            } else {
                assert(out@ =~= Seq::<MailError>::empty());
            }
        }
        out
    }
}

/// The first mailbox of Reply-To, else From, else Sender.
pub open spec fn return_address_spec(mv: MessageView) -> Option<Seq<u8>> {
    match first_mailbox(addr_values_from(mv.headers, 0, seq![114u8, 101u8, 112u8, 108u8, 121u8, 45u8, 116u8, 111u8])) {
        Option::Some(v) => Option::Some(v),
        Option::None => match first_mailbox(addr_values_from(mv.headers, 0, seq![102u8, 114u8, 111u8, 109u8])) {
            Option::Some(v) => Option::Some(v),
            Option::None => first_mailbox(addr_values_from(mv.headers, 0, seq![115u8, 101u8, 110u8, 100u8, 101u8, 114u8])),
        },
    }
}

} // verus!
