use vstd::prelude::*;

use crate::bytes::lower_seq;
use crate::date::iso_of;
use crate::model::{addr_view, addrs_view, header_field_view, header_value_view, message_view,
    vecs_view, Address, AddrView, HeaderFieldView, HeaderValue, HeaderValueView, MailError,
    Message, MessageView};

verus! {

/// An in-memory JSON value: the field projector's output, rendered to text
/// by a collaborator.
pub enum JsonValue {
    JString(Vec<u8>),
    JNumber(usize),
    JArray(Vec<JsonValue>),
    JObject(Vec<(Vec<u8>, JsonValue)>),
}

/// Mathematical model of a `JsonValue`.
#[verifier::ext_equal]
pub enum JsonView {
    JString(Seq<u8>),
    JNumber(usize),
    JArray(Seq<JsonView>),
    JObject(Seq<(Seq<u8>, JsonView)>),
}

pub open spec fn json_view(j: JsonValue) -> JsonView
    decreases j,
{
    match j {
        JsonValue::JString(s) => JsonView::JString(s@),
        JsonValue::JNumber(n) => JsonView::JNumber(n),
        JsonValue::JArray(v) => JsonView::JArray(jsons_view(v@)),
        JsonValue::JObject(o) => JsonView::JObject(jobj_view(o@)),
    }
}

pub open spec fn jsons_view(s: Seq<JsonValue>) -> Seq<JsonView>
    decreases s,
{
    if s.len() == 0 {
        Seq::empty()
    } else {
        seq![json_view(s[0])] + jsons_view(s.drop_first())
    }
}

pub open spec fn jobj_view(s: Seq<(Vec<u8>, JsonValue)>) -> Seq<(Seq<u8>, JsonView)>
    decreases s,
{
    if s.len() == 0 {
        Seq::empty()
    } else {
        seq![(s[0].0@, json_view(s[0].1))] + jobj_view(s.drop_first())
    }
}

pub proof fn lemma_jsons_push(s: Seq<JsonValue>, j: JsonValue)
    ensures
        jsons_view(s.push(j)) == jsons_view(s) + seq![json_view(j)],
    decreases s.len(),
{
    if s.len() == 0 {
        assert(s.push(j)[0] == j);
        assert(s.push(j).drop_first() =~= Seq::<JsonValue>::empty());
        assert(jsons_view(Seq::<JsonValue>::empty()) =~= Seq::<JsonView>::empty());
        assert(jsons_view(s) =~= Seq::<JsonView>::empty());
        assert(jsons_view(s.push(j)) =~= jsons_view(s) + seq![json_view(j)]);
    } else {
        assert(s.push(j)[0] == s[0]);
        assert(s.push(j).drop_first() =~= s.drop_first().push(j));
        lemma_jsons_push(s.drop_first(), j);
        assert(seq![json_view(s[0])] + (jsons_view(s.drop_first()) + seq![json_view(j)]) =~= (
        seq![json_view(s[0])] + jsons_view(s.drop_first())) + seq![json_view(j)]);
        assert(jsons_view(s.push(j)) =~= jsons_view(s) + seq![json_view(j)]);
    }
}

pub proof fn lemma_jobj_push(s: Seq<(Vec<u8>, JsonValue)>, e: (Vec<u8>, JsonValue))
    ensures
        jobj_view(s.push(e)) == jobj_view(s) + seq![(e.0@, json_view(e.1))],
    decreases s.len(),
{
    if s.len() == 0 {
        assert(s.push(e)[0] == e);
        assert(s.push(e).drop_first() =~= Seq::<(Vec<u8>, JsonValue)>::empty());
        assert(jobj_view(Seq::<(Vec<u8>, JsonValue)>::empty()) =~= Seq::<(Seq<u8>, JsonView)>::empty());
        assert(jobj_view(s) =~= Seq::<(Seq<u8>, JsonView)>::empty());
        assert(jobj_view(s.push(e)) =~= jobj_view(s) + seq![(e.0@, json_view(e.1))]);
    } else {
        assert(s.push(e)[0] == s[0]);
        assert(s.push(e).drop_first() =~= s.drop_first().push(e));
        lemma_jobj_push(s.drop_first(), e);
        assert(seq![(s[0].0@, json_view(s[0].1))] + (jobj_view(s.drop_first()) + seq![
            (e.0@, json_view(e.1)),
        ]) =~= (seq![(s[0].0@, json_view(s[0].1))] + jobj_view(s.drop_first())) + seq![
            (e.0@, json_view(e.1)),
        ]);
        assert(jobj_view(s.push(e)) =~= jobj_view(s) + seq![(e.0@, json_view(e.1))]);
    }
}

pub open spec fn key_name() -> Seq<u8> {
    seq![110u8, 97u8, 109u8, 101u8]
}

pub open spec fn key_address() -> Seq<u8> {
    seq![97u8, 100u8, 100u8, 114u8, 101u8, 115u8, 115u8]
}

pub open spec fn key_addresses() -> Seq<u8> {
    seq![97u8, 100u8, 100u8, 114u8, 101u8, 115u8, 115u8, 101u8, 115u8]
}

/// The JSON shape of one address: a mailbox object with its optional
/// display name, or a group object with its member list.
pub open spec fn addr_json(a: AddrView) -> JsonView
    decreases a,
{
    match a {
        AddrView::Mailbox { name, address } => JsonView::JObject(
            (match name {
                Option::Some(n) => seq![(key_name(), JsonView::JString(n))],
                Option::None => Seq::empty(),
            }) + seq![(key_address(), JsonView::JString(address))],
        ),
        AddrView::Group { name, members } => JsonView::JObject(
            seq![
                (key_name(), JsonView::JString(name)),
                (key_addresses(), JsonView::JArray(addrs_json(members))),
            ],
        ),
    }
}

pub open spec fn addrs_json(s: Seq<AddrView>) -> Seq<JsonView>
    decreases s,
{
    if s.len() == 0 {
        Seq::empty()
    } else {
        seq![addr_json(s[0])] + addrs_json(s.drop_first())
    }
}

/// Exec twin of `addr_json`.
#[verifier::loop_isolation(false)]
pub fn addr_json_exec(a: &Address) -> (r: JsonValue)
    ensures
        json_view(r) == addr_json(addr_view(*a)),
    decreases *a,
{
    match a {
        Address::Mailbox { name, address } => {
            match name {
                Option::Some(n) => {
                    let k: Vec<u8> = vec![110u8, 97u8, 109u8, 101u8];
                    let k2: Vec<u8> = vec![97u8, 100u8, 100u8, 114u8, 101u8, 115u8, 115u8];
                    let mut o: Vec<(Vec<u8>, JsonValue)> = Vec::new();
                    o.push((k, JsonValue::JString(crate::body::copy_bytes(n))));
                    o.push((k2, JsonValue::JString(crate::body::copy_bytes(address))));
                    let r = JsonValue::JObject(o);
                    proof {
                        assert(o@.drop_first().drop_first() =~= Seq::<(Vec<u8>, JsonValue)>::empty());
                        assert(jobj_view(o@.drop_first().drop_first()) =~= Seq::<(Seq<u8>, JsonView)>::empty());
                        assert(o@.drop_first()[0] == o@[1]);
                        assert(jobj_view(o@.drop_first()) =~= seq![(o@[1].0@, json_view(o@[1].1))]);
                        assert(jobj_view(o@) =~= seq![
                            (o@[0].0@, json_view(o@[0].1)),
                            (o@[1].0@, json_view(o@[1].1)),
                        ]);
                        assert(o@[0].0@ =~= key_name());
                        assert(o@[1].0@ =~= key_address());
                        assert(json_view(r) =~~= addr_json(addr_view(*a)));
                    }
                    r
                },
                Option::None => {
                    let k2: Vec<u8> = vec![97u8, 100u8, 100u8, 114u8, 101u8, 115u8, 115u8];
                    let mut o: Vec<(Vec<u8>, JsonValue)> = Vec::new();
                    o.push((k2, JsonValue::JString(crate::body::copy_bytes(address))));
                    let r = JsonValue::JObject(o);
                    proof {
                        assert(o@.drop_first() =~= Seq::<(Vec<u8>, JsonValue)>::empty());
                        assert(jobj_view(o@.drop_first()) =~= Seq::<(Seq<u8>, JsonView)>::empty());
                        assert(jobj_view(o@) =~= seq![(o@[0].0@, json_view(o@[0].1))]);
                        assert(o@[0].0@ =~= key_address());
                        assert(Seq::<(Seq<u8>, JsonView)>::empty() + seq![
                            (key_address(), JsonView::JString(address@)),
                        ] =~= seq![(key_address(), JsonView::JString(address@))]);
                        assert(json_view(r) =~~= addr_json(addr_view(*a)));
                    }
                    r
                },
            }
        },
        Address::Group { name, members } => {
            let mut arr: Vec<JsonValue> = Vec::new();
            let mut i: usize = 0;
            proof {
                crate::model::lemma_addrs_view_len(members@);
            }
            while i < members.len()
                invariant
                    0 <= i <= members@.len(),
                    jsons_view(arr@) =~= addrs_json(addrs_view(members@).take(i as int)),
                decreases members@.len() - i,
            {
                let j = addr_json_exec(&members[i]);
                let ghost a0 = arr@;
                arr.push(j);
                proof {
                    let ghost ms = addrs_view(members@);
                    crate::model::lemma_addrs_view_index(members@, i as int);
                    lemma_jsons_push(a0, arr@[a0.len() as int]);
                    lemma_addrs_json_take_step(ms, i as int);
                }
                i += 1;
            }
            proof {
                assert(addrs_view(members@).take(members@.len() as int) =~= addrs_view(members@));
            }
            let mut o: Vec<(Vec<u8>, JsonValue)> = Vec::new();
            let k: Vec<u8> = vec![110u8, 97u8, 109u8, 101u8];
            o.push((k, JsonValue::JString(crate::body::copy_bytes(name))));
            let k2: Vec<u8> = vec![97u8, 100u8, 100u8, 114u8, 101u8, 115u8, 115u8, 101u8, 115u8];
            o.push((k2, JsonValue::JArray(arr)));
            let r = JsonValue::JObject(o);
            proof {
                assert(o@.drop_first().drop_first() =~= Seq::<(Vec<u8>, JsonValue)>::empty());
                assert(jobj_view(o@.drop_first().drop_first()) =~= Seq::<(Seq<u8>, JsonView)>::empty());
                assert(o@.drop_first()[0] == o@[1]);
                assert(jobj_view(o@.drop_first()) =~= seq![(o@[1].0@, json_view(o@[1].1))]);
                assert(jobj_view(o@) =~= seq![
                    (o@[0].0@, json_view(o@[0].1)),
                    (o@[1].0@, json_view(o@[1].1)),
                ]);
                assert(o@[0].0@ =~= key_name());
                assert(o@[1].0@ =~= key_addresses());
                assert(json_view(r) =~~= addr_json(addr_view(*a)));
            }
            r
        },
    }
}

pub proof fn lemma_addrs_json_take_step(s: Seq<AddrView>, i: int)
    requires
        0 <= i < s.len(),
    ensures
        addrs_json(s.take(i + 1)) == addrs_json(s.take(i)) + seq![addr_json(s[i])],
    decreases i,
{
    if i == 0 {
        assert(s.take(1)[0] == s[0]);
        assert(s.take(1).drop_first() =~= Seq::<AddrView>::empty());
        assert(addrs_json(Seq::<AddrView>::empty()) =~= Seq::<JsonView>::empty());
        assert(s.take(0) =~= Seq::<AddrView>::empty());
        assert(addrs_json(s.take(1)) =~= addrs_json(s.take(0)) + seq![addr_json(s[0])]);
    } else {
        assert(s.take(i + 1)[0] == s[0]);
        assert(s.take(i + 1).drop_first() =~= s.drop_first().take(i));
        assert(s.take(i)[0] == s[0]);
        assert(s.take(i).drop_first() =~= s.drop_first().take(i - 1));
        lemma_addrs_json_take_step(s.drop_first(), i - 1);
        assert(s.drop_first()[i - 1] == s[i]);
        assert(seq![addr_json(s[0])] + (addrs_json(s.drop_first().take(i - 1)) + seq![
            addr_json(s[i]),
        ]) =~= (seq![addr_json(s[0])] + addrs_json(s.drop_first().take(i - 1))) + seq![
            addr_json(s[i]),
        ]);
        assert(addrs_json(s.take(i + 1)) =~= addrs_json(s.take(i)) + seq![addr_json(s[i])]);
    }
}

/// Exec rendering of a whole address list to JSON values.
pub fn addrs_json_exec(list: &Vec<Address>) -> (r: Vec<JsonValue>)
    ensures
        jsons_view(r@) == addrs_json(addrs_view(list@)),
{
    let ghost vs = addrs_view(list@);
    proof {
        crate::model::lemma_addrs_view_len(list@);
    }
    let mut out: Vec<JsonValue> = Vec::new();
    let mut i: usize = 0;
    while i < list.len()
        invariant
            0 <= i <= list@.len(),
            vs == addrs_view(list@),
            vs.len() == list@.len(),
            jsons_view(out@) =~= addrs_json(vs.take(i as int)),
        decreases list@.len() - i,
    {
        let j = addr_json_exec(&list[i]);
        let ghost o0 = out@;
        out.push(j);
        proof {
            crate::model::lemma_addrs_view_index(list@, i as int);
            lemma_jsons_push(o0, out@[o0.len() as int]);
            lemma_addrs_json_take_step(vs, i as int);
        }
        i += 1;
    }
    proof {
        assert(vs.take(list@.len() as int) =~= vs);
    }
    out
}

/// The JSON strings of a token or identifier list.
pub open spec fn strs_json(s: Seq<Seq<u8>>) -> Seq<JsonView>
    decreases s,
{
    if s.len() == 0 {
        Seq::empty()
    } else {
        seq![JsonView::JString(s[0])] + strs_json(s.drop_first())
    }
}

pub fn strs_json_exec(list: &Vec<Vec<u8>>) -> (r: Vec<JsonValue>)
    ensures
        jsons_view(r@) == strs_json(vecs_view(list@)),
{
    let ghost vs = vecs_view(list@);
    proof {
        assert(vs.len() == list@.len());
    }
    let mut out: Vec<JsonValue> = Vec::new();
    let mut i: usize = 0;
    while i < list.len()
        invariant
            0 <= i <= list@.len(),
            vs == vecs_view(list@),
            vs.len() == list@.len(),
            jsons_view(out@) =~= strs_json(vs.take(i as int)),
        decreases list@.len() - i,
    {
        let j = JsonValue::JString(crate::body::copy_bytes(&list[i]));
        let ghost o0 = out@;
        out.push(j);
        proof {
            lemma_jsons_push(o0, out@[o0.len() as int]);
            lemma_strs_json_take_step(vs, i as int);
        }
        i += 1;
    }
    proof {
        assert(vs.take(list@.len() as int) =~= vs);
    }
    out
}

pub proof fn lemma_strs_json_take_step(s: Seq<Seq<u8>>, i: int)
    requires
        0 <= i < s.len(),
    ensures
        strs_json(s.take(i + 1)) == strs_json(s.take(i)) + seq![JsonView::JString(s[i])],
    decreases i,
{
    if i == 0 {
        assert(s.take(1)[0] == s[0]);
        assert(s.take(1).drop_first() =~= Seq::<Seq<u8>>::empty());
        assert(strs_json(Seq::<Seq<u8>>::empty()) =~= Seq::<JsonView>::empty());
        assert(s.take(0) =~= Seq::<Seq<u8>>::empty());
        assert(strs_json(s.take(1)) =~= strs_json(s.take(0)) + seq![JsonView::JString(s[0])]);
    } else {
        assert(s.take(i + 1)[0] == s[0]);
        assert(s.take(i + 1).drop_first() =~= s.drop_first().take(i));
        assert(s.take(i)[0] == s[0]);
        assert(s.take(i).drop_first() =~= s.drop_first().take(i - 1));
        lemma_strs_json_take_step(s.drop_first(), i - 1);
        assert(s.drop_first()[i - 1] == s[i]);
        assert(seq![JsonView::JString(s[0])] + (strs_json(s.drop_first().take(i - 1)) + seq![
            JsonView::JString(s[i]),
        ]) =~= (seq![JsonView::JString(s[0])] + strs_json(s.drop_first().take(i - 1))) + seq![
            JsonView::JString(s[i]),
        ]);
        assert(strs_json(s.take(i + 1)) =~= strs_json(s.take(i)) + seq![JsonView::JString(s[i])]);
    }
}

/// The JSON value of one header value; `None` for empty values, which the
/// projection omits.
pub open spec fn value_json(v: HeaderValueView) -> Option<JsonView> {
    match v {
        HeaderValueView::Addresses(a) => if a.len() > 0 {
            Option::Some(JsonView::JArray(addrs_json(a)))
        } else {
            Option::None
        },
        HeaderValueView::Date(d) => Option::Some(JsonView::JString(iso_of(d))),
        HeaderValueView::Tokens(t) => if t.len() > 0 {
            Option::Some(JsonView::JArray(strs_json(t)))
        } else {
            Option::None
        },
        HeaderValueView::MessageIds(t) => if t.len() > 0 {
            Option::Some(JsonView::JArray(strs_json(t)))
        } else {
            Option::None
        },
        HeaderValueView::Unstructured(u) => if u.len() > 0 {
            Option::Some(JsonView::JString(u))
        } else {
            Option::None
        },
        HeaderValueView::Empty => Option::None,
    }
}

pub fn value_json_exec(v: &HeaderValue) -> (r: Option<JsonValue>)
    ensures
        match r {
            Option::Some(j) => value_json(header_value_view(*v)) == Option::Some(json_view(j)),
            Option::None => value_json(header_value_view(*v)) is None,
        },
{
    match v {
        HeaderValue::Addresses(a) => {
            proof {
                crate::model::lemma_addrs_view_len(a@);
            }
            if a.len() > 0 {
                Option::Some(JsonValue::JArray(addrs_json_exec(a)))
            } else {
                Option::None
            }
        },
        HeaderValue::Date(d) => Option::Some(JsonValue::JString(crate::date::format_iso(d))),
        HeaderValue::Tokens(t) => {
            proof {
                assert(vecs_view(t@).len() == t@.len());
            }
            if t.len() > 0 {
                Option::Some(JsonValue::JArray(strs_json_exec(t)))
            } else {
                Option::None
            }
        },
        HeaderValue::MessageIds(t) => {
            proof {
                assert(vecs_view(t@).len() == t@.len());
            }
            if t.len() > 0 {
                Option::Some(JsonValue::JArray(strs_json_exec(t)))
            } else {
                Option::None
            }
        },
        HeaderValue::Unstructured(u) => {
            if u.len() > 0 {
                Option::Some(JsonValue::JString(crate::body::copy_bytes(u)))
            } else {
                Option::None
            }
        },
        HeaderValue::Empty => Option::None,
    }
}

/// The first value of a header named `lname`.
pub open spec fn first_value_from(hs: Seq<HeaderFieldView>, i: int, lname: Seq<u8>) -> Option<
    HeaderValueView,
>
    decreases hs.len() - i when 0 <= i <= hs.len()
{
    if i >= hs.len() {
        Option::None
    } else if lower_seq(hs[i].name) == lname {
        Option::Some(hs[i].value)
    } else {
        first_value_from(hs, i + 1, lname)
    }
}

/// The JSON value that a header contributes to the projection, when any.
pub open spec fn hdr_json_of(hs: Seq<HeaderFieldView>, lname: Seq<u8>) -> Option<JsonView> {
    match first_value_from(hs, 0, lname) {
        Option::Some(hv) => value_json(hv),
        Option::None => Option::None,
    }
}

/// One optional projection entry from an aggregated address header.
pub open spec fn addr_entry(hs: Seq<HeaderFieldView>, key: Seq<u8>, lname: Seq<u8>) -> Seq<
    (Seq<u8>, JsonView),
> {
    let vs = crate::message::addr_values_from(hs, 0, lname);
    if vs.len() == 0 {
        Seq::empty()
    } else {
        seq![(key, JsonView::JArray(addrs_json(vs)))]
    }
}

/// One optional projection entry from a plain header.
pub open spec fn hdr_entry(hs: Seq<HeaderFieldView>, key: Seq<u8>, lname: Seq<u8>) -> Seq<
    (Seq<u8>, JsonView),
> {
    match hdr_json_of(hs, lname) {
        Option::Some(j) => seq![(key, j)],
        Option::None => Seq::empty(),
    }
}

impl Message {
    /// The JSON value contributed by the first header named `name`, when
    /// it is non-empty.
    pub fn header_json(&self, name: &[u8]) -> (r: Option<JsonValue>)
        ensures
            match r {
                Option::Some(j) => hdr_json_of(message_view(*self).headers, lower_seq(name@))
                    == Option::Some(json_view(j)),
                Option::None => hdr_json_of(message_view(*self).headers, lower_seq(name@))
                    is None,
            },
    {
        let ghost hs = message_view(*self).headers;
        let ghost lname = lower_seq(name@);
        proof {
            assert(hs.len() == self.headers@.len());
        }
        let mut i: usize = 0;
        while i < self.headers.len()
            invariant
                0 <= i <= self.headers@.len(),
                hs == message_view(*self).headers,
                lname == lower_seq(name@),
                hs.len() == self.headers@.len(),
                first_value_from(hs, 0, lname) == first_value_from(hs, i as int, lname),
            decreases self.headers@.len() - i,
        {
            proof {
                assert(hs[i as int] == header_field_view(self.headers@[i as int]));
            }
            if crate::bytes::eq_ignore_case(self.headers[i].name.as_slice(), name) {
                return value_json_exec(&self.headers[i].value);
            }
            i += 1;
        }
        Option::None
    }
}

/// The `k`-th candidate entry of the projection, in output order.
pub open spec fn entry_at(mv: MessageView, k: int) -> Seq<(Seq<u8>, JsonView)> {
    if k < 0 {
        Seq::empty()
    } else if k == 0 {
        addr_entry(mv.headers, seq![115u8, 101u8, 110u8, 100u8, 101u8, 114u8], seq![115u8, 101u8, 110u8, 100u8, 101u8, 114u8])
    } else if k == 1 {
        addr_entry(mv.headers, seq![116u8, 111u8], seq![116u8, 111u8])
    } else if k == 2 {
        addr_entry(mv.headers, seq![99u8, 99u8], seq![99u8, 99u8])
    } else if k == 3 {
        addr_entry(mv.headers, seq![98u8, 99u8, 99u8], seq![98u8, 99u8, 99u8])
    } else if k == 4 {
        addr_entry(mv.headers, seq![102u8, 114u8, 111u8, 109u8], seq![102u8, 114u8, 111u8, 109u8])
    } else if k == 5 {
        addr_entry(mv.headers, seq![114u8, 101u8, 112u8, 108u8, 121u8, 95u8, 116u8, 111u8], seq![114u8, 101u8, 112u8, 108u8, 121u8, 45u8, 116u8, 111u8])
    } else if k == 6 {
        addr_entry(mv.headers, seq![114u8, 101u8, 115u8, 101u8, 110u8, 116u8, 95u8, 98u8, 99u8, 99u8], seq![114u8, 101u8, 115u8, 101u8, 110u8, 116u8, 45u8, 98u8, 99u8, 99u8])
    } else if k == 7 {
        addr_entry(mv.headers, seq![114u8, 101u8, 115u8, 101u8, 110u8, 116u8, 95u8, 99u8, 99u8], seq![114u8, 101u8, 115u8, 101u8, 110u8, 116u8, 45u8, 99u8, 99u8])
    } else if k == 8 {
        addr_entry(mv.headers, seq![114u8, 101u8, 115u8, 101u8, 110u8, 116u8, 95u8, 102u8, 114u8, 111u8, 109u8], seq![114u8, 101u8, 115u8, 101u8, 110u8, 116u8, 45u8, 102u8, 114u8, 111u8, 109u8])
    } else if k == 9 {
        addr_entry(mv.headers, seq![114u8, 101u8, 115u8, 101u8, 110u8, 116u8, 95u8, 115u8, 101u8, 110u8, 100u8, 101u8, 114u8], seq![114u8, 101u8, 115u8, 101u8, 110u8, 116u8, 45u8, 115u8, 101u8, 110u8, 100u8, 101u8, 114u8])
    } else if k == 10 {
        addr_entry(mv.headers, seq![114u8, 101u8, 115u8, 101u8, 110u8, 116u8, 95u8, 116u8, 111u8], seq![114u8, 101u8, 115u8, 101u8, 110u8, 116u8, 45u8, 116u8, 111u8])
    } else if k == 11 {
        hdr_entry(mv.headers, seq![99u8, 111u8, 109u8, 109u8, 101u8, 110u8, 116u8, 115u8], seq![99u8, 111u8, 109u8, 109u8, 101u8, 110u8, 116u8, 115u8])
    } else if k == 12 {
        hdr_entry(mv.headers, seq![105u8, 110u8, 95u8, 114u8, 101u8, 112u8, 108u8, 121u8, 95u8, 116u8, 111u8], seq![105u8, 110u8, 45u8, 114u8, 101u8, 112u8, 108u8, 121u8, 45u8, 116u8, 111u8])
    } else if k == 13 {
        hdr_entry(mv.headers, seq![107u8, 101u8, 121u8, 119u8, 111u8, 114u8, 100u8, 115u8], seq![107u8, 101u8, 121u8, 119u8, 111u8, 114u8, 100u8, 115u8])
    } else if k == 14 {
        hdr_entry(mv.headers, seq![108u8, 105u8, 115u8, 116u8, 95u8, 97u8, 114u8, 99u8, 104u8, 105u8, 118u8, 101u8], seq![108u8, 105u8, 115u8, 116u8, 45u8, 97u8, 114u8, 99u8, 104u8, 105u8, 118u8, 101u8])
    } else if k == 15 {
        hdr_entry(mv.headers, seq![108u8, 105u8, 115u8, 116u8, 95u8, 104u8, 101u8, 108u8, 112u8], seq![108u8, 105u8, 115u8, 116u8, 45u8, 104u8, 101u8, 108u8, 112u8])
    } else if k == 16 {
        hdr_entry(mv.headers, seq![108u8, 105u8, 115u8, 116u8, 95u8, 105u8, 100u8], seq![108u8, 105u8, 115u8, 116u8, 45u8, 105u8, 100u8])
    } else if k == 17 {
        hdr_entry(mv.headers, seq![108u8, 105u8, 115u8, 116u8, 95u8, 111u8, 119u8, 110u8, 101u8, 114u8], seq![108u8, 105u8, 115u8, 116u8, 45u8, 111u8, 119u8, 110u8, 101u8, 114u8])
    } else if k == 18 {
        hdr_entry(mv.headers, seq![108u8, 105u8, 115u8, 116u8, 95u8, 112u8, 111u8, 115u8, 116u8], seq![108u8, 105u8, 115u8, 116u8, 45u8, 112u8, 111u8, 115u8, 116u8])
    } else if k == 19 {
        hdr_entry(mv.headers, seq![108u8, 105u8, 115u8, 116u8, 95u8, 115u8, 117u8, 98u8, 115u8, 99u8, 114u8, 105u8, 98u8, 101u8], seq![108u8, 105u8, 115u8, 116u8, 45u8, 115u8, 117u8, 98u8, 115u8, 99u8, 114u8, 105u8, 98u8, 101u8])
    } else if k == 20 {
        hdr_entry(mv.headers, seq![108u8, 105u8, 115u8, 116u8, 95u8, 117u8, 110u8, 115u8, 117u8, 98u8, 115u8, 99u8, 114u8, 105u8, 98u8, 101u8], seq![108u8, 105u8, 115u8, 116u8, 45u8, 117u8, 110u8, 115u8, 117u8, 98u8, 115u8, 99u8, 114u8, 105u8, 98u8, 101u8])
    } else if k == 21 {
        hdr_entry(mv.headers, seq![109u8, 105u8, 109u8, 101u8, 95u8, 118u8, 101u8, 114u8, 115u8, 105u8, 111u8, 110u8], seq![109u8, 105u8, 109u8, 101u8, 45u8, 118u8, 101u8, 114u8, 115u8, 105u8, 111u8, 110u8])
    } else if k == 22 {
        hdr_entry(mv.headers, seq![114u8, 101u8, 102u8, 101u8, 114u8, 101u8, 110u8, 99u8, 101u8, 115u8], seq![114u8, 101u8, 102u8, 101u8, 114u8, 101u8, 110u8, 99u8, 101u8, 115u8])
    } else if k == 23 {
        hdr_entry(mv.headers, seq![114u8, 101u8, 116u8, 117u8, 114u8, 110u8, 95u8, 112u8, 97u8, 116u8, 104u8], seq![114u8, 101u8, 116u8, 117u8, 114u8, 110u8, 45u8, 112u8, 97u8, 116u8, 104u8])
    } else if k == 24 {
        match crate::message::first_ids_from(mv.headers, 0, seq![109u8, 101u8, 115u8, 115u8, 97u8, 103u8, 101u8, 45u8, 105u8, 100u8]) {
            Option::Some(l) => if l.len() > 0 {
                seq![(seq![109u8, 101u8, 115u8, 115u8, 97u8, 103u8, 101u8, 95u8, 105u8, 100u8], JsonView::JString(l[0]))]
            } else {
                Seq::empty()
            },
            Option::None => Seq::empty(),
        }
    } else if k == 25 {
        match crate::message::first_text_from(mv.headers, 0, seq![115u8, 117u8, 98u8, 106u8, 101u8, 99u8, 116u8]) {
            Option::Some(t) => seq![(seq![115u8, 117u8, 98u8, 106u8, 101u8, 99u8, 116u8], JsonView::JString(t))],
            Option::None => Seq::empty(),
        }
    } else if k == 26 {
        match crate::message::return_address_spec(mv) {
            Option::Some(a) => seq![(seq![114u8, 101u8, 116u8, 117u8, 114u8, 110u8, 95u8, 97u8, 100u8, 100u8, 114u8, 101u8, 115u8, 115u8], JsonView::JString(a))],
            Option::None => Seq::empty(),
        }
    } else if k == 27 {
        match crate::message::first_text_from(mv.headers, 0, seq![115u8, 117u8, 98u8, 106u8, 101u8, 99u8, 116u8]) {
            Option::Some(t) => seq![
                (seq![116u8, 104u8, 114u8, 101u8, 97u8, 100u8, 95u8, 110u8, 97u8, 109u8, 101u8], JsonView::JString(crate::message::strip_thread(t))),
            ],
            Option::None => Seq::empty(),
        }
    } else if k == 28 {
        seq![
            (
                seq![97u8, 116u8, 116u8, 97u8, 99u8, 104u8, 109u8, 101u8, 110u8, 116u8, 95u8, 99u8, 111u8, 117u8, 110u8, 116u8],
                JsonView::JNumber(crate::model::attachment_sizes(mv.root).len() as usize),
            ),
        ]
    } else if k == 29 {
        seq![
            (
                seq![116u8, 101u8, 120u8, 116u8, 95u8, 98u8, 111u8, 100u8, 121u8, 95u8, 99u8, 111u8, 117u8, 110u8, 116u8],
                JsonView::JNumber(crate::model::text_leaves(mv.root).len() as usize),
            ),
        ]
    } else if k == 30 {
        seq![
            (
                seq![104u8, 116u8, 109u8, 108u8, 95u8, 98u8, 111u8, 100u8, 121u8, 95u8, 99u8, 111u8, 117u8, 110u8, 116u8],
                JsonView::JNumber(crate::model::html_leaves(mv.root).len() as usize),
            ),
        ]
    } else {
        Seq::empty()
    }
}

pub open spec fn entries_upto(mv: MessageView, k: int) -> Seq<(Seq<u8>, JsonView)>
    decreases k,
{
    if k <= 0 {
        Seq::empty()
    } else {
        entries_upto(mv, k - 1) + entry_at(mv, k - 1)
    }
}

/// Every projected field in output order, the required date last.
pub open spec fn project_spec(mv: MessageView) -> Result<Seq<(Seq<u8>, JsonView)>, MailError> {
    match crate::message::first_date_from(mv.headers, 0, seq![100u8, 97u8, 116u8, 101u8]) {
        Option::None => Result::Err(MailError::MissingRequiredField),
        Option::Some(d) => Result::Ok(
            entries_upto(mv, 31) + seq![
                (seq![100u8, 97u8, 116u8, 101u8], JsonView::JString(iso_of(d))),
            ],
        ),
    }
}

/// Projection entries for the first address headers, appended in order.
#[verifier::rlimit(100)]
fn push_addr_entries_a(m: &Message, out: &mut Vec<(Vec<u8>, JsonValue)>)
    requires
        jobj_view(old(out)@) == entries_upto(message_view(*m), 0),
    ensures
        jobj_view(final(out)@) == entries_upto(message_view(*m), 5),
{
    let ghost mv = message_view(*m);
    let kv0: Vec<u8> = vec![115u8, 101u8, 110u8, 100u8, 101u8, 114u8];
    let hn0: Vec<u8> = vec![115u8, 101u8, 110u8, 100u8, 101u8, 114u8];
    proof {
        assert(kv0@ =~= seq![115u8, 101u8, 110u8, 100u8, 101u8, 114u8]);
        assert(hn0@ =~= seq![115u8, 101u8, 110u8, 100u8, 101u8, 114u8]);
        assert(lower_seq(hn0@) =~= hn0@);
    }
    let av0 = m.address_field(hn0.as_slice());
    if av0.len() > 0 {
        let arr = addrs_json_exec(&av0);
        let ghost o0 = out@;
        out.push((kv0, JsonValue::JArray(arr)));
        proof {
            crate::model::lemma_addrs_view_len(av0@);
            lemma_jobj_push(o0, out@[o0.len() as int]);
        }
    } else {
        proof {
            crate::model::lemma_addrs_view_len(av0@);
        }
    }
    proof {
        assert(entries_upto(mv, 1) == entries_upto(mv, 0) + entry_at(mv, 0));
        assert(jobj_view(out@) =~= entries_upto(mv, 1));
    }
    let kv1: Vec<u8> = vec![116u8, 111u8];
    let hn1: Vec<u8> = vec![116u8, 111u8];
    proof {
        assert(kv1@ =~= seq![116u8, 111u8]);
        assert(hn1@ =~= seq![116u8, 111u8]);
        assert(lower_seq(hn1@) =~= hn1@);
    }
    let av1 = m.address_field(hn1.as_slice());
    if av1.len() > 0 {
        let arr = addrs_json_exec(&av1);
        let ghost o0 = out@;
        out.push((kv1, JsonValue::JArray(arr)));
        proof {
            crate::model::lemma_addrs_view_len(av1@);
            lemma_jobj_push(o0, out@[o0.len() as int]);
        }
    } else {
        proof {
            crate::model::lemma_addrs_view_len(av1@);
        }
    }
    proof {
        assert(entries_upto(mv, 2) == entries_upto(mv, 1) + entry_at(mv, 1));
        assert(jobj_view(out@) =~= entries_upto(mv, 2));
    }
    let kv2: Vec<u8> = vec![99u8, 99u8];
    let hn2: Vec<u8> = vec![99u8, 99u8];
    proof {
        assert(kv2@ =~= seq![99u8, 99u8]);
        assert(hn2@ =~= seq![99u8, 99u8]);
        assert(lower_seq(hn2@) =~= hn2@);
    }
    let av2 = m.address_field(hn2.as_slice());
    if av2.len() > 0 {
        let arr = addrs_json_exec(&av2);
        let ghost o0 = out@;
        out.push((kv2, JsonValue::JArray(arr)));
        proof {
            crate::model::lemma_addrs_view_len(av2@);
            lemma_jobj_push(o0, out@[o0.len() as int]);
        }
    } else {
        proof {
            crate::model::lemma_addrs_view_len(av2@);
        }
    }
    proof {
        assert(entries_upto(mv, 3) == entries_upto(mv, 2) + entry_at(mv, 2));
        assert(jobj_view(out@) =~= entries_upto(mv, 3));
    }
    let kv3: Vec<u8> = vec![98u8, 99u8, 99u8];
    let hn3: Vec<u8> = vec![98u8, 99u8, 99u8];
    proof {
        assert(kv3@ =~= seq![98u8, 99u8, 99u8]);
        assert(hn3@ =~= seq![98u8, 99u8, 99u8]);
        assert(lower_seq(hn3@) =~= hn3@);
    }
    let av3 = m.address_field(hn3.as_slice());
    if av3.len() > 0 {
        let arr = addrs_json_exec(&av3);
        let ghost o0 = out@;
        out.push((kv3, JsonValue::JArray(arr)));
        proof {
            crate::model::lemma_addrs_view_len(av3@);
            lemma_jobj_push(o0, out@[o0.len() as int]);
        }
    } else {
        proof {
            crate::model::lemma_addrs_view_len(av3@);
        }
    }
    proof {
        assert(entries_upto(mv, 4) == entries_upto(mv, 3) + entry_at(mv, 3));
        assert(jobj_view(out@) =~= entries_upto(mv, 4));
    }
    let kv4: Vec<u8> = vec![102u8, 114u8, 111u8, 109u8];
    let hn4: Vec<u8> = vec![102u8, 114u8, 111u8, 109u8];
    proof {
        assert(kv4@ =~= seq![102u8, 114u8, 111u8, 109u8]);
        assert(hn4@ =~= seq![102u8, 114u8, 111u8, 109u8]);
        assert(lower_seq(hn4@) =~= hn4@);
    }
    let av4 = m.address_field(hn4.as_slice());
    if av4.len() > 0 {
        let arr = addrs_json_exec(&av4);
        let ghost o0 = out@;
        out.push((kv4, JsonValue::JArray(arr)));
        proof {
            crate::model::lemma_addrs_view_len(av4@);
            lemma_jobj_push(o0, out@[o0.len() as int]);
        }
    } else {
        proof {
            crate::model::lemma_addrs_view_len(av4@);
        }
    }
    proof {
        assert(entries_upto(mv, 5) == entries_upto(mv, 4) + entry_at(mv, 4));
        assert(jobj_view(out@) =~= entries_upto(mv, 5));
    }
}

/// Projection entries for the remaining address headers.
#[verifier::rlimit(100)]
fn push_addr_entries_b(m: &Message, out: &mut Vec<(Vec<u8>, JsonValue)>)
    requires
        jobj_view(old(out)@) == entries_upto(message_view(*m), 5),
    ensures
        jobj_view(final(out)@) == entries_upto(message_view(*m), 11),
{
    let ghost mv = message_view(*m);
    let kv5: Vec<u8> = vec![114u8, 101u8, 112u8, 108u8, 121u8, 95u8, 116u8, 111u8];
    let hn5: Vec<u8> = vec![114u8, 101u8, 112u8, 108u8, 121u8, 45u8, 116u8, 111u8];
    proof {
        assert(kv5@ =~= seq![114u8, 101u8, 112u8, 108u8, 121u8, 95u8, 116u8, 111u8]);
        assert(hn5@ =~= seq![114u8, 101u8, 112u8, 108u8, 121u8, 45u8, 116u8, 111u8]);
        assert(lower_seq(hn5@) =~= hn5@);
    }
    let av5 = m.address_field(hn5.as_slice());
    if av5.len() > 0 {
        let arr = addrs_json_exec(&av5);
        let ghost o0 = out@;
        out.push((kv5, JsonValue::JArray(arr)));
        proof {
            crate::model::lemma_addrs_view_len(av5@);
            lemma_jobj_push(o0, out@[o0.len() as int]);
        }
    } else {
        proof {
            crate::model::lemma_addrs_view_len(av5@);
        }
    }
    proof {
        assert(entries_upto(mv, 6) == entries_upto(mv, 5) + entry_at(mv, 5));
        assert(jobj_view(out@) =~= entries_upto(mv, 6));
    }
    let kv6: Vec<u8> = vec![114u8, 101u8, 115u8, 101u8, 110u8, 116u8, 95u8, 98u8, 99u8, 99u8];
    let hn6: Vec<u8> = vec![114u8, 101u8, 115u8, 101u8, 110u8, 116u8, 45u8, 98u8, 99u8, 99u8];
    proof {
        assert(kv6@ =~= seq![114u8, 101u8, 115u8, 101u8, 110u8, 116u8, 95u8, 98u8, 99u8, 99u8]);
        assert(hn6@ =~= seq![114u8, 101u8, 115u8, 101u8, 110u8, 116u8, 45u8, 98u8, 99u8, 99u8]);
        assert(lower_seq(hn6@) =~= hn6@);
    }
    let av6 = m.address_field(hn6.as_slice());
    if av6.len() > 0 {
        let arr = addrs_json_exec(&av6);
        let ghost o0 = out@;
        out.push((kv6, JsonValue::JArray(arr)));
        proof {
            crate::model::lemma_addrs_view_len(av6@);
            lemma_jobj_push(o0, out@[o0.len() as int]);
        }
    } else {
        proof {
            crate::model::lemma_addrs_view_len(av6@);
        }
    }
    proof {
        assert(entries_upto(mv, 7) == entries_upto(mv, 6) + entry_at(mv, 6));
        assert(jobj_view(out@) =~= entries_upto(mv, 7));
    }
    let kv7: Vec<u8> = vec![114u8, 101u8, 115u8, 101u8, 110u8, 116u8, 95u8, 99u8, 99u8];
    let hn7: Vec<u8> = vec![114u8, 101u8, 115u8, 101u8, 110u8, 116u8, 45u8, 99u8, 99u8];
    proof {
        assert(kv7@ =~= seq![114u8, 101u8, 115u8, 101u8, 110u8, 116u8, 95u8, 99u8, 99u8]);
        assert(hn7@ =~= seq![114u8, 101u8, 115u8, 101u8, 110u8, 116u8, 45u8, 99u8, 99u8]);
        assert(lower_seq(hn7@) =~= hn7@);
    }
    let av7 = m.address_field(hn7.as_slice());
    if av7.len() > 0 {
        let arr = addrs_json_exec(&av7);
        let ghost o0 = out@;
        out.push((kv7, JsonValue::JArray(arr)));
        proof {
            crate::model::lemma_addrs_view_len(av7@);
            lemma_jobj_push(o0, out@[o0.len() as int]);
        }
    } else {
        proof {
            crate::model::lemma_addrs_view_len(av7@);
        }
    }
    proof {
        assert(entries_upto(mv, 8) == entries_upto(mv, 7) + entry_at(mv, 7));
        assert(jobj_view(out@) =~= entries_upto(mv, 8));
    }
    let kv8: Vec<u8> = vec![114u8, 101u8, 115u8, 101u8, 110u8, 116u8, 95u8, 102u8, 114u8, 111u8, 109u8];
    let hn8: Vec<u8> = vec![114u8, 101u8, 115u8, 101u8, 110u8, 116u8, 45u8, 102u8, 114u8, 111u8, 109u8];
    proof {
        assert(kv8@ =~= seq![114u8, 101u8, 115u8, 101u8, 110u8, 116u8, 95u8, 102u8, 114u8, 111u8, 109u8]);
        assert(hn8@ =~= seq![114u8, 101u8, 115u8, 101u8, 110u8, 116u8, 45u8, 102u8, 114u8, 111u8, 109u8]);
        assert(lower_seq(hn8@) =~= hn8@);
    }
    let av8 = m.address_field(hn8.as_slice());
    if av8.len() > 0 {
        let arr = addrs_json_exec(&av8);
        let ghost o0 = out@;
        out.push((kv8, JsonValue::JArray(arr)));
        proof {
            crate::model::lemma_addrs_view_len(av8@);
            lemma_jobj_push(o0, out@[o0.len() as int]);
        }
    } else {
        proof {
            crate::model::lemma_addrs_view_len(av8@);
        }
    }
    proof {
        assert(entries_upto(mv, 9) == entries_upto(mv, 8) + entry_at(mv, 8));
        assert(jobj_view(out@) =~= entries_upto(mv, 9));
    }
    let kv9: Vec<u8> = vec![114u8, 101u8, 115u8, 101u8, 110u8, 116u8, 95u8, 115u8, 101u8, 110u8, 100u8, 101u8, 114u8];
    let hn9: Vec<u8> = vec![114u8, 101u8, 115u8, 101u8, 110u8, 116u8, 45u8, 115u8, 101u8, 110u8, 100u8, 101u8, 114u8];
    proof {
        assert(kv9@ =~= seq![114u8, 101u8, 115u8, 101u8, 110u8, 116u8, 95u8, 115u8, 101u8, 110u8, 100u8, 101u8, 114u8]);
        assert(hn9@ =~= seq![114u8, 101u8, 115u8, 101u8, 110u8, 116u8, 45u8, 115u8, 101u8, 110u8, 100u8, 101u8, 114u8]);
        assert(lower_seq(hn9@) =~= hn9@);
    }
    let av9 = m.address_field(hn9.as_slice());
    if av9.len() > 0 {
        let arr = addrs_json_exec(&av9);
        let ghost o0 = out@;
        out.push((kv9, JsonValue::JArray(arr)));
        proof {
            crate::model::lemma_addrs_view_len(av9@);
            lemma_jobj_push(o0, out@[o0.len() as int]);
        }
    } else {
        proof {
            crate::model::lemma_addrs_view_len(av9@);
        }
    }
    proof {
        assert(entries_upto(mv, 10) == entries_upto(mv, 9) + entry_at(mv, 9));
        assert(jobj_view(out@) =~= entries_upto(mv, 10));
    }
    let kv10: Vec<u8> = vec![114u8, 101u8, 115u8, 101u8, 110u8, 116u8, 95u8, 116u8, 111u8];
    let hn10: Vec<u8> = vec![114u8, 101u8, 115u8, 101u8, 110u8, 116u8, 45u8, 116u8, 111u8];
    proof {
        assert(kv10@ =~= seq![114u8, 101u8, 115u8, 101u8, 110u8, 116u8, 95u8, 116u8, 111u8]);
        assert(hn10@ =~= seq![114u8, 101u8, 115u8, 101u8, 110u8, 116u8, 45u8, 116u8, 111u8]);
        assert(lower_seq(hn10@) =~= hn10@);
    }
    let av10 = m.address_field(hn10.as_slice());
    if av10.len() > 0 {
        let arr = addrs_json_exec(&av10);
        let ghost o0 = out@;
        out.push((kv10, JsonValue::JArray(arr)));
        proof {
            crate::model::lemma_addrs_view_len(av10@);
            lemma_jobj_push(o0, out@[o0.len() as int]);
        }
    } else {
        proof {
            crate::model::lemma_addrs_view_len(av10@);
        }
    }
    proof {
        assert(entries_upto(mv, 11) == entries_upto(mv, 10) + entry_at(mv, 10));
        assert(jobj_view(out@) =~= entries_upto(mv, 11));
    }
}

/// Projection entries for the first plain headers.
#[verifier::rlimit(100)]
fn push_hdr_entries_a(m: &Message, out: &mut Vec<(Vec<u8>, JsonValue)>)
    requires
        jobj_view(old(out)@) == entries_upto(message_view(*m), 11),
    ensures
        jobj_view(final(out)@) == entries_upto(message_view(*m), 17),
{
    let ghost mv = message_view(*m);
    let kv11: Vec<u8> = vec![99u8, 111u8, 109u8, 109u8, 101u8, 110u8, 116u8, 115u8];
    let hn11: Vec<u8> = vec![99u8, 111u8, 109u8, 109u8, 101u8, 110u8, 116u8, 115u8];
    proof {
        assert(kv11@ =~= seq![99u8, 111u8, 109u8, 109u8, 101u8, 110u8, 116u8, 115u8]);
        assert(hn11@ =~= seq![99u8, 111u8, 109u8, 109u8, 101u8, 110u8, 116u8, 115u8]);
        assert(lower_seq(hn11@) =~= hn11@);
    }
    match m.header_json(hn11.as_slice()) {
        Option::Some(j) => {
            let ghost o0 = out@;
            out.push((kv11, j));
            proof {
                lemma_jobj_push(o0, out@[o0.len() as int]);
            }
        },
        Option::None => {},
    }
    proof {
        assert(entries_upto(mv, 12) == entries_upto(mv, 11) + entry_at(mv, 11));
        assert(jobj_view(out@) =~= entries_upto(mv, 12));
    }
    let kv12: Vec<u8> = vec![105u8, 110u8, 95u8, 114u8, 101u8, 112u8, 108u8, 121u8, 95u8, 116u8, 111u8];
    let hn12: Vec<u8> = vec![105u8, 110u8, 45u8, 114u8, 101u8, 112u8, 108u8, 121u8, 45u8, 116u8, 111u8];
    proof {
        assert(kv12@ =~= seq![105u8, 110u8, 95u8, 114u8, 101u8, 112u8, 108u8, 121u8, 95u8, 116u8, 111u8]);
        assert(hn12@ =~= seq![105u8, 110u8, 45u8, 114u8, 101u8, 112u8, 108u8, 121u8, 45u8, 116u8, 111u8]);
        assert(lower_seq(hn12@) =~= hn12@);
    }
    match m.header_json(hn12.as_slice()) {
        Option::Some(j) => {
            let ghost o0 = out@;
            out.push((kv12, j));
            proof {
                lemma_jobj_push(o0, out@[o0.len() as int]);
            }
        },
        Option::None => {},
    }
    proof {
        assert(entries_upto(mv, 13) == entries_upto(mv, 12) + entry_at(mv, 12));
        assert(jobj_view(out@) =~= entries_upto(mv, 13));
    }
    let kv13: Vec<u8> = vec![107u8, 101u8, 121u8, 119u8, 111u8, 114u8, 100u8, 115u8];
    let hn13: Vec<u8> = vec![107u8, 101u8, 121u8, 119u8, 111u8, 114u8, 100u8, 115u8];
    proof {
        assert(kv13@ =~= seq![107u8, 101u8, 121u8, 119u8, 111u8, 114u8, 100u8, 115u8]);
        assert(hn13@ =~= seq![107u8, 101u8, 121u8, 119u8, 111u8, 114u8, 100u8, 115u8]);
        assert(lower_seq(hn13@) =~= hn13@);
    }
    match m.header_json(hn13.as_slice()) {
        Option::Some(j) => {
            let ghost o0 = out@;
            out.push((kv13, j));
            proof {
                lemma_jobj_push(o0, out@[o0.len() as int]);
            }
        },
        Option::None => {},
    }
    proof {
        assert(entries_upto(mv, 14) == entries_upto(mv, 13) + entry_at(mv, 13));
        assert(jobj_view(out@) =~= entries_upto(mv, 14));
    }
    let kv14: Vec<u8> = vec![108u8, 105u8, 115u8, 116u8, 95u8, 97u8, 114u8, 99u8, 104u8, 105u8, 118u8, 101u8];
    let hn14: Vec<u8> = vec![108u8, 105u8, 115u8, 116u8, 45u8, 97u8, 114u8, 99u8, 104u8, 105u8, 118u8, 101u8];
    proof {
        assert(kv14@ =~= seq![108u8, 105u8, 115u8, 116u8, 95u8, 97u8, 114u8, 99u8, 104u8, 105u8, 118u8, 101u8]);
        assert(hn14@ =~= seq![108u8, 105u8, 115u8, 116u8, 45u8, 97u8, 114u8, 99u8, 104u8, 105u8, 118u8, 101u8]);
        assert(lower_seq(hn14@) =~= hn14@);
    }
    match m.header_json(hn14.as_slice()) {
        Option::Some(j) => {
            let ghost o0 = out@;
            out.push((kv14, j));
            proof {
                lemma_jobj_push(o0, out@[o0.len() as int]);
            }
        },
        Option::None => {},
    }
    proof {
        assert(entries_upto(mv, 15) == entries_upto(mv, 14) + entry_at(mv, 14));
        assert(jobj_view(out@) =~= entries_upto(mv, 15));
    }
    let kv15: Vec<u8> = vec![108u8, 105u8, 115u8, 116u8, 95u8, 104u8, 101u8, 108u8, 112u8];
    let hn15: Vec<u8> = vec![108u8, 105u8, 115u8, 116u8, 45u8, 104u8, 101u8, 108u8, 112u8];
    proof {
        assert(kv15@ =~= seq![108u8, 105u8, 115u8, 116u8, 95u8, 104u8, 101u8, 108u8, 112u8]);
        assert(hn15@ =~= seq![108u8, 105u8, 115u8, 116u8, 45u8, 104u8, 101u8, 108u8, 112u8]);
        assert(lower_seq(hn15@) =~= hn15@);
    }
    match m.header_json(hn15.as_slice()) {
        Option::Some(j) => {
            let ghost o0 = out@;
            out.push((kv15, j));
            proof {
                lemma_jobj_push(o0, out@[o0.len() as int]);
            }
        },
        Option::None => {},
    }
    proof {
        assert(entries_upto(mv, 16) == entries_upto(mv, 15) + entry_at(mv, 15));
        assert(jobj_view(out@) =~= entries_upto(mv, 16));
    }
    let kv16: Vec<u8> = vec![108u8, 105u8, 115u8, 116u8, 95u8, 105u8, 100u8];
    let hn16: Vec<u8> = vec![108u8, 105u8, 115u8, 116u8, 45u8, 105u8, 100u8];
    proof {
        assert(kv16@ =~= seq![108u8, 105u8, 115u8, 116u8, 95u8, 105u8, 100u8]);
        assert(hn16@ =~= seq![108u8, 105u8, 115u8, 116u8, 45u8, 105u8, 100u8]);
        assert(lower_seq(hn16@) =~= hn16@);
    }
    match m.header_json(hn16.as_slice()) {
        Option::Some(j) => {
            let ghost o0 = out@;
            out.push((kv16, j));
            proof {
                lemma_jobj_push(o0, out@[o0.len() as int]);
            }
        },
        Option::None => {},
    }
    proof {
        assert(entries_upto(mv, 17) == entries_upto(mv, 16) + entry_at(mv, 16));
        assert(jobj_view(out@) =~= entries_upto(mv, 17));
    }
}

/// Projection entries for the remaining plain headers.
#[verifier::rlimit(100)]
fn push_hdr_entries_b(m: &Message, out: &mut Vec<(Vec<u8>, JsonValue)>)
    requires
        jobj_view(old(out)@) == entries_upto(message_view(*m), 17),
    ensures
        jobj_view(final(out)@) == entries_upto(message_view(*m), 24),
{
    let ghost mv = message_view(*m);
    let kv17: Vec<u8> = vec![108u8, 105u8, 115u8, 116u8, 95u8, 111u8, 119u8, 110u8, 101u8, 114u8];
    let hn17: Vec<u8> = vec![108u8, 105u8, 115u8, 116u8, 45u8, 111u8, 119u8, 110u8, 101u8, 114u8];
    proof {
        assert(kv17@ =~= seq![108u8, 105u8, 115u8, 116u8, 95u8, 111u8, 119u8, 110u8, 101u8, 114u8]);
        assert(hn17@ =~= seq![108u8, 105u8, 115u8, 116u8, 45u8, 111u8, 119u8, 110u8, 101u8, 114u8]);
        assert(lower_seq(hn17@) =~= hn17@);
    }
    match m.header_json(hn17.as_slice()) {
        Option::Some(j) => {
            let ghost o0 = out@;
            out.push((kv17, j));
            proof {
                lemma_jobj_push(o0, out@[o0.len() as int]);
            }
        },
        Option::None => {},
    }
    proof {
        assert(entries_upto(mv, 18) == entries_upto(mv, 17) + entry_at(mv, 17));
        assert(jobj_view(out@) =~= entries_upto(mv, 18));
    }
    let kv18: Vec<u8> = vec![108u8, 105u8, 115u8, 116u8, 95u8, 112u8, 111u8, 115u8, 116u8];
    let hn18: Vec<u8> = vec![108u8, 105u8, 115u8, 116u8, 45u8, 112u8, 111u8, 115u8, 116u8];
    proof {
        assert(kv18@ =~= seq![108u8, 105u8, 115u8, 116u8, 95u8, 112u8, 111u8, 115u8, 116u8]);
        assert(hn18@ =~= seq![108u8, 105u8, 115u8, 116u8, 45u8, 112u8, 111u8, 115u8, 116u8]);
        assert(lower_seq(hn18@) =~= hn18@);
    }
    match m.header_json(hn18.as_slice()) {
        Option::Some(j) => {
            let ghost o0 = out@;
            out.push((kv18, j));
            proof {
                lemma_jobj_push(o0, out@[o0.len() as int]);
            }
        },
        Option::None => {},
    }
    proof {
        assert(entries_upto(mv, 19) == entries_upto(mv, 18) + entry_at(mv, 18));
        assert(jobj_view(out@) =~= entries_upto(mv, 19));
    }
    let kv19: Vec<u8> = vec![108u8, 105u8, 115u8, 116u8, 95u8, 115u8, 117u8, 98u8, 115u8, 99u8, 114u8, 105u8, 98u8, 101u8];
    let hn19: Vec<u8> = vec![108u8, 105u8, 115u8, 116u8, 45u8, 115u8, 117u8, 98u8, 115u8, 99u8, 114u8, 105u8, 98u8, 101u8];
    proof {
        assert(kv19@ =~= seq![108u8, 105u8, 115u8, 116u8, 95u8, 115u8, 117u8, 98u8, 115u8, 99u8, 114u8, 105u8, 98u8, 101u8]);
        assert(hn19@ =~= seq![108u8, 105u8, 115u8, 116u8, 45u8, 115u8, 117u8, 98u8, 115u8, 99u8, 114u8, 105u8, 98u8, 101u8]);
        assert(lower_seq(hn19@) =~= hn19@);
    }
    match m.header_json(hn19.as_slice()) {
        Option::Some(j) => {
            let ghost o0 = out@;
            out.push((kv19, j));
            proof {
                lemma_jobj_push(o0, out@[o0.len() as int]);
            }
        },
        Option::None => {},
    }
    proof {
        assert(entries_upto(mv, 20) == entries_upto(mv, 19) + entry_at(mv, 19));
        assert(jobj_view(out@) =~= entries_upto(mv, 20));
    }
    let kv20: Vec<u8> = vec![108u8, 105u8, 115u8, 116u8, 95u8, 117u8, 110u8, 115u8, 117u8, 98u8, 115u8, 99u8, 114u8, 105u8, 98u8, 101u8];
    let hn20: Vec<u8> = vec![108u8, 105u8, 115u8, 116u8, 45u8, 117u8, 110u8, 115u8, 117u8, 98u8, 115u8, 99u8, 114u8, 105u8, 98u8, 101u8];
    proof {
        assert(kv20@ =~= seq![108u8, 105u8, 115u8, 116u8, 95u8, 117u8, 110u8, 115u8, 117u8, 98u8, 115u8, 99u8, 114u8, 105u8, 98u8, 101u8]);
        assert(hn20@ =~= seq![108u8, 105u8, 115u8, 116u8, 45u8, 117u8, 110u8, 115u8, 117u8, 98u8, 115u8, 99u8, 114u8, 105u8, 98u8, 101u8]);
        assert(lower_seq(hn20@) =~= hn20@);
    }
    match m.header_json(hn20.as_slice()) {
        Option::Some(j) => {
            let ghost o0 = out@;
            out.push((kv20, j));
            proof {
                lemma_jobj_push(o0, out@[o0.len() as int]);
            }
        },
        Option::None => {},
    }
    proof {
        assert(entries_upto(mv, 21) == entries_upto(mv, 20) + entry_at(mv, 20));
        assert(jobj_view(out@) =~= entries_upto(mv, 21));
    }
    let kv21: Vec<u8> = vec![109u8, 105u8, 109u8, 101u8, 95u8, 118u8, 101u8, 114u8, 115u8, 105u8, 111u8, 110u8];
    let hn21: Vec<u8> = vec![109u8, 105u8, 109u8, 101u8, 45u8, 118u8, 101u8, 114u8, 115u8, 105u8, 111u8, 110u8];
    proof {
        assert(kv21@ =~= seq![109u8, 105u8, 109u8, 101u8, 95u8, 118u8, 101u8, 114u8, 115u8, 105u8, 111u8, 110u8]);
        assert(hn21@ =~= seq![109u8, 105u8, 109u8, 101u8, 45u8, 118u8, 101u8, 114u8, 115u8, 105u8, 111u8, 110u8]);
        assert(lower_seq(hn21@) =~= hn21@);
    }
    match m.header_json(hn21.as_slice()) {
        Option::Some(j) => {
            let ghost o0 = out@;
            out.push((kv21, j));
            proof {
                lemma_jobj_push(o0, out@[o0.len() as int]);
            }
        },
        Option::None => {},
    }
    proof {
        assert(entries_upto(mv, 22) == entries_upto(mv, 21) + entry_at(mv, 21));
        assert(jobj_view(out@) =~= entries_upto(mv, 22));
    }
    let kv22: Vec<u8> = vec![114u8, 101u8, 102u8, 101u8, 114u8, 101u8, 110u8, 99u8, 101u8, 115u8];
    let hn22: Vec<u8> = vec![114u8, 101u8, 102u8, 101u8, 114u8, 101u8, 110u8, 99u8, 101u8, 115u8];
    proof {
        assert(kv22@ =~= seq![114u8, 101u8, 102u8, 101u8, 114u8, 101u8, 110u8, 99u8, 101u8, 115u8]);
        assert(hn22@ =~= seq![114u8, 101u8, 102u8, 101u8, 114u8, 101u8, 110u8, 99u8, 101u8, 115u8]);
        assert(lower_seq(hn22@) =~= hn22@);
    }
    match m.header_json(hn22.as_slice()) {
        Option::Some(j) => {
            let ghost o0 = out@;
            out.push((kv22, j));
            proof {
                lemma_jobj_push(o0, out@[o0.len() as int]);
            }
        },
        Option::None => {},
    }
    proof {
        assert(entries_upto(mv, 23) == entries_upto(mv, 22) + entry_at(mv, 22));
        assert(jobj_view(out@) =~= entries_upto(mv, 23));
    }
    let kv23: Vec<u8> = vec![114u8, 101u8, 116u8, 117u8, 114u8, 110u8, 95u8, 112u8, 97u8, 116u8, 104u8];
    let hn23: Vec<u8> = vec![114u8, 101u8, 116u8, 117u8, 114u8, 110u8, 45u8, 112u8, 97u8, 116u8, 104u8];
    proof {
        assert(kv23@ =~= seq![114u8, 101u8, 116u8, 117u8, 114u8, 110u8, 95u8, 112u8, 97u8, 116u8, 104u8]);
        assert(hn23@ =~= seq![114u8, 101u8, 116u8, 117u8, 114u8, 110u8, 45u8, 112u8, 97u8, 116u8, 104u8]);
        assert(lower_seq(hn23@) =~= hn23@);
    }
    match m.header_json(hn23.as_slice()) {
        Option::Some(j) => {
            let ghost o0 = out@;
            out.push((kv23, j));
            proof {
                lemma_jobj_push(o0, out@[o0.len() as int]);
            }
        },
        Option::None => {},
    }
    proof {
        assert(entries_upto(mv, 24) == entries_upto(mv, 23) + entry_at(mv, 23));
        assert(jobj_view(out@) =~= entries_upto(mv, 24));
    }
}

/// The field projection: every present, non-empty field of the message in a
/// fixed order. A missing or unparsable `Date` header is the one hard
/// failure, `MissingRequiredField`; body extraction is unaffected by it.
#[verifier::rlimit(100)]
pub fn project(m: &Message) -> (r: Result<Vec<(Vec<u8>, JsonValue)>, MailError>)
    ensures
        match r {
            Result::Ok(v) => project_spec(message_view(*m)) == Result::Ok::<
                Seq<(Seq<u8>, JsonView)>,
                MailError,
            >(jobj_view(v@)),
            Result::Err(e) => project_spec(message_view(*m)) == Result::Err::<
                Seq<(Seq<u8>, JsonView)>,
                MailError,
            >(e),
        },
{
    let ghost mv = message_view(*m);
    let d = m.date();
    if d.is_none() {
        return Result::Err(MailError::MissingRequiredField);
    }
    let mut out: Vec<(Vec<u8>, JsonValue)> = Vec::new();
    proof {
        assert(jobj_view(out@) =~= entries_upto(mv, 0));
    }
    push_addr_entries_a(m, &mut out);
    push_addr_entries_b(m, &mut out);
    push_hdr_entries_a(m, &mut out);
    push_hdr_entries_b(m, &mut out);
    match m.message_id() {
        Option::Some(v) => {
            let kv: Vec<u8> = vec![109u8, 101u8, 115u8, 115u8, 97u8, 103u8, 101u8, 95u8, 105u8, 100u8];
            proof {
                assert(kv@ =~= seq![109u8, 101u8, 115u8, 115u8, 97u8, 103u8, 101u8, 95u8, 105u8, 100u8]);
            }
            let ghost o0 = out@;
            out.push((kv, JsonValue::JString(v)));
            proof {
                lemma_jobj_push(o0, out@[o0.len() as int]);
            }
        },
        Option::None => {},
    }
    proof {
        assert(entries_upto(mv, 25) == entries_upto(mv, 24) + entry_at(mv, 24));
        assert(jobj_view(out@) =~= entries_upto(mv, 25));
    }
    match m.subject() {
        Option::Some(v) => {
            let kv: Vec<u8> = vec![115u8, 117u8, 98u8, 106u8, 101u8, 99u8, 116u8];
            proof {
                assert(kv@ =~= seq![115u8, 117u8, 98u8, 106u8, 101u8, 99u8, 116u8]);
            }
            let ghost o0 = out@;
            out.push((kv, JsonValue::JString(v)));
            proof {
                lemma_jobj_push(o0, out@[o0.len() as int]);
            }
        },
        Option::None => {},
    }
    proof {
        assert(entries_upto(mv, 26) == entries_upto(mv, 25) + entry_at(mv, 25));
        assert(jobj_view(out@) =~= entries_upto(mv, 26));
    }
    match m.return_address() {
        Option::Some(v) => {
            let kv: Vec<u8> = vec![114u8, 101u8, 116u8, 117u8, 114u8, 110u8, 95u8, 97u8, 100u8, 100u8, 114u8, 101u8, 115u8, 115u8];
            proof {
                assert(kv@ =~= seq![114u8, 101u8, 116u8, 117u8, 114u8, 110u8, 95u8, 97u8, 100u8, 100u8, 114u8, 101u8, 115u8, 115u8]);
            }
            let ghost o0 = out@;
            out.push((kv, JsonValue::JString(v)));
            proof {
                lemma_jobj_push(o0, out@[o0.len() as int]);
            }
        },
        Option::None => {},
    }
    proof {
        assert(entries_upto(mv, 27) == entries_upto(mv, 26) + entry_at(mv, 26));
        assert(jobj_view(out@) =~= entries_upto(mv, 27));
    }
    match m.thread_name() {
        Option::Some(v) => {
            let kv: Vec<u8> = vec![116u8, 104u8, 114u8, 101u8, 97u8, 100u8, 95u8, 110u8, 97u8, 109u8, 101u8];
            proof {
                assert(kv@ =~= seq![116u8, 104u8, 114u8, 101u8, 97u8, 100u8, 95u8, 110u8, 97u8, 109u8, 101u8]);
            }
            let ghost o0 = out@;
            out.push((kv, JsonValue::JString(v)));
            proof {
                lemma_jobj_push(o0, out@[o0.len() as int]);
            }
        },
        Option::None => {},
    }
    proof {
        assert(entries_upto(mv, 28) == entries_upto(mv, 27) + entry_at(mv, 27));
        assert(jobj_view(out@) =~= entries_upto(mv, 28));
    }
    {
        let kv: Vec<u8> = vec![97u8, 116u8, 116u8, 97u8, 99u8, 104u8, 109u8, 101u8, 110u8, 116u8, 95u8, 99u8, 111u8, 117u8, 110u8, 116u8];
        proof {
            assert(kv@ =~= seq![97u8, 116u8, 116u8, 97u8, 99u8, 104u8, 109u8, 101u8, 110u8, 116u8, 95u8, 99u8, 111u8, 117u8, 110u8, 116u8]);
        }
        let n = m.attachment_count();
        let ghost o0 = out@;
        out.push((kv, JsonValue::JNumber(n)));
        proof {
            lemma_jobj_push(o0, out@[o0.len() as int]);
            assert(entries_upto(mv, 29) == entries_upto(mv, 28) + entry_at(mv, 28));
        assert(jobj_view(out@) =~= entries_upto(mv, 29));
        }
    }
    {
        let kv: Vec<u8> = vec![116u8, 101u8, 120u8, 116u8, 95u8, 98u8, 111u8, 100u8, 121u8, 95u8, 99u8, 111u8, 117u8, 110u8, 116u8];
        proof {
            assert(kv@ =~= seq![116u8, 101u8, 120u8, 116u8, 95u8, 98u8, 111u8, 100u8, 121u8, 95u8, 99u8, 111u8, 117u8, 110u8, 116u8]);
        }
        let n = m.text_body_count();
        let ghost o0 = out@;
        out.push((kv, JsonValue::JNumber(n)));
        proof {
            lemma_jobj_push(o0, out@[o0.len() as int]);
            assert(entries_upto(mv, 30) == entries_upto(mv, 29) + entry_at(mv, 29));
        assert(jobj_view(out@) =~= entries_upto(mv, 30));
        }
    }
    {
        let kv: Vec<u8> = vec![104u8, 116u8, 109u8, 108u8, 95u8, 98u8, 111u8, 100u8, 121u8, 95u8, 99u8, 111u8, 117u8, 110u8, 116u8];
        proof {
            assert(kv@ =~= seq![104u8, 116u8, 109u8, 108u8, 95u8, 98u8, 111u8, 100u8, 121u8, 95u8, 99u8, 111u8, 117u8, 110u8, 116u8]);
        }
        let n = m.html_body_count();
        let ghost o0 = out@;
        out.push((kv, JsonValue::JNumber(n)));
        proof {
            lemma_jobj_push(o0, out@[o0.len() as int]);
            assert(entries_upto(mv, 31) == entries_upto(mv, 30) + entry_at(mv, 30));
        assert(jobj_view(out@) =~= entries_upto(mv, 31));
        }
    }
    let dt = d.unwrap();
    let kv: Vec<u8> = vec![100u8, 97u8, 116u8, 101u8];
    proof {
        assert(kv@ =~= seq![100u8, 97u8, 116u8, 101u8]);
    }
    let ghost o0 = out@;
    out.push((kv, JsonValue::JString(crate::date::format_iso(&dt))));
    proof {
        lemma_jobj_push(o0, out@[o0.len() as int]);
        assert(jobj_view(out@) =~= entries_upto(mv, 31) + seq![
            (seq![100u8, 97u8, 116u8, 101u8], JsonView::JString(iso_of(dt))),
        ]);
    }
    Result::Ok(out)
}

} // verus!
