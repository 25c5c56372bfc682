use vstd::prelude::*;

verus! {

/// The error taxonomy of the parser. `MalformedMessage` and
/// `MimeDepthExceeded` are recorded on the message and never abort a parse;
/// `MissingRequiredField` is returned by the field projector.
#[derive(Clone, Copy, Debug, PartialEq, Eq, Structural)]
pub enum MailError {
    MalformedMessage,
    MimeDepthExceeded,
    MissingRequiredField,
    DecodeFallback,
}

/// A parsed RFC 5322 date-time. `tz_minutes` is the zone offset east of UTC
/// in minutes; `tz_negative` distinguishes `-0000`-style zones from `+0000`.
#[derive(Clone, Copy, Debug, PartialEq, Eq, Structural)]
pub struct DateTime {
    pub year: u16,
    pub month: u8,
    pub day: u8,
    pub hour: u8,
    pub minute: u8,
    pub second: u8,
    pub tz_negative: bool,
    pub tz_minutes: u16,
}

/// One entry of an address list: a single mailbox, or a named group of
/// mailboxes (RFC 5322 group syntax).
#[allow(inconsistent_fields)]
pub enum Address {
    Mailbox { name: Option<Vec<u8>>, address: Vec<u8> },
    Group { name: Vec<u8>, members: Vec<Address> },
}

/// Mathematical model of an `Address`.
#[verifier::ext_equal]
#[allow(inconsistent_fields)]
pub enum AddrView {
    Mailbox { name: Option<Seq<u8>>, address: Seq<u8> },
    Group { name: Seq<u8>, members: Seq<AddrView> },
}

pub open spec fn addr_view(a: Address) -> AddrView
    decreases a,
{
    match a {
        Address::Mailbox { name, address } => AddrView::Mailbox {
            name: match name {
                Option::Some(n) => Option::Some(n@),
                Option::None => Option::None,
            },
            address: address@,
        },
        Address::Group { name, members } => AddrView::Group {
            name: name@,
            members: addrs_view(members@),
        },
    }
}

pub open spec fn addrs_view(s: Seq<Address>) -> Seq<AddrView>
    decreases s,
{
    if s.len() == 0 {
        Seq::empty()
    } else {
        seq![addr_view(s[0])] + addrs_view(s.drop_first())
    }
}

pub proof fn lemma_addrs_view_index(s: Seq<Address>, i: int)
    requires
        0 <= i < s.len(),
    ensures
        addrs_view(s).len() == s.len(),
        addrs_view(s)[i] == addr_view(s[i]),
    decreases s.len(),
{
    lemma_addrs_view_len(s);
    if i > 0 {
        lemma_addrs_view_index(s.drop_first(), i - 1);
    }
}

pub proof fn lemma_addrs_view_push(s: Seq<Address>, a: Address)
    ensures
        addrs_view(s.push(a)) == addrs_view(s) + seq![addr_view(a)],
    decreases s.len(),
{
    if s.len() == 0 {
        assert(s.push(a)[0] == a);
        assert(s.push(a).drop_first() =~= Seq::<Address>::empty());
        assert(addrs_view(Seq::<Address>::empty()) =~= Seq::<AddrView>::empty());
        assert(addrs_view(s.push(a)) =~= addrs_view(s) + seq![addr_view(a)]);
    } else {
        assert(s.push(a)[0] == s[0]);
        assert(s.push(a).drop_first() =~= s.drop_first().push(a));
        lemma_addrs_view_push(s.drop_first(), a);
        assert(seq![addr_view(s[0])] + (addrs_view(s.drop_first()) + seq![addr_view(a)]) =~= (
        seq![addr_view(s[0])] + addrs_view(s.drop_first())) + seq![addr_view(a)]);
        assert(addrs_view(s.push(a)) =~= addrs_view(s) + seq![addr_view(a)]);
    }
}

pub proof fn lemma_addrs_view_len(s: Seq<Address>)
    ensures
        addrs_view(s).len() == s.len(),
    decreases s.len(),
{
    if s.len() > 0 {
        lemma_addrs_view_len(s.drop_first());
    }
}

/// The semantic class of one header value.
pub enum HeaderValue {
    Addresses(Vec<Address>),
    Date(DateTime),
    Tokens(Vec<Vec<u8>>),
    MessageIds(Vec<Vec<u8>>),
    Unstructured(Vec<u8>),
    Empty,
}

#[verifier::ext_equal]
pub enum HeaderValueView {
    Addresses(Seq<AddrView>),
    Date(DateTime),
    Tokens(Seq<Seq<u8>>),
    MessageIds(Seq<Seq<u8>>),
    Unstructured(Seq<u8>),
    Empty,
}

pub open spec fn vecs_view(s: Seq<Vec<u8>>) -> Seq<Seq<u8>> {
    s.map_values(|v: Vec<u8>| v@)
}

pub open spec fn header_value_view(v: HeaderValue) -> HeaderValueView {
    match v {
        HeaderValue::Addresses(a) => HeaderValueView::Addresses(addrs_view(a@)),
        HeaderValue::Date(d) => HeaderValueView::Date(d),
        HeaderValue::Tokens(t) => HeaderValueView::Tokens(vecs_view(t@)),
        HeaderValue::MessageIds(t) => HeaderValueView::MessageIds(vecs_view(t@)),
        HeaderValue::Unstructured(t) => HeaderValueView::Unstructured(t@),
        HeaderValue::Empty => HeaderValueView::Empty,
    }
}

/// One header of the message: its name as written, the raw unfolded value
/// bytes, and the value parsed according to the header's semantic class.
pub struct HeaderField {
    pub name: Vec<u8>,
    pub raw: Vec<u8>,
    pub value: HeaderValue,
}

#[verifier::ext_equal]
pub struct HeaderFieldView {
    pub name: Seq<u8>,
    pub raw: Seq<u8>,
    pub value: HeaderValueView,
}

pub open spec fn header_field_view(h: HeaderField) -> HeaderFieldView {
    HeaderFieldView { name: h.name@, raw: h.raw@, value: header_value_view(h.value) }
}

pub open spec fn headers_view(s: Seq<HeaderField>) -> Seq<HeaderFieldView> {
    s.map_values(|h: HeaderField| header_field_view(h))
}

/// One node of the MIME body tree. Leaves are plain-text bodies, HTML bodies
/// and attachments; `Multipart` nodes hold their children in declaration
/// order. Decoded content is kept as UTF-8 bytes.
pub enum BodyPart {
    Text { content: Vec<u8> },
    Html { content: Vec<u8> },
    Attachment { content_type: Vec<u8>, filename: Option<Vec<u8>>, size: usize },
    Multipart { subtype: Vec<u8>, children: Vec<BodyPart> },
}

/// Mathematical model of a `BodyPart`.
#[verifier::ext_equal]
pub enum PartView {
    Text { content: Seq<u8> },
    Html { content: Seq<u8> },
    Attachment { content_type: Seq<u8>, filename: Option<Seq<u8>>, size: usize },
    Multipart { subtype: Seq<u8>, children: Seq<PartView> },
}

pub open spec fn part_view(p: BodyPart) -> PartView
    decreases p,
{
    match p {
        BodyPart::Text { content } => PartView::Text { content: content@ },
        BodyPart::Html { content } => PartView::Html { content: content@ },
        BodyPart::Attachment { content_type, filename, size } => PartView::Attachment {
            content_type: content_type@,
            filename: match filename {
                Option::Some(f) => Option::Some(f@),
                Option::None => Option::None,
            },
            size: size,
        },
        BodyPart::Multipart { subtype, children } => PartView::Multipart {
            subtype: subtype@,
            children: parts_view(children@),
        },
    }
}

pub open spec fn parts_view(s: Seq<BodyPart>) -> Seq<PartView>
    decreases s,
{
    if s.len() == 0 {
        Seq::empty()
    } else {
        seq![part_view(s[0])] + parts_view(s.drop_first())
    }
}

pub proof fn lemma_parts_view_len(s: Seq<BodyPart>)
    ensures
        parts_view(s).len() == s.len(),
    decreases s.len(),
{
    if s.len() > 0 {
        lemma_parts_view_len(s.drop_first());
    }
}

pub proof fn lemma_parts_view_push(s: Seq<BodyPart>, a: BodyPart)
    ensures
        parts_view(s.push(a)) == parts_view(s) + seq![part_view(a)],
    decreases s.len(),
{
    if s.len() == 0 {
        assert(s.push(a)[0] == a);
        assert(s.push(a).drop_first() =~= Seq::<BodyPart>::empty());
        assert(parts_view(Seq::<BodyPart>::empty()) =~= Seq::<PartView>::empty());
        assert(parts_view(s.push(a)) =~= parts_view(s) + seq![part_view(a)]);
    } else {
        assert(s.push(a)[0] == s[0]);
        assert(s.push(a).drop_first() =~= s.drop_first().push(a));
        lemma_parts_view_push(s.drop_first(), a);
        assert(seq![part_view(s[0])] + (parts_view(s.drop_first()) + seq![part_view(a)]) =~= (
        seq![part_view(s[0])] + parts_view(s.drop_first())) + seq![part_view(a)]);
        assert(parts_view(s.push(a)) =~= parts_view(s) + seq![part_view(a)]);
    }
}

pub proof fn lemma_parts_view_index(s: Seq<BodyPart>, i: int)
    requires
        0 <= i < s.len(),
    ensures
        parts_view(s).len() == s.len(),
        parts_view(s)[i] == part_view(s[i]),
    decreases s.len(),
{
    lemma_parts_view_len(s);
    if i > 0 {
        lemma_parts_view_index(s.drop_first(), i - 1);
    }
}

/// The plain-text leaves of the tree, in pre-order.
pub open spec fn text_leaves(p: PartView) -> Seq<Seq<u8>>
    decreases p,
{
    match p {
        PartView::Text { content } => seq![content],
        PartView::Multipart { subtype, children } => text_leaves_list(children),
        _ => Seq::empty(),
    }
}

pub open spec fn text_leaves_list(s: Seq<PartView>) -> Seq<Seq<u8>>
    decreases s,
{
    if s.len() == 0 {
        Seq::empty()
    } else {
        text_leaves(s[0]) + text_leaves_list(s.drop_first())
    }
}

/// The HTML leaves of the tree, in pre-order.
pub open spec fn html_leaves(p: PartView) -> Seq<Seq<u8>>
    decreases p,
{
    match p {
        PartView::Html { content } => seq![content],
        PartView::Multipart { subtype, children } => html_leaves_list(children),
        _ => Seq::empty(),
    }
}

pub open spec fn html_leaves_list(s: Seq<PartView>) -> Seq<Seq<u8>>
    decreases s,
{
    if s.len() == 0 {
        Seq::empty()
    } else {
        html_leaves(s[0]) + html_leaves_list(s.drop_first())
    }
}

/// The sizes of the attachment leaves of the tree, in pre-order.
pub open spec fn attachment_sizes(p: PartView) -> Seq<usize>
    decreases p,
{
    match p {
        PartView::Attachment { content_type, filename, size } => seq![size],
        PartView::Multipart { subtype, children } => attachment_sizes_list(children),
        _ => Seq::empty(),
    }
}

pub open spec fn attachment_sizes_list(s: Seq<PartView>) -> Seq<usize>
    decreases s,
{
    if s.len() == 0 {
        Seq::empty()
    } else {
        attachment_sizes(s[0]) + attachment_sizes_list(s.drop_first())
    }
}

/// Concatenation of a sequence of byte sequences.
pub open spec fn concat_all(s: Seq<Seq<u8>>) -> Seq<u8>
    decreases s,
{
    if s.len() == 0 {
        Seq::empty()
    } else {
        s[0] + concat_all(s.drop_first())
    }
}

/// A fully parsed message: the ordered header sequence and the root of the
/// MIME body tree, plus the two non-fatal conditions met while parsing.
pub struct Message {
    pub headers: Vec<HeaderField>,
    pub root: BodyPart,
    pub has_separator: bool,
    pub depth_exceeded: bool,
}

#[verifier::ext_equal]
pub struct MessageView {
    pub headers: Seq<HeaderFieldView>,
    pub root: PartView,
    pub has_separator: bool,
    pub depth_exceeded: bool,
}

pub open spec fn message_view(m: Message) -> MessageView {
    MessageView {
        headers: headers_view(m.headers@),
        root: part_view(m.root),
        has_separator: m.has_separator,
        depth_exceeded: m.depth_exceeded,
    }
}

} // verus!
