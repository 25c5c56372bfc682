use vstd::prelude::*;
use vstd::slice::slice_to_vec;

use crate::model::{
    attachment_sizes, attachment_sizes_list, concat_all, html_leaves, html_leaves_list,
    lemma_parts_view_index, lemma_parts_view_len, part_view, parts_view, text_leaves,
    text_leaves_list, vecs_view, BodyPart, Message, PartView,
};

verus! {

/// An owned copy of a byte vector.
pub fn copy_bytes(v: &Vec<u8>) -> (r: Vec<u8>)
    ensures
        r@ == v@,
{
    slice_to_vec(v.as_slice())
}

pub proof fn lemma_text_list_append(a: Seq<PartView>, b: Seq<PartView>)
    ensures
        text_leaves_list(a + b) == text_leaves_list(a) + text_leaves_list(b),
    decreases a.len(),
{
    if a.len() == 0 {
        assert(a + b =~= b);
        assert(text_leaves_list(a) + text_leaves_list(b) =~= text_leaves_list(b));
    } else {
        assert((a + b).drop_first() =~= a.drop_first() + b);
        lemma_text_list_append(a.drop_first(), b);
        assert(text_leaves(a[0]) + (text_leaves_list(a.drop_first()) + text_leaves_list(b)) =~= (
        text_leaves(a[0]) + text_leaves_list(a.drop_first())) + text_leaves_list(b));
        assert((a + b)[0] == a[0]);
    }
}

pub proof fn lemma_text_list_take_step(s: Seq<PartView>, i: int)
    requires
        0 <= i < s.len(),
    ensures
        text_leaves_list(s.take(i + 1)) == text_leaves_list(s.take(i)) + text_leaves(s[i]),
{
    assert(s.take(i + 1) =~= s.take(i) + seq![s[i]]);
    lemma_text_list_append(s.take(i), seq![s[i]]);
    assert(seq![s[i]].drop_first() =~= Seq::<PartView>::empty());
    assert(seq![s[i]][0] == s[i]);
    assert(text_leaves_list(seq![s[i]].drop_first()) =~= text_leaves_list(Seq::<PartView>::empty()));
    assert(text_leaves_list(seq![s[i]]) =~= text_leaves(s[i]));
}

pub proof fn lemma_html_list_append(a: Seq<PartView>, b: Seq<PartView>)
    ensures
        html_leaves_list(a + b) == html_leaves_list(a) + html_leaves_list(b),
    decreases a.len(),
{
    if a.len() == 0 {
        assert(a + b =~= b);
        assert(html_leaves_list(a) + html_leaves_list(b) =~= html_leaves_list(b));
    } else {
        assert((a + b).drop_first() =~= a.drop_first() + b);
        lemma_html_list_append(a.drop_first(), b);
        assert(html_leaves(a[0]) + (html_leaves_list(a.drop_first()) + html_leaves_list(b)) =~= (
        html_leaves(a[0]) + html_leaves_list(a.drop_first())) + html_leaves_list(b));
        assert((a + b)[0] == a[0]);
    }
}

pub proof fn lemma_html_list_take_step(s: Seq<PartView>, i: int)
    requires
        0 <= i < s.len(),
    ensures
        html_leaves_list(s.take(i + 1)) == html_leaves_list(s.take(i)) + html_leaves(s[i]),
{
    assert(s.take(i + 1) =~= s.take(i) + seq![s[i]]);
    lemma_html_list_append(s.take(i), seq![s[i]]);
    assert(seq![s[i]].drop_first() =~= Seq::<PartView>::empty());
    assert(seq![s[i]][0] == s[i]);
    assert(html_leaves_list(seq![s[i]].drop_first()) =~= html_leaves_list(Seq::<PartView>::empty()));
    assert(html_leaves_list(seq![s[i]]) =~= html_leaves(s[i]));
}

pub proof fn lemma_sizes_list_append(a: Seq<PartView>, b: Seq<PartView>)
    ensures
        attachment_sizes_list(a + b) == attachment_sizes_list(a) + attachment_sizes_list(b),
    decreases a.len(),
{
    if a.len() == 0 {
        assert(a + b =~= b);
        assert(attachment_sizes_list(a) + attachment_sizes_list(b) =~= attachment_sizes_list(b));
    } else {
        assert((a + b).drop_first() =~= a.drop_first() + b);
        lemma_sizes_list_append(a.drop_first(), b);
        assert(attachment_sizes(a[0]) + (attachment_sizes_list(a.drop_first())
            + attachment_sizes_list(b)) =~= (attachment_sizes(a[0]) + attachment_sizes_list(
        a.drop_first())) + attachment_sizes_list(b));
        assert((a + b)[0] == a[0]);
    }
}

pub proof fn lemma_sizes_list_take_step(s: Seq<PartView>, i: int)
    requires
        0 <= i < s.len(),
    ensures
        attachment_sizes_list(s.take(i + 1)) == attachment_sizes_list(s.take(i))
            + attachment_sizes(s[i]),
{
    assert(s.take(i + 1) =~= s.take(i) + seq![s[i]]);
    lemma_sizes_list_append(s.take(i), seq![s[i]]);
    assert(seq![s[i]].drop_first() =~= Seq::<PartView>::empty());
    assert(seq![s[i]][0] == s[i]);
    assert(attachment_sizes_list(seq![s[i]].drop_first()) =~= attachment_sizes_list(Seq::<PartView>::empty()));
    assert(attachment_sizes_list(seq![s[i]]) =~= attachment_sizes(s[i]));
}

/// Append the plain-text leaves of the tree under `p` to `out`, in pre-order.
#[verifier::loop_isolation(false)]
pub fn collect_text(p: &BodyPart, out: &mut Vec<Vec<u8>>)
    ensures
        vecs_view(final(out)@) == vecs_view(old(out)@) + text_leaves(part_view(*p)),
    decreases *p,
{
    let ghost out0 = out@;
    match p {
        BodyPart::Text { content } => {
            out.push(copy_bytes(content));
            proof {
                assert(vecs_view(out@) =~= vecs_view(out0) + text_leaves(part_view(*p)));
            }
        },
        BodyPart::Multipart { subtype, children } => {
            let ghost cs = parts_view(children@);
            proof {
                lemma_parts_view_len(children@);
            }
            let mut i: usize = 0;
            while i < children.len()
                invariant
                    0 <= i <= children.len(),
                    vecs_view(out@) == vecs_view(out0) + text_leaves_list(cs.take(i as int)),
                decreases children.len() - i,
            {
                proof {
                    lemma_parts_view_index(children@, i as int);
                }
                collect_text(&children[i], out);
                proof {
                    lemma_text_list_take_step(cs, i as int);
                }
                i += 1;
            }
            proof {
                assert(cs.take(children@.len() as int) =~= cs);
            }
        },
        BodyPart::Html { content } => {
            proof {
                assert(vecs_view(out@) =~= vecs_view(out0) + text_leaves(part_view(*p)));
            }
        },
        BodyPart::Attachment { content_type, filename, size } => {
            proof {
                assert(vecs_view(out@) =~= vecs_view(out0) + text_leaves(part_view(*p)));
            }
        },
    }
}

/// Append the HTML leaves of the tree under `p` to `out`, in pre-order.
#[verifier::loop_isolation(false)]
pub fn collect_html(p: &BodyPart, out: &mut Vec<Vec<u8>>)
    ensures
        vecs_view(final(out)@) == vecs_view(old(out)@) + html_leaves(part_view(*p)),
    decreases *p,
{
    let ghost out0 = out@;
    match p {
        BodyPart::Html { content } => {
            out.push(copy_bytes(content));
            proof {
                assert(vecs_view(out@) =~= vecs_view(out0) + html_leaves(part_view(*p)));
            }
        },
        BodyPart::Multipart { subtype, children } => {
            let ghost cs = parts_view(children@);
            proof {
                lemma_parts_view_len(children@);
            }
            let mut i: usize = 0;
            while i < children.len()
                invariant
                    0 <= i <= children.len(),
                    vecs_view(out@) == vecs_view(out0) + html_leaves_list(cs.take(i as int)),
                decreases children.len() - i,
            {
                proof {
                    lemma_parts_view_index(children@, i as int);
                }
                collect_html(&children[i], out);
                proof {
                    lemma_html_list_take_step(cs, i as int);
                }
                i += 1;
            }
            proof {
                assert(cs.take(children@.len() as int) =~= cs);
            }
        },
        BodyPart::Text { content } => {
            proof {
                assert(vecs_view(out@) =~= vecs_view(out0) + html_leaves(part_view(*p)));
            }
        },
        BodyPart::Attachment { content_type, filename, size } => {
            proof {
                assert(vecs_view(out@) =~= vecs_view(out0) + html_leaves(part_view(*p)));
            }
        },
    }
}

/// Append the sizes of the attachment leaves under `p` to `out`, in pre-order.
#[verifier::loop_isolation(false)]
pub fn collect_attachment_sizes(p: &BodyPart, out: &mut Vec<usize>)
    ensures
        final(out)@ == old(out)@ + attachment_sizes(part_view(*p)),
    decreases *p,
{
    let ghost out0 = out@;
    match p {
        BodyPart::Attachment { content_type, filename, size } => {
            out.push(*size);
            proof {
                assert(out@ =~= out0 + attachment_sizes(part_view(*p)));
            }
        },
        BodyPart::Multipart { subtype, children } => {
            let ghost cs = parts_view(children@);
            proof {
                lemma_parts_view_len(children@);
            }
            let mut i: usize = 0;
            while i < children.len()
                invariant
                    0 <= i <= children.len(),
                    out@ == out0 + attachment_sizes_list(cs.take(i as int)),
                decreases children.len() - i,
            {
                proof {
                    lemma_parts_view_index(children@, i as int);
                }
                collect_attachment_sizes(&children[i], out);
                proof {
                    lemma_sizes_list_take_step(cs, i as int);
                }
                i += 1;
            }
            proof {
                assert(cs.take(children@.len() as int) =~= cs);
            }
        },
        BodyPart::Text { content } => {
            proof {
                assert(out@ =~= out0 + attachment_sizes(part_view(*p)));
            }
        },
        BodyPart::Html { content } => {
            proof {
                assert(out@ =~= out0 + attachment_sizes(part_view(*p)));
            }
        },
    }
}

/// Concatenate a list of owned byte strings.
#[verifier::loop_isolation(false)]
pub fn concat_vecs(parts: &Vec<Vec<u8>>) -> (r: Vec<u8>)
    ensures
        r@ == concat_all(vecs_view(parts@)),
{
    let ghost ps = vecs_view(parts@);
    let mut r: Vec<u8> = Vec::new();
    let mut i: usize = 0;
    while i < parts.len()
        invariant
            0 <= i <= parts.len(),
            r@ == concat_all(ps.take(i as int)),
        decreases parts.len() - i,
    {
        crate::bytes::push_all(&mut r, parts[i].as_slice());
        proof {
            lemma_concat_all_take_step(ps, i as int);
        }
        i += 1;
    }
    proof {
        assert(ps.take(parts@.len() as int) =~= ps);
    }
    r
}

pub proof fn lemma_concat_all_append(a: Seq<Seq<u8>>, b: Seq<Seq<u8>>)
    ensures
        concat_all(a + b) == concat_all(a) + concat_all(b),
    decreases a.len(),
{
    if a.len() == 0 {
        assert(a + b =~= b);
        assert(concat_all(a) + concat_all(b) =~= concat_all(b));
    } else {
        assert((a + b).drop_first() =~= a.drop_first() + b);
        lemma_concat_all_append(a.drop_first(), b);
        assert(a[0] + (concat_all(a.drop_first()) + concat_all(b)) =~= (a[0] + concat_all(
            a.drop_first(),
        )) + concat_all(b));
        assert((a + b)[0] == a[0]);
    }
}

pub proof fn lemma_concat_all_take_step(s: Seq<Seq<u8>>, i: int)
    requires
        0 <= i < s.len(),
    ensures
        concat_all(s.take(i + 1)) == concat_all(s.take(i)) + s[i],
{
    assert(s.take(i + 1) =~= s.take(i) + seq![s[i]]);
    lemma_concat_all_append(s.take(i), seq![s[i]]);
    assert(seq![s[i]].drop_first() =~= Seq::<Seq<u8>>::empty());
    assert(seq![s[i]][0] == s[i]);
    assert(concat_all(seq![s[i]].drop_first()) =~= concat_all(Seq::<Seq<u8>>::empty()));
    assert(concat_all(seq![s[i]]) =~= s[i]);
}

impl Message {
    /// The number of plain-text leaves of the body tree.
    pub fn text_body_count(&self) -> (r: usize)
        ensures
            r == text_leaves(part_view(self.root)).len(),
    {
        let mut v: Vec<Vec<u8>> = Vec::new();
        collect_text(&self.root, &mut v);
        proof {
            assert(vecs_view(v@).len() == v@.len());
        }
        v.len()
    }

    /// The number of HTML leaves of the body tree.
    pub fn html_body_count(&self) -> (r: usize)
        ensures
            r == html_leaves(part_view(self.root)).len(),
    {
        let mut v: Vec<Vec<u8>> = Vec::new();
        collect_html(&self.root, &mut v);
        proof {
            assert(vecs_view(v@).len() == v@.len());
        }
        v.len()
    }

    /// The number of attachment leaves of the body tree.
    pub fn attachment_count(&self) -> (r: usize)
        ensures
            r == attachment_sizes(part_view(self.root)).len(),
    {
        let mut v: Vec<usize> = Vec::new();
        collect_attachment_sizes(&self.root, &mut v);
        v.len()
    }

    /// The `n`-th plain-text leaf of the body tree, in pre-order; `None`
    /// exactly when `n` is out of range.
    pub fn body_text(&self, n: usize) -> (r: Option<Vec<u8>>)
        ensures
            match r {
                Option::Some(c) => n < text_leaves(part_view(self.root)).len() && c@ == text_leaves(
                    part_view(self.root),
                )[n as int],
                Option::None => n >= text_leaves(part_view(self.root)).len(),
            },
    {
        let mut v: Vec<Vec<u8>> = Vec::new();
        collect_text(&self.root, &mut v);
        proof {
            assert(vecs_view(v@).len() == v@.len());
        }
        if n < v.len() {
            let c = copy_bytes(&v[n]);
            Option::Some(c)
        } else {
            Option::None
        }
    }

    /// The `n`-th HTML leaf of the body tree, in pre-order; `None` exactly
    /// when `n` is out of range.
    pub fn body_html(&self, n: usize) -> (r: Option<Vec<u8>>)
        ensures
            match r {
                Option::Some(c) => n < html_leaves(part_view(self.root)).len() && c@ == html_leaves(
                    part_view(self.root),
                )[n as int],
                Option::None => n >= html_leaves(part_view(self.root)).len(),
            },
    {
        let mut v: Vec<Vec<u8>> = Vec::new();
        collect_html(&self.root, &mut v);
        proof {
            assert(vecs_view(v@).len() == v@.len());
        }
        if n < v.len() {
            let c = copy_bytes(&v[n]);
            Option::Some(c)
        } else {
            Option::None
        }
    }

    /// The concatenation of all plain-text leaves, in pre-order.
    pub fn all_text(&self) -> (r: Vec<u8>)
        ensures
            r@ == concat_all(text_leaves(part_view(self.root))),
    {
        let mut v: Vec<Vec<u8>> = Vec::new();
        collect_text(&self.root, &mut v);
        concat_vecs(&v)
    }

    /// The concatenation of all HTML leaves, in pre-order.
    pub fn all_html(&self) -> (r: Vec<u8>)
        ensures
            r@ == concat_all(html_leaves(part_view(self.root))),
    {
        let mut v: Vec<Vec<u8>> = Vec::new();
        collect_html(&self.root, &mut v);
        concat_vecs(&v)
    }
}

} // verus!
