use vstd::prelude::*;

use crate::model::{concat_all, html_leaves, message_view, part_view, text_leaves, Message};

verus! {

/// The text that lossy UTF-8 decoding yields for a byte string.
pub uninterp spec fn utf8_lossy_of(b: Seq<u8>) -> Seq<char>;

/// Relies on String::from_utf8_lossy: the result is a function of the bytes
/// alone; an empty input gives an empty string; ASCII bytes decode to
/// themselves.
#[verifier::external_body]
pub fn utf8_lossy(b: &[u8]) -> (r: String)
    ensures
        r@ == utf8_lossy_of(b@),
        b@.len() == 0 ==> r@.len() == 0,
        (forall|i: int| 0 <= i < b@.len() ==> b@[i] < 128) ==> r@ == b@.map_values(
            |x: u8| x as char,
        ),
{
    String::from_utf8_lossy(b).into_owned()
}

impl Message {
    /// The two body blobs: all plain-text leaves concatenated in pre-order,
    /// and all HTML leaves likewise, each replaced by its sentinel when no
    /// leaf of that kind exists.
    pub fn get_body(&self) -> (r: (String, String))
        ensures
            ({
                let t = concat_all(text_leaves(message_view(*self).root));
                if t.len() == 0 {
                    r.0@ == "No text body found"@
                } else {
                    r.0@ == utf8_lossy_of(t)
                }
            }),
            ({
                let h = concat_all(html_leaves(message_view(*self).root));
                if h.len() == 0 {
                    r.1@ == "No HTML body found"@
                } else {
                    r.1@ == utf8_lossy_of(h)
                }
            }),
    {
        let t = self.all_text();
        let text = if t.len() == 0 {
            String::from_str("No text body found")
        } else {
            utf8_lossy(t.as_slice())
        };
        let h = self.all_html();
        let html = if h.len() == 0 {
            String::from_str("No HTML body found")
        } else {
            utf8_lossy(h.as_slice())
        };
        proof {
            assert(message_view(*self).root == part_view(self.root));
        }
        (text, html)
    }
}

} // verus!
