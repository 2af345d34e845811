//! Textual content that borrows from the source Markdown whenever possible.

use vstd::prelude::*;
use vstd::std_specs::cmp::PartialEqSpecImpl;
use vstd::string::StringSliceAdditionalSpecFns;
use vstd::utf8::{decode_utf8, encode_utf8, valid_utf8};

use crate::utf8::str_from_utf8;

verus! {

broadcast use {vstd::utf8::encode_utf8_decode_utf8, vstd::utf8::encode_utf8_valid_utf8};

/// Longest string stored inline by [`Text::inline`] before falling back to a heap
/// allocation; sized to hold the short fragments a parser rewrites (escaped
/// characters, HTML entities) without allocating.
pub const INLINE_CAPACITY: usize = 22;

#[derive(Debug, Clone)]
enum Repr<'a> {
    Borrowed(&'a str),
    Owned(String),
    Inline { len: u8, bytes: [u8; 22] },
}

/// Textual content that borrows from the source Markdown whenever possible.
///
/// Parsing keeps string slices into the input document and only allocates when text
/// must be assembled from multiple fragments (see [`Text::push_str`]); short rewritten
/// fragments are stored inline (see [`Text::inline`]).
#[derive(Debug, Clone)]
pub struct Text<'a>(Repr<'a>);

impl<'a> View for Text<'a> {
    type V = Seq<char>;

    closed spec fn view(&self) -> Seq<char> {
        match self.0 {
            Repr::Borrowed(text) => text@,
            Repr::Owned(text) => text@,
            Repr::Inline { len, bytes } => if len <= 22 && valid_utf8(bytes@.take(len as int)) {
                decode_utf8(bytes@.take(len as int))
            } else {
                Seq::empty()
            },
        }
    }
}

impl<'a> Text<'a> {
    /// The text borrows from the source document.
    pub closed spec fn spec_is_borrowed(&self) -> bool {
        self.0 is Borrowed
    }

    /// The text owns a heap-allocated string.
    pub closed spec fn spec_is_owned(&self) -> bool {
        self.0 is Owned
    }

    /// The text is stored inline, without a heap allocation.
    pub closed spec fn spec_is_inline(&self) -> bool {
        self.0 is Inline
    }

    /// The UTF-8 encoding of the text.
    pub open spec fn spec_bytes(&self) -> Seq<u8> {
        encode_utf8(self@)
    }

    /// Wraps a string slice borrowed from the source document.
    pub fn borrowed(text: &'a str) -> (r: Self)
        ensures
            r@ == text@,
            r.spec_is_borrowed(),
    {
        Text(Repr::Borrowed(text))
    }

    /// Wraps an owned string.
    pub fn owned(text: String) -> (r: Self)
        ensures
            r@ == text@,
            r.spec_is_owned(),
    {
        Text(Repr::Owned(text))
    }

    /// Wraps a short string, copying it inline without a heap allocation when its
    /// UTF-8 encoding fits in [`INLINE_CAPACITY`] bytes; longer input falls back to
    /// [`Text::owned`].
    pub fn inline(text: &str) -> (r: Self)
        ensures
            r@ == text@,
            r.spec_is_inline() <==> text.spec_bytes().len() <= INLINE_CAPACITY,
            !r.spec_is_inline() ==> r.spec_is_owned(),
    {
        let bytes = text.as_bytes();
        if bytes.len() <= INLINE_CAPACITY {
            let mut buffer = [0u8; 22];
            let mut index: usize = 0;
            while index < bytes.len()
                invariant
                    index <= bytes@.len() <= 22,
                    buffer@.len() == 22,
                    forall|k: int| 0 <= k < index ==> buffer@[k] == bytes@[k],
                decreases bytes@.len() - index,
            {
                buffer[index] = bytes[index];
                index += 1;
            }
            assert(buffer@.take(bytes@.len() as int) =~= bytes@);
            Text(Repr::Inline { len: bytes.len() as u8, bytes: buffer })
        } else {
            let owned = text.to_owned();
            Text(Repr::Owned(owned))
        }
    }

    /// Returns the text as a string slice.
    pub fn as_str(&self) -> (r: &str)
        ensures
            r@ == self@,
    {
        proof {
            reveal_strlit("");
        }
        match &self.0 {
            Repr::Borrowed(text) => text,
            Repr::Owned(text) => text.as_str(),
            Repr::Inline { len, bytes } => {
                let all = bytes.as_slice();
                if *len as usize > all.len() {
                    return "";
                }
                let used = &all[0..*len as usize];
                assert(used@ == bytes@.take(*len as int));
                match str_from_utf8(used) {
                    Some(text) => text,
                    None => "",
                }
            },
        }
    }

    /// Returns `true` if the text contains no characters.
    pub fn is_empty(&self) -> (r: bool)
        ensures
            r == (self@.len() == 0),
    {
        self.as_str().is_empty()
    }

    /// Returns `true` when the text borrows from the source document.
    pub fn is_borrowed(&self) -> (r: bool)
        ensures
            r == self.spec_is_borrowed(),
    {
        match &self.0 {
            Repr::Borrowed(_) => true,
            _ => false,
        }
    }

    /// Returns `true` when the text owns a heap-allocated string.
    pub fn is_owned(&self) -> (r: bool)
        ensures
            r == self.spec_is_owned(),
    {
        match &self.0 {
            Repr::Owned(_) => true,
            _ => false,
        }
    }

    /// Returns `true` when the text is stored inline without a heap allocation.
    pub fn is_inline(&self) -> (r: bool)
        ensures
            r == self.spec_is_inline(),
    {
        match &self.0 {
            Repr::Inline { .. } => true,
            _ => false,
        }
    }

    /// Appends `addition`, promoting borrowed or inline text to owned only when needed.
    pub fn push_str(&mut self, addition: &str)
        ensures
            final(self)@ == old(self)@ + addition@,
            addition@.len() != 0 ==> final(self).spec_is_owned(),
            addition@.len() == 0 ==> *final(self) == *old(self),
    {
        if addition.is_empty() {
            assert(old(self)@ + addition@ =~= old(self)@);
            return;
        }
        let mut owned = self.as_str().to_owned();
        owned.append(addition);
        *self = Text(Repr::Owned(owned));
    }
}

/// Compares two byte slices element by element.
fn bytes_equal(a: &[u8], b: &[u8]) -> (r: bool)
    ensures
        r == (a@ == b@),
{
    if a.len() != b.len() {
        return false;
    }
    let mut index: usize = 0;
    while index < a.len()
        invariant
            a@.len() == b@.len(),
            index <= a@.len(),
            forall|k: int| 0 <= k < index ==> a@[k] == b@[k],
        decreases a@.len() - index,
    {
        if a[index] != b[index] {
            return false;
        }
        index += 1;
    }
    assert(a@ =~= b@);
    true
}

impl<'a> PartialEq for Text<'a> {
    fn eq(&self, other: &Self) -> (r: bool) {
        let left = self.as_str();
        let right = other.as_str();
        let same = bytes_equal(left.as_bytes(), right.as_bytes());
        proof {
            if left.spec_bytes() == right.spec_bytes() {
                assert(decode_utf8(encode_utf8(left@)) == decode_utf8(encode_utf8(right@)));
            }
        }
        same
    }
}

impl<'a> PartialEqSpecImpl for Text<'a> {
    open spec fn obeys_eq_spec() -> bool {
        true
    }

    open spec fn eq_spec(&self, other: &Self) -> bool {
        self@ == other@
    }
}

impl<'a> Eq for Text<'a> {
}

} // verus!
