//! Escaping of the characters that are special in HTML.

use vstd::prelude::*;
use vstd::utf8::*;
use crate::text::{
    bytes_of, is_ascii_bytes, keeps_utf8, lemma_ascii_is_utf8, lemma_substituted_is_utf8,
    lemma_text_is_utf8, push_text, string_from_utf8, substituted,
};

verus! {

broadcast use vstd::slice::group_slice_axioms;

/// What stands for one byte in escaped text: an entity for `&`, `<`, `>`,
/// `"` and `'`, and the byte itself for any other.
pub open spec fn escape_byte(b: u8) -> Seq<u8> {
    if b == 0x26 {
        bytes_of("&amp;"@)
    } else if b == 0x3c {
        bytes_of("&lt;"@)
    } else if b == 0x3e {
        bytes_of("&gt;"@)
    } else if b == 0x22 {
        bytes_of("&quot;"@)
    } else if b == 0x27 {
        bytes_of("&#39;"@)
    } else {
        seq![b]
    }
}

/// Text with every special character escaped.
pub open spec fn escaped(bytes: Seq<u8>) -> Seq<u8> {
    substituted(bytes, |b: u8| escape_byte(b))
}

/// Escaping keeps valid UTF-8 valid.
pub proof fn lemma_escaped_is_utf8(bytes: Seq<u8>)
    requires
        valid_utf8(bytes),
    ensures
        valid_utf8(escaped(bytes)),
{
    let each = |b: u8| escape_byte(b);
    assert(keeps_utf8(each)) by {
        lemma_text_is_utf8("&amp;"@);
        lemma_text_is_utf8("&lt;"@);
        lemma_text_is_utf8("&gt;"@);
        lemma_text_is_utf8("&quot;"@);
        lemma_text_is_utf8("&#39;"@);
        assert forall|b: u8| b < 0x80 implies valid_utf8(#[trigger] each(b)) by {
            assert(is_ascii_bytes(seq![b]));
            lemma_ascii_is_utf8(seq![b]);
        }
    }
    lemma_substituted_is_utf8(bytes, each);
}

/// Appends `bytes` with every special character escaped.
pub fn escape_into(buf: &mut Vec<u8>, bytes: &[u8])
    ensures
        final(buf)@ == old(buf)@ + escaped(bytes@),
{
    let mut i: usize = 0;
    assert(buf@ =~= old(buf)@ + escaped(bytes@.subrange(0, 0)));
    while i < bytes.len()
        invariant
            0 <= i <= bytes@.len(),
            buf@ == old(buf)@ + escaped(bytes@.subrange(0, i as int)),
        decreases bytes@.len() - i,
    {
        let b = bytes[i];
        let ghost before = buf@;
        if b == 0x26 {
            push_text(buf, "&amp;");
        } else if b == 0x3c {
            push_text(buf, "&lt;");
        } else if b == 0x3e {
            push_text(buf, "&gt;");
        } else if b == 0x22 {
            push_text(buf, "&quot;");
        } else if b == 0x27 {
            push_text(buf, "&#39;");
        } else {
            buf.push(b);
            assert(buf@ =~= before + seq![b]);
        }
        proof {
            let now = bytes@.subrange(0, i + 1);
            assert(now.drop_last() =~= bytes@.subrange(0, i as int));
            assert(now.last() == b);
            assert(escaped(now) == escaped(now.drop_last()) + escape_byte(b));
            assert(buf@ =~= old(buf)@ + escaped(now));
        }
        i += 1;
    }
    assert(bytes@.subrange(0, i as int) =~= bytes@);
}

/// `bytes` with every special character escaped.
pub fn escape(bytes: &[u8]) -> (out: Vec<u8>)
    ensures
        out@ == escaped(bytes@),
{
    let mut out: Vec<u8> = Vec::new();
    escape_into(&mut out, bytes);
    assert(out@ =~= escaped(bytes@));
    out
}

/// Text to be written with the characters `&`, `<`, `>`, `"` and `'`
/// replaced by `&amp;`, `&lt;`, `&gt;`, `&quot;` and `&#39;`.
#[derive(Debug, Copy, Clone, Eq, PartialEq)]
pub struct Esc<'a>(pub &'a str);

impl<'a> Esc<'a> {
    /// The escaped text.
    pub fn to_string(&self) -> (text: String)
        ensures
            bytes_of(text@) == escaped(bytes_of(self.0@)),
    {
        let out = escape(self.0.as_bytes());
        proof {
            lemma_text_is_utf8(self.0@);
            lemma_escaped_is_utf8(bytes_of(self.0@));
        }
        match string_from_utf8(out) {
            Some(text) => text,
            None => vstd::pervasive::unreached(),
        }
    }
}

} // verus!
