//! Byte strings, and the few outside functions that work on them.

use vstd::prelude::*;
use vstd::utf8::*;

verus! {

/// The bytes of a piece of text.
pub open spec fn bytes_of(s: Seq<char>) -> Seq<u8> {
    encode_utf8(s)
}

/// Appends the bytes of `s` to `buf`.
pub fn push_text(buf: &mut Vec<u8>, s: &str)
    ensures
        final(buf)@ == old(buf)@ + bytes_of(s@),
{
    buf.extend_from_slice(s.as_bytes());
}

/// Appends `bytes` to `buf`.
pub fn push_bytes(buf: &mut Vec<u8>, bytes: &[u8])
    ensures
        final(buf)@ == old(buf)@ + bytes@,
{
    buf.extend_from_slice(bytes);
}

/// `memchr::memchr`: the index of the first byte of `haystack` that equals
/// `needle`, or `None` where no byte does.
#[verifier::external_body]
pub(crate) fn find_byte(needle: u8, haystack: &[u8]) -> (found: Option<usize>)
    ensures
        match found {
            Some(i) => i < haystack@.len() && haystack@[i as int] == needle
                && forall|j: int| 0 <= j < i ==> haystack@[j] != needle,
            None => forall|j: int| 0 <= j < haystack@.len() ==> haystack@[j] != needle,
        },
{
    memchr::memchr(needle, haystack)
}

/// `String::from_utf8`: the string that `bytes` encode, where they are valid
/// UTF-8, and nothing where they are not.
#[verifier::external_body]
pub(crate) fn string_from_utf8(bytes: Vec<u8>) -> (decoded: Option<String>)
    ensures
        decoded is Some <==> valid_utf8(bytes@),
        decoded matches Some(s) ==> bytes_of(s@) == bytes@,
{
    match String::from_utf8(bytes) {
        Ok(s) => Some(s),
        Err(_) => None,
    }
}

/// Whether every byte of `bytes` is below 128.
pub open spec fn is_ascii_bytes(bytes: Seq<u8>) -> bool {
    forall|i: int| 0 <= i < bytes.len() ==> bytes[i] < 0x80
}

/// Bytes below 128 are valid UTF-8.
pub proof fn lemma_ascii_is_utf8(bytes: Seq<u8>)
    requires
        is_ascii_bytes(bytes),
    ensures
        valid_utf8(bytes),
{
    assert(bytes.subrange(0, 0) =~= Seq::<u8>::empty());
    assert(valid_utf8(Seq::<u8>::empty()));
    assert(partial_valid_utf8(bytes, 0));
    assert forall|i: int|
        0 <= 0 <= i < bytes.len() <= bytes.len() implies #[trigger] is_leading_byte_width_1(
        bytes[i],
    ) by {
        let b = bytes[i];
        assert(b < 0x80 ==> b & 0x80 == 0) by (bit_vector);
    }
    partial_valid_utf8_extend_ascii_block(bytes, 0, bytes.len() as int);
    assert(bytes.subrange(0, bytes.len() as int) =~= bytes);
}

/// In valid UTF-8, a character starts at every byte below 128.
pub proof fn lemma_boundary_at_ascii(bytes: Seq<u8>, index: int)
    requires
        valid_utf8(bytes),
        0 <= index < bytes.len(),
        bytes[index] < 0x80,
    ensures
        is_char_boundary(bytes, index),
{
    let b = bytes[index];
    assert(b < 0x80 ==> !(b & 0xc0 == 0x80)) by (bit_vector);
    is_char_boundary_iff_not_is_continuation_byte(bytes, index);
}

/// In valid UTF-8, a character ends after every byte below 128.
pub proof fn lemma_boundary_after_ascii(bytes: Seq<u8>, index: int)
    requires
        valid_utf8(bytes),
        0 < index <= bytes.len(),
        bytes[index - 1] < 0x80,
    ensures
        is_char_boundary(bytes, index),
{
    if index == bytes.len() {
        is_char_boundary_start_end_of_seq(bytes);
    } else {
        lemma_boundary_at_ascii(bytes, index - 1);
        valid_utf8_split(bytes, index - 1);
        let tail = bytes.subrange(index - 1, bytes.len() as int);
        let b = tail[0];
        assert(b == bytes[index - 1]);
        assert(b < 0x80 ==> b & 0x80 == 0) by (bit_vector);
        assert(is_leading_byte_width_1(b));
        assert(length_of_first_scalar(tail) == 1);
        let rest = pop_first_scalar(tail);
        assert(rest =~= bytes.subrange(index, bytes.len() as int));
        assert(valid_utf8(rest));
        assert(rest.len() > 0);
        assert(rest[0] == bytes[index]);
        assert(valid_first_scalar(rest));
        let c = rest[0];
        assert((c & 0x80 == 0 || c & 0xe0 == 0xc0 || c & 0xf0 == 0xe0 || c & 0xf8 == 0xf0) ==> !(c
            & 0xc0 == 0x80)) by (bit_vector);
        is_char_boundary_iff_not_is_continuation_byte(bytes, index);
    }
}

/// The part of valid UTF-8 between two places where characters start or end
/// is valid UTF-8.
pub proof fn lemma_utf8_between(bytes: Seq<u8>, start: int, end: int)
    requires
        valid_utf8(bytes),
        0 <= start <= end <= bytes.len(),
        is_char_boundary(bytes, start),
        is_char_boundary(bytes, end),
    ensures
        valid_utf8(bytes.subrange(start, end)),
{
    valid_utf8_split(bytes, end);
    let head = bytes.subrange(0, end);
    if start == end {
        assert(bytes.subrange(start, end) =~= Seq::<u8>::empty());
    } else {
        if start == 0 {
            is_char_boundary_start_end_of_seq(head);
        } else {
            is_char_boundary_iff_not_is_continuation_byte(bytes, start);
            assert(head[start] == bytes[start]);
            is_char_boundary_iff_not_is_continuation_byte(head, start);
        }
        valid_utf8_split(head, start);
        assert(head.subrange(start, head.len() as int) =~= bytes.subrange(start, end));
    }
}

/// The bytes of text are valid UTF-8.
pub proof fn lemma_text_is_utf8(s: Seq<char>)
    ensures
        valid_utf8(bytes_of(s)),
{
    encode_utf8_valid_utf8(s);
}

/// What `regex::Regex::replace_all` gives for the regular expression
/// `pattern`, the text `haystack` and the replacement `replacement`, or
/// nothing where `regex::Regex::new` takes `pattern` for none.
pub uninterp spec fn replaced(pattern: Seq<char>, haystack: Seq<char>, replacement: Seq<char>) -> Option<Seq<char>>;

/// `regex::Regex::new`, then `regex::Regex::replace_all`: `haystack` with
/// each match of `pattern` replaced by `replacement`, and nothing where
/// `pattern` is no regular expression. What the matches are is not stated
/// here: the result is only given its name.
#[verifier::external_body]
pub(crate) fn replace_all(pattern: &str, haystack: &str, replacement: &str) -> (text: Option<
    String,
>)
    ensures
        replaced(pattern@, haystack@, replacement@) == match text {
            Some(t) => Some(t@),
            None => None,
        },
{
    match regex::Regex::new(pattern) {
        Ok(re) => Some(re.replace_all(haystack, replacement).into_owned()),
        Err(_) => None,
    }
}

/// `bytes` with each byte replaced by what `each` gives for it.
pub open spec fn substituted(bytes: Seq<u8>, each: spec_fn(u8) -> Seq<u8>) -> Seq<u8>
    decreases bytes.len(),
{
    if bytes.len() == 0 {
        Seq::empty()
    } else {
        substituted(bytes.drop_last(), each) + each(bytes.last())
    }
}

/// Substituting in two texts one after the other substitutes in them joined.
pub proof fn lemma_substituted_concat(first: Seq<u8>, second: Seq<u8>, each: spec_fn(u8) -> Seq<u8>)
    ensures
        substituted(first + second, each) == substituted(first, each) + substituted(second, each),
    decreases second.len(),
{
    if second.len() == 0 {
        assert(first + second =~= first);
        assert(substituted(first, each) + substituted(second, each) =~= substituted(first, each));
    } else {
        lemma_substituted_concat(first, second.drop_last(), each);
        assert((first + second).drop_last() =~= first + second.drop_last());
        assert(substituted(first + second, each) =~= substituted(first, each) + substituted(
            second,
            each,
        ));
    }
}

/// Whether `each` leaves every byte from 128 on as it is, and gives valid
/// UTF-8 for every byte below.
pub open spec fn keeps_utf8(each: spec_fn(u8) -> Seq<u8>) -> bool {
    &&& forall|b: u8| b >= 0x80 ==> #[trigger] each(b) == seq![b]
    &&& forall|b: u8| b < 0x80 ==> valid_utf8(#[trigger] each(b))
}

proof fn lemma_substituted_high(bytes: Seq<u8>, each: spec_fn(u8) -> Seq<u8>)
    requires
        keeps_utf8(each),
        forall|i: int| 0 <= i < bytes.len() ==> bytes[i] >= 0x80,
    ensures
        substituted(bytes, each) == bytes,
    decreases bytes.len(),
{
    if bytes.len() > 0 {
        lemma_substituted_high(bytes.drop_last(), each);
        assert(each(bytes.last()) == seq![bytes.last()]);
        assert(substituted(bytes, each) =~= bytes);
    }
}

/// A substitution that touches only bytes below 128, and gives valid UTF-8
/// for each, keeps valid UTF-8 valid.
pub proof fn lemma_substituted_is_utf8(bytes: Seq<u8>, each: spec_fn(u8) -> Seq<u8>)
    requires
        valid_utf8(bytes),
        keeps_utf8(each),
    ensures
        valid_utf8(substituted(bytes, each)),
    decreases bytes.len(),
{
    if bytes.len() > 0 {
        let k = length_of_first_scalar(bytes);
        let head = take_first_scalar(bytes);
        let tail = pop_first_scalar(bytes);
        assert(valid_first_scalar(bytes));
        assert(valid_utf8(tail));
        assert(1 <= k <= bytes.len());
        assert(head + tail =~= bytes);
        lemma_substituted_concat(head, tail, each);
        lemma_substituted_is_utf8(tail, each);
        let b0 = bytes[0];
        if k == 1 {
            assert(b0 & 0x80 == 0 ==> b0 < 0x80) by (bit_vector);
            assert(substituted(head, each) =~= each(b0)) by {
                assert(head.len() == 1);
                assert(head.last() == b0);
                assert(head.drop_last() =~= Seq::<u8>::empty());
                assert(substituted(head.drop_last(), each) =~= Seq::<u8>::empty());
                assert(substituted(head, each) == substituted(head.drop_last(), each) + each(
                    head.last(),
                ));
            }
        } else {
            assert forall|i: int| 0 <= i < head.len() implies head[i] >= 0x80 by {
                let b = head[i];
                assert(b == bytes[i]);
                assert((b & 0xe0 == 0xc0 || b & 0xf0 == 0xe0 || b & 0xf8 == 0xf0 || b & 0xc0
                    == 0x80) ==> b >= 0x80) by (bit_vector);
            }
            lemma_substituted_high(head, each);
            assert(is_char_boundary(bytes, k)) by {
                reveal_with_fuel(is_char_boundary, 2);
            }
            valid_utf8_split(bytes, k);
        }
        valid_utf8_concat(substituted(head, each), substituted(tail, each));
    }
}

} // verus!
