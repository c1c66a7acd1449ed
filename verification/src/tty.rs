//! Text on its way to and from a shell that runs behind a pretended
//! terminal.

use vstd::prelude::*;
use vstd::utf8::*;
use crate::text::{
    bytes_of, is_ascii_bytes, keeps_utf8, lemma_ascii_is_utf8, lemma_substituted_is_utf8,
    lemma_text_is_utf8, string_from_utf8, substituted,
};

verus! {

broadcast use vstd::slice::group_slice_axioms;

/// Whether a byte has a meaning of its own inside double quotes in bash:
/// `"`, `$`, `` ` `` and `\`.
pub open spec fn is_bash_special(b: u8) -> bool {
    b == 0x22 || b == 0x24 || b == 0x60 || b == 0x5c
}

/// What stands for one byte inside double quotes in bash: a special
/// character after a backslash, any other byte as it is.
pub open spec fn escape_bash_byte(b: u8) -> Seq<u8> {
    if is_bash_special(b) {
        seq![0x5cu8, b]
    } else {
        seq![b]
    }
}

/// Text as it stands inside double quotes in bash.
pub open spec fn bash_escaped(bytes: Seq<u8>) -> Seq<u8> {
    substituted(bytes, |b: u8| escape_bash_byte(b))
}

/// Escaping for bash keeps valid UTF-8 valid.
pub proof fn lemma_bash_escaped_is_utf8(bytes: Seq<u8>)
    requires
        valid_utf8(bytes),
    ensures
        valid_utf8(bash_escaped(bytes)),
{
    let each = |b: u8| escape_bash_byte(b);
    assert(keeps_utf8(each)) by {
        assert forall|b: u8| b < 0x80 implies valid_utf8(#[trigger] each(b)) by {
            assert(is_ascii_bytes(each(b)));
            lemma_ascii_is_utf8(each(b));
        }
    }
    lemma_substituted_is_utf8(bytes, each);
}

/// Appends what stands for `c` inside double quotes in bash.
pub fn escape_bash_string_char(out: &mut Vec<u8>, c: u8)
    ensures
        final(out)@ == old(out)@ + escape_bash_byte(c),
{
    if c == 0x22 || c == 0x24 || c == 0x60 || c == 0x5c {
        out.push(0x5c);
    }
    out.push(c);
    assert(out@ =~= old(out)@ + escape_bash_byte(c));
}

/// `s` as it stands inside double quotes in bash.
pub fn escape_bash_string(s: &str) -> (escaped: String)
    ensures
        bytes_of(escaped@) == bash_escaped(bytes_of(s@)),
{
    let bytes = s.as_bytes();
    let mut out: Vec<u8> = Vec::new();
    let mut i: usize = 0;
    assert(out@ =~= bash_escaped(bytes@.subrange(0, 0)));
    while i < bytes.len()
        invariant
            0 <= i <= bytes@.len(),
            out@ == bash_escaped(bytes@.subrange(0, i as int)),
        decreases bytes@.len() - i,
    {
        let c = bytes[i];
        escape_bash_string_char(&mut out, c);
        proof {
            let now = bytes@.subrange(0, i + 1);
            assert(now.drop_last() =~= bytes@.subrange(0, i as int));
            assert(now.last() == c);
            assert(bash_escaped(now) == bash_escaped(now.drop_last()) + escape_bash_byte(c));
        }
        i += 1;
    }
    proof {
        assert(bytes@.subrange(0, i as int) =~= bytes@);
        lemma_text_is_utf8(s@);
        lemma_bash_escaped_is_utf8(bytes_of(s@));
    }
    match string_from_utf8(out) {
        Some(escaped) => escaped,
        None => vstd::pervasive::unreached(),
    }
}

/// Text with each carriage return that stands before a line feed left out.
pub open spec fn unix_lines(bytes: Seq<u8>) -> Seq<u8>
    decreases bytes.len(),
{
    if bytes.len() == 0 {
        Seq::empty()
    } else if bytes.len() >= 2 && bytes[0] == 0x0d && bytes[1] == 0x0a {
        seq![0x0au8] + unix_lines(bytes.subrange(2, bytes.len() as int))
    } else {
        seq![bytes[0]] + unix_lines(bytes.drop_first())
    }
}

proof fn lemma_unix_lines_skip(bytes: Seq<u8>, k: int)
    requires
        0 <= k <= bytes.len(),
        forall|i: int| 0 <= i < k ==> bytes[i] != 0x0d,
    ensures
        unix_lines(bytes) == bytes.subrange(0, k) + unix_lines(
            bytes.subrange(k, bytes.len() as int),
        ),
    decreases k,
{
    if k == 0 {
        assert(bytes.subrange(0, bytes.len() as int) =~= bytes);
        assert(bytes.subrange(0, 0) + unix_lines(bytes) =~= unix_lines(bytes));
    } else {
        let rest = bytes.drop_first();
        assert forall|i: int| 0 <= i < k - 1 implies rest[i] != 0x0d by {
            assert(rest[i] == bytes[i + 1]);
        }
        lemma_unix_lines_skip(rest, k - 1);
        assert(rest.subrange(k - 1, rest.len() as int) =~= bytes.subrange(k, bytes.len() as int));
        assert(seq![bytes[0]] + rest.subrange(0, k - 1) =~= bytes.subrange(0, k));
        assert(unix_lines(bytes) =~= bytes.subrange(0, k) + unix_lines(
            bytes.subrange(k, bytes.len() as int),
        ));
    }
}

/// Leaving carriage returns out keeps valid UTF-8 valid.
pub proof fn lemma_unix_lines_is_utf8(bytes: Seq<u8>)
    requires
        valid_utf8(bytes),
    ensures
        valid_utf8(unix_lines(bytes)),
    decreases bytes.len(),
{
    if bytes.len() > 0 {
        let n = bytes.len() as int;
        let k = length_of_first_scalar(bytes);
        assert(valid_first_scalar(bytes));
        assert(1 <= k <= n);
        let b0 = bytes[0];
        if k == 1 {
            assert(b0 & 0x80 == 0 ==> b0 < 0x80) by (bit_vector);
            if n >= 2 && b0 == 0x0d && bytes[1] == 0x0a {
                crate::text::lemma_boundary_after_ascii(bytes, 2);
                valid_utf8_split(bytes, 2);
                lemma_unix_lines_is_utf8(bytes.subrange(2, n));
                assert(is_ascii_bytes(seq![0x0au8]));
                lemma_ascii_is_utf8(seq![0x0au8]);
                valid_utf8_concat(seq![0x0au8], unix_lines(bytes.subrange(2, n)));
            } else {
                crate::text::lemma_boundary_after_ascii(bytes, 1);
                valid_utf8_split(bytes, 1);
                assert(bytes.subrange(1, n) =~= bytes.drop_first());
                lemma_unix_lines_is_utf8(bytes.drop_first());
                assert(is_ascii_bytes(seq![b0]));
                lemma_ascii_is_utf8(seq![b0]);
                valid_utf8_concat(seq![b0], unix_lines(bytes.drop_first()));
            }
        } else {
            assert forall|i: int| 0 <= i < k implies bytes[i] != 0x0d by {
                let b = bytes[i];
                assert((b & 0xe0 == 0xc0 || b & 0xf0 == 0xe0 || b & 0xf8 == 0xf0 || b & 0xc0
                    == 0x80) ==> b >= 0x80) by (bit_vector);
            }
            lemma_unix_lines_skip(bytes, k);
            assert(is_char_boundary(bytes, k)) by {
                reveal_with_fuel(is_char_boundary, 2);
            }
            valid_utf8_split(bytes, k);
            lemma_unix_lines_is_utf8(bytes.subrange(k, n));
            valid_utf8_concat(bytes.subrange(0, k), unix_lines(bytes.subrange(k, n)));
        }
    }
}

/// What a command wrote was not valid UTF-8.
#[derive(Debug, Clone, Copy, PartialEq, Eq)]
pub struct FromUtf8Error;

/// What a command wrote to its standard output, as text with the line ends
/// of Unix: an error where it is not valid UTF-8.
pub fn get_stdout(stdout: Vec<u8>) -> (out: Result<String, FromUtf8Error>)
    ensures
        out is Ok <==> valid_utf8(stdout@),
        out matches Ok(text) ==> bytes_of(text@) == unix_lines(stdout@),
{
    let mut lines: Vec<u8> = Vec::new();
    let n: usize = stdout.len();
    let mut i: usize = 0;
    proof {
        assert(stdout@.subrange(0, n as int) =~= stdout@);
        assert(lines@ + unix_lines(stdout@) =~= unix_lines(stdout@));
    }
    while i < n
        invariant
            0 <= i <= n,
            n == stdout@.len(),
            unix_lines(stdout@) == lines@ + unix_lines(stdout@.subrange(i as int, n as int)),
        decreases n - i,
    {
        let ghost rest = stdout@.subrange(i as int, n as int);
        let ghost before = lines@;
        assert(rest[0] == stdout@[i as int]);
        if stdout[i] == 0x0d && i + 1 < n && stdout[i + 1] == 0x0a {
            assert(rest[1] == stdout@[i + 1]);
            assert(rest.subrange(2, rest.len() as int) =~= stdout@.subrange(i + 2, n as int));
            lines.push(0x0a);
            assert(lines@ + unix_lines(stdout@.subrange(i + 2, n as int)) =~= before + unix_lines(
                rest,
            ));
            i += 2;
        } else {
            if i + 1 < n {
                assert(rest[1] == stdout@[i + 1]);
            }
            assert(rest.drop_first() =~= stdout@.subrange(i + 1, n as int));
            lines.push(stdout[i]);
            assert(lines@ + unix_lines(stdout@.subrange(i + 1, n as int)) =~= before + unix_lines(
                rest,
            ));
            i += 1;
        }
    }
    proof {
        assert(lines@ + Seq::<u8>::empty() =~= lines@);
        if valid_utf8(stdout@) {
            lemma_unix_lines_is_utf8(stdout@);
        }
    }
    match string_from_utf8(stdout) {
        None => Err(FromUtf8Error),
        Some(_) => match string_from_utf8(lines) {
            Some(text) => Ok(text),
            None => vstd::pervasive::unreached(),
        },
    }
}

} // verus!
