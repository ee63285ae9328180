//! The percent codec: decodes the `%XX` escapes of a file name, but for
//! those that would bring in a path separator or a control character.

use vstd::prelude::*;
use crate::command::Wcurl;
use crate::text::chars_of;

verus! {

/// Whether `c` is a hexadecimal digit, in either case.
pub open spec fn is_hex_digit(c: char) -> bool {
    '0' <= c <= '9' || 'a' <= c <= 'f' || 'A' <= c <= 'F'
}

/// The value of the hexadecimal digit `c`.
pub open spec fn hex_value(c: char) -> int {
    if '0' <= c <= '9' {
        c as int - '0' as int
    } else if 'a' <= c <= 'f' {
        c as int - 'a' as int + 10
    } else if 'A' <= c <= 'F' {
        c as int - 'A' as int + 10
    } else {
        0
    }
}

/// Whether an escape stands at `s[at]`: a `%` and two hexadecimal digits.
pub open spec fn is_escape_at(s: Seq<char>, at: int) -> bool {
    &&& 0 <= at
    &&& at + 2 < s.len()
    &&& s[at] == '%'
    &&& is_hex_digit(s[at + 1])
    &&& is_hex_digit(s[at + 2])
}

/// The byte that the escape at `s[at]` stands for.
pub open spec fn escaped_byte(s: Seq<char>, at: int) -> int {
    16 * hex_value(s[at + 1]) + hex_value(s[at + 2])
}

/// Whether the byte `b` is never decoded because of what it would mean in a
/// path: `/` (2F) and `\` (5C).
pub open spec fn is_protected(b: int) -> bool {
    b == 0x2f || b == 0x5c
}

/// Whether an escape for the byte `b` is decoded: `b` is not protected, is
/// no control character (below 32), and is a text of one byte by itself
/// (below 128).
pub open spec fn is_decoded(b: int) -> bool {
    !is_protected(b) && 32 <= b < 128
}

/// Whether an escape that is decoded stands at `s[at]`.
pub open spec fn is_decoded_at(s: Seq<char>, at: int) -> bool {
    is_escape_at(s, at) && is_decoded(escaped_byte(s, at))
}

/// `s[from..]` decoded, reading from left to right: an escape that is
/// decoded gives its character, any other escape stays as its three
/// characters, and any other character stays.
pub open spec fn decoded_from(s: Seq<char>, from: int) -> Seq<char>
    decreases s.len() - from,
{
    if 0 <= from < s.len() {
        if is_decoded_at(s, from) {
            seq![escaped_byte(s, from) as char] + decoded_from(s, from + 3)
        } else if is_escape_at(s, from) {
            s.subrange(from, from + 3) + decoded_from(s, from + 3)
        } else {
            seq![s[from]] + decoded_from(s, from + 1)
        }
    } else {
        Seq::empty()
    }
}

/// The file name `s` with its escapes decoded.
pub open spec fn percent_decoded(s: Seq<char>) -> Seq<char> {
    decoded_from(s, 0)
}

/// Where no escape that is decoded stands in `s` at or after `from`,
/// decoding `s[from..]` changes nothing.
pub proof fn lemma_decoded_from_unchanged(s: Seq<char>, from: int)
    requires
        0 <= from <= s.len(),
        forall|i: int| from <= i < s.len() ==> !is_decoded_at(s, i),
    ensures
        decoded_from(s, from) == s.skip(from),
    decreases s.len() - from,
{
    if from < s.len() {
        if is_escape_at(s, from) {
            lemma_decoded_from_unchanged(s, from + 3);
            assert(s.subrange(from, from + 3) + s.skip(from + 3) =~= s.skip(from));
        } else {
            lemma_decoded_from_unchanged(s, from + 1);
            assert(seq![s[from]] + s.skip(from + 1) =~= s.skip(from));
        }
    } else {
        assert(s.skip(from) =~= Seq::<char>::empty());
    }
}

/// Decoding changes nothing in a text without an escape that is decoded:
/// one whose escapes are all protected, control characters or bytes from
/// 128 on.
pub proof fn lemma_decoding_keeps_text_without_decoded_escape(s: Seq<char>)
    requires
        forall|i: int| 0 <= i < s.len() ==> !is_decoded_at(s, i),
    ensures
        percent_decoded(s) == s,
{
    lemma_decoded_from_unchanged(s, 0);
    assert(s.skip(0) =~= s);
}

/// Decoding is idempotent on a text in which no `%` is followed by two
/// hexadecimal digits: it gives the text back, and so does decoding again.
pub proof fn lemma_decoding_idempotent_without_escape(s: Seq<char>)
    requires
        forall|i: int| 0 <= i < s.len() ==> !is_escape_at(s, i),
    ensures
        percent_decoded(s) == s,
        percent_decoded(percent_decoded(s)) == percent_decoded(s),
{
    lemma_decoding_keeps_text_without_decoded_escape(s);
}

/// Whether `c` may not come out of decoding unless it went in: a path
/// separator or a control character.
pub open spec fn is_unsafe_char(c: char) -> bool {
    c == '/' || c == '\\' || (c as int) < 32
}

/// Decoding `s[from..]` brings in no path separator and no control
/// character: each one in the result stood in `s[from..]` already.
pub proof fn lemma_decoded_from_is_safe(s: Seq<char>, from: int, c: char)
    requires
        0 <= from <= s.len(),
        is_unsafe_char(c),
        decoded_from(s, from).contains(c),
    ensures
        s.skip(from).contains(c),
    decreases s.len() - from,
{
    if from < s.len() {
        let out = decoded_from(s, from);
        let k = choose|k: int| 0 <= k < out.len() && out[k] == c;
        if is_decoded_at(s, from) {
            let b = escaped_byte(s, from);
            assert(b as char as int == b);
            let rest = decoded_from(s, from + 3);
            assert(out == seq![b as char] + rest);
            assert(k > 0);
            assert(rest[k - 1] == c);
            lemma_decoded_from_is_safe(s, from + 3, c);
            let tail = s.skip(from + 3);
            let j = choose|j: int| 0 <= j < tail.len() && tail[j] == c;
            assert(s.skip(from)[j + 3] == c);
        } else if is_escape_at(s, from) {
            let rest = decoded_from(s, from + 3);
            assert(out == s.subrange(from, from + 3) + rest);
            if k < 3 {
                assert(s.skip(from)[k] == c);
            } else {
                assert(rest[k - 3] == c);
                lemma_decoded_from_is_safe(s, from + 3, c);
                let tail = s.skip(from + 3);
                let j = choose|j: int| 0 <= j < tail.len() && tail[j] == c;
                assert(s.skip(from)[j + 3] == c);
            }
        } else {
            let rest = decoded_from(s, from + 1);
            assert(out == seq![s[from]] + rest);
            if k == 0 {
                assert(s.skip(from)[0] == c);
            } else {
                assert(rest[k - 1] == c);
                lemma_decoded_from_is_safe(s, from + 1, c);
                let tail = s.skip(from + 1);
                let j = choose|j: int| 0 <= j < tail.len() && tail[j] == c;
                assert(s.skip(from)[j + 1] == c);
            }
        }
    }
}

/// Decoding brings in no path separator and no control character: each one
/// in the decoded file name stood in the file name already.
pub proof fn lemma_decoding_is_safe(s: Seq<char>, c: char)
    requires
        is_unsafe_char(c),
        percent_decoded(s).contains(c),
    ensures
        s.contains(c),
{
    lemma_decoded_from_is_safe(s, 0, c);
    assert(s.skip(0) =~= s);
}

/// The value of `c` as a hexadecimal digit, if it is one.
fn hex_digit_value(c: char) -> (r: Option<u8>)
    ensures
        r is Some == is_hex_digit(c),
        r is Some ==> r->0 == hex_value(c) && r->0 < 16,
{
    if c >= '0' && c <= '9' {
        Some((c as u8) - 48u8)
    } else if c >= 'a' && c <= 'f' {
        Some((c as u8) - 87u8)
    } else if c >= 'A' && c <= 'F' {
        Some((c as u8) - 55u8)
    } else {
        None
    }
}

/// The byte of the escape at `s[at]`, if one stands there.
fn escape_at(s: &[char], at: usize) -> (r: Option<u8>)
    requires
        at < s.len(),
    ensures
        r is Some == is_escape_at(s@, at as int),
        r is Some ==> r->0 == escaped_byte(s@, at as int),
{
    if s[at] != '%' || s.len() - at <= 2 {
        return None;
    }
    match (hex_digit_value(s[at + 1]), hex_digit_value(s[at + 2])) {
        (Some(high), Some(low)) => Some(16 * high + low),
        _ => None,
    }
}

/// The characters `s` with their escapes decoded.
pub fn percent_decode_chars(s: &[char]) -> (out: String)
    ensures
        out@ == percent_decoded(s@),
{
    let mut out = String::new();
    let mut i: usize = 0;
    while i < s.len()
        invariant
            i <= s.len(),
            out@ + decoded_from(s@, i as int) == percent_decoded(s@),
        decreases s.len() - i,
    {
        let ghost before = out@;
        match escape_at(s, i) {
            Some(byte) => {
                if byte != 0x2f && byte != 0x5c && byte >= 32 && byte < 128 {
                    out.push(byte as char);
                    assert(out@ + decoded_from(s@, i + 3) =~= before + decoded_from(s@, i as int));
                } else {
                    out.push(s[i]);
                    out.push(s[i + 1]);
                    out.push(s[i + 2]);
                    assert(out@ + decoded_from(s@, i + 3) =~= before + decoded_from(s@, i as int));
                }
                i += 3;
            },
            None => {
                out.push(s[i]);
                assert(out@ + decoded_from(s@, i + 1) =~= before + decoded_from(s@, i as int));
                i += 1;
            },
        }
    }
    assert(out@ + Seq::<char>::empty() =~= out@);
    out
}

impl Wcurl {
    /// The file name `filename` with its escapes decoded.
    ///
    /// The text is read once from left to right. A `%` with two hexadecimal
    /// digits behind it is an escape. It becomes the character that it
    /// stands for, unless that is `/` or `\`, a control character, or a
    /// byte from 128 on: such an escape stays as it is. Every other
    /// character stays too.
    pub fn percent_decode_filename(filename: &str) -> (decoded: String)
        ensures
            decoded@ == percent_decoded(filename@),
    {
        let s = chars_of(filename);
        percent_decode_chars(s.as_slice())
    }
}

} // verus!
