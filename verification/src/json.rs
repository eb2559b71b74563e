//! JSON string literals, byte for byte: how a text is quoted, and how a
//! quoted text is read back.

use crate::text::{
    all_ascii, holds_at, is_digit, lemma_all_ascii_valid_utf8, lemma_holds_at_split,
};
use vstd::pervasive::unreached;
use vstd::prelude::*;
use vstd::string::*;
use vstd::utf8::*;

verus! {

/// `"`, which opens and closes a string literal.
pub const QUOTE: u8 = 0x22;

/// `\`, which begins an escape.
pub const BACKSLASH: u8 = 0x5c;

/// `b`, which behind a backslash stands for a backspace.
pub const SMALL_B: u8 = 0x62;

/// `f`, which behind a backslash stands for a form feed.
pub const SMALL_F: u8 = 0x66;

/// `n`, which behind a backslash stands for a line feed.
pub const SMALL_N: u8 = 0x6e;

/// `r`, which behind a backslash stands for a carriage return.
pub const SMALL_R: u8 = 0x72;

/// `t`, which behind a backslash stands for a tab.
pub const SMALL_T: u8 = 0x74;

/// `u`, which behind a backslash begins a byte in hexadecimal.
pub const SMALL_U: u8 = 0x75;

/// `0`.
pub const DIGIT_ZERO: u8 = 0x30;

/// The lower-case hexadecimal digit of a number below sixteen.
pub open spec fn hex_digit(n: int) -> u8 {
    if n < 10 {
        (0x30 + n) as u8
    } else {
        (0x57 + n) as u8
    }
}

/// What one byte of a text becomes inside a JSON string literal: a quote, a
/// backslash and the control bytes below 0x20 are escaped, every other byte
/// stands for itself.
pub open spec fn escaped_byte(b: u8) -> Seq<u8> {
    if b == QUOTE {
        seq![BACKSLASH, QUOTE]
    } else if b == BACKSLASH {
        seq![BACKSLASH, BACKSLASH]
    } else if b == 0x08 {
        seq![BACKSLASH, SMALL_B]
    } else if b == 0x09 {
        seq![BACKSLASH, SMALL_T]
    } else if b == 0x0a {
        seq![BACKSLASH, SMALL_N]
    } else if b == 0x0c {
        seq![BACKSLASH, SMALL_F]
    } else if b == 0x0d {
        seq![BACKSLASH, SMALL_R]
    } else if b < 0x20 {
        seq![
            BACKSLASH,
            SMALL_U,
            DIGIT_ZERO,
            DIGIT_ZERO,
            hex_digit(b as int / 16),
            hex_digit(b as int % 16),
        ]
    } else {
        seq![b]
    }
}

/// The bytes of a text with each of them escaped as JSON asks.
pub open spec fn escaped(text: Seq<u8>) -> Seq<u8>
    decreases text.len(),
{
    if text.len() == 0 {
        Seq::empty()
    } else {
        escaped_byte(text[0]) + escaped(text.drop_first())
    }
}

/// The JSON string literal of a text: its escaped bytes between two quotes.
pub open spec fn quoted(text: Seq<u8>) -> Seq<u8> {
    seq![QUOTE] + escaped(text) + seq![QUOTE]
}

/// The number that a lower-case hexadecimal digit stands for.
pub open spec fn hex_value(b: u8) -> Option<int> {
    if is_digit(b) {
        Some(b - 0x30)
    } else if 0x61 <= b <= 0x66 {
        Some(b - 0x57)
    } else {
        None
    }
}

/// The byte that the escape sequence at `pos` stands for, and the length of
/// the sequence.
pub open spec fn escape_at(bytes: Seq<u8>, pos: int) -> Option<(u8, int)> {
    if 0 <= pos && pos + 1 < bytes.len() && bytes[pos] == BACKSLASH {
        let letter = bytes[pos + 1];
        if letter == QUOTE {
            Some((QUOTE, 2))
        } else if letter == BACKSLASH {
            Some((BACKSLASH, 2))
        } else if letter == SMALL_B {
            Some((0x08, 2))
        } else if letter == SMALL_T {
            Some((0x09, 2))
        } else if letter == SMALL_N {
            Some((0x0a, 2))
        } else if letter == SMALL_F {
            Some((0x0c, 2))
        } else if letter == SMALL_R {
            Some((0x0d, 2))
        } else if letter == SMALL_U && pos + 5 < bytes.len() && bytes[pos + 2] == DIGIT_ZERO
            && bytes[pos + 3] == DIGIT_ZERO {
            match (hex_value(bytes[pos + 4]), hex_value(bytes[pos + 5])) {
                (Some(high), Some(low)) => Some(((high * 16 + low) as u8, 6)),
                _ => None,
            }
        } else {
            None
        }
    } else {
        None
    }
}

/// The text read from `pos` up to the closing quote, behind the bytes
/// `read` that were read before, and the position behind that quote.
pub open spec fn string_body_at(bytes: Seq<u8>, pos: int, read: Seq<u8>) -> Option<
    (Seq<u8>, int),
>
    decreases bytes.len() - pos,
{
    if pos < 0 || pos >= bytes.len() {
        None
    } else if bytes[pos] == QUOTE {
        Some((read, pos + 1))
    } else if bytes[pos] == BACKSLASH {
        match escape_at(bytes, pos) {
            Some((b, length)) => if length > 0 {
                string_body_at(bytes, pos + length, read.push(b))
            } else {
                None
            },
            None => None,
        }
    } else {
        string_body_at(bytes, pos + 1, read.push(bytes[pos]))
    }
}

/// The text of the JSON string literal that begins at `pos`, and the
/// position behind its closing quote.
pub open spec fn string_at(bytes: Seq<u8>, pos: int) -> Option<(Seq<u8>, int)> {
    if 0 <= pos < bytes.len() && bytes[pos] == QUOTE {
        string_body_at(bytes, pos + 1, Seq::empty())
    } else {
        None
    }
}

/// Escaping goes byte by byte: the escaped form of two texts in a row is
/// the escaped forms of each in a row.
pub proof fn lemma_escaped_concat(first: Seq<u8>, second: Seq<u8>)
    ensures
        escaped(first + second) == escaped(first) + escaped(second),
    decreases first.len(),
{
    if first.len() == 0 {
        assert(first + second =~= second);
        assert(escaped(first) + escaped(second) =~= escaped(second));
    } else {
        assert((first + second).drop_first() =~= first.drop_first() + second);
        lemma_escaped_concat(first.drop_first(), second);
        assert(escaped(first + second) =~= escaped(first) + escaped(second));
    }
}

/// Bytes above ASCII are left as they are.
pub proof fn lemma_escaped_above_ascii(text: Seq<u8>)
    requires
        forall|i: int| 0 <= i < text.len() ==> #[trigger] text[i] >= 0x80,
    ensures
        escaped(text) == text,
    decreases text.len(),
{
    if text.len() > 0 {
        let rest = text.drop_first();
        assert forall|i: int| 0 <= i < rest.len() implies #[trigger] rest[i] >= 0x80 by {
            assert(rest[i] == text[i + 1]);
        }
        lemma_escaped_above_ascii(rest);
        assert(seq![text[0]] + rest =~= text);
    }
}

/// What a byte of ASCII becomes is of ASCII.
pub proof fn lemma_escaped_byte_all_ascii(b: u8)
    requires
        b < 0x80,
    ensures
        all_ascii(escaped_byte(b)),
{
}

/// The escaped form of UTF-8 is UTF-8: only bytes of ASCII are escaped, and
/// into ASCII.
pub proof fn lemma_escaped_valid_utf8(text: Seq<u8>)
    requires
        valid_utf8(text),
    ensures
        valid_utf8(escaped(text)),
    decreases text.len(),
{
    if text.len() > 0 {
        let length = length_of_first_scalar(text);
        let first = take_first_scalar(text);
        let rest = pop_first_scalar(text);
        assert(1 <= length <= 4 && length <= text.len());
        assert(first.len() == length);
        assert(text =~= first + rest);
        lemma_escaped_concat(first, rest);
        lemma_escaped_valid_utf8(rest);
        if length == 1 {
            assert(first =~= seq![text[0]]);
            assert(first.drop_first() =~= Seq::<u8>::empty());
            assert(escaped(first.drop_first()) =~= Seq::<u8>::empty());
            assert(escaped(first) =~= escaped_byte(text[0]));
            lemma_escaped_byte_all_ascii(text[0]);
            lemma_all_ascii_valid_utf8(escaped(first));
        } else {
            assert forall|i: int| 0 <= i < first.len() implies #[trigger] first[i] >= 0x80 by {
                assert(first[i] == text[i]);
            }
            lemma_escaped_above_ascii(first);
            assert(valid_first_scalar(first)) by {
                assert(first[0] == text[0]);
                assert(first[1] == text[1]);
                if length >= 3 {
                    assert(first[2] == text[2]);
                }
                if length >= 4 {
                    assert(first[3] == text[3]);
                }
            }
            assert(length_of_first_scalar(first) == length);
            assert(pop_first_scalar(first) =~= Seq::<u8>::empty());
            assert(valid_utf8(pop_first_scalar(first)));
            assert(valid_utf8(first));
        }
        valid_utf8_concat(escaped(first), escaped(rest));
    }
}

/// The string literal of UTF-8 is UTF-8.
pub proof fn lemma_quoted_valid_utf8(text: Seq<u8>)
    requires
        valid_utf8(text),
    ensures
        valid_utf8(quoted(text)),
{
    lemma_escaped_valid_utf8(text);
    assert(all_ascii(seq![QUOTE]));
    lemma_all_ascii_valid_utf8(seq![QUOTE]);
    valid_utf8_concat(seq![QUOTE], escaped(text));
    valid_utf8_concat(seq![QUOTE] + escaped(text), seq![QUOTE]);
}

/// The body of a string literal that `escaped` wrote is read back.
pub proof fn lemma_string_body_at_escaped(
    bytes: Seq<u8>,
    pos: int,
    text: Seq<u8>,
    read: Seq<u8>,
)
    requires
        holds_at(bytes, pos, escaped(text) + seq![QUOTE]),
    ensures
        string_body_at(bytes, pos, read) == Some((read + text, pos + escaped(text).len() + 1)),
    decreases text.len(),
{
    if text.len() == 0 {
        assert(bytes[pos] == bytes.subrange(pos, pos + 1)[0]);
        assert(read + text =~= read);
    } else {
        let b = text[0];
        let rest = text.drop_first();
        let head = escaped_byte(b);
        let tail = escaped(rest) + seq![QUOTE];
        assert(escaped(text) + seq![QUOTE] =~= head + tail);
        lemma_holds_at_split(bytes, pos, head, tail);
        assert forall|i: int| 0 <= i < head.len() implies bytes[pos + i] == #[trigger] head[i] by {
            assert(bytes[pos + i] == bytes.subrange(pos, pos + head.len())[i]);
        }
        assert(bytes[pos] == head[0]);
        if head.len() >= 2 {
            assert(bytes[pos + 1] == head[1]);
        }
        if head.len() == 6 {
            assert(bytes[pos + 2] == head[2]);
            assert(bytes[pos + 3] == head[3]);
            assert(bytes[pos + 4] == head[4]);
            assert(bytes[pos + 5] == head[5]);
            assert(escape_at(bytes, pos) == Some((b, 6int)));
        }
        lemma_string_body_at_escaped(bytes, pos + head.len(), rest, read.push(b));
        assert(read.push(b) + rest =~= read + text);
    }
}

/// The string literal that `quoted` wrote is read back.
pub proof fn lemma_string_at_quoted(bytes: Seq<u8>, pos: int, text: Seq<u8>)
    requires
        holds_at(bytes, pos, quoted(text)),
    ensures
        string_at(bytes, pos) == Some((text, pos + quoted(text).len())),
{
    assert(quoted(text) =~= seq![QUOTE] + (escaped(text) + seq![QUOTE]));
    lemma_holds_at_split(bytes, pos, seq![QUOTE], escaped(text) + seq![QUOTE]);
    assert(bytes[pos] == bytes.subrange(pos, pos + 1)[0]);
    lemma_string_body_at_escaped(bytes, pos + 1, text, Seq::empty());
    assert(Seq::<u8>::empty() + text =~= text);
}

/// `serde_json::Error`, of which nothing is known but that it is an error.
#[verifier::external_type_specification]
#[verifier::external_body]
pub struct ExJsonError(serde_json::Error);

/// `serde_json::to_vec` on a string slice. The serializer writes a quote,
/// then the bytes of the slice, each one escaped as its table of escapes
/// says (`\"`, `\\`, `\b`, `\t`, `\n`, `\f`, `\r`, and `\u00` with two
/// lower-case hexadecimal digits for the other bytes below 0x20), then a
/// quote. It writes into a vector, which takes every write, and a string
/// slice is no map and does not refuse to be serialized: the call succeeds.
#[verifier::external_body]
fn to_json(text: &str) -> (written: Result<Vec<u8>, serde_json::Error>)
    ensures
        written is Ok,
        written->Ok_0@ == quoted(text.spec_bytes()),
{
    serde_json::to_vec(text)
}

/// The JSON string literal of a text.
pub fn quote(text: &str) -> (literal: Vec<u8>)
    ensures
        literal@ == quoted(text.spec_bytes()),
{
    match to_json(text) {
        Ok(bytes) => bytes,
        Err(_) => unreached(),
    }
}

/// The number that a lower-case hexadecimal digit stands for.
fn read_hex(b: u8) -> (value: Option<u8>)
    ensures
        match value {
            Some(v) => hex_value(b) == Some(v as int),
            None => hex_value(b) is None,
        },
{
    if b >= 0x30 && b <= 0x39 {
        Some(b - 0x30)
    } else if b >= 0x61 && b <= 0x66 {
        Some(b - 0x57)
    } else {
        None
    }
}

/// Reads the escape sequence at `pos`.
fn read_escape(bytes: &[u8], pos: usize) -> (read: Option<(u8, usize)>)
    requires
        pos < bytes@.len(),
    ensures
        match read {
            Some((b, length)) => escape_at(bytes@, pos as int) == Some((b, length as int)) && 0
                < length && pos + length <= bytes@.len(),
            None => escape_at(bytes@, pos as int) is None,
        },
{
    let room = bytes.len() - pos;
    if room < 2 || bytes[pos] != BACKSLASH {
        return None;
    }
    let letter = bytes[pos + 1];
    if letter == QUOTE {
        Some((QUOTE, 2))
    } else if letter == BACKSLASH {
        Some((BACKSLASH, 2))
    } else if letter == SMALL_B {
        Some((0x08, 2))
    } else if letter == SMALL_T {
        Some((0x09, 2))
    } else if letter == SMALL_N {
        Some((0x0a, 2))
    } else if letter == SMALL_F {
        Some((0x0c, 2))
    } else if letter == SMALL_R {
        Some((0x0d, 2))
    } else if letter == SMALL_U && room >= 6 && bytes[pos + 2] == DIGIT_ZERO && bytes[pos + 3]
        == DIGIT_ZERO {
        match (read_hex(bytes[pos + 4]), read_hex(bytes[pos + 5])) {
            (Some(high), Some(low)) => Some((high * 16 + low, 6)),
            _ => None,
        }
    } else {
        None
    }
}

/// Reads the JSON string literal that begins at `pos`.
pub(crate) fn read_string(bytes: &[u8], pos: usize) -> (read: Option<(Vec<u8>, usize)>)
    ensures
        match read {
            Some((text, behind)) => string_at(bytes@, pos as int) == Some((text@, behind as int))
                && behind <= bytes@.len(),
            None => string_at(bytes@, pos as int) is None,
        },
{
    if pos >= bytes.len() || bytes[pos] != QUOTE {
        return None;
    }
    let mut text: Vec<u8> = Vec::new();
    let mut i: usize = pos + 1;
    while i < bytes.len()
        invariant
            pos < i <= bytes@.len() <= usize::MAX,
            string_at(bytes@, pos as int) == string_body_at(bytes@, i as int, text@),
        decreases bytes@.len() - i,
    {
        let b = bytes[i];
        if b == QUOTE {
            return Some((text, i + 1));
        } else if b == BACKSLASH {
            match read_escape(bytes, i) {
                Some((unescaped, length)) => {
                    text.push(unescaped);
                    i += length;
                },
                None => {
                    return None;
                },
            }
        } else {
            text.push(b);
            i += 1;
        }
    }
    None
}

} // verus!
