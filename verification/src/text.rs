//! Byte-level building blocks of the wire format: ASCII literals, patterns at
//! a position, and zero-padded decimal numbers.

use vstd::prelude::*;
use vstd::string::*;
use vstd::utf8::*;

verus! {

/// The bytes of a text made of ASCII characters only: one byte for each
/// character.
pub open spec fn ascii(text: Seq<char>) -> Seq<u8> {
    Seq::new(text.len(), |i: int| text[i] as u8)
}

/// Whether `pattern` stands in `bytes` at position `pos`.
pub open spec fn holds_at(bytes: Seq<u8>, pos: int, pattern: Seq<u8>) -> bool {
    &&& 0 <= pos
    &&& pos + pattern.len() <= bytes.len()
    &&& bytes.subrange(pos, pos + pattern.len()) =~= pattern
}

/// Whether every byte is of ASCII, that is below 0x80.
pub open spec fn all_ascii(bytes: Seq<u8>) -> bool {
    forall|i: int| 0 <= i < bytes.len() ==> #[trigger] bytes[i] < 0x80
}

/// Whether `b` is one of the ASCII digits `0` to `9`.
pub open spec fn is_digit(b: u8) -> bool {
    0x30 <= b <= 0x39
}

/// Ten to the power `k`.
pub open spec fn pow10(k: nat) -> nat
    decreases k,
{
    if k == 0 {
        1
    } else {
        10 * pow10((k - 1) as nat)
    }
}

/// The last `width` decimal digits of `n` as ASCII, most significant digit
/// first, padded with zeros on the left.
pub open spec fn decimal(n: int, width: nat) -> Seq<u8>
    decreases width,
{
    if width == 0 {
        Seq::empty()
    } else {
        decimal(n / 10, (width - 1) as nat).push((0x30 + n % 10) as u8)
    }
}

/// The number that the `width` bytes at `pos` spell in decimal, where all of
/// them are digits within `bytes`.
pub open spec fn number_at(bytes: Seq<u8>, pos: int, width: nat) -> Option<int>
    decreases width,
{
    if width == 0 {
        Some(0)
    } else {
        let last = pos + width - 1;
        match number_at(bytes, pos, (width - 1) as nat) {
            Some(high) => if 0 <= last < bytes.len() && is_digit(bytes[last]) {
                Some(high * 10 + (bytes[last] - 0x30))
            } else {
                None
            },
            None => None,
        }
    }
}

/// `decimal` writes as many bytes as it is asked for.
pub proof fn lemma_decimal_len(n: int, width: nat)
    ensures
        decimal(n, width).len() == width,
    decreases width,
{
    if width > 0 {
        lemma_decimal_len(n / 10, (width - 1) as nat);
    }
}

/// Every byte that `decimal` writes is a digit.
pub proof fn lemma_decimal_digits(n: int, width: nat)
    ensures
        forall|i: int| 0 <= i < width ==> is_digit(#[trigger] decimal(n, width)[i]),
    decreases width,
{
    if width > 0 {
        lemma_decimal_digits(n / 10, (width - 1) as nat);
        lemma_decimal_len(n / 10, (width - 1) as nat);
    }
}

/// Bytes of ASCII are the UTF-8 encoding of the characters of the same
/// numbers.
pub proof fn lemma_all_ascii_valid_utf8(bytes: Seq<u8>)
    requires
        all_ascii(bytes),
    ensures
        valid_utf8(bytes),
{
    let chars = Seq::new(bytes.len(), |i: int| bytes[i] as char);
    assert(is_ascii_chars(chars));
    is_ascii_chars_encode_utf8(chars);
    assert(encode_utf8(chars) =~= bytes);
    encode_utf8_valid_utf8(chars);
}

/// The digits of a number are of ASCII.
pub proof fn lemma_decimal_all_ascii(n: int, width: nat)
    ensures
        all_ascii(decimal(n, width)),
{
    lemma_decimal_digits(n, width);
    lemma_decimal_len(n, width);
}

/// A pattern made of two parts stands at a position exactly where the first
/// part stands there and the second right behind it.
pub proof fn lemma_holds_at_split(bytes: Seq<u8>, pos: int, first: Seq<u8>, second: Seq<u8>)
    ensures
        holds_at(bytes, pos, first + second) <==> holds_at(bytes, pos, first) && holds_at(
            bytes,
            pos + first.len(),
            second,
        ),
{
    let whole = first + second;
    if holds_at(bytes, pos, whole) {
        assert(bytes.subrange(pos, pos + first.len()) =~= whole.subrange(0, first.len() as int));
        assert(bytes.subrange(pos + first.len(), pos + first.len() + second.len())
            =~= whole.subrange(first.len() as int, whole.len() as int));
    }
    if holds_at(bytes, pos, first) && holds_at(bytes, pos + first.len(), second) {
        assert(bytes.subrange(pos, pos + whole.len()) =~= bytes.subrange(pos, pos + first.len())
            + bytes.subrange(pos + first.len(), pos + first.len() + second.len()));
    }
}

/// The powers of ten up to the ninth, which a `u32` holds.
pub proof fn lemma_pow10_bound(k: nat)
    requires
        k <= 9,
    ensures
        1 <= pow10(k) <= 1_000_000_000,
        k <= 8 ==> pow10(k) <= 100_000_000,
{
    reveal_with_fuel(pow10, 10);
}

/// A number read at a position is below ten to the number of its digits.
pub proof fn lemma_number_at_bound(bytes: Seq<u8>, pos: int, width: nat)
    ensures
        number_at(bytes, pos, width) matches Some(n) ==> 0 <= n < pow10(width),
    decreases width,
{
    if width > 0 {
        lemma_number_at_bound(bytes, pos, (width - 1) as nat);
    }
}

/// A number is read only from bytes that lie within the input.
pub proof fn lemma_number_at_within(bytes: Seq<u8>, pos: int, width: nat)
    requires
        width > 0,
        number_at(bytes, pos, width) is Some,
    ensures
        pos + width <= bytes.len(),
{
}

/// Reading back the digits that `decimal` wrote gives the number written.
pub proof fn lemma_number_at_decimal(bytes: Seq<u8>, pos: int, n: int, width: nat)
    requires
        0 <= n < pow10(width),
        holds_at(bytes, pos, decimal(n, width)),
    ensures
        number_at(bytes, pos, width) == Some(n),
    decreases width,
{
    if width > 0 {
        let shorter = (width - 1) as nat;
        let text = decimal(n, width);
        lemma_decimal_len(n, width);
        lemma_decimal_len(n / 10, shorter);
        assert(text.subrange(0, shorter as int) =~= decimal(n / 10, shorter));
        assert(bytes.subrange(pos, pos + shorter) =~= bytes.subrange(pos, pos + width).subrange(
            0,
            shorter as int,
        ));
        lemma_number_at_decimal(bytes, pos, n / 10, shorter);
        let last = pos + width - 1;
        assert(bytes[last] == bytes.subrange(pos, pos + width)[width - 1]);
        assert(text[width - 1] == (0x30 + n % 10) as u8);
    }
}

/// `String::from_utf8`: the string whose UTF-8 encoding the bytes are, where
/// they are the encoding of one, and an error where they are not.
#[verifier::external_body]
pub(crate) fn string_of_utf8(bytes: Vec<u8>) -> (text: Option<String>)
    ensures
        text is Some <==> valid_utf8(bytes@),
        text matches Some(t) ==> t@ == decode_utf8(bytes@),
{
    match String::from_utf8(bytes) {
        Ok(text) => Some(text),
        Err(_) => None,
    }
}

/// Tells whether two runs of bytes are the same.
pub(crate) fn same_bytes(first: &[u8], second: &[u8]) -> (same: bool)
    ensures
        same == (first@ == second@),
{
    if first.len() != second.len() {
        return false;
    }
    let mut i: usize = 0;
    while i < first.len()
        invariant
            i <= first@.len(),
            first@.len() == second@.len(),
            forall|j: int| 0 <= j < i ==> first@[j] == second@[j],
        decreases first@.len() - i,
    {
        if first[i] != second[i] {
            return false;
        }
        i += 1;
    }
    assert(first@ =~= second@);
    true
}

/// Appends the bytes of an ASCII literal.
pub(crate) fn push_ascii(out: &mut Vec<u8>, text: &str)
    requires
        is_ascii(text),
    ensures
        final(out)@ == old(out)@ + ascii(text@),
{
    broadcast use is_ascii_spec_bytes;

    out.extend_from_slice(text.as_bytes());
}

/// Appends `n` in decimal, in exactly `width` digits.
pub(crate) fn push_decimal(out: &mut Vec<u8>, n: u32, width: u8)
    ensures
        final(out)@ == old(out)@ + decimal(n as int, width as nat),
    decreases width,
{
    if width > 0 {
        push_decimal(out, n / 10, width - 1);
        let low: u32 = n % 10;
        out.push(0x30 + low as u8);
        assert(out@ =~= old(out)@ + decimal(n as int, width as nat));
    } else {
        assert(out@ =~= old(out)@ + decimal(n as int, width as nat));
    }
}

/// Tells whether the ASCII literal `pattern` stands in `bytes` at `pos`.
pub(crate) fn matches_at(bytes: &[u8], pos: usize, pattern: &str) -> (found: bool)
    requires
        is_ascii(pattern),
    ensures
        found == holds_at(bytes@, pos as int, ascii(pattern@)),
        found ==> pos + pattern@.len() <= usize::MAX,
{
    broadcast use is_ascii_spec_bytes;

    let wanted = pattern.as_bytes();
    if pos > bytes.len() || wanted.len() > bytes.len() - pos {
        return false;
    }
    let mut i: usize = 0;
    while i < wanted.len()
        invariant
            i <= wanted@.len(),
            pos + wanted@.len() <= bytes@.len() <= usize::MAX,
            wanted@ == ascii(pattern@),
            forall|j: int| 0 <= j < i ==> bytes@[pos + j] == wanted@[j],
        decreases wanted@.len() - i,
    {
        if bytes[pos + i] != wanted[i] {
            assert(bytes@.subrange(pos as int, pos + wanted@.len())[i as int] != wanted@[i as int]);
            return false;
        }
        i += 1;
    }
    true
}

/// Reads the decimal number spelt by the `width` bytes at `pos`.
pub(crate) fn read_number(bytes: &[u8], pos: usize, width: u8) -> (number: Option<u32>)
    requires
        width <= 9,
    ensures
        match number {
            Some(n) => number_at(bytes@, pos as int, width as nat) == Some(n as int),
            None => number_at(bytes@, pos as int, width as nat) is None,
        },
{
    if width == 0 {
        return Some(0);
    }
    if pos > bytes.len() || width as usize > bytes.len() - pos {
        proof {
            lemma_number_at_needs_room(bytes@, pos as int, width as nat);
        }
        return None;
    }
    let mut value: u32 = 0;
    let mut i: u8 = 0;
    while i < width
        invariant
            i <= width <= 9,
            pos + width <= bytes@.len() <= usize::MAX,
            number_at(bytes@, pos as int, i as nat) == Some(value as int),
        decreases width - i,
    {
        let b = bytes[pos + i as usize];
        if b < 0x30 || b > 0x39 {
            proof {
                lemma_number_at_stops(bytes@, pos as int, (i + 1) as nat, width as nat);
            }
            return None;
        }
        proof {
            lemma_number_at_bound(bytes@, pos as int, i as nat);
            lemma_pow10_bound(i as nat);
        }
        value = value * 10 + (b - 0x30) as u32;
        i += 1;
    }
    Some(value)
}

/// No number is read where fewer than `width` bytes are left.
proof fn lemma_number_at_needs_room(bytes: Seq<u8>, pos: int, width: nat)
    requires
        width > 0,
        pos + width > bytes.len(),
    ensures
        number_at(bytes, pos, width) is None,
{
}

/// Once a shorter run of digits fails, every longer one fails too.
proof fn lemma_number_at_stops(bytes: Seq<u8>, pos: int, short: nat, width: nat)
    requires
        short <= width,
        number_at(bytes, pos, short) is None,
    ensures
        number_at(bytes, pos, width) is None,
    decreases width,
{
    if short < width {
        lemma_number_at_stops(bytes, pos, short, (width - 1) as nat);
    }
}

} // verus!
