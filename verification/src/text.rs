//! The text of a number, in the four forms that the guest can ask for.

use vstd::prelude::*;
use vstd::utf8::{
    decode_utf8, encode_scalar, encode_utf8, encode_utf8_decode_utf8, encode_utf8_valid_utf8,
    is_ascii_chars_encode_utf8, valid_utf8,
};
use crate::strings::string_from_utf8;

verus! {

/// How a number is written.
#[derive(Debug, Clone, Copy, PartialEq, Eq, Structural)]
pub enum NumberFormat {
    /// Decimal, the word taken as an unsigned number.
    Unsigned,
    /// Decimal, the word taken as a two's complement number.
    Signed,
    /// Upper case hexadecimal after `0x`, with at least two digits.
    Hex,
    /// The one character whose code is the low byte of the word.
    Char,
}

/// The format that a selector value asks for.
pub open spec fn format_of(selector: u32) -> Option<NumberFormat> {
    if selector == 0 {
        Some(NumberFormat::Unsigned)
    } else if selector == 1 {
        Some(NumberFormat::Signed)
    } else if selector == 2 {
        Some(NumberFormat::Hex)
    } else if selector == 3 {
        Some(NumberFormat::Char)
    } else {
        None
    }
}

/// The digit character for `d`, with letters from ten on.
pub open spec fn digit(d: int) -> u8 {
    if d < 10 {
        (0x30 + d) as u8
    } else {
        (0x41 + d - 10) as u8
    }
}

/// The decimal digits of `n`, most significant first.
pub open spec fn decimal(n: nat) -> Seq<u8>
    decreases n,
{
    if n < 10 {
        seq![digit(n as int)]
    } else {
        decimal(n / 10).push(digit((n % 10) as int))
    }
}

/// The hexadecimal digits of `n`, most significant first.
pub open spec fn hexadecimal(n: nat) -> Seq<u8>
    decreases n,
{
    if n < 16 {
        seq![digit(n as int)]
    } else {
        hexadecimal(n / 16).push(digit((n % 16) as int))
    }
}

/// The number that a word stands for in two's complement.
pub open spec fn signed_of(word: u32) -> int {
    if word < 0x8000_0000 {
        word as int
    } else {
        word - 0x1_0000_0000
    }
}

/// The text of `word` in `format`, as bytes.
pub open spec fn number_bytes(format: NumberFormat, word: u32) -> Seq<u8> {
    match format {
        NumberFormat::Unsigned => decimal(word as nat),
        NumberFormat::Signed => if signed_of(word) < 0 {
            seq![0x2Du8] + decimal((-signed_of(word)) as nat)
        } else {
            decimal(word as nat)
        },
        NumberFormat::Hex => if word < 0x10 {
            seq![0x30u8, 0x78u8, 0x30u8] + hexadecimal(word as nat)
        } else {
            seq![0x30u8, 0x78u8] + hexadecimal(word as nat)
        },
        NumberFormat::Char => encode_utf8(seq![((word % 0x100) as u8) as char]),
    }
}

/// The characters that ASCII bytes stand for.
pub open spec fn ascii_text(bytes: Seq<u8>) -> Seq<char> {
    Seq::new(bytes.len(), |i: int| bytes[i] as char)
}

/// The text of `word` in `format`.
pub open spec fn number_text(format: NumberFormat, word: u32) -> Seq<char> {
    match format {
        NumberFormat::Char => seq![((word % 0x100) as u8) as char],
        _ => ascii_text(number_bytes(format, word)),
    }
}

/// Whether every byte is an ASCII character.
pub open spec fn all_ascii(bytes: Seq<u8>) -> bool {
    forall|i: int| 0 <= i < bytes.len() ==> bytes[i] < 0x80
}

/// ASCII bytes are UTF-8, and stand for one character each.
pub proof fn lemma_ascii_is_utf8(bytes: Seq<u8>)
    requires
        all_ascii(bytes),
    ensures
        valid_utf8(bytes),
        decode_utf8(bytes) == ascii_text(bytes),
{
    let chars = ascii_text(bytes);
    is_ascii_chars_encode_utf8(chars);
    assert(encode_utf8(chars) =~= bytes);
    encode_utf8_valid_utf8(chars);
    encode_utf8_decode_utf8(chars);
}

/// Digits are ASCII, and there is at least one.
pub proof fn lemma_digits_ascii(n: nat)
    ensures
        all_ascii(decimal(n)),
        all_ascii(hexadecimal(n)),
        decimal(n).len() >= 1,
        hexadecimal(n).len() >= 1,
    decreases n,
{
    if n >= 10 {
        lemma_digits_ascii(n / 10);
    }
    if n >= 16 {
        lemma_digits_ascii(n / 16);
    }
}

/// Appends the decimal digits of `value`.
fn push_decimal(out: &mut Vec<u8>, value: u32)
    ensures
        final(out)@ == old(out)@ + decimal(value as nat),
    decreases value,
{
    if value >= 10 {
        push_decimal(out, value / 10);
    }
    out.push(0x30 + (value % 10) as u8);
    assert(out@ =~= old(out)@ + decimal(value as nat));
}

/// Appends the hexadecimal digits of `value`.
fn push_hexadecimal(out: &mut Vec<u8>, value: u32)
    ensures
        final(out)@ == old(out)@ + hexadecimal(value as nat),
    decreases value,
{
    if value >= 16 {
        push_hexadecimal(out, value / 16);
    }
    let d = (value % 16) as u8;
    if d < 10 {
        out.push(0x30 + d);
    } else {
        out.push(0x41 + (d - 10));
    }
    assert(out@ =~= old(out)@ + hexadecimal(value as nat));
}

/// The bytes of the text of `value` in `format`.
fn number_to_bytes(format: NumberFormat, value: u32) -> (bytes: Vec<u8>)
    ensures
        bytes@ == number_bytes(format, value),
{
    let mut bytes: Vec<u8> = Vec::new();
    match format {
        NumberFormat::Unsigned => {
            push_decimal(&mut bytes, value);
        },
        NumberFormat::Signed => {
            if value >= 0x8000_0000 {
                bytes.push(0x2D);
                push_decimal(&mut bytes, (0xFFFF_FFFF - value) + 1);
            } else {
                push_decimal(&mut bytes, value);
            }
        },
        NumberFormat::Hex => {
            bytes.push(0x30);
            bytes.push(0x78);
            if value < 0x10 {
                bytes.push(0x30);
            }
            push_hexadecimal(&mut bytes, value);
        },
        NumberFormat::Char => {
            assert(value & 0xFF == value % 0x100) by (bit_vector);
            let low = (value & 0xFF) as u8;
            let ghost chars = seq![low as char];
            let ghost scalar = chars[0] as u32;
            assert(scalar == low);
            assert(chars.drop_first() =~= Seq::<char>::empty());
            assert(encode_utf8(chars) == encode_scalar(scalar) + encode_utf8(chars.drop_first()));
            assert(encode_utf8(chars) =~= encode_scalar(scalar));
            if low < 0x80 {
                bytes.push(low);
                assert(low == (scalar & 0x7F) as u8) by (bit_vector)
                    requires
                        scalar == low,
                        low < 0x80,
                ;
            } else {
                let lead = 0xC0 | (low >> 6);
                let tail = 0x80 | (low & 0x3F);
                bytes.push(lead);
                bytes.push(tail);
                assert(lead == 0xC0 | ((scalar >> 6) & 0x1F) as u8 && tail == 0x80 | (scalar
                    & 0x3F) as u8) by (bit_vector)
                    requires
                        scalar == low,
                        lead == 0xC0 | (low >> 6),
                        tail == 0x80 | (low & 0x3F),
                ;
            }
            assert(bytes@ =~= encode_scalar(scalar));
        },
    }
    assert(bytes@ =~= number_bytes(format, value));
    bytes
}

/// Chooses the format that `selector` asks for.
pub fn format_for(selector: u32) -> (format: Option<NumberFormat>)
    ensures
        format == format_of(selector),
{
    match selector {
        0 => Some(NumberFormat::Unsigned),
        1 => Some(NumberFormat::Signed),
        2 => Some(NumberFormat::Hex),
        3 => Some(NumberFormat::Char),
        _ => None,
    }
}

/// Writes `value` in `format`.
pub fn number_to_string(format: NumberFormat, value: u32) -> (text: String)
    ensures
        text@ == number_text(format, value),
{
    let bytes = number_to_bytes(format, value);
    proof {
        match format {
            NumberFormat::Char => {
                let chars = seq![((value % 0x100) as u8) as char];
                encode_utf8_valid_utf8(chars);
                encode_utf8_decode_utf8(chars);
            },
            _ => {
                lemma_digits_ascii(value as nat);
                lemma_digits_ascii((-signed_of(value)) as nat);
                lemma_ascii_is_utf8(bytes@);
            },
        }
    }
    match string_from_utf8(bytes) {
        Some(text) => text,
        None => String::new(),
    }
}

} // verus!
