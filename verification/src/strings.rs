//! NUL-terminated guest strings in the data segment.

use vstd::prelude::*;
use vstd::utf8::{decode_utf8, valid_utf8};
use crate::errors::SuperMipsError;
use crate::memory::DATA_START;
use crate::words::byte_of;

verus! {

/// Byte address of the first word of the data segment.
pub const DATA_BASE: u32 = 0x1001_0000;

/// Byte number `offset` of the data segment, whose words hold their bytes
/// least significant first.
pub open spec fn guest_byte(data: Seq<u32>, offset: int) -> u8 {
    byte_of(data[offset / 4], offset % 4)
}

/// The bytes of the data segment from offset `from` up to, not including,
/// offset `to`.
pub open spec fn guest_bytes(data: Seq<u32>, from: int, to: int) -> Seq<u8> {
    Seq::new((to - from) as nat, |i: int| guest_byte(data, from + i))
}

/// Offset of the first zero byte at or after offset `from`; the number of
/// bytes in `data` if there is none.
pub open spec fn terminator(data: Seq<u32>, from: int) -> int
    decreases 4 * data.len() - from,
{
    if from < 0 || from >= 4 * data.len() {
        4 * data.len() as int
    } else if guest_byte(data, from) == 0 {
        from
    } else {
        terminator(data, from + 1)
    }
}

/// The string that starts at byte address `address`: the bytes up to the
/// first zero byte, read as UTF-8. It is out of bounds if the address lies
/// before the data segment or no zero byte follows within the stored words.
pub open spec fn string_at(data: Seq<u32>, address: u32) -> Result<Seq<char>, SuperMipsError> {
    let from = address - DATA_BASE;
    let end = terminator(data, from);
    if from < 0 || end >= 4 * data.len() {
        Err(SuperMipsError::BoundsError)
    } else if !valid_utf8(guest_bytes(data, from, end)) {
        Err(SuperMipsError::EncodingError)
    } else {
        Ok(decode_utf8(guest_bytes(data, from, end)))
    }
}

/// `String::from_utf8` of the standard library: the text that `bytes`
/// encode, if and only if they are well-formed UTF-8.
#[verifier::external_body]
pub(crate) fn string_from_utf8(bytes: Vec<u8>) -> (res: Option<String>)
    ensures
        res is Some <==> valid_utf8(bytes@),
        res matches Some(s) ==> s@ == decode_utf8(bytes@),
{
    match String::from_utf8(bytes) {
        Ok(s) => Some(s),
        Err(_) => None,
    }
}

/// Reads the NUL-terminated string at byte address `address` of the data
/// segment whose stored words are `data`.
pub fn get_string_at_address(data: &Vec<u32>, address: u32) -> (res: Result<
    String,
    SuperMipsError,
>)
    ensures
        res matches Ok(s) ==> string_at(data@, address) == Ok::<Seq<char>, SuperMipsError>(s@),
        res matches Err(e) ==> string_at(data@, address) == Err::<Seq<char>, SuperMipsError>(e),
{
    if address < DATA_BASE {
        return Err(SuperMipsError::BoundsError);
    }
    let ghost from = (address - DATA_BASE) as int;
    let mut index = ((address - DATA_BASE) / 4) as usize;
    let mut offset = address % 4;
    if index >= data.len() {
        return Err(SuperMipsError::BoundsError);
    }
    let mut bytes: Vec<u8> = Vec::new();
    let mut cur_word = data[index];
    loop
        invariant
            address >= DATA_BASE,
            from == address - DATA_BASE,
            index < data@.len() <= usize::MAX,
            offset < 4,
            from <= 4 * index + offset,
            cur_word == data@[index as int],
            bytes@ == guest_bytes(data@, from, 4 * index + offset),
            terminator(data@, from) == terminator(data@, 4 * index + offset),
        ensures
            4 * index + offset < 4 * data@.len(),
            terminator(data@, from) == 4 * index + offset,
            bytes@ == guest_bytes(data@, from, 4 * index + offset),
        decreases 4 * data@.len() - (4 * index + offset),
    {
        let ghost at = 4 * index + offset;
        let cur_byte = ((cur_word >> (8 * offset)) & 0xFF) as u8;
        proof {
            lemma_byte_of_shift(cur_word, offset);
            assert(cur_byte == guest_byte(data@, at));
        }
        if cur_byte == 0 {
            break ;
        }
        bytes.push(cur_byte);
        assert(bytes@ =~= guest_bytes(data@, from, at + 1));
        assert(terminator(data@, at) == terminator(data@, at + 1));
        offset += 1;
        if offset >= 4 {
            offset = 0;
            index += 1;
            if index >= data.len() {
                return Err(SuperMipsError::BoundsError);
            }
            cur_word = data[index];
        }
    }
    match string_from_utf8(bytes) {
        Some(s) => Ok(s),
        None => Err(SuperMipsError::EncodingError),
    }
}

/// Shifting and masking picks the byte that `byte_of` names.
proof fn lemma_byte_of_shift(word: u32, lane: u32)
    requires
        lane < 4,
    ensures
        (word >> (8 * lane)) & 0xFF == byte_of(word, lane as int),
{
    if lane == 0 {
        assert((word >> 0) & 0xFF == word % 0x100 < 0x100) by (bit_vector);
    } else if lane == 1 {
        assert((word >> 8) & 0xFF == word / 0x100 % 0x100 < 0x100) by (bit_vector);
    } else if lane == 2 {
        assert((word >> 16) & 0xFF == word / 0x1_0000 % 0x100 < 0x100) by (bit_vector);
    } else {
        assert((word >> 24) & 0xFF == word / 0x100_0000 % 0x100 < 0x100) by (bit_vector);
    }
}

/// What `terminator` finds: a zero byte, with no zero byte between `from`
/// and it; or the end of the stored words, with no zero byte from `from` on.
pub proof fn lemma_terminator(data: Seq<u32>, from: int)
    requires
        0 <= from,
    ensures
        from <= terminator(data, from) || terminator(data, from) == 4 * data.len(),
        terminator(data, from) <= 4 * data.len(),
        terminator(data, from) < 4 * data.len() ==> guest_byte(data, terminator(data, from)) == 0,
        forall|k: int| from <= k < terminator(data, from) ==> guest_byte(data, k) != 0,
    decreases 4 * data.len() - from,
{
    if from < 4 * data.len() && guest_byte(data, from) != 0 {
        lemma_terminator(data, from + 1);
    }
}

/// The data segment starts at the byte address of its first word, so the
/// word that holds the byte at `address` is the one at word address
/// `address / 4`, and the byte's place in that word is `address % 4`.
pub proof fn lemma_byte_address(address: u32)
    requires
        address >= DATA_BASE,
    ensures
        DATA_BASE == 4 * DATA_START,
        (address - DATA_BASE) / 4 == address / 4 - DATA_START,
        (address - DATA_BASE) % 4 == address % 4,
        DATA_START <= address / 4,
{
}

} // verus!
