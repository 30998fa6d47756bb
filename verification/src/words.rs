//! Little-endian packing of bytes into 32-bit words.

use vstd::prelude::*;

verus! {

/// Byte number `lane` (0 is the least significant) of `word`.
pub open spec fn byte_of(word: u32, lane: int) -> u8 {
    if lane == 0 {
        (word % 0x100) as u8
    } else if lane == 1 {
        (word / 0x100 % 0x100) as u8
    } else if lane == 2 {
        (word / 0x1_0000 % 0x100) as u8
    } else {
        (word / 0x100_0000 % 0x100) as u8
    }
}

/// The byte at `index`, where everything past the end reads as zero.
pub open spec fn byte_or_zero(bytes: Seq<u8>, index: int) -> u8 {
    if 0 <= index < bytes.len() {
        bytes[index]
    } else {
        0
    }
}

/// Word number `index` of `bytes`: four consecutive bytes, the first one
/// least significant, with zeros where `bytes` has ended.
pub open spec fn packed_word(bytes: Seq<u8>, index: int) -> u32 {
    (byte_or_zero(bytes, 4 * index) + byte_or_zero(bytes, 4 * index + 1) * 0x100 + byte_or_zero(
        bytes,
        4 * index + 2,
    ) * 0x1_0000 + byte_or_zero(bytes, 4 * index + 3) * 0x100_0000) as u32
}

/// `bytes` as words: as many as it takes to hold every byte.
pub open spec fn words_of(bytes: Seq<u8>) -> Seq<u32> {
    Seq::new(((bytes.len() + 3) / 4) as nat, |i: int| packed_word(bytes, i))
}

/// Packs bytes into words, least significant byte first. A last word that
/// is not full is filled up with zeros.
pub fn vecu8_to_vecu32(bytes: Vec<u8>) -> (words: Vec<u32>)
    ensures
        words@ == words_of(bytes@),
{
    let mut words: Vec<u32> = Vec::new();
    let mut count: u32 = 0;
    let mut val: u32 = 0;
    let mut i: usize = 0;
    while i < bytes.len()
        invariant
            i <= bytes@.len(),
            count == i % 4,
            words@.len() == i / 4,
            forall|j: int| 0 <= j < words@.len() ==> words@[j] == packed_word(bytes@, j),
            val == packed_word(bytes@.take(i as int), i as int / 4),
        decreases bytes@.len() - i,
    {
        let byte = bytes[i] as u32;
        let ghost lower = val;
        proof {
            if count == 0 {
                assert(lower | (byte << 0) == lower + byte) by (bit_vector)
                    requires
                        lower == 0,
                ;
            } else if count == 1 {
                assert(lower | (byte << 8) == lower + byte * 0x100) by (bit_vector)
                    requires
                        lower < 0x100,
                        byte < 0x100,
                ;
            } else if count == 2 {
                assert(lower | (byte << 16) == lower + byte * 0x1_0000) by (bit_vector)
                    requires
                        lower < 0x1_0000,
                        byte < 0x100,
                ;
            } else {
                assert(lower | (byte << 24) == lower + byte * 0x100_0000) by (bit_vector)
                    requires
                        lower < 0x100_0000,
                        byte < 0x100,
                ;
            }
        }
        val |= byte << (8 * count);
        count += 1;
        i += 1;
        assert(val == packed_word(bytes@.take(i as int), (i - 1) / 4));
        if count == 4 {
            assert(packed_word(bytes@.take(i as int), (i - 1) / 4) == packed_word(
                bytes@,
                (i - 1) / 4,
            ));
            words.push(val);
            val = 0;
            count = 0;
        }
    }
    if count > 0 {
        assert(bytes@.take(i as int) == bytes@);
        words.push(val);
    }
    assert(words@ =~= words_of(bytes@));
    words
}

/// Reading the bytes of the packed words one by one gives the bytes back,
/// followed by the zeros that fill the last word.
pub proof fn lemma_bytes_of_packed_words(bytes: Seq<u8>, index: int)
    requires
        0 <= index < 4 * words_of(bytes).len(),
    ensures
        byte_of(words_of(bytes)[index / 4], index % 4) == byte_or_zero(bytes, index),
{
}

} // verus!
