//! Little-endian packing of 32-bit words, the layout of every uniform,
//! storage, and readback buffer exchanged with the accelerator.

use vstd::prelude::*;

verus! {

/// Byte `k` (0 = least significant) of a 32-bit word
pub open spec fn spec_le_byte(word: u32, k: int) -> u8 {
    ((word >> ((8 * k) as u32)) & 0xff) as u8
}

/// The word whose little-endian bytes are `b0`, `b1`, `b2`, `b3`
pub open spec fn spec_le_word(b0: u8, b1: u8, b2: u8, b3: u8) -> u32 {
    (b0 as u32) | ((b1 as u32) << 8u32) | ((b2 as u32) << 16u32) | ((b3 as u32) << 24u32)
}

/// The little-endian byte image of a sequence of words
pub open spec fn spec_words_le_bytes(words: Seq<u32>) -> Seq<u8> {
    Seq::new(4 * words.len(), |i: int| spec_le_byte(words[i / 4], i % 4))
}

/// The word stored little-endian at byte `offset`
pub open spec fn spec_word_at(bytes: Seq<u8>, offset: int) -> u32 {
    spec_le_word(bytes[offset], bytes[offset + 1], bytes[offset + 2], bytes[offset + 3])
}

/// The words of every complete 4-byte chunk of a byte sequence
pub open spec fn spec_le_words(bytes: Seq<u8>) -> Seq<u32> {
    Seq::new(bytes.len() / 4, |i: int| spec_word_at(bytes, 4 * i))
}

/// Reassembling the four little-endian bytes of a word gives the word back
pub proof fn lemma_le_word_of_bytes(word: u32)
    ensures
        spec_le_word(
            spec_le_byte(word, 0),
            spec_le_byte(word, 1),
            spec_le_byte(word, 2),
            spec_le_byte(word, 3),
        ) == word,
{
    assert(spec_le_byte(word, 0) == ((word >> 0u32) & 0xff) as u8);
    assert(spec_le_byte(word, 1) == ((word >> 8u32) & 0xff) as u8);
    assert(spec_le_byte(word, 2) == ((word >> 16u32) & 0xff) as u8);
    assert(spec_le_byte(word, 3) == ((word >> 24u32) & 0xff) as u8);
    assert(((((word >> 0u32) & 0xff) as u8) as u32) | (((((word >> 8u32) & 0xff) as u8) as u32) << 8u32)
        | (((((word >> 16u32) & 0xff) as u8) as u32) << 16u32) | (((((word >> 24u32) & 0xff) as u8)
        as u32) << 24u32) == word) by (bit_vector);
}

/// Decoding the byte image of any word sequence gives the sequence back
pub proof fn lemma_words_round_trip(words: Seq<u32>)
    ensures
        spec_le_words(spec_words_le_bytes(words)) == words,
{
    let bytes = spec_words_le_bytes(words);
    assert(bytes.len() / 4 == words.len()) by {
        vstd::arithmetic::div_mod::lemma_fundamental_div_mod_converse(bytes.len() as int, 4, words.len() as int, 0);
    }
    assert forall|i: int| 0 <= i < words.len() implies #[trigger] spec_le_words(bytes)[i] == words[i] by {
        assert((4 * i) / 4 == i && (4 * i + 1) / 4 == i && (4 * i + 2) / 4 == i && (4 * i + 3) / 4 == i);
        assert((4 * i) % 4 == 0 && (4 * i + 1) % 4 == 1 && (4 * i + 2) % 4 == 2 && (4 * i + 3) % 4 == 3);
        lemma_le_word_of_bytes(words[i]);
    }
    assert(spec_le_words(bytes) =~= words);
}

/// Returns the little-endian byte image of a word sequence
pub fn encode_words_le(words: &[u32]) -> (bytes: Vec<u8>)
    requires
        words@.len() * 4 <= usize::MAX,
    ensures
        bytes@ == spec_words_le_bytes(words@),
{
    let mut bytes: Vec<u8> = Vec::with_capacity(words.len() * 4);
    let mut index: usize = 0;
    while index < words.len()
        invariant
            0 <= index <= words@.len(),
            bytes@ == spec_words_le_bytes(words@.take(index as int)),
        decreases words@.len() - index,
    {
        let word: u32 = words[index];
        bytes.push((word & 0xff) as u8);
        bytes.push(((word >> 8u32) & 0xff) as u8);
        bytes.push(((word >> 16u32) & 0xff) as u8);
        bytes.push(((word >> 24u32) & 0xff) as u8);
        proof {
            let next = words@.take(index as int + 1);
            assert(spec_le_byte(word, 0) == ((word >> 0u32) & 0xff) as u8);
            assert((word >> 0u32) == word) by (bit_vector);
            assert forall|i: int| 0 <= i < 4 * next.len() implies #[trigger] bytes@[i] == spec_le_byte(next[i / 4], i % 4) by {
                if i < 4 * index {
                    assert(words@.take(index as int)[i / 4] == next[i / 4]);
                }
            }
            assert(bytes@ =~= spec_words_le_bytes(next));
        }
        index = index + 1;
    }
    assert(words@.take(words@.len() as int) =~= words@);
    bytes
}

/// Reads the little-endian word at byte `offset`
pub fn read_word_le(bytes: &[u8], offset: usize) -> (word: u32)
    requires
        offset + 4 <= bytes@.len(),
    ensures
        word == spec_word_at(bytes@, offset as int),
{
    (bytes[offset] as u32) | ((bytes[offset + 1] as u32) << 8u32) | ((bytes[offset + 2] as u32)
        << 16u32) | ((bytes[offset + 3] as u32) << 24u32)
}

/// Returns the word of every complete 4-byte chunk, ignoring a trailing partial chunk
pub fn decode_words_le(bytes: &[u8]) -> (words: Vec<u32>)
    ensures
        words@ == spec_le_words(bytes@),
{
    let length: usize = bytes.len();
    let count: usize = length / 4;
    let mut words: Vec<u32> = Vec::with_capacity(count);
    let mut index: usize = 0;
    while index < count
        invariant
            length == bytes@.len(),
            count == bytes@.len() / 4,
            0 <= index <= count,
            words@ =~= spec_le_words(bytes@).take(index as int),
        decreases count - index,
    {
        proof {
            vstd::arithmetic::div_mod::lemma_fundamental_div_mod(bytes@.len() as int, 4);
            vstd::arithmetic::div_mod::lemma_mod_bound(bytes@.len() as int, 4);
            assert(4 * (bytes@.len() as int / 4) <= bytes@.len());
            assert(index as int * 4 + 4 <= bytes@.len());
        }
        words.push(read_word_le(bytes, index * 4));
        index = index + 1;
    }
    assert(spec_le_words(bytes@).take(count as int) =~= spec_le_words(bytes@));
    words
}

/// The word at byte `4 * j` of the byte image of `words` is word `j`
pub proof fn lemma_word_of_image(words: Seq<u32>, j: int)
    requires
        0 <= j < words.len(),
    ensures
        spec_word_at(spec_words_le_bytes(words), 4 * j) == words[j],
{
    lemma_words_round_trip(words);
    assert(spec_le_words(spec_words_le_bytes(words))[j] == spec_word_at(spec_words_le_bytes(words), 4 * j));
}

} // verus!
