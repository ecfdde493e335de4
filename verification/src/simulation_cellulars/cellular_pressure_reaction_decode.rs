use vstd::prelude::*;

use crate::gpu_words::{read_word_le, spec_word_at};
use crate::simulation::rigid_granular_reaction_batch::FixedPointImpulse;
use crate::tiles::mask_bit;

verus! {

/// The fixed-point impulse stored as three signed words and one unsigned word at `offset`
pub open spec fn spec_fixed_point_impulse(bytes: Seq<u8>, offset: int) -> FixedPointImpulse {
    FixedPointImpulse {
        x: spec_word_at(bytes, offset) as i32,
        y: spec_word_at(bytes, offset + 4) as i32,
        angular: spec_word_at(bytes, offset + 8) as i32,
        budget: spec_word_at(bytes, offset + 12),
    }
}

/// Decodes one fixed-point impulse record: linear x, linear y, and angular
/// components as signed words and an energy budget as an unsigned word
pub fn decode_rigid_reaction_fixed_point_record(
    rigid_reaction_record_bytes: &[u8],
    record_offset: usize,
) -> (impulse: FixedPointImpulse)
    requires
        record_offset + 16 <= rigid_reaction_record_bytes@.len(),
    ensures
        impulse == spec_fixed_point_impulse(rigid_reaction_record_bytes@, record_offset as int),
{
    let _length: usize = rigid_reaction_record_bytes.len();
    FixedPointImpulse {
        x: #[verifier::truncate] (read_word_le(rigid_reaction_record_bytes, record_offset) as i32),
        y: #[verifier::truncate] (read_word_le(rigid_reaction_record_bytes, record_offset + 4) as i32),
        angular: #[verifier::truncate] (read_word_le(rigid_reaction_record_bytes, record_offset + 8) as i32),
        budget: read_word_le(rigid_reaction_record_bytes, record_offset + 12),
    }
}

/// Whether rigid cell slot `slot` is marked in the fracture bitmap starting at `offset`
pub open spec fn spec_fracture_marked(bytes: Seq<u8>, offset: int, slot: int) -> bool {
    mask_bit(spec_word_at(bytes, offset + 4 * (slot / 32)), (slot % 32) as u32)
}

/// `slots` lists, in ascending order, exactly the marked slots among the
/// `word_count * 32` slots of the fracture bitmap at `offset`
pub open spec fn lists_marked_slots(bytes: Seq<u8>, offset: int, word_count: int, slots: Seq<u32>) -> bool {
    &&& forall|i: int, j: int| 0 <= i < j < slots.len() ==> #[trigger] slots[i] < #[trigger] slots[j]
    &&& forall|i: int| 0 <= i < slots.len() ==> (slots[i] as int) < word_count * 32
        && spec_fracture_marked(bytes, offset, #[trigger] slots[i] as int)
    &&& forall|slot: int| 0 <= slot < word_count * 32 && #[trigger] spec_fracture_marked(bytes, offset, slot)
        ==> slots.contains(slot as u32)
}

/// Decodes the fracture bitmap between `fractures_offset` and `mapped_size` into
/// the ascending list of fractured rigid cell slots, ignoring a trailing partial word
pub fn decode_rigid_fractured_slots(
    mapped_bytes: &[u8],
    fractures_offset: u64,
    mapped_size: u64,
) -> (slots: Vec<u32>)
    requires
        fractures_offset <= mapped_size <= mapped_bytes@.len(),
        (mapped_size - fractures_offset) / 4 * 32 <= u32::MAX + 1,
    ensures
        lists_marked_slots(
            mapped_bytes@,
            fractures_offset as int,
            (mapped_size - fractures_offset) / 4,
            slots@,
        ),
{
    let length: usize = mapped_bytes.len();
    let word_count: u64 = (mapped_size - fractures_offset) / 4;
    let mut slots: Vec<u32> = Vec::new();
    let mut word_index: u64 = 0;
    while word_index < word_count
        invariant
            word_count == (mapped_size - fractures_offset) / 4,
            word_count * 32 <= u32::MAX + 1,
            length == mapped_bytes@.len(),
            fractures_offset <= mapped_size <= mapped_bytes@.len(),
            0 <= word_index <= word_count,
            forall|i: int, j: int| 0 <= i < j < slots@.len() ==> #[trigger] slots@[i] < #[trigger] slots@[j],
            forall|i: int| 0 <= i < slots@.len() ==> (slots@[i] as int) < word_index * 32
                && spec_fracture_marked(mapped_bytes@, fractures_offset as int, #[trigger] slots@[i] as int),
            forall|slot: int| 0 <= slot < word_index * 32 && #[trigger] spec_fracture_marked(mapped_bytes@, fractures_offset as int, slot)
                ==> slots@.contains(slot as u32),
        decreases word_count - word_index,
    {
        proof {
            vstd::arithmetic::div_mod::lemma_fundamental_div_mod((mapped_size - fractures_offset) as int, 4);
            vstd::arithmetic::div_mod::lemma_mod_bound((mapped_size - fractures_offset) as int, 4);
        }
        let word_offset: u64 = fractures_offset + word_index * 4;
        let word: u32 = read_word_le(mapped_bytes, word_offset as usize);
        let mut bit: u32 = 0;
        while bit < 32
            invariant
                word_count * 32 <= u32::MAX + 1,
                0 <= word_index < word_count,
                0 <= bit <= 32,
                word == spec_word_at(mapped_bytes@, fractures_offset + 4 * word_index),
                forall|i: int, j: int| 0 <= i < j < slots@.len() ==> #[trigger] slots@[i] < #[trigger] slots@[j],
                forall|i: int| 0 <= i < slots@.len() ==> (slots@[i] as int) < word_index * 32 + bit
                    && spec_fracture_marked(mapped_bytes@, fractures_offset as int, #[trigger] slots@[i] as int),
                forall|slot: int| 0 <= slot < word_index * 32 + bit && #[trigger] spec_fracture_marked(mapped_bytes@, fractures_offset as int, slot)
                    ==> slots@.contains(slot as u32),
            decreases 32 - bit,
        {
            let slot: u32 = (word_index * 32) as u32 + bit;
            proof {
                let s: int = slot as int;
                vstd::arithmetic::div_mod::lemma_fundamental_div_mod_converse(s, 32, word_index as int, bit as int);
            }
            if word & (1u32 << bit) != 0 {
                let ghost previous = slots@;
                slots.push(slot);
                proof {
                    assert forall|s: int| 0 <= s < word_index * 32 + bit + 1 && #[trigger] spec_fracture_marked(mapped_bytes@, fractures_offset as int, s)
                        implies slots@.contains(s as u32) by {
                        if s == slot as int {
                            assert(slots@[previous.len() as int] == slot);
                        } else {
                            assert(previous.contains(s as u32));
                            let k = choose|k: int| 0 <= k < previous.len() && previous[k] == s as u32;
                            assert(slots@[k] == s as u32);
                        }
                    }
                }
            } else {
                proof {
                    assert(!spec_fracture_marked(mapped_bytes@, fractures_offset as int, slot as int));
                }
            }
            bit = bit + 1;
        }
        word_index = word_index + 1;
    }
    slots
}

} // verus!
