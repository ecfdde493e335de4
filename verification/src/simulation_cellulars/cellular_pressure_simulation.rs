use vstd::prelude::*;

use super::cellular_pressure_reaction_decode::{
    decode_rigid_fractured_slots, decode_rigid_reaction_fixed_point_record, lists_marked_slots,
    spec_fixed_point_impulse,
};
use crate::gpu_words::{read_word_le, spec_word_at};
use crate::simulation::rigid_granular_reaction_batch::{FixedPointImpulse, RigidGranularReactionBatch};

verus! {

/// Bytes of one body's reaction record in the readback
pub const REACTION_RECORD_SIZE: u64 = 80;
/// Bytes of one body's contact statistics record in the readback
pub const STATISTICS_RECORD_SIZE: u64 = 48;

/// Where each part of one rigid reaction readback lies in the staging buffer
#[derive(Clone, Copy, Debug, PartialEq, Eq, Structural)]
pub struct ReactionReadbackLayout {
    /// Bytes of reaction records, starting at offset zero
    pub reaction_size: u64,
    /// Bytes of contact statistics records
    pub statistics_size: u64,
    /// Offset of the first contact statistics record
    pub statistics_offset: u64,
    /// Offset of the fracture count word
    pub fracture_count_offset: u64,
    /// Offset of the fracture bitmap
    pub fractures_offset: u64,
    /// Bytes mapped for the readback: everything up to the end of the bitmap
    pub mapped_size: u64,
}

/// The staging layout for `rigid_body_count` bodies and a fracture bitmap of
/// `fracture_word_count` words
pub open spec fn spec_reaction_readback_layout(rigid_body_count: int, fracture_word_count: int) -> ReactionReadbackLayout {
    let reaction_size = rigid_body_count * 80;
    let statistics_size = rigid_body_count * 48;
    let fracture_count_offset = reaction_size + statistics_size;
    ReactionReadbackLayout {
        reaction_size: reaction_size as u64,
        statistics_size: statistics_size as u64,
        statistics_offset: reaction_size as u64,
        fracture_count_offset: fracture_count_offset as u64,
        fractures_offset: (fracture_count_offset + 4) as u64,
        mapped_size: (fracture_count_offset + 4 + fracture_word_count * 4) as u64,
    }
}

/// Computes where reactions, statistics, the fracture count, and the fracture
/// bitmap lie in one staging buffer
pub fn reaction_readback_layout(rigid_body_count: u32, fracture_word_count: u64) -> (layout: ReactionReadbackLayout)
    requires
        fracture_word_count <= 0x1_0000_0000_0000,
    ensures
        layout == spec_reaction_readback_layout(rigid_body_count as int, fracture_word_count as int),
{
    let reaction_size: u64 = rigid_body_count as u64 * REACTION_RECORD_SIZE;
    let statistics_size: u64 = rigid_body_count as u64 * STATISTICS_RECORD_SIZE;
    let statistics_offset: u64 = reaction_size;
    let fracture_count_offset: u64 = statistics_offset + statistics_size;
    let fractures_offset: u64 = fracture_count_offset + 4;
    ReactionReadbackLayout {
        reaction_size,
        statistics_size,
        statistics_offset,
        fracture_count_offset,
        fractures_offset,
        mapped_size: fractures_offset + fracture_word_count * 4,
    }
}

/// The number of bitmap words needed to mark every buffered cell (one bit each)
pub fn fracture_word_count(buffered_cell_count: u32) -> (words: u64)
    ensures
        words as int == (buffered_cell_count as int + 31) / 32,
{
    (buffered_cell_count as u64 + 31) / 32
}

/// The size of each reaction staging buffer for a given rigid body capacity
pub fn reaction_readback_capacity_size(rigid_body_capacity: u64, fracture_word_count: u64) -> (size: u64)
    requires
        rigid_body_capacity <= 0x1_0000_0000_0000,
        fracture_word_count <= 0x1_0000_0000_0000,
    ensures
        size == rigid_body_capacity * 128 + 4 + fracture_word_count * 4,
{
    rigid_body_capacity * 128 + 4 + fracture_word_count * 4
}

/// The accumulated reaction of body `body`: x and y in 1/256, angular in 1/64
pub open spec fn spec_body_reaction(bytes: Seq<u8>, body: int) -> [i32; 3] {
    [
        spec_word_at(bytes, body * 80) as i32,
        spec_word_at(bytes, body * 80 + 4) as i32,
        spec_word_at(bytes, body * 80 + 8) as i32,
    ]
}

/// Whether the reaction accumulator of body `body` overflowed on the accelerator
pub open spec fn spec_body_overflowed(bytes: Seq<u8>, body: int) -> bool {
    spec_word_at(bytes, body * 80 + 12) != 0
}

/// The source motion words of body `body`
pub open spec fn spec_body_source_motion(bytes: Seq<u8>, body: int) -> [u32; 4] {
    [
        spec_word_at(bytes, body * 80 + 64),
        spec_word_at(bytes, body * 80 + 68),
        spec_word_at(bytes, body * 80 + 72),
        spec_word_at(bytes, body * 80 + 76),
    ]
}

/// Word `word` of the statistics record of body `body` among `body_count` bodies
pub open spec fn spec_statistics_word(bytes: Seq<u8>, body_count: int, body: int, word: int) -> u32 {
    spec_word_at(bytes, body_count * 80 + body * 48 + word * 4)
}

/// `batch` holds exactly the values the readback bytes give for `body_count` bodies
pub open spec fn decodes_reaction_batch(
    bytes: Seq<u8>,
    body_count: int,
    layout: ReactionReadbackLayout,
    batch: RigidGranularReactionBatch,
) -> bool {
    &&& batch.body_count == body_count
    &&& batch.reactions@.len() == body_count
    &&& batch.constraints@.len() == body_count
    &&& batch.supports@.len() == body_count
    &&& batch.recovery@.len() == body_count
    &&& batch.source_motion@.len() == body_count
    &&& batch.contact_counts@.len() == body_count
    &&& batch.static_contact_counts@.len() == body_count
    &&& batch.granular_contact_counts@.len() == body_count
    &&& batch.moving_contact_counts@.len() == body_count
    &&& batch.energy_budgets@.len() == body_count
    &&& forall|body: int| 0 <= body < body_count ==> #[trigger] batch.reactions@[body] == spec_body_reaction(bytes, body)
    &&& forall|body: int| 0 <= body < body_count ==> #[trigger] batch.constraints@[body] == spec_fixed_point_impulse(bytes, body * 80 + 16)
    &&& forall|body: int| 0 <= body < body_count ==> #[trigger] batch.supports@[body] == spec_fixed_point_impulse(bytes, body * 80 + 32)
    &&& forall|body: int| 0 <= body < body_count ==> #[trigger] batch.recovery@[body] == spec_fixed_point_impulse(bytes, body * 80 + 48)
    &&& forall|body: int| 0 <= body < body_count ==> #[trigger] batch.source_motion@[body] == spec_body_source_motion(bytes, body)
    &&& forall|body: int| 0 <= body < body_count ==> #[trigger] batch.contact_counts@[body] == spec_statistics_word(bytes, body_count, body, 0)
    &&& forall|body: int| 0 <= body < body_count ==> #[trigger] batch.static_contact_counts@[body] == spec_statistics_word(bytes, body_count, body, 1)
    &&& forall|body: int| 0 <= body < body_count ==> #[trigger] batch.energy_budgets@[body] == spec_statistics_word(bytes, body_count, body, 2)
    &&& forall|body: int| 0 <= body < body_count ==> #[trigger] batch.granular_contact_counts@[body] == spec_statistics_word(bytes, body_count, body, 3) & 0xffff
    &&& forall|body: int| 0 <= body < body_count ==> #[trigger] batch.moving_contact_counts@[body] == spec_statistics_word(bytes, body_count, body, 3) >> 16
    &&& if spec_word_at(bytes, layout.fracture_count_offset as int) == 0 {
        batch.fractured_slots@.len() == 0
    } else {
        lists_marked_slots(
            bytes,
            layout.fractures_offset as int,
            (layout.mapped_size - layout.fractures_offset) / 4,
            batch.fractured_slots@,
        )
    }
}

/// The message reported when a reaction accumulator overflowed
pub fn accumulator_overflow_message() -> (message: String)
    ensures
        message@ == "Rigid granular reaction accumulator overflowed"@,
{
    String::from_str("Rigid granular reaction accumulator overflowed")
}

/// The message reported when a reaction readback mapping failed
pub fn reaction_readback_failure_message() -> (message: String)
    ensures
        message@ == "Rigid granular reaction readback failed"@,
{
    String::from_str("Rigid granular reaction readback failed")
}

/// Decodes one mapped rigid reaction readback of `body_count` bodies laid out
/// as `layout` describes. Fails when any body's reaction accumulator overflowed.
pub fn decode_rigid_reaction_batch(
    mapped: &[u8],
    sequence: u64,
    topology_revision: u64,
    body_count: usize,
    layout: ReactionReadbackLayout,
) -> (result: Result<RigidGranularReactionBatch, String>)
    requires
        body_count <= u32::MAX,
        layout == spec_reaction_readback_layout(body_count as int, (layout.mapped_size - layout.fractures_offset) / 4),
        layout.fractures_offset <= layout.mapped_size <= mapped@.len(),
        (layout.mapped_size - layout.fractures_offset) / 4 * 32 <= u32::MAX + 1,
    ensures
        match result {
            Err(message) => message@ == "Rigid granular reaction accumulator overflowed"@ && exists|body: int|
                0 <= body < body_count && spec_body_overflowed(mapped@, body),
            Ok(batch) => {
                &&& forall|body: int| 0 <= body < body_count ==> !spec_body_overflowed(mapped@, body)
                &&& batch.sequence == sequence
                &&& batch.topology_revision == topology_revision
                &&& decodes_reaction_batch(mapped@, body_count as int, layout, batch)
            },
        },
{
    let length: usize = mapped.len();
    let mut reactions: Vec<[i32; 3]> = Vec::new();
    let mut constraints: Vec<FixedPointImpulse> = Vec::new();
    let mut supports: Vec<FixedPointImpulse> = Vec::new();
    let mut recovery: Vec<FixedPointImpulse> = Vec::new();
    let mut source_motion: Vec<[u32; 4]> = Vec::new();
    let mut contact_counts: Vec<u32> = Vec::new();
    let mut static_contact_counts: Vec<u32> = Vec::new();
    let mut granular_contact_counts: Vec<u32> = Vec::new();
    let mut moving_contact_counts: Vec<u32> = Vec::new();
    let mut energy_budgets: Vec<u32> = Vec::new();
    let ghost bytes = mapped@;
    let mut body: usize = 0;
    while body < body_count
        invariant
            bytes == mapped@,
            length == bytes.len(),
            body_count <= u32::MAX,
            layout == spec_reaction_readback_layout(body_count as int, (layout.mapped_size - layout.fractures_offset) / 4),
            layout.fractures_offset <= layout.mapped_size <= bytes.len(),
            0 <= body <= body_count,
            forall|b: int| 0 <= b < body ==> !spec_body_overflowed(bytes, b),
            reactions@.len() == body,
            constraints@.len() == body,
            supports@.len() == body,
            recovery@.len() == body,
            source_motion@.len() == body,
            contact_counts@.len() == body,
            static_contact_counts@.len() == body,
            granular_contact_counts@.len() == body,
            moving_contact_counts@.len() == body,
            energy_budgets@.len() == body,
            forall|b: int| 0 <= b < body ==> #[trigger] reactions@[b] == spec_body_reaction(bytes, b),
            forall|b: int| 0 <= b < body ==> #[trigger] constraints@[b] == spec_fixed_point_impulse(bytes, b * 80 + 16),
            forall|b: int| 0 <= b < body ==> #[trigger] supports@[b] == spec_fixed_point_impulse(bytes, b * 80 + 32),
            forall|b: int| 0 <= b < body ==> #[trigger] recovery@[b] == spec_fixed_point_impulse(bytes, b * 80 + 48),
            forall|b: int| 0 <= b < body ==> #[trigger] source_motion@[b] == spec_body_source_motion(bytes, b),
            forall|b: int| 0 <= b < body ==> #[trigger] contact_counts@[b] == spec_statistics_word(bytes, body_count as int, b, 0),
            forall|b: int| 0 <= b < body ==> #[trigger] static_contact_counts@[b] == spec_statistics_word(bytes, body_count as int, b, 1),
            forall|b: int| 0 <= b < body ==> #[trigger] energy_budgets@[b] == spec_statistics_word(bytes, body_count as int, b, 2),
            forall|b: int| 0 <= b < body ==> #[trigger] granular_contact_counts@[b] == spec_statistics_word(bytes, body_count as int, b, 3) & 0xffff,
            forall|b: int| 0 <= b < body ==> #[trigger] moving_contact_counts@[b] == spec_statistics_word(bytes, body_count as int, b, 3) >> 16,
        decreases body_count - body,
    {
        let record: usize = body * 80;
        let overflow: u32 = read_word_le(mapped, record + 12);
        if overflow != 0 {
            assert(spec_body_overflowed(bytes, body as int));
            return Err(accumulator_overflow_message());
        }
        reactions.push([
            #[verifier::truncate] (read_word_le(mapped, record) as i32),
            #[verifier::truncate] (read_word_le(mapped, record + 4) as i32),
            #[verifier::truncate] (read_word_le(mapped, record + 8) as i32),
        ]);
        constraints.push(decode_rigid_reaction_fixed_point_record(mapped, record + 16));
        supports.push(decode_rigid_reaction_fixed_point_record(mapped, record + 32));
        recovery.push(decode_rigid_reaction_fixed_point_record(mapped, record + 48));
        source_motion.push([
            read_word_le(mapped, record + 64),
            read_word_le(mapped, record + 68),
            read_word_le(mapped, record + 72),
            read_word_le(mapped, record + 76),
        ]);
        let statistics: usize = body_count * 80 + body * 48;
        contact_counts.push(read_word_le(mapped, statistics));
        static_contact_counts.push(read_word_le(mapped, statistics + 4));
        energy_budgets.push(read_word_le(mapped, statistics + 8));
        let packed: u32 = read_word_le(mapped, statistics + 12);
        granular_contact_counts.push(packed & 0xffff);
        moving_contact_counts.push(packed >> 16);
        body = body + 1;
    }
    let fracture_count: u32 = read_word_le(mapped, layout.fracture_count_offset as usize);
    let fractured_slots: Vec<u32> = if fracture_count == 0 {
        Vec::new()
    } else {
        decode_rigid_fractured_slots(mapped, layout.fractures_offset, layout.mapped_size)
    };
    Ok(RigidGranularReactionBatch {
        sequence,
        topology_revision,
        body_count,
        reactions,
        contact_counts,
        static_contact_counts,
        granular_contact_counts,
        moving_contact_counts,
        energy_budgets,
        constraints,
        supports,
        recovery,
        source_motion,
        fractured_slots,
    })
}

/// Statistics word 3 of a body packs two 16-bit counts: the granular contacts in
/// its low half and the moving contacts in its high half, so the decoded counts
/// each fit 16 bits and rebuild the word
pub proof fn lemma_contact_counts_unpack(
    bytes: Seq<u8>,
    body_count: int,
    layout: ReactionReadbackLayout,
    batch: RigidGranularReactionBatch,
    body: int,
)
    requires
        decodes_reaction_batch(bytes, body_count, layout, batch),
        0 <= body < body_count,
    ensures
        batch.granular_contact_counts@[body] <= 0xffff,
        batch.moving_contact_counts@[body] <= 0xffff,
        batch.granular_contact_counts@[body] + 0x10000 * batch.moving_contact_counts@[body]
            == spec_statistics_word(bytes, body_count, body, 3),
{
    let word = spec_statistics_word(bytes, body_count, body, 3);
    assert(batch.granular_contact_counts@[body] == word & 0xffff);
    assert(batch.moving_contact_counts@[body] == word >> 16);
    assert((word & 0xffff) <= 0xffff && (word >> 16) <= 0xffff && (word & 0xffff) + 0x10000 * (word >> 16) == word)
        by (bit_vector);
}

} // verus!
