use vstd::prelude::*;

use super::collision_occupancy_snapshot::CollisionOccupancySnapshot;
use super::collision_readback_status::CollisionReadbackStatus;
use crate::gpu_words::{encode_words_le, read_word_le, spec_word_at, spec_words_le_bytes};
use crate::tiles::TileCoordinates;

verus! {

/// The number of staging slots used for asynchronous collision readback
pub const READBACK_SLOT_COUNT: usize = 3;

/// The bookkeeping of the collision extraction bridge: which snapshot is newest
/// and which sequence the next dispatched snapshot receives
pub struct CellularCollision {
    /// The newest completed CPU occupancy snapshot
    pub latest: Option<CollisionOccupancySnapshot>,
    /// The number of logical tiles processed by each dispatch
    pub tile_count: u32,
    /// The sequence assigned to the next dispatched snapshot
    pub sequence_next: u64,
}

/// What one accepted extraction dispatches: the claimed staging slot, the
/// snapshot sequence, and the uniform bytes describing the ring mapping
pub struct CollisionExtraction {
    /// The index of the staging slot now marked as mapping
    pub slot: usize,
    /// The dispatch-order sequence of the snapshot this extraction produces
    pub sequence: u64,
    /// The little-endian words width, height, ring x offset, ring y offset
    pub parameters: Vec<u8>,
}

/// Whether a slot holds a completed readback error
pub open spec fn is_failed_readback(status: CollisionReadbackStatus) -> bool {
    status matches CollisionReadbackStatus::Complete(Err(_))
}

/// The index of the first slot holding a readback error, or the slot count
pub open spec fn first_failed_readback(slots: Seq<CollisionReadbackStatus>) -> nat
    decreases slots.len(),
{
    if slots.len() == 0 {
        0
    } else if is_failed_readback(slots[0]) {
        0
    } else {
        1 + first_failed_readback(slots.drop_first())
    }
}

/// The newer of the retained snapshot and a slot's completed snapshot, keeping the
/// retained one unless the completed one has a strictly larger sequence
pub open spec fn newer_snapshot(
    latest: Option<CollisionOccupancySnapshot>,
    status: CollisionReadbackStatus,
) -> Option<CollisionOccupancySnapshot> {
    match status {
        CollisionReadbackStatus::Complete(Ok(snapshot)) => {
            if latest is None || snapshot.sequence > latest->0.sequence {
                Some(snapshot)
            } else {
                latest
            }
        },
        _ => latest,
    }
}

/// The snapshot retained after considering the given slots in order
pub open spec fn newest_snapshot(
    latest: Option<CollisionOccupancySnapshot>,
    slots: Seq<CollisionReadbackStatus>,
) -> Option<CollisionOccupancySnapshot>
    decreases slots.len(),
{
    if slots.len() == 0 {
        latest
    } else {
        newest_snapshot(newer_snapshot(latest, slots[0]), slots.drop_first())
    }
}

/// The slot after collection: a completed slot becomes available, others are untouched
pub open spec fn collected_status(status: CollisionReadbackStatus) -> CollisionReadbackStatus {
    match status {
        CollisionReadbackStatus::Complete(_) => CollisionReadbackStatus::Available,
        _ => status,
    }
}

/// Collecting readbacks never loses or regresses the retained snapshot: once one is
/// retained, the one retained afterwards has at least its sequence
pub proof fn lemma_newest_snapshot_never_regresses(
    latest: Option<CollisionOccupancySnapshot>,
    slots: Seq<CollisionReadbackStatus>,
)
    requires
        latest is Some,
    ensures
        newest_snapshot(latest, slots) is Some,
        newest_snapshot(latest, slots)->0.sequence >= latest->0.sequence,
    decreases slots.len(),
{
    if slots.len() > 0 {
        lemma_newest_snapshot_never_regresses(newer_snapshot(latest, slots[0]), slots.drop_first());
    }
}

proof fn lemma_first_failed_step(slots: Seq<CollisionReadbackStatus>, index: int)
    requires
        0 <= index < slots.len(),
        forall|i: int| 0 <= i < index ==> !is_failed_readback(#[trigger] slots[i]),
    ensures
        is_failed_readback(slots[index]) ==> first_failed_readback(slots) == index,
        !is_failed_readback(slots[index]) ==> first_failed_readback(slots) > index,
    decreases index,
{
    if index > 0 {
        assert forall|i: int| 0 <= i < index - 1 implies !is_failed_readback(
            #[trigger] slots.drop_first()[i],
        ) by {
            assert(slots.drop_first()[i] == slots[i + 1]);
        }
        assert(!is_failed_readback(slots[0]));
        lemma_first_failed_step(slots.drop_first(), index - 1);
    }
}

proof fn lemma_first_failed_none(slots: Seq<CollisionReadbackStatus>)
    requires
        forall|i: int| 0 <= i < slots.len() ==> !is_failed_readback(#[trigger] slots[i]),
    ensures
        first_failed_readback(slots) == slots.len(),
    decreases slots.len(),
{
    if slots.len() > 0 {
        assert forall|i: int| 0 <= i < slots.len() - 1 implies !is_failed_readback(
            #[trigger] slots.drop_first()[i],
        ) by {
            assert(slots.drop_first()[i] == slots[i + 1]);
        }
        assert(!is_failed_readback(slots[0]));
        lemma_first_failed_none(slots.drop_first());
    }
}

proof fn lemma_newest_snoc(
    latest: Option<CollisionOccupancySnapshot>,
    slots: Seq<CollisionReadbackStatus>,
    status: CollisionReadbackStatus,
)
    ensures
        newest_snapshot(latest, slots.push(status)) == newer_snapshot(
            newest_snapshot(latest, slots),
            status,
        ),
    decreases slots.len(),
{
    if slots.len() > 0 {
        assert(slots.push(status)[0] == slots[0]);
        assert(slots.push(status).drop_first() =~= slots.drop_first().push(status));
        lemma_newest_snoc(newer_snapshot(latest, slots[0]), slots.drop_first(), status);
    } else {
        assert(slots.push(status).drop_first() =~= Seq::<CollisionReadbackStatus>::empty());
        assert(slots.push(status)[0] == status);
        assert(newest_snapshot(newer_snapshot(latest, status), Seq::<CollisionReadbackStatus>::empty())
            == newer_snapshot(latest, status));
    }
}

impl CellularCollision {
    /// Creates the bookkeeping for a `width` by `height` tile extraction area
    pub fn new(width: u16, height: u16) -> (collision: Self)
        ensures
            collision.latest is None,
            collision.tile_count == width * height,
            collision.sequence_next == 0,
    {
        proof {
            assert(width * height <= 0xffff * 0xffff) by (nonlinear_arith)
                requires width <= 0xffff, height <= 0xffff;
        }
        CellularCollision { latest: None, tile_count: width as u32 * height as u32, sequence_next: 0 }
    }

    /// The fixed set of staging slot states a new bridge starts with
    pub fn initial_readback_slots() -> (slots: Vec<CollisionReadbackStatus>)
        ensures
            slots@.len() == READBACK_SLOT_COUNT,
            forall|i: int| 0 <= i < slots@.len() ==> #[trigger] slots@[i] is Available,
    {
        let mut slots: Vec<CollisionReadbackStatus> = Vec::new();
        let mut index: usize = 0;
        while index < READBACK_SLOT_COUNT
            invariant
                index <= READBACK_SLOT_COUNT,
                slots@.len() == index,
                forall|i: int| 0 <= i < slots@.len() ==> #[trigger] slots@[i] is Available,
            decreases READBACK_SLOT_COUNT - index,
        {
            slots.push(CollisionReadbackStatus::Available);
            index = index + 1;
        }
        slots
    }

    /// The size in bytes of one staging buffer: two words per tile
    pub fn readback_byte_size(&self) -> (size: u64)
        ensures
            size == self.tile_count * 8,
    {
        self.tile_count as u64 * 8
    }

    /// Consumes completed readbacks in slot order and retains the newest snapshot.
    /// Stops at the first slot holding an error, which is returned after that
    /// slot has been made available again.
    pub fn collect_completed(&mut self, slots: &mut Vec<CollisionReadbackStatus>) -> (result: Result<(), String>)
        ensures
            final(slots)@.len() == old(slots)@.len(),
            ({
                let failed = first_failed_readback(old(slots)@);
                &&& forall|i: int|
                    0 <= i < old(slots)@.len() ==> #[trigger] final(slots)@[i] == if i <= failed {
                        collected_status(old(slots)@[i])
                    } else {
                        old(slots)@[i]
                    }
                &&& final(self).latest == newest_snapshot(
                    old(self).latest,
                    old(slots)@.take(failed as int),
                )
                &&& match result {
                    Ok(()) => failed == old(slots)@.len(),
                    Err(message) => failed < old(slots)@.len() && old(slots)@[failed as int]
                        == CollisionReadbackStatus::Complete(Err(message)),
                }
            }),
            final(self).tile_count == old(self).tile_count,
            final(self).sequence_next == old(self).sequence_next,
    {
        let ghost initial = slots@;
        let ghost start = self.latest;
        let mut index: usize = 0;
        while index < slots.len()
            invariant
                initial == old(slots)@,
                start == old(self).latest,
                0 <= index <= initial.len(),
                slots@.len() == initial.len(),
                forall|i: int| 0 <= i < index ==> !is_failed_readback(#[trigger] initial[i]),
                forall|i: int|
                    0 <= i < initial.len() ==> #[trigger] slots@[i] == if i < index {
                        collected_status(initial[i])
                    } else {
                        initial[i]
                    },
                self.latest == newest_snapshot(start, initial.take(index as int)),
                self.tile_count == old(self).tile_count,
                self.sequence_next == old(self).sequence_next,
            decreases initial.len() - index,
        {
            let ghost before = slots@;
            let status: CollisionReadbackStatus = slots.remove(index);
            slots.insert(index, CollisionReadbackStatus::Available);
            assert(slots@ =~= before.update(index as int, CollisionReadbackStatus::Available));
            proof {
                lemma_first_failed_step(initial, index as int);
                lemma_newest_snoc(start, initial.take(index as int), initial[index as int]);
                assert(initial.take(index as int + 1) =~= initial.take(index as int).push(
                    initial[index as int],
                ));
            }
            match status {
                CollisionReadbackStatus::Complete(Err(message)) => {
                    return Err(message);
                },
                CollisionReadbackStatus::Complete(Ok(snapshot)) => {
                    let newer: bool = match &self.latest {
                        None => true,
                        Some(latest) => snapshot.sequence > latest.sequence,
                    };
                    if newer {
                        self.latest = Some(snapshot);
                    }
                },
                other => {
                    slots.set(index, other);
                },
            }
            index = index + 1;
        }
        proof {
            lemma_first_failed_none(initial);
            assert(initial.take(initial.len() as int) =~= initial);
        }
        Ok(())
    }

    /// Claims the first available staging slot for a new extraction, assigns it
    /// the next sequence, and encodes the ring mapping captured for the snapshot.
    /// Returns `None`, changing nothing, when every slot is busy.
    pub fn extract(
        &mut self,
        slots: &mut Vec<CollisionReadbackStatus>,
        width: u16,
        height: u16,
        ring_offset_x: u16,
        ring_offset_y: u16,
    ) -> (extraction: Option<CollisionExtraction>)
        ensures
            final(self).latest == old(self).latest,
            final(self).tile_count == old(self).tile_count,
            final(slots)@.len() == old(slots)@.len(),
            match extraction {
                None => {
                    &&& forall|i: int| 0 <= i < old(slots)@.len() ==> !(#[trigger] old(slots)@[i] is Available)
                    &&& final(slots)@ == old(slots)@
                    &&& final(self).sequence_next == old(self).sequence_next
                },
                Some(extraction) => {
                    &&& extraction.slot < old(slots)@.len()
                    &&& old(slots)@[extraction.slot as int] is Available
                    &&& forall|i: int| 0 <= i < extraction.slot ==> !(#[trigger] old(slots)@[i] is Available)
                    &&& final(slots)@ == old(slots)@.update(extraction.slot as int, CollisionReadbackStatus::Mapping)
                    &&& extraction.sequence == old(self).sequence_next
                    &&& final(self).sequence_next == (old(self).sequence_next + 1) % 0x1_0000_0000_0000_0000
                    &&& extraction.parameters@ == spec_words_le_bytes(
                        seq![width as u32, height as u32, ring_offset_x as u32, ring_offset_y as u32],
                    )
                },
            },
    {
        let mut index: usize = 0;
        while index < slots.len()
            invariant
                0 <= index <= slots@.len(),
                forall|i: int| 0 <= i < index ==> !(#[trigger] slots@[i] is Available),
            ensures
                0 <= index <= slots@.len(),
                forall|i: int| 0 <= i < index ==> !(#[trigger] slots@[i] is Available),
                index < slots@.len() ==> slots@[index as int] is Available,
            decreases slots@.len() - index,
        {
            if let CollisionReadbackStatus::Available = slots[index] {
                break;
            }
            index = index + 1;
        }
        if index == slots.len() {
            return None;
        }
        slots.set(index, CollisionReadbackStatus::Mapping);
        let sequence: u64 = self.sequence_next;
        self.sequence_next = self.sequence_next.wrapping_add(1);
        let words: [u32; 4] = [width as u32, height as u32, ring_offset_x as u32, ring_offset_y as u32];
        let parameters: Vec<u8> = encode_words_le(words.as_slice());
        assert(words@ =~= seq![width as u32, height as u32, ring_offset_x as u32, ring_offset_y as u32]);
        Some(CollisionExtraction { slot: index, sequence, parameters })
    }
}

/// The spec of one decoded tile mask: the two little-endian words of its 8-byte record
pub open spec fn spec_tile_masks(bytes: Seq<u8>) -> Seq<[u32; 2]> {
    Seq::new(bytes.len() / 8, |i: int| [spec_word_at(bytes, 8 * i), spec_word_at(bytes, 8 * i + 4)])
}

/// Decodes the staging buffer of a collision readback into one mask per tile,
/// ignoring a trailing partial record
pub fn decode_occupancy_masks(bytes: &[u8]) -> (masks: Vec<[u32; 2]>)
    ensures
        masks@ == spec_tile_masks(bytes@),
{
    let length: usize = bytes.len();
    let count: usize = length / 8;
    let mut masks: Vec<[u32; 2]> = Vec::with_capacity(count);
    let mut index: usize = 0;
    while index < count
        invariant
            length == bytes@.len(),
            count == bytes@.len() / 8,
            0 <= index <= count,
            masks@ =~= spec_tile_masks(bytes@).take(index as int),
        decreases count - index,
    {
        proof {
            vstd::arithmetic::div_mod::lemma_fundamental_div_mod(bytes@.len() as int, 8);
            vstd::arithmetic::div_mod::lemma_mod_bound(bytes@.len() as int, 8);
            assert(index as int * 8 + 8 <= bytes@.len());
        }
        let low: u32 = read_word_le(bytes, index * 8);
        let high: u32 = read_word_le(bytes, index * 8 + 4);
        masks.push([low, high]);
        proof {
            assert(masks@[index as int] == spec_tile_masks(bytes@)[index as int]);
        }
        index = index + 1;
    }
    assert(spec_tile_masks(bytes@).take(count as int) =~= spec_tile_masks(bytes@));
    masks
}

/// The message a collision readback reports when its mapping fails
pub fn readback_failure_message() -> (message: String)
    ensures
        message@ == "Cellular collision readback failed"@,
{
    String::from_str("Cellular collision readback failed")
}

/// Completes one collision readback: the decoded snapshot when the staging buffer
/// was mapped, the mapping error otherwise, or the fixed failure message when the
/// asynchronous mapping itself failed (`mapped` is `None`)
pub fn finish_collision_readback(
    mapped: Option<Result<Vec<u8>, String>>,
    sequence: u64,
    origin: TileCoordinates,
    width: u16,
    height: u16,
) -> (result: Result<CollisionOccupancySnapshot, String>)
    ensures
        match mapped {
            None => result matches Err(message) && message@ == "Cellular collision readback failed"@,
            Some(Err(message)) => result == Err::<CollisionOccupancySnapshot, String>(message),
            Some(Ok(bytes)) => result matches Ok(snapshot) && snapshot.sequence == sequence
                && snapshot.origin == origin && snapshot.width == width && snapshot.height == height
                && snapshot.masks@ == spec_tile_masks(bytes@),
        },
{
    match mapped {
        None => Err(readback_failure_message()),
        Some(Err(message)) => Err(message),
        Some(Ok(bytes)) => {
            let masks: Vec<[u32; 2]> = decode_occupancy_masks(bytes.as_slice());
            Ok(CollisionOccupancySnapshot { sequence, origin, width, height, masks })
        },
    }
}

} // verus!
