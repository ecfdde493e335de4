//! Host-side bookkeeping of declarative phase transitions: the parameter block and
//! dispatch sizes of each evaluation, and the rigid candidate readback round trip.

use vstd::prelude::*;
use crate::gpu_words::{encode_words_le, read_word_le, spec_word_at, spec_words_le_bytes};
use crate::simulation::simulation_constants::{RIGID_PHASE_CANDIDATE_SIZE, RIGID_PHASE_CANDIDATES_OFFSET};

verus! {

/// Bytes of the rigid phase-candidate readback for `cell_count` candidate slots:
/// a 256-byte header holding the candidate count, then one 40-byte record per slot
pub fn test_rigid_phase_readback_len(cell_count: u32) -> (length: u64)
    ensures
        length == RIGID_PHASE_CANDIDATES_OFFSET + cell_count * RIGID_PHASE_CANDIDATE_SIZE,
{
    RIGID_PHASE_CANDIDATES_OFFSET + cell_count as u64 * RIGID_PHASE_CANDIDATE_SIZE
}

/// Number of 64-wide workgroups that cover `count` items
pub open spec fn spec_workgroups(count: int) -> int {
    (count + 63) / 64
}

/// Number of 64-wide workgroups that cover `count` items
pub fn workgroups_for(count: u32) -> (groups: u32)
    ensures
        groups == spec_workgroups(count as int),
{
    count / 64 + if count % 64 == 0 { 0 } else { 1 }
}

/// What one phase-transition evaluation submits
pub struct PhaseTransitionPass {
    /// Whether the rigid candidate counter is reset first
    pub clear_rigid_candidates: bool,
    /// The parameter block, word by word
    pub parameters: [u32; 12],
    /// Workgroups of the cell pass
    pub cell_workgroups: u32,
    /// Workgroups of the particle pass
    pub particle_workgroups: u32,
    /// Workgroups of the gas pass along each dispatch axis
    pub gas_workgroups: [u32; 3],
    /// Workgroups of the rigid candidate pass, absent while a candidate readback is pending
    pub rigid_workgroups: Option<u32>,
}

/// The copies that fill the rigid candidate readback
pub struct RigidPhaseReadbackCopy {
    /// Bytes of the candidate counter copied to the start of the readback
    pub count_size: u64,
    /// Byte offset of the candidate records in the readback
    pub candidates_offset: u64,
    /// Bytes of candidate records copied
    pub candidates_size: u64,
}

/// What became of a pending rigid candidate readback when it is polled
pub enum RigidPhaseReadbackEvent {
    /// The mapping has not completed yet
    NotReceived,
    /// The mapping failed
    Failed,
    /// The mapping completed but its range could not be read
    Unreadable,
    /// The mapping completed with these bytes
    Mapped(Vec<u8>),
}

/// The rigid reservations to roll back
pub struct RollbackPlan {
    /// The little-endian bytes of the rolled-back slot indices
    pub slot_bytes: Vec<u8>,
    /// How many slots are rolled back
    pub count: u32,
    /// Workgroups of the rollback pass
    pub workgroups: u32,
}

/// Evaluates declarative phase metadata after scatter
pub struct ThermalPhaseTransitions {
    pub cell_count: u32,
    pub particle_count: u32,
    pub gas_count: u32,
    pub tick: u32,
    /// Whether a rigid candidate readback has been submitted and not yet taken
    pub readback_pending: bool,
}

/// The candidate count of a rigid phase readback: the header word, capped by the
/// slot count and by the records the bytes hold
pub open spec fn spec_candidate_count(bytes: Seq<u8>, cell_count: u32) -> int {
    let declared = spec_word_at(bytes, 0) as int;
    let capped = if declared < cell_count { declared } else { cell_count as int };
    let available = (bytes.len() - 256) / 40;
    if capped < available { capped } else { available }
}

/// Reads the rigid phase candidates of a mapped readback: the 40-byte records after
/// the 256-byte header, as many as the header's count capped by `cell_count` and by
/// the records the bytes hold
pub fn decode_rigid_phase_candidates(bytes: &[u8], cell_count: u32) -> (records: Vec<[u32; 10]>)
    requires
        bytes@.len() >= 256,
    ensures
        records.len() == spec_candidate_count(bytes@, cell_count),
        forall|r: int, j: int|
            0 <= r < records.len() && 0 <= j < 10 ==> #[trigger] records@[r][j] == spec_word_at(
                bytes@,
                256 + 40 * r + 4 * j,
            ),
{
    let length: usize = bytes.len();
    let declared: u32 = read_word_le(bytes, 0);
    let capped: u32 = if declared < cell_count { declared } else { cell_count };
    let available: usize = (length - 256) / 40;
    let count: usize = if (capped as usize) < available { capped as usize } else { available };
    let mut records: Vec<[u32; 10]> = Vec::new();
    let mut r: usize = 0;
    while r < count
        invariant
            length == bytes@.len(),
            length >= 256,
            count <= (length - 256) / 40,
            r <= count,
            records.len() == r,
            forall|q: int, j: int|
                0 <= q < r && 0 <= j < 10 ==> #[trigger] records@[q][j] == spec_word_at(
                    bytes@,
                    256 + 40 * q + 4 * j,
                ),
        decreases count - r,
    {
        let base: usize = 256 + 40 * r;
        let record: [u32; 10] = [
            read_word_le(bytes, base),
            read_word_le(bytes, base + 4),
            read_word_le(bytes, base + 8),
            read_word_le(bytes, base + 12),
            read_word_le(bytes, base + 16),
            read_word_le(bytes, base + 20),
            read_word_le(bytes, base + 24),
            read_word_le(bytes, base + 28),
            read_word_le(bytes, base + 32),
            read_word_le(bytes, base + 36),
        ];
        records.push(record);
        r = r + 1;
    }
    records
}

impl ThermalPhaseTransitions {
    /// Bookkeeping for `cell_count` cells, `particle_count` particles and `gas_count` gases
    pub fn new(cell_count: u32, particle_count: u32, gas_count: u32) -> (transitions: Self)
        ensures
            transitions.cell_count == cell_count,
            transitions.particle_count == particle_count,
            transitions.gas_count == gas_count,
            transitions.tick == 0,
            !transitions.readback_pending,
    {
        ThermalPhaseTransitions { cell_count, particle_count, gas_count, tick: 0, readback_pending: false }
    }

    /// Whether a rigid candidate readback is in flight
    pub fn rigid_readback_pending(&self) -> (pending: bool)
        ensures
            pending == self.readback_pending,
    {
        self.readback_pending
    }

    /// Plans one evaluation over the ring-buffered grid and advances the tick.
    ///
    /// The rigid candidate counter is reset and the rigid pass runs only while no
    /// candidate readback is in flight.
    pub fn encode(&mut self, origin: [i32; 2], tiles: [u32; 2], ring: [u32; 2], rigid_count: u32) -> (pass:
        PhaseTransitionPass)
        ensures
            final(self).cell_count == old(self).cell_count,
            final(self).particle_count == old(self).particle_count,
            final(self).gas_count == old(self).gas_count,
            final(self).readback_pending == old(self).readback_pending,
            final(self).tick == (old(self).tick + 1) % 0x1_0000_0000,
            pass.clear_rigid_candidates == !old(self).readback_pending,
            pass.parameters@ == seq![
                origin[0] as u32,
                origin[1] as u32,
                tiles[0],
                tiles[1],
                ring[0],
                ring[1],
                old(self).cell_count,
                old(self).particle_count,
                old(self).gas_count,
                old(self).tick,
                rigid_count,
                0u32,
            ],
            pass.cell_workgroups == spec_workgroups(old(self).cell_count as int),
            pass.particle_workgroups == spec_workgroups(old(self).particle_count as int),
            pass.gas_workgroups@ == seq![old(self).cell_count / 64, old(self).gas_count, 2u32],
            pass.rigid_workgroups == if old(self).readback_pending {
                None
            } else {
                Some(spec_workgroups(old(self).cell_count as int) as u32)
            },
    {
        let parameters: [u32; 12] = [
            origin[0] as u32,
            origin[1] as u32,
            tiles[0],
            tiles[1],
            ring[0],
            ring[1],
            self.cell_count,
            self.particle_count,
            self.gas_count,
            self.tick,
            rigid_count,
            0,
        ];
        let cell_workgroups: u32 = workgroups_for(self.cell_count);
        let pass = PhaseTransitionPass {
            clear_rigid_candidates: !self.readback_pending,
            parameters,
            cell_workgroups,
            particle_workgroups: workgroups_for(self.particle_count),
            gas_workgroups: [self.cell_count / 64, self.gas_count, 2],
            rigid_workgroups: if self.readback_pending {
                None
            } else {
                Some(cell_workgroups)
            },
        };
        self.tick = self.tick.wrapping_add(1);
        pass
    }

    /// Starts the rigid candidate readback unless one is already in flight
    pub fn submit_rigid_readback(&mut self) -> (copy: Option<RigidPhaseReadbackCopy>)
        ensures
            final(self).cell_count == old(self).cell_count,
            final(self).particle_count == old(self).particle_count,
            final(self).gas_count == old(self).gas_count,
            final(self).tick == old(self).tick,
            final(self).readback_pending,
            old(self).readback_pending ==> copy is None,
            !old(self).readback_pending ==> (copy matches Some(c) && c.count_size == 4
                && c.candidates_offset == RIGID_PHASE_CANDIDATES_OFFSET && c.candidates_size
                == old(self).cell_count * RIGID_PHASE_CANDIDATE_SIZE),
    {
        if self.readback_pending {
            return None;
        }
        self.readback_pending = true;
        Some(
            RigidPhaseReadbackCopy {
                count_size: 4,
                candidates_offset: RIGID_PHASE_CANDIDATES_OFFSET,
                candidates_size: self.cell_count as u64 * RIGID_PHASE_CANDIDATE_SIZE,
            },
        )
    }

    /// Takes the rigid candidates once their readback has been received.
    ///
    /// Nothing is taken while no readback is in flight or it has not completed. A failed
    /// mapping yields no candidates, and an unreadable one yields nothing; either way, as
    /// for a mapped one, the readback is no longer in flight afterwards.
    pub fn take_rigid_candidates(&mut self, event: RigidPhaseReadbackEvent) -> (candidates: Option<
        Vec<[u32; 10]>,
    >)
        requires
            event matches RigidPhaseReadbackEvent::Mapped(bytes) ==> bytes@.len() >= 256,
        ensures
            final(self).cell_count == old(self).cell_count,
            final(self).particle_count == old(self).particle_count,
            final(self).gas_count == old(self).gas_count,
            final(self).tick == old(self).tick,
            !old(self).readback_pending ==> candidates is None && !final(self).readback_pending,
            old(self).readback_pending ==> match event {
                RigidPhaseReadbackEvent::NotReceived => candidates is None
                    && final(self).readback_pending,
                RigidPhaseReadbackEvent::Failed => candidates matches Some(records) && records.len()
                    == 0 && !final(self).readback_pending,
                RigidPhaseReadbackEvent::Unreadable => candidates is None
                    && !final(self).readback_pending,
                RigidPhaseReadbackEvent::Mapped(bytes) => candidates matches Some(records)
                    && records.len() == spec_candidate_count(bytes@, old(self).cell_count) && (forall|
                    r: int,
                    j: int,
                |
                    0 <= r < records.len() && 0 <= j < 10 ==> #[trigger] records@[r][j]
                        == spec_word_at(bytes@, 256 + 40 * r + 4 * j)) && !final(self).readback_pending,
            },
    {
        if !self.readback_pending {
            return None;
        }
        match event {
            RigidPhaseReadbackEvent::NotReceived => None,
            RigidPhaseReadbackEvent::Failed => {
                self.readback_pending = false;
                Some(Vec::new())
            },
            RigidPhaseReadbackEvent::Unreadable => {
                self.readback_pending = false;
                None
            },
            RigidPhaseReadbackEvent::Mapped(bytes) => {
                self.readback_pending = false;
                Some(decode_rigid_phase_candidates(bytes.as_slice(), self.cell_count))
            },
        }
    }

    /// Plans the rollback of rigid reservations: at most `cell_count` of `slots`, in
    /// order, or nothing when `slots` is empty
    pub fn rollback_rigid_reservations(&self, slots: &[u32]) -> (plan: Option<RollbackPlan>)
        requires
            slots@.len() * 4 <= usize::MAX,
        ensures
            slots@.len() == 0 ==> plan is None,
            slots@.len() > 0 ==> (plan matches Some(p) && {
                let count = if slots@.len() < self.cell_count {
                    slots@.len() as int
                } else {
                    self.cell_count as int
                };
                &&& p.count == count
                &&& p.slot_bytes@ == spec_words_le_bytes(slots@.take(count))
                &&& p.workgroups == spec_workgroups(count)
            }),
    {
        let length: usize = slots.len();
        if length == 0 {
            return None;
        }
        let count: u32 = if (length as u64) < self.cell_count as u64 {
            length as u32
        } else {
            self.cell_count
        };
        let mut kept: Vec<u32> = Vec::new();
        let mut index: usize = 0;
        while index < count as usize
            invariant
                count <= length == slots@.len(),
                index <= count,
                kept@ == slots@.take(index as int),
            decreases count - index,
        {
            kept.push(slots[index]);
            proof {
                assert(slots@.take(index as int + 1) =~= slots@.take(index as int).push(slots@[index as int]));
            }
            index = index + 1;
        }
        Some(
            RollbackPlan {
                slot_bytes: encode_words_le(kept.as_slice()),
                count,
                workgroups: workgroups_for(count),
            },
        )
    }
}

/// A rigid phase readback yields the smallest of three counts: the count its header
/// word declares, the cell count, and the whole records its bytes hold; it never
/// yields more than the header declares
pub proof fn lemma_candidate_count_bounds(bytes: Seq<u8>, cell_count: u32)
    requires
        bytes.len() >= 256,
    ensures
        ({
            let count = spec_candidate_count(bytes, cell_count);
            &&& 0 <= count
            &&& count <= spec_word_at(bytes, 0)
            &&& count <= cell_count
            &&& 256 + 40 * count <= bytes.len()
            &&& count == spec_word_at(bytes, 0) || count == cell_count || count == (bytes.len() - 256) / 40
        }),
{
}

} // verus!
