//! Gathering the static cellular state of chosen cells: the request, the decoding
//! of its readback, and the one-request-at-a-time status of the gather.

use vstd::prelude::*;
use crate::gpu_words::{encode_words_le, lemma_word_of_image, read_word_le, spec_word_at, spec_words_le_bytes};
use crate::simulation::thermal_phase_transitions::{spec_workgroups, workgroups_for};

verus! {

/// Snapshot of one static cellular material state; the float fields are carried as
/// their bit patterns
#[derive(Clone, Copy, Debug, PartialEq, Eq, Structural)]
pub struct CellularStaticState {
    pub material: u32,
    pub appearance: u32,
    pub integrity_bits: u32,
    pub amount_bits: u32,
    pub temperature_bits: u32,
}

/// Where a gather stands
pub enum GatherStatus {
    /// No request is in flight and no result waits
    Idle,
    /// A request is in flight
    Pending,
    /// A request completed with this result, which has not been taken
    Complete(Result<Vec<CellularStaticState>, String>),
}

/// One submitted gather request
pub struct GatherRequest {
    /// The requested cell indices, little-endian
    pub index_bytes: Vec<u8>,
    /// How many cells are requested, truncated to 32 bits
    pub count: u32,
    /// Workgroups of the gather pass
    pub workgroups: u32,
    /// Bytes copied back: one 32-byte record per requested cell
    pub readback_size: u64,
}

/// The state decoded from the 32-byte record at `offset`
pub open spec fn spec_static_state(bytes: Seq<u8>, offset: int) -> CellularStaticState {
    CellularStaticState {
        material: spec_word_at(bytes, offset),
        appearance: spec_word_at(bytes, offset + 4),
        integrity_bits: spec_word_at(bytes, offset + 8),
        amount_bits: spec_word_at(bytes, offset + 12),
        temperature_bits: spec_word_at(bytes, offset + 16),
    }
}

/// Gathers static cellular state of requested cells, one request at a time
pub struct CellularStaticStateGather {
    /// Cells one request may name: the requested capacity, and at least one
    pub capacity: usize,
    pub status: GatherStatus,
}

impl CellularStaticStateGather {
    /// An idle gather for requests of up to `capacity` cells
    pub fn new(capacity: usize) -> (gather: Self)
        ensures
            gather.capacity == if capacity == 0 { 1 } else { capacity },
            gather.status is Idle,
    {
        CellularStaticStateGather { capacity: if capacity == 0 { 1 } else { capacity }, status: GatherStatus::Idle }
    }

    /// Submits a request for the cells at `indices`. Nothing is submitted when
    /// `indices` is empty, names more cells than the capacity, or an earlier request
    /// is still in flight or its result has not been taken.
    pub fn submit(&mut self, indices: &[u32]) -> (request: Option<GatherRequest>)
        requires
            indices@.len() * 4 <= usize::MAX,
            indices@.len() * 32 <= u64::MAX,
        ensures
            final(self).capacity == old(self).capacity,
            (indices@.len() == 0 || indices@.len() > old(self).capacity || !(old(self).status is Idle))
                ==> request is None && final(self).status == old(self).status,
            !(indices@.len() == 0 || indices@.len() > old(self).capacity || !(old(self).status is Idle))
                ==> (request matches Some(r) && r.index_bytes@ == spec_words_le_bytes(indices@)
                && r.count == indices@.len() as u32 && r.workgroups == spec_workgroups((indices@.len() as u32) as int)
                && r.readback_size == indices@.len() * 32 && final(self).status is Pending),
    {
        let length: usize = indices.len();
        if length == 0 || length > self.capacity {
            return None;
        }
        match self.status {
            GatherStatus::Idle => {},
            _ => {
                return None;
            },
        }
        let count: u32 = #[verifier::truncate] (length as u32);
        self.status = GatherStatus::Pending;
        Some(
            GatherRequest {
                index_bytes: encode_words_le(indices),
                count,
                workgroups: workgroups_for(count),
                readback_size: length as u64 * 32,
            },
        )
    }

    /// Decodes a completed readback: one state per complete 32-byte record
    pub fn decode_states(bytes: &[u8]) -> (states: Vec<CellularStaticState>)
        ensures
            states.len() == bytes@.len() / 32,
            forall|i: int| 0 <= i < states.len() ==> #[trigger] states@[i] == spec_static_state(bytes@, 32 * i),
    {
        let length: usize = bytes.len();
        let count: usize = length / 32;
        let mut states: Vec<CellularStaticState> = Vec::new();
        let mut i: usize = 0;
        while i < count
            invariant
                length == bytes@.len(),
                count == length / 32,
                i <= count,
                states.len() == i,
                forall|j: int| 0 <= j < i ==> #[trigger] states@[j] == spec_static_state(bytes@, 32 * j),
            decreases count - i,
        {
            let offset: usize = 32 * i;
            states.push(
                CellularStaticState {
                    material: read_word_le(bytes, offset),
                    appearance: read_word_le(bytes, offset + 4),
                    integrity_bits: read_word_le(bytes, offset + 8),
                    amount_bits: read_word_le(bytes, offset + 12),
                    temperature_bits: read_word_le(bytes, offset + 16),
                },
            );
            i = i + 1;
        }
        states
    }

    /// Records the outcome of the request in flight: the decoded states of its mapped
    /// readback, or the mapping's error message
    pub fn complete(&mut self, mapped: Result<Vec<u8>, String>)
        ensures
            final(self).capacity == old(self).capacity,
            match mapped {
                Ok(bytes) => final(self).status matches GatherStatus::Complete(Ok(states))
                    && states.len() == bytes@.len() / 32 && forall|i: int|
                    0 <= i < states.len() ==> #[trigger] states@[i] == spec_static_state(bytes@, 32 * i),
                Err(message) => final(self).status matches GatherStatus::Complete(Err(m)) && m == message,
            },
    {
        match mapped {
            Ok(bytes) => {
                let states = Self::decode_states(bytes.as_slice());
                self.status = GatherStatus::Complete(Ok(states));
            },
            Err(message) => {
                self.status = GatherStatus::Complete(Err(message));
            },
        }
    }

    /// Takes the result of a completed request, leaving the gather idle; nothing is
    /// taken while a request is in flight or none was made
    pub fn take_completed(&mut self) -> (taken: Option<Result<Vec<CellularStaticState>, String>>)
        ensures
            final(self).capacity == old(self).capacity,
            match old(self).status {
                GatherStatus::Complete(result) => taken == Some(result) && final(self).status is Idle,
                _ => taken is None && final(self).status == old(self).status,
            },
    {
        let mut status = GatherStatus::Idle;
        std::mem::swap(&mut status, &mut self.status);
        match status {
            GatherStatus::Complete(result) => Some(result),
            other => {
                self.status = other;
                None
            },
        }
    }
}

/// A gathered record holds, as little-endian words, the material, the appearance,
/// the integrity, the amount and the temperature, then padding: decoding the record
/// at position `r` of such words gives back exactly those five values
pub proof fn lemma_static_state_round_trip(words: Seq<u32>, r: int)
    requires
        0 <= r,
        8 * r + 8 <= words.len(),
    ensures
        spec_static_state(spec_words_le_bytes(words), 32 * r) == (CellularStaticState {
            material: words[8 * r],
            appearance: words[8 * r + 1],
            integrity_bits: words[8 * r + 2],
            amount_bits: words[8 * r + 3],
            temperature_bits: words[8 * r + 4],
        }),
{
    lemma_word_of_image(words, 8 * r);
    lemma_word_of_image(words, 8 * r + 1);
    lemma_word_of_image(words, 8 * r + 2);
    lemma_word_of_image(words, 8 * r + 3);
    lemma_word_of_image(words, 8 * r + 4);
    assert(4 * (8 * r + 1) == 32 * r + 4);
    assert(4 * (8 * r + 2) == 32 * r + 8);
    assert(4 * (8 * r + 3) == 32 * r + 12);
    assert(4 * (8 * r + 4) == 32 * r + 16);
}

} // verus!
