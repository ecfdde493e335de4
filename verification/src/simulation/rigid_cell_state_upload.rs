//! Host-side bookkeeping of uploading persistent rigid cell state records.

use vstd::prelude::*;
use crate::gpu_words::{encode_words_le, spec_words_le_bytes};
use crate::simulation::thermal_phase_transitions::{spec_workgroups, workgroups_for};

verus! {

/// The words of `records`, record after record
pub open spec fn record_words_of(records: Seq<[u32; 4]>) -> Seq<u32> {
    Seq::new((4 * records.len()) as nat, |w: int| records[w / 4][w % 4])
}

/// One upload of rigid cell state records
pub struct RigidCellStateBatch {
    /// The records, little-endian, record after record
    pub record_bytes: Vec<u8>,
    /// How many records are uploaded, truncated to 32 bits
    pub count: u32,
    /// Workgroups of the upload pass
    pub workgroups: u32,
}

/// Writes persistent per-cell state of rigid cells back into the cellular fields
pub struct RigidCellStateUpload {
    /// Records the upload buffer holds: the requested capacity, and at least one
    pub capacity: usize,
}

impl RigidCellStateUpload {
    /// Bookkeeping for uploads of up to `capacity` records
    pub fn new(capacity: usize) -> (upload: Self)
        ensures
            upload.capacity == if capacity == 0 { 1 } else { capacity },
    {
        RigidCellStateUpload { capacity: if capacity == 0 { 1 } else { capacity } }
    }

    /// Plans the upload of `records`, or nothing when there is none
    pub fn apply(&self, records: &[[u32; 4]]) -> (batch: Option<RigidCellStateBatch>)
        requires
            records@.len() * 16 <= usize::MAX,
        ensures
            records@.len() == 0 ==> batch is None,
            records@.len() > 0 ==> (batch matches Some(b) && b.record_bytes@ == spec_words_le_bytes(
                record_words_of(records@),
            ) && b.count == records@.len() as u32 && b.workgroups == spec_workgroups(
                (records@.len() as u32) as int,
            )),
    {
        let length: usize = records.len();
        if length == 0 {
            return None;
        }
        let mut words: Vec<u32> = Vec::new();
        let mut r: usize = 0;
        while r < length
            invariant
                length == records@.len(),
                length * 16 <= usize::MAX,
                r <= length,
                words@ == record_words_of(records@.take(r as int)),
            decreases length - r,
        {
            let record: [u32; 4] = records[r];
            words.push(record[0]);
            words.push(record[1]);
            words.push(record[2]);
            words.push(record[3]);
            proof {
                let next = records@.take(r + 1);
                assert forall|w: int| 0 <= w < 4 * (r + 1) implies #[trigger] words@[w] == next[w / 4][w % 4] by {
                    if w < 4 * r {
                        assert(records@.take(r as int)[w / 4] == next[w / 4]);
                    }
                }
                assert(words@ =~= record_words_of(next));
            }
            r = r + 1;
        }
        proof {
            assert(records@.take(length as int) =~= records@);
        }
        let count: u32 = #[verifier::truncate] (length as u32);
        Some(
            RigidCellStateBatch {
                record_bytes: encode_words_le(words.as_slice()),
                count,
                workgroups: workgroups_for(count),
            },
        )
    }
}

} // verus!
