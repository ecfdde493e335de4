//! Host-side state of the proxy that rasterizes physical bodies into transient
//! cellular interaction geometry: rigid cell records, the parameter block, dispatch
//! sizes, actor capacity growth, and destruction request round trips.

use vstd::prelude::*;
use crate::gpu_words::{encode_words_le, read_word_le, spec_word_at, spec_words_le_bytes};
use crate::simulation::cellular_pressure::{is_power_of_two, next_power_of_two};
use crate::simulation::rigid_cellular_body::{RigidCellularBodyCell, cell_lists};
use crate::simulation::thermal_phase_transitions::{spec_workgroups, workgroups_for};
use crate::tiles::TileCoordinates;

verus! {

/// The eight words the device reads for one rigid cell of body `body`
pub open spec fn cell_record(body: int, cell: RigidCellularBodyCell) -> Seq<u32> {
    seq![
        cell.local[0] as u32,
        cell.local[1] as u32,
        body as u32,
        cell.material,
        cell.appearance,
        cell.state_slot,
        cell.state_generation,
        0u32,
    ]
}

/// The record of every cell of every body, bodies in order and each body's cells in order
pub open spec fn body_records(bodies: Seq<Seq<RigidCellularBodyCell>>) -> Seq<Seq<u32>>
    decreases bodies.len(),
{
    if bodies.len() == 0 {
        Seq::empty()
    } else {
        let last = bodies.len() - 1;
        body_records(bodies.drop_last()) + Seq::new(
            bodies[last].len(),
            |c: int| cell_record(last, bodies[last][c]),
        )
    }
}

/// The words of the first `count` records, record after record
pub open spec fn record_words(records: Seq<Seq<u32>>, count: int) -> Seq<u32> {
    Seq::new((8 * count) as nat, |w: int| records[w / 8][w % 8])
}

/// The records of the first `b` bodies start the records of all bodies
proof fn lemma_body_records_prefix(bodies: Seq<Seq<RigidCellularBodyCell>>, b: int)
    requires
        0 <= b <= bodies.len(),
    ensures
        body_records(bodies.take(b)).len() <= body_records(bodies).len(),
        forall|k: int|
            0 <= k < body_records(bodies.take(b)).len() ==> #[trigger] body_records(bodies.take(b))[k]
                == body_records(bodies)[k],
    decreases bodies.len(),
{
    if b == bodies.len() {
        assert(bodies.take(b) =~= bodies);
    } else {
        let shorter = bodies.drop_last();
        assert(bodies.take(b) =~= shorter.take(b));
        lemma_body_records_prefix(shorter, b);
    }
}

/// The records of the first `b + 1` bodies are those of the first `b` followed by
/// those of body `b`
proof fn lemma_body_records_step(bodies: Seq<Seq<RigidCellularBodyCell>>, b: int)
    requires
        0 <= b < bodies.len(),
    ensures
        body_records(bodies.take(b + 1)) == body_records(bodies.take(b)) + Seq::new(
            bodies[b].len(),
            |c: int| cell_record(b, bodies[b][c]),
        ),
{
    let taken = bodies.take(b + 1);
    assert(taken.drop_last() =~= bodies.take(b));
    assert(taken[b] == bodies[b]);
}

/// A request to resolve world cells to the rigid bodies that own them
pub struct DestructionRequest {
    /// The request count followed by the requested cell indices, little-endian
    pub request_bytes: Vec<u8>,
    /// How many cells are requested
    pub count: u32,
    /// Bytes of the result readback: one handle pair per request
    pub readback_size: u64,
    /// Workgroups of the resolve pass
    pub workgroups: u32,
}

/// What one rasterization writes and dispatches
pub struct RasterPlan {
    /// The rigid cell records to upload, present when the rigid topology changed
    pub cell_bytes: Option<Vec<u8>>,
    /// Rigid cells rasterized this tick
    pub rigid_cell_count: u32,
    /// The parameter block, word by word
    pub parameters: [u32; 24],
    /// Workgroups of the clear, actor count clear, actor claim, actor count, actor
    /// resolve, rigid claim and rigid resolve passes, in that order
    pub workgroups: [u32; 7],
}

/// Rasterizes physical bodies into transient cellular interaction geometry
pub struct CellularPhysicsBodyProxy {
    pub buffered_cell_count: u32,
    pub topology_revision: u64,
    pub actor_capacity: usize,
}

/// The number of cells of all bodies
pub open spec fn total_cells(bodies: Seq<Vec<RigidCellularBodyCell>>) -> int {
    body_records(cell_lists(bodies)).len() as int
}

impl CellularPhysicsBodyProxy {
    /// The proxy for a ring buffer of `buffered_cell_count` cells, truncated to 32 bits
    pub fn new(buffered_cell_count: usize) -> (proxy: Self)
        ensures
            proxy.buffered_cell_count == buffered_cell_count as u32,
            proxy.topology_revision == u64::MAX,
            proxy.actor_capacity == 1,
    {
        CellularPhysicsBodyProxy {
            buffered_cell_count: #[verifier::truncate] (buffered_cell_count as u32),
            topology_revision: u64::MAX,
            actor_capacity: 1,
        }
    }

    /// The number of rigid cells the ring buffer can hold
    pub fn rigid_cell_capacity(&self) -> (capacity: usize)
        ensures
            capacity == self.buffered_cell_count,
    {
        self.buffered_cell_count as usize
    }

    /// The number of rigid cells rasterized: every cell of every body, capped by the
    /// ring buffer
    pub fn rigid_cell_count(&self, bodies: &[Vec<RigidCellularBodyCell>]) -> (count: usize)
        requires
            total_cells(bodies@) <= usize::MAX,
        ensures
            count == if total_cells(bodies@) < self.buffered_cell_count {
                total_cells(bodies@)
            } else {
                self.buffered_cell_count as int
            },
    {
        let total: usize = Self::count_cells(bodies);
        if total < self.buffered_cell_count as usize {
            total
        } else {
            self.buffered_cell_count as usize
        }
    }

    /// The number of cells of all bodies
    fn count_cells(bodies: &[Vec<RigidCellularBodyCell>]) -> (total: usize)
        requires
            total_cells(bodies@) <= usize::MAX,
        ensures
            total == total_cells(bodies@),
    {
        let ghost lists = cell_lists(bodies@);
        let mut total: usize = 0;
        let mut b: usize = 0;
        while b < bodies.len()
            invariant
                lists == cell_lists(bodies@),
                b <= bodies@.len(),
                total == body_records(lists.take(b as int)).len(),
                body_records(lists).len() <= usize::MAX,
            decreases bodies@.len() - b,
        {
            proof {
                lemma_body_records_step(lists, b as int);
                lemma_body_records_prefix(lists, b + 1);
                assert(lists[b as int] == bodies@[b as int]@);
            }
            total = total + bodies[b].len();
            b = b + 1;
        }
        proof {
            assert(lists.take(b as int) =~= lists);
        }
        total
    }

    /// The little-endian records of the first rigid cells, bodies in order, at most
    /// one per buffered cell
    pub fn rigid_cell_records(&self, bodies: &[Vec<RigidCellularBodyCell>]) -> (bytes: Vec<u8>)
        requires
            total_cells(bodies@) * 32 <= usize::MAX,
        ensures
            bytes@ == spec_words_le_bytes(
                record_words(
                    body_records(cell_lists(bodies@)),
                    if total_cells(bodies@) < self.buffered_cell_count {
                        total_cells(bodies@)
                    } else {
                        self.buffered_cell_count as int
                    },
                ),
            ),
    {
        let ghost lists = cell_lists(bodies@);
        let ghost records = body_records(lists);
        let cap: usize = self.buffered_cell_count as usize;
        let mut words: Vec<u32> = Vec::new();
        let mut count: usize = 0;
        let mut b: usize = 0;
        while b < bodies.len() && count < cap
            invariant
                lists == cell_lists(bodies@),
                records == body_records(lists),
                records.len() * 32 <= usize::MAX,
                cap == self.buffered_cell_count,
                b <= bodies@.len(),
                count <= cap,
                count == body_records(lists.take(b as int)).len() || count == cap,
                count <= body_records(lists.take(b as int)).len(),
                words@ == record_words(records, count as int),
            decreases bodies@.len() - b,
        {
            proof {
                lemma_body_records_step(lists, b as int);
                lemma_body_records_prefix(lists, b + 1);
                assert(lists[b as int] == bodies@[b as int]@);
            }
            let cells: &Vec<RigidCellularBodyCell> = &bodies[b];
            let ghost start = count as int;
            let mut c: usize = 0;
            while c < cells.len() && count < cap
                invariant
                    lists == cell_lists(bodies@),
                    records == body_records(lists),
                    records.len() * 32 <= usize::MAX,
                    cap == self.buffered_cell_count,
                    b < bodies@.len(),
                    cells@ == lists[b as int],
                    start == body_records(lists.take(b as int)).len(),
                    body_records(lists.take(b + 1)).len() <= records.len(),
                    forall|k: int|
                        0 <= k < body_records(lists.take(b + 1)).len() ==> #[trigger] body_records(
                            lists.take(b + 1),
                        )[k] == records[k],
                    body_records(lists.take(b + 1)) == body_records(lists.take(b as int)) + Seq::new(
                        lists[b as int].len(),
                        |q: int| cell_record(b as int, lists[b as int][q]),
                    ),
                    c <= cells.len(),
                    count == start + c,
                    count <= cap,
                    words@ == record_words(records, count as int),
                decreases cells.len() - c,
            {
                let cell: RigidCellularBodyCell = cells[c];
                proof {
                    let k = start + c;
                    assert(body_records(lists.take(b + 1))[k] == cell_record(b as int, lists[b as int][c as int]));
                    assert(records[k] == cell_record(b as int, cell));
                }
                words.push(#[verifier::truncate] (cell.local[0] as u32));
                words.push(#[verifier::truncate] (cell.local[1] as u32));
                words.push(#[verifier::truncate] (b as u32));
                words.push(cell.material);
                words.push(cell.appearance);
                words.push(cell.state_slot);
                words.push(cell.state_generation);
                words.push(0);
                proof {
                    let k = start + c;
                    assert forall|w: int| 0 <= w < 8 * (count + 1) implies #[trigger] words@[w] == records[w / 8][w % 8] by {
                        if w >= 8 * count {
                            assert(w / 8 == k);
                        }
                    }
                    assert(words@ =~= record_words(records, count + 1));
                }
                count = count + 1;
                c = c + 1;
            }
            b = b + 1;
        }
        proof {
            lemma_body_records_prefix(lists, b as int);
            if count < cap {
                assert(lists.take(b as int) =~= lists);
            }
        }
        encode_words_le(words.as_slice())
    }

    /// Plans one rasterization of `actor_count` actors and the rigid `bodies`.
    ///
    /// The actor capacity grows first when the actors no longer fit. The rigid cell
    /// records are uploaded only when the rigid topology changed.
    pub fn rasterize(
        &mut self,
        origin: TileCoordinates,
        width: u16,
        height: u16,
        ring_offset_x: u16,
        ring_offset_y: u16,
        gravity_bits: [u32; 2],
        actor_count: usize,
        bodies: &[Vec<RigidCellularBodyCell>],
        topology_revision: u64,
    ) -> (plan: RasterPlan)
        requires
            actor_count <= usize::MAX / 2 + 1,
            total_cells(bodies@) <= u32::MAX,
            total_cells(bodies@) * 32 <= usize::MAX,
        ensures
            final(self).buffered_cell_count == old(self).buffered_cell_count,
            actor_count <= old(self).actor_capacity ==> final(self).actor_capacity == old(self).actor_capacity,
            actor_count > old(self).actor_capacity ==> is_power_of_two(final(self).actor_capacity as int)
                && final(self).actor_capacity >= actor_count && final(self).actor_capacity / 2 < actor_count,
            final(self).topology_revision == topology_revision,
            ({
                let cells = old(self).buffered_cell_count;
                let rigid = if total_cells(bodies@) < cells {
                    total_cells(bodies@)
                } else {
                    cells as int
                };
                let actors = actor_count as u32;
                &&& plan.rigid_cell_count == rigid
                &&& (old(self).topology_revision == topology_revision ==> plan.cell_bytes is None)
                &&& (old(self).topology_revision != topology_revision ==> (plan.cell_bytes matches Some(
                    bytes,
                ) && bytes@ == spec_words_le_bytes(record_words(body_records(cell_lists(bodies@)), rigid))))
                &&& plan.parameters@ == seq![
                    origin.x as u32,
                    origin.y as u32,
                    width as u32,
                    height as u32,
                    ring_offset_x as u32,
                    ring_offset_y as u32,
                    gravity_bits[0],
                    gravity_bits[1],
                    cells,
                    actors,
                    rigid as u32,
                    bodies@.len() as u32,
                    0u32, 0u32, 0u32, 0u32, 0u32, 0u32, 0u32, 0u32, 0u32, 0u32, 0u32, 0u32,
                ]
                &&& plan.workgroups@ == seq![
                    spec_workgroups(cells as int) as u32,
                    spec_workgroups(actors as int) as u32,
                    actors,
                    actors,
                    actors,
                    spec_workgroups(rigid) as u32,
                    spec_workgroups(rigid) as u32,
                ]
            }),
    {
        self.ensure_actor_capacity(actor_count);
        let total: usize = Self::count_cells(bodies);
        let rigid: u32 = if total < self.buffered_cell_count as usize {
            total as u32
        } else {
            self.buffered_cell_count
        };
        let cell_bytes: Option<Vec<u8>> = if self.topology_revision != topology_revision {
            let bytes: Vec<u8> = self.rigid_cell_records(bodies);
            self.topology_revision = topology_revision;
            Some(bytes)
        } else {
            None
        };
        let actors: u32 = #[verifier::truncate] (actor_count as u32);
        let parameters: [u32; 24] = [
            origin.x as u32,
            origin.y as u32,
            width as u32,
            height as u32,
            ring_offset_x as u32,
            ring_offset_y as u32,
            gravity_bits[0],
            gravity_bits[1],
            self.buffered_cell_count,
            actors,
            rigid,
            #[verifier::truncate] (bodies.len() as u32),
            0,
            0,
            0,
            0,
            0,
            0,
            0,
            0,
            0,
            0,
            0,
            0,
        ];
        let rigid_workgroups: u32 = workgroups_for(rigid);
        let workgroups: [u32; 7] = [
            workgroups_for(self.buffered_cell_count),
            workgroups_for(actors),
            actors,
            actors,
            actors,
            rigid_workgroups,
            rigid_workgroups,
        ];
        RasterPlan { cell_bytes, rigid_cell_count: rigid, parameters, workgroups }
    }

    /// Grows the actor capacity to the next power of two when `count` actors no
    /// longer fit
    pub fn ensure_actor_capacity(&mut self, count: usize) -> (grown: bool)
        requires
            count <= usize::MAX / 2 + 1,
        ensures
            grown == (count > old(self).actor_capacity),
            final(self).buffered_cell_count == old(self).buffered_cell_count,
            final(self).topology_revision == old(self).topology_revision,
            !grown ==> final(self).actor_capacity == old(self).actor_capacity,
            grown ==> is_power_of_two(final(self).actor_capacity as int) && final(self).actor_capacity
                >= count && final(self).actor_capacity / 2 < count,
    {
        if count <= self.actor_capacity {
            return false;
        }
        self.actor_capacity = next_power_of_two(count);
        true
    }

    /// Plans the resolution of `indices` to their owning rigid bodies: at most one
    /// request per buffered cell, each index truncated to 32 bits, or nothing when
    /// `indices` is empty
    pub fn resolve_destruction_requests(&self, indices: &[usize]) -> (request: Option<DestructionRequest>)
        requires
            (indices@.len() + 1) * 4 <= usize::MAX,
        ensures
            indices@.len() == 0 ==> request is None,
            indices@.len() > 0 ==> (request matches Some(r) && {
                let count = if indices@.len() < self.buffered_cell_count {
                    indices@.len() as int
                } else {
                    self.buffered_cell_count as int
                };
                &&& r.count == count
                &&& r.request_bytes@ == spec_words_le_bytes(
                    seq![count as u32] + Seq::new(count as nat, |i: int| indices@[i] as u32),
                )
                &&& r.readback_size == count * 8
                &&& r.workgroups == spec_workgroups(count)
            }),
    {
        let length: usize = indices.len();
        if length == 0 {
            return None;
        }
        let count: u32 = if (length as u64) < self.buffered_cell_count as u64 {
            length as u32
        } else {
            self.buffered_cell_count
        };
        let mut words: Vec<u32> = Vec::new();
        words.push(count);
        let mut i: usize = 0;
        while i < count as usize
            invariant
                count <= length == indices@.len(),
                i <= count,
                words@ == seq![count as u32] + Seq::new(i as nat, |j: int| indices@[j] as u32),
            decreases count - i,
        {
            words.push(#[verifier::truncate] (indices[i] as u32));
            proof {
                assert(words@ =~= seq![count as u32] + Seq::new((i + 1) as nat, |j: int| indices@[j] as u32));
            }
            i = i + 1;
        }
        Some(
            DestructionRequest {
                request_bytes: encode_words_le(words.as_slice()),
                count,
                readback_size: count as u64 * 8,
                workgroups: workgroups_for(count),
            },
        )
    }

    /// The handle pairs of a completed destruction readback: one pair per complete
    /// 8-byte chunk
    pub fn decode_destroyed_handles(bytes: &[u8]) -> (handles: Vec<[u32; 2]>)
        ensures
            handles.len() == bytes@.len() / 8,
            forall|i: int|
                0 <= i < handles.len() ==> (#[trigger] handles@[i])[0] == spec_word_at(bytes@, 8 * i)
                    && handles@[i][1] == spec_word_at(bytes@, 8 * i + 4),
    {
        let length: usize = bytes.len();
        let count: usize = length / 8;
        let mut handles: Vec<[u32; 2]> = Vec::new();
        let mut i: usize = 0;
        while i < count
            invariant
                length == bytes@.len(),
                count == length / 8,
                i <= count,
                handles.len() == i,
                forall|j: int|
                    0 <= j < i ==> (#[trigger] handles@[j])[0] == spec_word_at(bytes@, 8 * j)
                        && handles@[j][1] == spec_word_at(bytes@, 8 * j + 4),
            decreases count - i,
        {
            handles.push([read_word_le(bytes, 8 * i), read_word_le(bytes, 8 * i + 4)]);
            i = i + 1;
        }
        handles
    }
}

} // verus!
