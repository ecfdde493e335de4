use vstd::prelude::*;

use crate::simulation::rigid_granular_reaction_batch::RigidGranularReactionBatch;
use crate::simulation::rigid_granular_readback_status::RigidGranularReadbackStatus;

verus! {

/// No two batches of a sequence share a dispatch sequence
pub open spec fn distinct_sequences(batches: Seq<RigidGranularReactionBatch>) -> bool {
    forall|i: int, j: int|
        0 <= i < j < batches.len() ==> #[trigger] batches[i].sequence != #[trigger] batches[j].sequence
}

/// The batches of a sequence keyed by their dispatch sequence
pub open spec fn batches_by_sequence(batches: Seq<RigidGranularReactionBatch>) -> Map<u64, RigidGranularReactionBatch> {
    Map::new(
        |k: u64| exists|i: int| 0 <= i < batches.len() && #[trigger] batches[i].sequence == k,
        |k: u64| batches[choose|i: int| 0 <= i < batches.len() && #[trigger] batches[i].sequence == k],
    )
}

/// Whether a slot holds a completed readback error
pub open spec fn is_failed_reaction_readback(status: RigidGranularReadbackStatus) -> bool {
    status matches RigidGranularReadbackStatus::Complete(Err(_))
}

/// The index of the first slot holding a readback error, or the slot count
pub open spec fn first_failed_reaction_readback(slots: Seq<RigidGranularReadbackStatus>) -> nat
    decreases slots.len(),
{
    if slots.len() == 0 {
        0
    } else if is_failed_reaction_readback(slots[0]) {
        0
    } else {
        1 + first_failed_reaction_readback(slots.drop_first())
    }
}

/// The completed batches after taking in one slot: a completed batch replaces
/// any batch already held for its sequence
pub open spec fn receive_batch(
    completed: Map<u64, RigidGranularReactionBatch>,
    status: RigidGranularReadbackStatus,
) -> Map<u64, RigidGranularReactionBatch> {
    match status {
        RigidGranularReadbackStatus::Complete(Ok(batch)) => completed.insert(batch.sequence, batch),
        _ => completed,
    }
}

/// The completed batches after taking in the given slots in order
pub open spec fn receive_batches(
    completed: Map<u64, RigidGranularReactionBatch>,
    slots: Seq<RigidGranularReadbackStatus>,
) -> Map<u64, RigidGranularReactionBatch>
    decreases slots.len(),
{
    if slots.len() == 0 {
        completed
    } else {
        receive_batches(receive_batch(completed, slots[0]), slots.drop_first())
    }
}

/// The slot after collection: a completed slot becomes available, others are untouched
pub open spec fn collected_reaction_status(status: RigidGranularReadbackStatus) -> RigidGranularReadbackStatus {
    match status {
        RigidGranularReadbackStatus::Complete(_) => RigidGranularReadbackStatus::Available,
        _ => status,
    }
}

/// The completed batches computed for the given topology revision
pub open spec fn current_batches(
    completed: Map<u64, RigidGranularReactionBatch>,
    revision: u64,
) -> Map<u64, RigidGranularReactionBatch> {
    completed.restrict(completed.dom().filter(|k: u64| completed[k].topology_revision == revision))
}

/// The sequence `offset` places after `start`, wrapping like the dispatch counter
pub open spec fn sequence_after(start: u64, offset: int) -> u64 {
    ((start + offset) % 0x1_0000_0000_0000_0000) as u64
}

/// `ordered` is the run of batches held for consecutive sequences from `start`,
/// ending just before the first missing sequence
pub open spec fn is_contiguous_run(
    completed: Map<u64, RigidGranularReactionBatch>,
    start: u64,
    ordered: Seq<RigidGranularReactionBatch>,
) -> bool {
    &&& forall|j: int|
        0 <= j < ordered.len() ==> completed.contains_key(#[trigger] sequence_after(start, j))
            && ordered[j] == completed[sequence_after(start, j)]
    &&& !completed.contains_key(sequence_after(start, ordered.len() as int))
}

/// Every batch of `ordered` is the held batch for its place in the run from `start`
pub open spec fn run_prefix_matches(
    completed: Map<u64, RigidGranularReactionBatch>,
    start: u64,
    ordered: Seq<RigidGranularReactionBatch>,
) -> bool {
    forall|j: int|
        0 <= j < ordered.len() ==> (completed.contains_key(#[trigger] sequence_after(start, j))
            && ordered[j] == completed[sequence_after(start, j)])
}

proof fn lemma_run_prefix_push(
    completed: Map<u64, RigidGranularReactionBatch>,
    start: u64,
    ordered: Seq<RigidGranularReactionBatch>,
    batch: RigidGranularReactionBatch,
)
    requires
        run_prefix_matches(completed, start, ordered),
        completed.contains_key(sequence_after(start, ordered.len() as int)),
        completed[sequence_after(start, ordered.len() as int)] == batch,
    ensures
        run_prefix_matches(completed, start, ordered.push(batch)),
{
    let pushed = ordered.push(batch);
    assert forall|j: int| 0 <= j < pushed.len() implies (completed.contains_key(#[trigger] sequence_after(start, j))
        && pushed[j] == completed[sequence_after(start, j)]) by {
        if j < ordered.len() {
            assert(pushed[j] == ordered[j]);
        } else {
            assert(pushed[j] == batch);
        }
    }
}

/// The sequences of the first `count` batches of a run starting at `start`
pub open spec fn run_sequences(start: u64, count: nat) -> Set<u64> {
    Set::new(|k: u64| exists|j: int| 0 <= j < count && k == #[trigger] sequence_after(start, j))
}

/// Deterministic ordering of asynchronously completed rigid/granular reaction
/// batches: completions arrive in any order, are held until every earlier
/// sequence of the current topology has been applied, and are then released
/// as one contiguous run
pub struct RigidReactionReadback {
    completed: Vec<RigidGranularReactionBatch>,
    sequence_next: u64,
    sequence_apply_next: u64,
    topology_revision: u64,
}

/// The outcome of claiming a staging slot for one tick's reactions
pub enum ReactionReadbackClaim {
    /// No rigid body exists, so nothing is copied back
    NoBodies,
    /// Every staging slot is busy; this tick's batch is skipped
    Saturated,
    /// The slot is now mapping and will complete the batch with this sequence
    Claimed { slot: usize, sequence: u64 },
}

proof fn lemma_batches_lookup(batches: Seq<RigidGranularReactionBatch>, i: int)
    requires
        distinct_sequences(batches),
        0 <= i < batches.len(),
    ensures
        batches_by_sequence(batches).contains_key(batches[i].sequence),
        batches_by_sequence(batches)[batches[i].sequence] == batches[i],
{
    let k = batches[i].sequence;
    assert(batches[i].sequence == k);
    let j = choose|j: int| 0 <= j < batches.len() && #[trigger] batches[j].sequence == k;
    if j != i {
        if j < i {
            assert(batches[j].sequence != batches[i].sequence);
        } else {
            assert(batches[i].sequence != batches[j].sequence);
        }
    }
}

proof fn lemma_batches_push(batches: Seq<RigidGranularReactionBatch>, batch: RigidGranularReactionBatch)
    requires
        distinct_sequences(batches),
        !batches_by_sequence(batches).contains_key(batch.sequence),
    ensures
        distinct_sequences(batches.push(batch)),
        batches_by_sequence(batches.push(batch)) == batches_by_sequence(batches).insert(batch.sequence, batch),
{
    let pushed = batches.push(batch);
    assert forall|i: int, j: int| 0 <= i < j < pushed.len() implies #[trigger] pushed[i].sequence != #[trigger] pushed[j].sequence by {
        if j == batches.len() {
            if pushed[i].sequence == batch.sequence {
                assert(batches[i].sequence == batch.sequence);
            }
        } else {
            assert(pushed[i] == batches[i] && pushed[j] == batches[j]);
        }
    }
    {
        assert forall|k: u64| #[trigger] batches_by_sequence(batches).insert(batch.sequence, batch).contains_key(k)
            implies exists|i: int| 0 <= i < pushed.len() && #[trigger] pushed[i].sequence == k by {
            if k == batch.sequence {
                assert(pushed[batches.len() as int].sequence == k);
            } else {
                let i = choose|i: int| 0 <= i < batches.len() && #[trigger] batches[i].sequence == k;
                assert(pushed[i].sequence == k);
            }
        }
        assert forall|i: int| 0 <= i < pushed.len() implies {
            let m = batches_by_sequence(batches).insert(batch.sequence, batch);
            m.contains_key(#[trigger] pushed[i].sequence) && m[pushed[i].sequence] == pushed[i]
        } by {
            if i < batches.len() {
                lemma_batches_lookup(batches, i);
                assert(pushed[i] == batches[i]);
            }
        }
    }
    lemma_batches_extensional(pushed, batches_by_sequence(batches).insert(batch.sequence, batch));
}

/// Two descriptions of the held batches agree when they hold the same sequences
/// with the same batches
proof fn lemma_batches_extensional(batches: Seq<RigidGranularReactionBatch>, expected: Map<u64, RigidGranularReactionBatch>)
    requires
        distinct_sequences(batches),
        forall|k: u64| #[trigger] expected.contains_key(k) ==> exists|i: int| 0 <= i < batches.len() && #[trigger] batches[i].sequence == k,
        forall|i: int| 0 <= i < batches.len() ==> expected.contains_key(#[trigger] batches[i].sequence)
            && expected[batches[i].sequence] == batches[i],
    ensures
        batches_by_sequence(batches) == expected,
{
    let actual = batches_by_sequence(batches);
    assert forall|k: u64| actual.contains_key(k) <==> expected.contains_key(k) by {
        if actual.contains_key(k) {
            let i = choose|i: int| 0 <= i < batches.len() && #[trigger] batches[i].sequence == k;
            assert(expected.contains_key(batches[i].sequence));
        }
        if expected.contains_key(k) {
            let i = choose|i: int| 0 <= i < batches.len() && #[trigger] batches[i].sequence == k;
            assert(actual.contains_key(batches[i].sequence));
        }
    }
    assert forall|k: u64| actual.contains_key(k) implies actual[k] == expected[k] by {
        let i = choose|i: int| 0 <= i < batches.len() && #[trigger] batches[i].sequence == k;
        lemma_batches_lookup(batches, i);
    }
    assert(actual =~= expected);
}

proof fn lemma_batches_replace(batches: Seq<RigidGranularReactionBatch>, i: int, batch: RigidGranularReactionBatch)
    requires
        distinct_sequences(batches),
        0 <= i < batches.len(),
        batches[i].sequence == batch.sequence,
    ensures
        distinct_sequences(batches.update(i, batch)),
        batches_by_sequence(batches.update(i, batch)) == batches_by_sequence(batches).insert(batch.sequence, batch),
{
    let updated = batches.update(i, batch);
    assert forall|a: int, b: int| 0 <= a < b < updated.len() implies #[trigger] updated[a].sequence != #[trigger] updated[b].sequence by {
        assert(updated[a].sequence == batches[a].sequence);
        assert(updated[b].sequence == batches[b].sequence);
    }
    let expected = batches_by_sequence(batches).insert(batch.sequence, batch);
    assert forall|k: u64| #[trigger] expected.contains_key(k)
        implies exists|j: int| 0 <= j < updated.len() && #[trigger] updated[j].sequence == k by {
        if k == batch.sequence {
            assert(updated[i].sequence == k);
        } else {
            let j = choose|j: int| 0 <= j < batches.len() && #[trigger] batches[j].sequence == k;
            assert(updated[j].sequence == k);
        }
    }
    assert forall|j: int| 0 <= j < updated.len() implies expected.contains_key(#[trigger] updated[j].sequence)
        && expected[updated[j].sequence] == updated[j] by {
        if j != i {
            lemma_batches_lookup(batches, j);
            assert(updated[j] == batches[j]);
            assert(batches[j].sequence != batches[i].sequence);
        }
    }
    lemma_batches_extensional(updated, expected);
}

proof fn lemma_batches_remove(batches: Seq<RigidGranularReactionBatch>, i: int)
    requires
        distinct_sequences(batches),
        0 <= i < batches.len(),
    ensures
        distinct_sequences(batches.remove(i)),
        batches_by_sequence(batches.remove(i)) == batches_by_sequence(batches).remove(batches[i].sequence),
{
    let removed = batches.remove(i);
    assert forall|a: int, b: int| 0 <= a < b < removed.len() implies #[trigger] removed[a].sequence != #[trigger] removed[b].sequence by {
        let a0 = if a < i { a } else { a + 1 };
        let b0 = if b < i { b } else { b + 1 };
        assert(removed[a] == batches[a0]);
        assert(removed[b] == batches[b0]);
        assert(batches[a0].sequence != batches[b0].sequence);
    }
    let expected = batches_by_sequence(batches).remove(batches[i].sequence);
    assert forall|k: u64| #[trigger] expected.contains_key(k)
        implies exists|j: int| 0 <= j < removed.len() && #[trigger] removed[j].sequence == k by {
        let j = choose|j: int| 0 <= j < batches.len() && #[trigger] batches[j].sequence == k;
        assert(j != i);
        if j < i {
            assert(removed[j].sequence == k);
        } else {
            assert(removed[j - 1].sequence == k);
        }
    }
    assert forall|j: int| 0 <= j < removed.len() implies expected.contains_key(#[trigger] removed[j].sequence)
        && expected[removed[j].sequence] == removed[j] by {
        let j0 = if j < i { j } else { j + 1 };
        assert(removed[j] == batches[j0]);
        lemma_batches_lookup(batches, j0);
        assert(batches[j0].sequence != batches[i].sequence);
    }
    lemma_batches_extensional(removed, expected);
}

proof fn lemma_receive_snoc(
    completed: Map<u64, RigidGranularReactionBatch>,
    slots: Seq<RigidGranularReadbackStatus>,
    status: RigidGranularReadbackStatus,
)
    ensures
        receive_batches(completed, slots.push(status)) == receive_batch(receive_batches(completed, slots), status),
    decreases slots.len(),
{
    if slots.len() > 0 {
        assert(slots.push(status)[0] == slots[0]);
        assert(slots.push(status).drop_first() =~= slots.drop_first().push(status));
        lemma_receive_snoc(receive_batch(completed, slots[0]), slots.drop_first(), status);
    } else {
        assert(slots.push(status).drop_first() =~= Seq::<RigidGranularReadbackStatus>::empty());
        assert(slots.push(status)[0] == status);
        assert(receive_batches(receive_batch(completed, status), Seq::<RigidGranularReadbackStatus>::empty())
            == receive_batch(completed, status));
    }
}

proof fn lemma_first_failed_reaction_step(slots: Seq<RigidGranularReadbackStatus>, index: int)
    requires
        0 <= index < slots.len(),
        forall|i: int| 0 <= i < index ==> !is_failed_reaction_readback(#[trigger] slots[i]),
    ensures
        is_failed_reaction_readback(slots[index]) ==> first_failed_reaction_readback(slots) == index,
        !is_failed_reaction_readback(slots[index]) ==> first_failed_reaction_readback(slots) > index,
    decreases index,
{
    if index > 0 {
        assert forall|i: int| 0 <= i < index - 1 implies !is_failed_reaction_readback(
            #[trigger] slots.drop_first()[i],
        ) by {
            assert(slots.drop_first()[i] == slots[i + 1]);
        }
        assert(!is_failed_reaction_readback(slots[0]));
        lemma_first_failed_reaction_step(slots.drop_first(), index - 1);
    }
}

proof fn lemma_first_failed_reaction_none(slots: Seq<RigidGranularReadbackStatus>)
    requires
        forall|i: int| 0 <= i < slots.len() ==> !is_failed_reaction_readback(#[trigger] slots[i]),
    ensures
        first_failed_reaction_readback(slots) == slots.len(),
    decreases slots.len(),
{
    if slots.len() > 0 {
        assert forall|i: int| 0 <= i < slots.len() - 1 implies !is_failed_reaction_readback(
            #[trigger] slots.drop_first()[i],
        ) by {
            assert(slots.drop_first()[i] == slots[i + 1]);
        }
        assert(!is_failed_reaction_readback(slots[0]));
        lemma_first_failed_reaction_none(slots.drop_first());
    }
}

/// Distinct offsets below 2^64 name distinct sequences
proof fn lemma_sequence_after_injective(start: u64, a: int, b: int)
    requires
        0 <= a < b < 0x1_0000_0000_0000_0000,
    ensures
        sequence_after(start, a) != sequence_after(start, b),
{
    let m: int = 0x1_0000_0000_0000_0000;
    vstd::arithmetic::div_mod::lemma_fundamental_div_mod(start + a, m);
    vstd::arithmetic::div_mod::lemma_fundamental_div_mod(start + b, m);
    vstd::arithmetic::div_mod::lemma_mod_bound(start + a, m);
    vstd::arithmetic::div_mod::lemma_mod_bound(start + b, m);
    vstd::arithmetic::div_mod::lemma_div_pos_is_pos(start + a, m);
    assert((start + a) / m <= 1) by {
        vstd::arithmetic::div_mod::lemma_div_is_ordered(start + a, 2 * m - 1, m);
        vstd::arithmetic::div_mod::lemma_fundamental_div_mod_converse(2 * m - 1, m, 1, m - 1);
    }
    assert((start + b) / m <= 1) by {
        vstd::arithmetic::div_mod::lemma_div_is_ordered(start + b, 2 * m - 1, m);
        vstd::arithmetic::div_mod::lemma_fundamental_div_mod_converse(2 * m - 1, m, 1, m - 1);
    }
    vstd::arithmetic::div_mod::lemma_div_is_ordered(start + a, start + b, m);
}

/// One step later in the wrapping sequence order
proof fn lemma_sequence_after_next(start: u64, offset: int, current: u64)
    requires
        0 <= offset,
        current == sequence_after(start, offset),
    ensures
        (current + 1) % 0x1_0000_0000_0000_0000 == sequence_after(start, offset + 1) as int,
{
    let m: int = 0x1_0000_0000_0000_0000;
    // (current + 1) % m == (((start + offset) % m) + 1) % m == (start + offset + 1) % m
    vstd::arithmetic::div_mod::lemma_add_mod_noop(start + offset, 1, m);
    vstd::arithmetic::div_mod::lemma_small_mod(1, m as nat);
}

/// The position of the first batch with the given sequence, or the length
fn position_of_sequence(batches: &Vec<RigidGranularReactionBatch>, sequence: u64) -> (index: usize)
    ensures
        0 <= index <= batches@.len(),
        forall|i: int| 0 <= i < index ==> #[trigger] batches@[i].sequence != sequence,
        index < batches@.len() ==> batches@[index as int].sequence == sequence,
{
    let mut index: usize = 0;
    while index < batches.len()
        invariant
            0 <= index <= batches@.len(),
            forall|i: int| 0 <= i < index ==> #[trigger] batches@[i].sequence != sequence,
        decreases batches@.len() - index,
    {
        if batches[index].sequence == sequence {
            return index;
        }
        index = index + 1;
    }
    index
}

impl RigidReactionReadback {
    /// No two held batches share a sequence
    pub closed spec fn wf(&self) -> bool {
        distinct_sequences(self.completed@)
    }

    /// The completed batches held until their turn, keyed by sequence
    pub closed spec fn completed_batches(&self) -> Map<u64, RigidGranularReactionBatch> {
        batches_by_sequence(self.completed@)
    }

    /// The sequence the next claimed readback receives
    pub closed spec fn spec_sequence_next(&self) -> u64 {
        self.sequence_next
    }

    /// The sequence of the next batch to release
    pub closed spec fn spec_sequence_apply_next(&self) -> u64 {
        self.sequence_apply_next
    }

    /// The rigid topology revision whose batches are current
    pub closed spec fn spec_topology_revision(&self) -> u64 {
        self.topology_revision
    }

    /// Creates the ordering state of a new pressure solver: nothing held, both
    /// sequences at zero, and no topology revision seen yet
    pub fn new() -> (readback: Self)
        ensures
            readback.wf(),
            readback.completed_batches() == Map::<u64, RigidGranularReactionBatch>::empty(),
            readback.spec_sequence_next() == 0,
            readback.spec_sequence_apply_next() == 0,
            readback.spec_topology_revision() == u64::MAX,
    {
        let readback = RigidReactionReadback {
            completed: Vec::new(),
            sequence_next: 0,
            sequence_apply_next: 0,
            topology_revision: u64::MAX,
        };
        assert(readback.completed_batches() =~= Map::<u64, RigidGranularReactionBatch>::empty());
        readback
    }

    /// The sequence the next claimed readback receives
    pub fn sequence_next(&self) -> (sequence: u64)
        ensures
            sequence == self.spec_sequence_next(),
    {
        self.sequence_next
    }

    /// The sequence of the next batch to release
    pub fn sequence_apply_next(&self) -> (sequence: u64)
        ensures
            sequence == self.spec_sequence_apply_next(),
    {
        self.sequence_apply_next
    }

    /// The rigid topology revision whose batches are current
    pub fn topology_revision(&self) -> (revision: u64)
        ensures
            revision == self.spec_topology_revision(),
    {
        self.topology_revision
    }

    /// Holds one completed batch, replacing any batch held for its sequence
    fn receive(&mut self, batch: RigidGranularReactionBatch)
        requires
            old(self).wf(),
        ensures
            final(self).wf(),
            final(self).completed_batches() == old(self).completed_batches().insert(batch.sequence, batch),
            final(self).sequence_next == old(self).sequence_next,
            final(self).sequence_apply_next == old(self).sequence_apply_next,
            final(self).topology_revision == old(self).topology_revision,
    {
        let index: usize = position_of_sequence(&self.completed, batch.sequence);
        proof {
            if index < self.completed@.len() {
                lemma_batches_replace(self.completed@, index as int, batch);
            } else {
                if batches_by_sequence(self.completed@).contains_key(batch.sequence) {
                    let i = choose|i: int| 0 <= i < self.completed@.len() && #[trigger] self.completed@[i].sequence == batch.sequence;
                    assert(self.completed@[i].sequence != batch.sequence);
                }
                lemma_batches_push(self.completed@, batch);
            }
        }
        if index < self.completed.len() {
            self.completed.set(index, batch);
        } else {
            self.completed.push(batch);
        }
    }

    /// Drops every held batch computed for another topology revision
    fn retain_topology(&mut self, revision: u64)
        requires
            old(self).wf(),
        ensures
            final(self).wf(),
            final(self).completed_batches() == current_batches(old(self).completed_batches(), revision),
            final(self).sequence_next == old(self).sequence_next,
            final(self).sequence_apply_next == old(self).sequence_apply_next,
            final(self).topology_revision == old(self).topology_revision,
    {
        let ghost initial = self.completed@;
        let ghost target = current_batches(batches_by_sequence(initial), revision);
        let length: usize = self.completed.len();
        let mut held: Vec<RigidGranularReactionBatch> = Vec::new();
        std::mem::swap(&mut held, &mut self.completed);
        let mut kept: Vec<RigidGranularReactionBatch> = Vec::new();
        let mut index: usize = 0;
        while held.len() > 0
            invariant
                distinct_sequences(initial),
                length == initial.len(),
                0 <= index <= initial.len(),
                held@ == initial.subrange(index as int, initial.len() as int),
                distinct_sequences(kept@),
                forall|k: u64| #[trigger] batches_by_sequence(kept@).contains_key(k) <==> (exists|j: int|
                    0 <= j < index && #[trigger] initial[j].sequence == k && initial[j].topology_revision == revision),
                forall|j: int| 0 <= j < kept@.len() ==> batches_by_sequence(initial).contains_key(#[trigger] kept@[j].sequence)
                    && batches_by_sequence(initial)[kept@[j].sequence] == kept@[j],
            decreases held@.len(),
        {
            let batch: RigidGranularReactionBatch = held.remove(0);
            proof {
                assert(batch == initial[index as int]);
                lemma_batches_lookup(initial, index as int);
            }
            if batch.topology_revision == revision {
                proof {
                    if batches_by_sequence(kept@).contains_key(batch.sequence) {
                        let j = choose|j: int| 0 <= j < index && #[trigger] initial[j].sequence == batch.sequence
                            && initial[j].topology_revision == revision;
                        assert(initial[j].sequence != initial[index as int].sequence);
                    }
                    lemma_batches_push(kept@, batch);
                    assert forall|k: u64| #[trigger] batches_by_sequence(kept@.push(batch)).contains_key(k) <==> (exists|j: int|
                        0 <= j < index + 1 && #[trigger] initial[j].sequence == k && initial[j].topology_revision == revision) by {
                        if k == batch.sequence {
                            assert(initial[index as int].sequence == k);
                        }
                        if exists|j: int| 0 <= j < index + 1 && #[trigger] initial[j].sequence == k && initial[j].topology_revision == revision {
                            let j = choose|j: int| 0 <= j < index + 1 && #[trigger] initial[j].sequence == k && initial[j].topology_revision == revision;
                            if j < index {
                                assert(batches_by_sequence(kept@).contains_key(k));
                            }
                        }
                    }
                }
                kept.push(batch);
            } else {
                proof {
                    assert forall|k: u64| #[trigger] batches_by_sequence(kept@).contains_key(k) <==> (exists|j: int|
                        0 <= j < index + 1 && #[trigger] initial[j].sequence == k && initial[j].topology_revision == revision) by {
                        if exists|j: int| 0 <= j < index + 1 && #[trigger] initial[j].sequence == k && initial[j].topology_revision == revision {
                            let j = choose|j: int| 0 <= j < index + 1 && #[trigger] initial[j].sequence == k && initial[j].topology_revision == revision;
                            if j == index {
                                assert(false);
                            }
                        }
                    }
                }
            }
            index = index + 1;
        }
        proof {
            let actual = batches_by_sequence(kept@);
            let full = batches_by_sequence(initial);
            assert forall|k: u64| #[trigger] target.contains_key(k) implies exists|i: int| 0 <= i < kept@.len() && #[trigger] kept@[i].sequence == k by {
                let j = choose|j: int| 0 <= j < initial.len() && #[trigger] initial[j].sequence == k;
                lemma_batches_lookup(initial, j);
                assert(actual.contains_key(k));
            }
            assert forall|i: int| 0 <= i < kept@.len() implies target.contains_key(#[trigger] kept@[i].sequence)
                && target[kept@[i].sequence] == kept@[i] by {
                let k = kept@[i].sequence;
                lemma_batches_lookup(kept@, i);
                assert(actual.contains_key(k));
                let j = choose|j: int| 0 <= j < index && #[trigger] initial[j].sequence == k && initial[j].topology_revision == revision;
                lemma_batches_lookup(initial, j);
            }
            lemma_batches_extensional(kept@, target);
        }
        self.completed = kept;
    }

    /// Releases the held batches for consecutive sequences from the next one to apply
    fn release_contiguous(&mut self) -> (ordered: Vec<RigidGranularReactionBatch>)
        requires
            old(self).wf(),
        ensures
            final(self).wf(),
            is_contiguous_run(old(self).completed_batches(), old(self).sequence_apply_next, ordered@),
            final(self).completed_batches() == old(self).completed_batches().remove_keys(
                run_sequences(old(self).sequence_apply_next, ordered@.len()),
            ),
            final(self).sequence_apply_next == sequence_after(old(self).sequence_apply_next, ordered@.len() as int),
            final(self).sequence_next == old(self).sequence_next,
            final(self).topology_revision == old(self).topology_revision,
    {
        let ghost start = self.sequence_apply_next;
        let ghost retained = self.completed_batches();
        let initial_length: usize = self.completed.len();
        let mut ordered: Vec<RigidGranularReactionBatch> = Vec::new();
        proof {
            assert(sequence_after(start, 0) == start) by {
                vstd::arithmetic::div_mod::lemma_small_mod(start as nat, 0x1_0000_0000_0000_0000nat);
            }
            assert(retained.remove_keys(run_sequences(start, 0)) =~= retained);
        }
        loop
            invariant
                self.wf(),
                ordered@.len() + self.completed@.len() == initial_length,
                initial_length <= usize::MAX,
                self.completed_batches() == retained.remove_keys(run_sequences(start, ordered@.len())),
                self.sequence_apply_next == sequence_after(start, ordered@.len() as int),
                run_prefix_matches(retained, start, ordered@),
                self.sequence_next == old(self).sequence_next,
                self.topology_revision == old(self).topology_revision,
                start == old(self).sequence_apply_next,
                retained == old(self).completed_batches(),
            ensures
                self.wf(),
                self.completed_batches() == retained.remove_keys(run_sequences(start, ordered@.len())),
                self.sequence_apply_next == sequence_after(start, ordered@.len() as int),
                is_contiguous_run(retained, start, ordered@),
                self.sequence_next == old(self).sequence_next,
                self.topology_revision == old(self).topology_revision,
            decreases self.completed@.len(),
        {
            let index: usize = position_of_sequence(&self.completed, self.sequence_apply_next);
            if index == self.completed.len() {
                proof {
                    let n = ordered@.len() as int;
                    let key = sequence_after(start, n);
                    if self.completed_batches().contains_key(key) {
                        let i = choose|i: int| 0 <= i < self.completed@.len() && #[trigger] self.completed@[i].sequence == key;
                        assert(self.completed@[i].sequence != self.sequence_apply_next);
                    }
                    if retained.contains_key(key) {
                        assert(run_sequences(start, n as nat).contains(key));
                        let j = choose|j: int| 0 <= j < n && key == #[trigger] sequence_after(start, j);
                        lemma_sequence_after_injective(start, j, n);
                    }
                    assert(!retained.contains_key(key));
                }
                break;
            }
            let ghost before = self.completed@;
            let ghost n = ordered@.len() as int;
            proof {
                lemma_batches_lookup(before, index as int);
                lemma_batches_remove(before, index as int);
            }
            let batch: RigidGranularReactionBatch = self.completed.remove(index);
            proof {
                lemma_sequence_after_next(start, n, self.sequence_apply_next);
                assert(!run_sequences(start, n as nat).contains(sequence_after(start, n))) by {
                    if run_sequences(start, n as nat).contains(sequence_after(start, n)) {
                        let j = choose|j: int| 0 <= j < n && sequence_after(start, n) == #[trigger] sequence_after(start, j);
                        lemma_sequence_after_injective(start, j, n);
                    }
                }
                assert(run_sequences(start, (n + 1) as nat) =~= run_sequences(start, n as nat).insert(sequence_after(start, n))) by {
                    assert forall|k: u64| #[trigger] run_sequences(start, (n + 1) as nat).contains(k) implies
                        run_sequences(start, n as nat).insert(sequence_after(start, n)).contains(k) by {
                        let j = choose|j: int| 0 <= j < n + 1 && k == #[trigger] sequence_after(start, j);
                        if j < n {
                            assert(run_sequences(start, n as nat).contains(k));
                        }
                    }
                    assert forall|k: u64| #[trigger] run_sequences(start, n as nat).insert(sequence_after(start, n)).contains(k) implies
                        run_sequences(start, (n + 1) as nat).contains(k) by {
                        if k != sequence_after(start, n) {
                            let j = choose|j: int| 0 <= j < n && k == #[trigger] sequence_after(start, j);
                            assert(0 <= j < n + 1 && k == sequence_after(start, j));
                        } else {
                            assert(0 <= n < n + 1 && k == sequence_after(start, n));
                        }
                    }
                }
                let key = sequence_after(start, n);
                assert(batches_by_sequence(before).contains_key(key));
                assert(batches_by_sequence(before)[key] == batch);
                assert(retained.contains_key(key) && retained[key] == batch);
                assert(retained.remove_keys(run_sequences(start, (n + 1) as nat)) =~= retained.remove_keys(
                    run_sequences(start, n as nat),
                ).remove(sequence_after(start, n)));
            }
            let ghost previous_ordered = ordered@;
            ordered.push(batch);
            proof {
                lemma_run_prefix_push(retained, start, previous_ordered, batch);
                assert(ordered@ == previous_ordered.push(batch));
            }
            self.sequence_apply_next = self.sequence_apply_next.wrapping_add(1);
        }
        ordered
    }

    /// Forgets every held batch after the reaction storage is reallocated: the next
    /// batch to apply is the next one to be dispatched, and no topology revision
    /// is current until the next tick names one
    pub fn reset_for_new_capacity(&mut self)
        ensures
            final(self).wf(),
            final(self).completed_batches() == Map::<u64, RigidGranularReactionBatch>::empty(),
            final(self).spec_sequence_apply_next() == old(self).spec_sequence_next(),
            final(self).spec_sequence_next() == old(self).spec_sequence_next(),
            final(self).spec_topology_revision() == u64::MAX,
    {
        self.completed.clear();
        self.sequence_apply_next = self.sequence_next;
        self.topology_revision = u64::MAX;
        assert(self.completed_batches() =~= Map::<u64, RigidGranularReactionBatch>::empty());
    }

    /// Adopts the rigid topology revision of the current tick. When it differs
    /// from the current one, batches of other revisions are dropped, the next
    /// batch to apply becomes the next one to be dispatched, and `true` is
    /// returned so the accumulated reactions are cleared.
    pub fn synchronize_topology(&mut self, revision: u64) -> (changed: bool)
        requires
            old(self).wf(),
        ensures
            final(self).wf(),
            changed == (revision != old(self).spec_topology_revision()),
            final(self).spec_topology_revision() == revision,
            final(self).spec_sequence_next() == old(self).spec_sequence_next(),
            changed ==> final(self).completed_batches() == current_batches(old(self).completed_batches(), revision)
                && final(self).spec_sequence_apply_next() == old(self).spec_sequence_next(),
            !changed ==> final(self).completed_batches() == old(self).completed_batches()
                && final(self).spec_sequence_apply_next() == old(self).spec_sequence_apply_next(),
    {
        if self.topology_revision == revision {
            return false;
        }
        self.retain_topology(revision);
        self.sequence_apply_next = self.sequence_next;
        self.topology_revision = revision;
        true
    }

    /// Claims the first available staging slot for this tick's reactions and
    /// assigns it the next sequence, unless there is no rigid body or every
    /// slot is busy
    pub fn claim_readback(&mut self, slots: &mut Vec<RigidGranularReadbackStatus>, rigid_body_count: u32) -> (claim: ReactionReadbackClaim)
        requires
            old(self).wf(),
        ensures
            final(self).wf(),
            final(self).completed_batches() == old(self).completed_batches(),
            final(self).spec_sequence_apply_next() == old(self).spec_sequence_apply_next(),
            final(self).spec_topology_revision() == old(self).spec_topology_revision(),
            final(slots)@.len() == old(slots)@.len(),
            match claim {
                ReactionReadbackClaim::NoBodies => rigid_body_count == 0 && final(slots)@ == old(slots)@
                    && final(self).spec_sequence_next() == old(self).spec_sequence_next(),
                ReactionReadbackClaim::Saturated => {
                    &&& rigid_body_count != 0
                    &&& forall|i: int| 0 <= i < old(slots)@.len() ==> !(#[trigger] old(slots)@[i] is Available)
                    &&& final(slots)@ == old(slots)@
                    &&& final(self).spec_sequence_next() == old(self).spec_sequence_next()
                },
                ReactionReadbackClaim::Claimed { slot, sequence } => {
                    &&& rigid_body_count != 0
                    &&& slot < old(slots)@.len()
                    &&& old(slots)@[slot as int] is Available
                    &&& forall|i: int| 0 <= i < slot ==> !(#[trigger] old(slots)@[i] is Available)
                    &&& final(slots)@ == old(slots)@.update(slot as int, RigidGranularReadbackStatus::Mapping)
                    &&& sequence == old(self).spec_sequence_next()
                    &&& final(self).spec_sequence_next() == sequence_after(old(self).spec_sequence_next(), 1)
                },
            },
    {
        if rigid_body_count == 0 {
            return ReactionReadbackClaim::NoBodies;
        }
        let mut index: usize = 0;
        while index < slots.len()
            invariant
                0 <= index <= slots@.len(),
                forall|i: int| 0 <= i < index ==> !(#[trigger] slots@[i] is Available),
            ensures
                0 <= index <= slots@.len(),
                forall|i: int| 0 <= i < index ==> !(#[trigger] slots@[i] is Available),
                index < slots@.len() ==> slots@[index as int] is Available,
            decreases slots@.len() - index,
        {
            if let RigidGranularReadbackStatus::Available = slots[index] {
                break;
            }
            index = index + 1;
        }
        if index == slots.len() {
            return ReactionReadbackClaim::Saturated;
        }
        slots.set(index, RigidGranularReadbackStatus::Mapping);
        let sequence: u64 = self.sequence_next;
        self.sequence_next = self.sequence_next.wrapping_add(1);
        ReactionReadbackClaim::Claimed { slot: index, sequence }
    }

    /// Collects completed mappings and returns every now-contiguous ordered batch.
    /// Slots are visited in order; the first slot holding an error stops the
    /// collection, is made available again, and its error is returned with the
    /// batches received so far held and nothing released. Otherwise batches of
    /// other topology revisions are dropped and the run of consecutive sequences
    /// from the next one to apply is released in order.
    pub fn collect(&mut self, slots: &mut Vec<RigidGranularReadbackStatus>) -> (result: Result<Vec<RigidGranularReactionBatch>, String>)
        requires
            old(self).wf(),
        ensures
            final(self).wf(),
            final(slots)@.len() == old(slots)@.len(),
            final(self).spec_sequence_next() == old(self).spec_sequence_next(),
            final(self).spec_topology_revision() == old(self).spec_topology_revision(),
            ({
                let failed = first_failed_reaction_readback(old(slots)@);
                &&& forall|i: int|
                    0 <= i < old(slots)@.len() ==> #[trigger] final(slots)@[i] == if i <= failed {
                        collected_reaction_status(old(slots)@[i])
                    } else {
                        old(slots)@[i]
                    }
                &&& match result {
                    Err(message) => {
                        &&& failed < old(slots)@.len()
                        &&& old(slots)@[failed as int] == RigidGranularReadbackStatus::Complete(Err(message))
                        &&& final(self).completed_batches() == receive_batches(
                            old(self).completed_batches(),
                            old(slots)@.take(failed as int),
                        )
                        &&& final(self).spec_sequence_apply_next() == old(self).spec_sequence_apply_next()
                    },
                    Ok(ordered) => {
                        let retained = current_batches(
                            receive_batches(old(self).completed_batches(), old(slots)@),
                            old(self).spec_topology_revision(),
                        );
                        &&& failed == old(slots)@.len()
                        &&& is_contiguous_run(retained, old(self).spec_sequence_apply_next(), ordered@)
                        &&& final(self).completed_batches() == retained.remove_keys(
                            run_sequences(old(self).spec_sequence_apply_next(), ordered@.len()),
                        )
                        &&& final(self).spec_sequence_apply_next() == sequence_after(
                            old(self).spec_sequence_apply_next(),
                            ordered@.len() as int,
                        )
                    },
                }
            }),
    {
        let ghost initial = slots@;
        let ghost start = self.completed_batches();
        let mut index: usize = 0;
        while index < slots.len()
            invariant
                initial == old(slots)@,
                start == old(self).completed_batches(),
                self.wf(),
                0 <= index <= initial.len(),
                slots@.len() == initial.len(),
                forall|i: int| 0 <= i < index ==> !is_failed_reaction_readback(#[trigger] initial[i]),
                forall|i: int|
                    0 <= i < initial.len() ==> #[trigger] slots@[i] == if i < index {
                        collected_reaction_status(initial[i])
                    } else {
                        initial[i]
                    },
                self.completed_batches() == receive_batches(start, initial.take(index as int)),
                self.sequence_next == old(self).sequence_next,
                self.sequence_apply_next == old(self).sequence_apply_next,
                self.topology_revision == old(self).topology_revision,
            decreases initial.len() - index,
        {
            let ghost before = slots@;
            let status: RigidGranularReadbackStatus = slots.remove(index);
            slots.insert(index, RigidGranularReadbackStatus::Available);
            assert(slots@ =~= before.update(index as int, RigidGranularReadbackStatus::Available));
            proof {
                lemma_first_failed_reaction_step(initial, index as int);
                lemma_receive_snoc(start, initial.take(index as int), initial[index as int]);
                assert(initial.take(index as int + 1) =~= initial.take(index as int).push(
                    initial[index as int],
                ));
            }
            match status {
                RigidGranularReadbackStatus::Complete(Err(message)) => {
                    return Err(message);
                },
                RigidGranularReadbackStatus::Complete(Ok(batch)) => {
                    self.receive(batch);
                },
                other => {
                    slots.set(index, other);
                },
            }
            index = index + 1;
        }
        proof {
            lemma_first_failed_reaction_none(initial);
            assert(initial.take(initial.len() as int) =~= initial);
        }
        let revision: u64 = self.topology_revision;
        self.retain_topology(revision);
        Ok(self.release_contiguous())
    }
}

/// Every held batch is held under its own sequence
pub open spec fn keyed_by_sequence(completed: Map<u64, RigidGranularReactionBatch>) -> bool {
    forall|k: u64| #[trigger] completed.contains_key(k) ==> completed[k].sequence == k
}

/// Batches indexed by their sequences are held under their own sequences
proof fn lemma_batches_by_sequence_keyed(batches: Seq<RigidGranularReactionBatch>)
    ensures
        keyed_by_sequence(batches_by_sequence(batches)),
{
    let m = batches_by_sequence(batches);
    assert forall|k: u64| #[trigger] m.contains_key(k) implies m[k].sequence == k by {
        let i = choose|i: int| 0 <= i < batches.len() && #[trigger] batches[i].sequence == k;
    }
}

/// Taking in completed slots keeps every batch under its own sequence
proof fn lemma_receive_keeps_keyed(completed: Map<u64, RigidGranularReactionBatch>, slots: Seq<RigidGranularReadbackStatus>)
    requires
        keyed_by_sequence(completed),
    ensures
        keyed_by_sequence(receive_batches(completed, slots)),
    decreases slots.len(),
{
    if slots.len() > 0 {
        let next = receive_batch(completed, slots[0]);
        assert(keyed_by_sequence(next));
        lemma_receive_keeps_keyed(next, slots.drop_first());
    }
}

/// Offsets after a start add up: `a` then `b` places after `start` is `a + b` places
proof fn lemma_sequence_after_add(start: u64, a: int, b: int)
    requires
        0 <= a,
        0 <= b,
    ensures
        sequence_after(sequence_after(start, a), b) == sequence_after(start, a + b),
{
    let m: int = 0x1_0000_0000_0000_0000;
    vstd::arithmetic::div_mod::lemma_add_mod_noop(start + a, b, m);
    vstd::arithmetic::div_mod::lemma_mod_twice(b, m);
    vstd::arithmetic::div_mod::lemma_add_mod_noop((start + a) % m, b, m);
    vstd::arithmetic::div_mod::lemma_mod_bound(start + a, m);
}

/// Whether the batches of `delivered` carry the consecutive sequences from `start`,
/// all for topology revision `revision`
pub open spec fn delivered_in_order(delivered: Seq<RigidGranularReactionBatch>, start: u64, revision: u64) -> bool {
    forall|j: int| 0 <= j < delivered.len() ==> (#[trigger] delivered[j]).sequence == sequence_after(start, j)
        && delivered[j].topology_revision == revision
}

/// What one successful collection releases is in order: the run it releases from
/// the held batches of the current revision carries the consecutive sequences from
/// the next one to apply, all of that revision
pub proof fn lemma_collected_run_in_order(
    readback: RigidReactionReadback,
    slots: Seq<RigidGranularReadbackStatus>,
    ordered: Seq<RigidGranularReactionBatch>,
)
    requires
        is_contiguous_run(
            current_batches(receive_batches(readback.completed_batches(), slots), readback.spec_topology_revision()),
            readback.spec_sequence_apply_next(),
            ordered,
        ),
    ensures
        delivered_in_order(ordered, readback.spec_sequence_apply_next(), readback.spec_topology_revision()),
{
    let held = receive_batches(readback.completed_batches(), slots);
    let revision = readback.spec_topology_revision();
    lemma_batches_by_sequence_keyed(readback.completed@);
    lemma_receive_keeps_keyed(readback.completed_batches(), slots);
    let retained = current_batches(held, revision);
    assert forall|j: int| 0 <= j < ordered.len() implies (#[trigger] ordered[j]).sequence == sequence_after(
        readback.spec_sequence_apply_next(),
        j,
    ) && ordered[j].topology_revision == revision by {
        let k = sequence_after(readback.spec_sequence_apply_next(), j);
        assert(retained.contains_key(k));
        assert(held.contains_key(k));
        assert(ordered[j] == retained[k]);
    }
}

/// Deliveries continue each other: a run delivered in order from `start`, followed
/// by a run delivered in order from where it ended, is one run delivered in order
/// from `start`. Together with the collection contract (the next sequence to apply
/// moves past the released run) and the tick contract (it moves only when the
/// topology changes or the capacity grows), the batches of successive collections
/// under one topology and capacity carry consecutive sequences, none lost,
/// repeated or reordered.
pub proof fn lemma_deliveries_continue(
    first: Seq<RigidGranularReactionBatch>,
    second: Seq<RigidGranularReactionBatch>,
    start: u64,
    revision: u64,
)
    requires
        delivered_in_order(first, start, revision),
        delivered_in_order(second, sequence_after(start, first.len() as int), revision),
    ensures
        delivered_in_order(first + second, start, revision),
{
    let both = first + second;
    assert forall|j: int| 0 <= j < both.len() implies (#[trigger] both[j]).sequence == sequence_after(start, j)
        && both[j].topology_revision == revision by {
        if j < first.len() {
            assert(both[j] == first[j]);
        } else {
            let i = j - first.len();
            assert(both[j] == second[i]);
            lemma_sequence_after_add(start, first.len() as int, i);
        }
    }
}

/// The number of available slots
pub open spec fn available_slots(slots: Seq<RigidGranularReadbackStatus>) -> nat
    decreases slots.len(),
{
    if slots.len() == 0 {
        0
    } else {
        available_slots(slots.drop_last()) + if slots.last() is Available { 1nat } else { 0nat }
    }
}

/// Turning one available slot into a mapping one leaves one fewer available slot
proof fn lemma_claim_takes_one_slot(slots: Seq<RigidGranularReadbackStatus>, slot: int)
    requires
        0 <= slot < slots.len(),
        slots[slot] is Available,
    ensures
        available_slots(slots.update(slot, RigidGranularReadbackStatus::Mapping)) + 1 == available_slots(slots),
        available_slots(slots) <= slots.len(),
    decreases slots.len(),
{
    let updated = slots.update(slot, RigidGranularReadbackStatus::Mapping);
    if slot == slots.len() - 1 {
        assert(updated.drop_last() =~= slots.drop_last());
        lemma_available_bounded(slots.drop_last());
    } else {
        assert(updated.drop_last() =~= slots.drop_last().update(slot, RigidGranularReadbackStatus::Mapping));
        lemma_claim_takes_one_slot(slots.drop_last(), slot);
    }
}

/// No more slots are available than there are slots
proof fn lemma_available_bounded(slots: Seq<RigidGranularReadbackStatus>)
    ensures
        available_slots(slots) <= slots.len(),
    decreases slots.len(),
{
    if slots.len() > 0 {
        lemma_available_bounded(slots.drop_last());
    }
}

/// One tick's effect on the staging slots: a claim turns one available slot into a
/// mapping one, and a tick without a claim leaves the slots as they were
pub open spec fn claim_step(
    before: Seq<RigidGranularReadbackStatus>,
    after: Seq<RigidGranularReadbackStatus>,
    claimed: bool,
) -> bool {
    if claimed {
        exists|slot: int| 0 <= slot < before.len() && before[slot] is Available
            && after == #[trigger] before.update(slot, RigidGranularReadbackStatus::Mapping)
    } else {
        after == before
    }
}

/// The number of ticks of `claims` that claimed a slot
pub open spec fn claim_count(claims: Seq<bool>) -> nat
    decreases claims.len(),
{
    if claims.len() == 0 {
        0
    } else {
        claim_count(claims.drop_last()) + if claims.last() { 1nat } else { 0nat }
    }
}

/// Readbacks in flight are bounded by the staging slots: over any run of ticks in
/// which no readback completes, each claim uses up one available slot, so no more
/// ticks claim a readback than there were available slots (three, for the slots a
/// capacity allocates), and every later tick finds the slots saturated
pub proof fn lemma_claims_bounded_by_slots(states: Seq<Seq<RigidGranularReadbackStatus>>, claims: Seq<bool>)
    requires
        states.len() == claims.len() + 1,
        forall|i: int| 0 <= i < claims.len() ==> claim_step(states[i], #[trigger] states[i + 1], claims[i]),
    ensures
        claim_count(claims) + available_slots(states.last()) == available_slots(states[0]),
        claim_count(claims) <= available_slots(states[0]) <= states[0].len(),
    decreases claims.len(),
{
    lemma_available_bounded(states[0]);
    if claims.len() > 0 {
        let n = claims.len() - 1;
        assert(claim_step(states[n], states[n + 1], claims[n]));
        lemma_claims_bounded_by_slots(states.drop_last(), claims.drop_last());
        assert(states.drop_last().last() == states[n]);
        if claims[n] {
            let slot = choose|slot: int| 0 <= slot < states[n].len() && states[n][slot] is Available
                && states[n + 1] == #[trigger] states[n].update(slot, RigidGranularReadbackStatus::Mapping);
            lemma_claim_takes_one_slot(states[n], slot);
        }
    }
}

} // verus!
