//! Shared deterministic reaction arbitration. Accelerator discovery emits
//! candidates in any order; arbitration fixes one order and lets every
//! accepted candidate reserve its inventory authorities all-or-nothing.

use vstd::prelude::*;

verus! {

/// A claim key encodes one authoritative inventory location, rather than a
/// derived raster location. The producer is responsible for including rigid
/// state generation in its key.
pub struct ReactionCandidate<E> {
    pub anchor: u32,
    pub reaction_index: u32,
    pub priority: i32,
    pub authoring_order: u32,
    /// The reaction extent carried with the candidate; arbitration never reads it
    pub extent: E,
    pub authorities: [Option<u64>; 2],
}

/// Whether the candidate at input position `i` is arbitrated before the one at
/// position `j`: higher priority first, then lower authoring order, lower
/// anchor, lower reaction index, and finally earlier input position
pub open spec fn arbitrated_before<E>(a: ReactionCandidate<E>, i: int, b: ReactionCandidate<E>, j: int) -> bool {
    if a.priority != b.priority {
        a.priority > b.priority
    } else if a.authoring_order != b.authoring_order {
        a.authoring_order < b.authoring_order
    } else if a.anchor != b.anchor {
        a.anchor < b.anchor
    } else if a.reaction_index != b.reaction_index {
        a.reaction_index < b.reaction_index
    } else {
        i < j
    }
}

/// Whether a candidate reserves the authority `key`
pub open spec fn reserves<E>(candidate: ReactionCandidate<E>, key: u64) -> bool {
    candidate.authorities[0] == Some(key) || candidate.authorities[1] == Some(key)
}

/// Whether two candidates reserve a common authority
pub open spec fn shares_authority<E>(a: ReactionCandidate<E>, b: ReactionCandidate<E>) -> bool {
    exists|key: u64| reserves(a, key) && #[trigger] reserves(b, key)
}

/// The positions `chosen` (into `candidates`) are the accepted candidates in
/// arbitration order: a candidate is accepted exactly when no accepted
/// candidate arbitrated before it reserves one of its authorities
pub open spec fn is_arbitration<E>(candidates: Seq<ReactionCandidate<E>>, chosen: Seq<int>) -> bool {
    &&& forall|k: int| 0 <= k < chosen.len() ==> 0 <= #[trigger] chosen[k] < candidates.len()
    &&& forall|k: int, l: int| 0 <= k < l < chosen.len() ==> arbitrated_before(
        candidates[#[trigger] chosen[k]],
        chosen[k],
        candidates[#[trigger] chosen[l]],
        chosen[l],
    )
    &&& forall|i: int| 0 <= i < candidates.len() ==> (#[trigger] chosen.contains(i) <==> !exists|k: int|
        0 <= k < chosen.len() && arbitrated_before(candidates[chosen[k]], chosen[k], candidates[i], i)
            && #[trigger] shares_authority(candidates[chosen[k]], candidates[i]))
}

proof fn lemma_arbitrated_order<E>(a: ReactionCandidate<E>, i: int, b: ReactionCandidate<E>, j: int, c: ReactionCandidate<E>, k: int)
    ensures
        !arbitrated_before(a, i, a, i),
        i != j ==> (arbitrated_before(a, i, b, j) || arbitrated_before(b, j, a, i)),
        !(arbitrated_before(a, i, b, j) && arbitrated_before(b, j, a, i)),
        arbitrated_before(a, i, b, j) && arbitrated_before(b, j, c, k) ==> arbitrated_before(a, i, c, k),
{
}

/// Accepted candidates are atomic: no two of them reserve a common authority
pub proof fn lemma_accepted_reservations_disjoint<E>(candidates: Seq<ReactionCandidate<E>>, chosen: Seq<int>)
    requires
        is_arbitration(candidates, chosen),
    ensures
        forall|k: int, l: int|
            0 <= k < chosen.len() && 0 <= l < chosen.len() && k != l ==> !shares_authority(
                candidates[#[trigger] chosen[k]],
                candidates[#[trigger] chosen[l]],
            ),
{
    assert forall|k: int, l: int|
        0 <= k < chosen.len() && 0 <= l < chosen.len() && k != l implies !shares_authority(
        candidates[#[trigger] chosen[k]],
        candidates[#[trigger] chosen[l]],
    ) by {
        let (first, second) = if k < l { (k, l) } else { (l, k) };
        assert(chosen.contains(chosen[second]));
        assert(arbitrated_before(candidates[chosen[first]], chosen[first], candidates[chosen[second]], chosen[second]));
        if shares_authority(candidates[chosen[k]], candidates[chosen[l]]) {
            let key = choose|key: u64| reserves(candidates[chosen[k]], key) && #[trigger] reserves(candidates[chosen[l]], key);
            assert(shares_authority(candidates[chosen[first]], candidates[chosen[second]]));
        }
    }
}

/// The number of positions below `m` whose candidates are arbitrated before position `i`
spec fn count_before<E>(candidates: Seq<ReactionCandidate<E>>, i: int, m: nat) -> nat
    decreases m,
{
    if m == 0 {
        0
    } else {
        count_before(candidates, i, (m - 1) as nat) + if arbitrated_before(
            candidates[m - 1],
            m - 1,
            candidates[i],
            i,
        ) {
            1nat
        } else {
            0nat
        }
    }
}

/// A position arbitrated before another has fewer positions arbitrated before it
proof fn lemma_count_before_decreases<E>(candidates: Seq<ReactionCandidate<E>>, j: int, i: int, m: nat)
    requires
        arbitrated_before(candidates[j], j, candidates[i], i),
    ensures
        count_before(candidates, j, m) <= count_before(candidates, i, m),
        0 <= j < m ==> count_before(candidates, j, m) < count_before(candidates, i, m),
    decreases m,
{
    if m > 0 {
        let p = m - 1;
        lemma_count_before_decreases(candidates, j, i, (m - 1) as nat);
        lemma_arbitrated_order(candidates[p], p, candidates[j], j, candidates[i], i);
        lemma_arbitrated_order(candidates[j], j, candidates[j], j, candidates[j], j);
    }
}

/// Two arbitrations of one candidate list accept the same positions
proof fn lemma_arbitrations_agree<E>(candidates: Seq<ReactionCandidate<E>>, x: Seq<int>, y: Seq<int>, i: int)
    requires
        is_arbitration(candidates, x),
        is_arbitration(candidates, y),
        0 <= i < candidates.len(),
    ensures
        x.contains(i) <==> y.contains(i),
    decreases count_before(candidates, i, candidates.len()),
{
    let blocked_x = exists|k: int|
        0 <= k < x.len() && arbitrated_before(candidates[x[k]], x[k], candidates[i], i)
            && #[trigger] shares_authority(candidates[x[k]], candidates[i]);
    let blocked_y = exists|k: int|
        0 <= k < y.len() && arbitrated_before(candidates[y[k]], y[k], candidates[i], i)
            && #[trigger] shares_authority(candidates[y[k]], candidates[i]);
    assert(x.contains(i) <==> !blocked_x);
    assert(y.contains(i) <==> !blocked_y);
    if blocked_x {
        let k = choose|k: int|
            0 <= k < x.len() && arbitrated_before(candidates[x[k]], x[k], candidates[i], i)
                && #[trigger] shares_authority(candidates[x[k]], candidates[i]);
        let j = x[k];
        lemma_count_before_decreases(candidates, j, i, candidates.len());
        assert(x.contains(j));
        lemma_arbitrations_agree(candidates, x, y, j);
        let l = choose|l: int| 0 <= l < y.len() && y[l] == j;
        assert(shares_authority(candidates[y[l]], candidates[i]));
    }
    if blocked_y {
        let k = choose|k: int|
            0 <= k < y.len() && arbitrated_before(candidates[y[k]], y[k], candidates[i], i)
                && #[trigger] shares_authority(candidates[y[k]], candidates[i]);
        let j = y[k];
        lemma_count_before_decreases(candidates, j, i, candidates.len());
        assert(y.contains(j));
        lemma_arbitrations_agree(candidates, x, y, j);
        let l = choose|l: int| 0 <= l < x.len() && x[l] == j;
        assert(shares_authority(candidates[x[l]], candidates[i]));
    }
}

/// Two sequences of positions, each strictly in arbitration order, that hold the
/// same positions are equal
proof fn lemma_ordered_positions_equal<E>(candidates: Seq<ReactionCandidate<E>>, x: Seq<int>, y: Seq<int>)
    requires
        forall|k: int, l: int| 0 <= k < l < x.len() ==> arbitrated_before(
            candidates[#[trigger] x[k]],
            x[k],
            candidates[#[trigger] x[l]],
            x[l],
        ),
        forall|k: int, l: int| 0 <= k < l < y.len() ==> arbitrated_before(
            candidates[#[trigger] y[k]],
            y[k],
            candidates[#[trigger] y[l]],
            y[l],
        ),
        forall|i: int| #![trigger x.contains(i)] #![trigger y.contains(i)] x.contains(i) <==> y.contains(i),
    ensures
        x == y,
    decreases x.len(),
{
    if x.len() == 0 {
        if y.len() > 0 {
            assert(y.contains(y[0]));
        }
        assert(x =~= y);
    } else {
        assert(x.contains(x[0]));
        assert(y.len() > 0);
        assert(y.contains(y[0]));
        let l = choose|l: int| 0 <= l < y.len() && y[l] == x[0];
        let k = choose|k: int| 0 <= k < x.len() && x[k] == y[0];
        if l > 0 && k > 0 {
            assert(arbitrated_before(candidates[y[0]], y[0], candidates[y[l]], y[l]));
            assert(arbitrated_before(candidates[x[0]], x[0], candidates[x[k]], x[k]));
            lemma_arbitrated_order(candidates[x[0]], x[0], candidates[y[0]], y[0], candidates[x[0]], x[0]);
            assert(false);
        }
        assert(x[0] == y[0]);
        let xs = x.drop_first();
        let ys = y.drop_first();
        assert forall|i: int| #![trigger xs.contains(i)] #![trigger ys.contains(i)] xs.contains(i) <==> ys.contains(i) by {
            if xs.contains(i) {
                let a = choose|a: int| 0 <= a < xs.len() && xs[a] == i;
                assert(x[a + 1] == i);
                assert(x.contains(i));
                assert(arbitrated_before(candidates[x[0]], x[0], candidates[x[a + 1]], x[a + 1]));
                lemma_arbitrated_order(candidates[i], i, candidates[i], i, candidates[i], i);
                let b = choose|b: int| 0 <= b < y.len() && y[b] == i;
                assert(b != 0);
                assert(ys[b - 1] == i);
            }
            if ys.contains(i) {
                let a = choose|a: int| 0 <= a < ys.len() && ys[a] == i;
                assert(y[a + 1] == i);
                assert(y.contains(i));
                assert(arbitrated_before(candidates[y[0]], y[0], candidates[y[a + 1]], y[a + 1]));
                lemma_arbitrated_order(candidates[i], i, candidates[i], i, candidates[i], i);
                let b = choose|b: int| 0 <= b < x.len() && x[b] == i;
                assert(b != 0);
                assert(xs[b - 1] == i);
            }
        }
        assert forall|a: int, b: int| 0 <= a < b < xs.len() implies arbitrated_before(
            candidates[#[trigger] xs[a]],
            xs[a],
            candidates[#[trigger] xs[b]],
            xs[b],
        ) by {
            assert(xs[a] == x[a + 1] && xs[b] == x[b + 1]);
        }
        assert forall|a: int, b: int| 0 <= a < b < ys.len() implies arbitrated_before(
            candidates[#[trigger] ys[a]],
            ys[a],
            candidates[#[trigger] ys[b]],
            ys[b],
        ) by {
            assert(ys[a] == y[a + 1] && ys[b] == y[b + 1]);
        }
        lemma_ordered_positions_equal(candidates, xs, ys);
        assert(x =~= seq![x[0]] + xs);
        assert(y =~= seq![y[0]] + ys);
    }
}

/// Arbitration is deterministic: a candidate list admits exactly one arbitration
pub proof fn lemma_arbitration_unique<E>(candidates: Seq<ReactionCandidate<E>>, x: Seq<int>, y: Seq<int>)
    requires
        is_arbitration(candidates, x),
        is_arbitration(candidates, y),
    ensures
        x == y,
{
    assert forall|i: int| #![trigger x.contains(i)] #![trigger y.contains(i)] x.contains(i) <==> y.contains(i) by {
        if x.contains(i) {
            let k = choose|k: int| 0 <= k < x.len() && x[k] == i;
            lemma_arbitrations_agree(candidates, x, y, i);
        }
        if y.contains(i) {
            let k = choose|k: int| 0 <= k < y.len() && y[k] == i;
            lemma_arbitrations_agree(candidates, x, y, i);
        }
    }
    lemma_ordered_positions_equal(candidates, x, y);
}

/// Whether two candidates tie on every arbitration key: priority, authoring
/// order, anchor and reaction index
pub open spec fn ties<E>(a: ReactionCandidate<E>, b: ReactionCandidate<E>) -> bool {
    &&& a.priority == b.priority
    &&& a.authoring_order == b.authoring_order
    &&& a.anchor == b.anchor
    &&& a.reaction_index == b.reaction_index
}

/// `reordered` holds the candidates of `candidates` in another order: its position
/// `i` holds the candidate at position `order[i]`, and `order` is a bijection
pub open spec fn is_reordering<E>(
    candidates: Seq<ReactionCandidate<E>>,
    reordered: Seq<ReactionCandidate<E>>,
    order: Seq<int>,
) -> bool {
    &&& reordered.len() == candidates.len()
    &&& order.len() == candidates.len()
    &&& forall|i: int| 0 <= i < order.len() ==> 0 <= #[trigger] order[i] < candidates.len()
        && reordered[i] == candidates[order[i]]
    &&& forall|i: int, j: int| 0 <= i < j < order.len() ==> #[trigger] order[i] != #[trigger] order[j]
    &&& forall|p: int| 0 <= p < candidates.len() ==> #[trigger] reaches(order, p)
}

/// Whether some position of `order` holds `p`
pub open spec fn reaches(order: Seq<int>, p: int) -> bool {
    exists|i: int| 0 <= i < order.len() && order[i] == p
}

/// Without a tie, the positions never decide the arbitration order
proof fn lemma_untied_order<E>(a: ReactionCandidate<E>, i: int, b: ReactionCandidate<E>, j: int, k: int, l: int)
    requires
        !ties(a, b),
    ensures
        arbitrated_before(a, i, b, j) == arbitrated_before(a, k, b, l),
{
}

/// Arbitration does not depend on the order in which candidates were discovered:
/// when no two candidates tie on every arbitration key, a reordered list accepts
/// the same candidates in the same order
pub proof fn lemma_arbitration_ignores_discovery_order<E>(
    candidates: Seq<ReactionCandidate<E>>,
    reordered: Seq<ReactionCandidate<E>>,
    order: Seq<int>,
    chosen: Seq<int>,
    reordered_chosen: Seq<int>,
)
    requires
        forall|i: int, j: int| 0 <= i < j < candidates.len() ==> !ties(#[trigger] candidates[i], #[trigger] candidates[j]),
        is_reordering(candidates, reordered, order),
        is_arbitration(candidates, chosen),
        is_arbitration(reordered, reordered_chosen),
    ensures
        reordered_chosen.len() == chosen.len(),
        forall|k: int| 0 <= k < chosen.len() ==> reordered[#[trigger] reordered_chosen[k]] == candidates[chosen[k]],
{
    let n = candidates.len();
    // where each position of `candidates` went
    let moved = |p: int| choose|i: int| 0 <= i < n && order[i] == p;
    assert forall|p: int| 0 <= p < n implies 0 <= #[trigger] moved(p) < n && order[moved(p)] == p by {
        assert(reaches(order, p));
    }
    assert forall|i: int| 0 <= i < n implies #[trigger] moved(order[i]) == i by {
        let p = order[i];
        assert(0 <= moved(p) < n && order[moved(p)] == p);
        if moved(p) != i {
            if moved(p) < i {
                assert(order[moved(p)] != order[i]);
            } else {
                assert(order[i] != order[moved(p)]);
            }
        }
    }
    // two distinct positions hold untied candidates
    assert forall|p: int, q: int| 0 <= p < n && 0 <= q < n && p != q implies !ties(
        #[trigger] candidates[p],
        #[trigger] candidates[q],
    ) by {
        if p < q {
            assert(!ties(candidates[p], candidates[q]));
        } else {
            assert(!ties(candidates[q], candidates[p]));
        }
    }
    let image = Seq::new(chosen.len(), |k: int| moved(chosen[k]));
    assert forall|k: int| 0 <= k < image.len() implies 0 <= #[trigger] image[k] < reordered.len()
        && reordered[image[k]] == candidates[chosen[k]] by {
        assert(0 <= chosen[k] < n);
    }
    assert forall|k: int, l: int| 0 <= k < l < image.len() implies arbitrated_before(
        reordered[#[trigger] image[k]],
        image[k],
        reordered[#[trigger] image[l]],
        image[l],
    ) by {
        assert(arbitrated_before(candidates[chosen[k]], chosen[k], candidates[chosen[l]], chosen[l]));
        assert(chosen.contains(chosen[l]));
        lemma_arbitrated_order(candidates[chosen[k]], chosen[k], candidates[chosen[k]], chosen[k], candidates[chosen[k]], chosen[k]);
        assert(chosen[k] != chosen[l]);
        lemma_untied_order(candidates[chosen[k]], chosen[k], candidates[chosen[l]], chosen[l], image[k], image[l]);
    }
    assert forall|i: int| 0 <= i < reordered.len() implies (#[trigger] image.contains(i) <==> !exists|k: int|
        0 <= k < image.len() && arbitrated_before(reordered[image[k]], image[k], reordered[i], i)
            && #[trigger] shares_authority(reordered[image[k]], reordered[i])) by {
        let p = order[i];
        assert(reordered[i] == candidates[p]);
        assert(moved(p) == i);
        assert(image.contains(i) <==> chosen.contains(p)) by {
            if image.contains(i) {
                let k = choose|k: int| 0 <= k < image.len() && image[k] == i;
                assert(order[moved(chosen[k])] == chosen[k]);
            }
            if chosen.contains(p) {
                let k = choose|k: int| 0 <= k < chosen.len() && chosen[k] == p;
                assert(image[k] == i);
            }
        }
        let blocked = exists|k: int|
            0 <= k < chosen.len() && arbitrated_before(candidates[chosen[k]], chosen[k], candidates[p], p)
                && #[trigger] shares_authority(candidates[chosen[k]], candidates[p]);
        let image_blocked = exists|k: int|
            0 <= k < image.len() && arbitrated_before(reordered[image[k]], image[k], reordered[i], i)
                && #[trigger] shares_authority(reordered[image[k]], reordered[i]);
        assert(chosen.contains(p) <==> !blocked);
        assert forall|k: int| 0 <= k < chosen.len() implies arbitrated_before(
            candidates[chosen[k]],
            chosen[k],
            candidates[p],
            p,
        ) == arbitrated_before(reordered[#[trigger] image[k]], image[k], reordered[i], i) by {
            assert(reordered[image[k]] == candidates[chosen[k]]);
            if chosen[k] == p {
                assert(image[k] == i);
            } else {
                assert(image[k] != i) by {
                    assert(order[moved(chosen[k])] == chosen[k]);
                }
                lemma_untied_order(candidates[chosen[k]], chosen[k], candidates[p], p, image[k], i);
            }
        }
        if blocked {
            let k = choose|k: int|
                0 <= k < chosen.len() && arbitrated_before(candidates[chosen[k]], chosen[k], candidates[p], p)
                    && #[trigger] shares_authority(candidates[chosen[k]], candidates[p]);
            assert(reordered[image[k]] == candidates[chosen[k]]);
            assert(shares_authority(reordered[image[k]], reordered[i]));
        }
        if image_blocked {
            let k = choose|k: int|
                0 <= k < image.len() && arbitrated_before(reordered[image[k]], image[k], reordered[i], i)
                    && #[trigger] shares_authority(reordered[image[k]], reordered[i]);
            assert(reordered[image[k]] == candidates[chosen[k]]);
            assert(shares_authority(candidates[chosen[k]], candidates[p]));
        }
    }
    assert(is_arbitration(reordered, image));
    lemma_arbitration_unique(reordered, image, reordered_chosen);
}

/// Returns whether the candidate at position `i` is arbitrated before the one at `j`
fn arbitrated_before_exec<E>(a: &ReactionCandidate<E>, i: usize, b: &ReactionCandidate<E>, j: usize) -> (before: bool)
    ensures
        before == arbitrated_before(*a, i as int, *b, j as int),
{
    if a.priority != b.priority {
        a.priority > b.priority
    } else if a.authoring_order != b.authoring_order {
        a.authoring_order < b.authoring_order
    } else if a.anchor != b.anchor {
        a.anchor < b.anchor
    } else if a.reaction_index != b.reaction_index {
        a.reaction_index < b.reaction_index
    } else {
        i < j
    }
}

/// Returns the positions of all candidates sorted into arbitration order
fn arbitration_order<E>(candidates: &Vec<ReactionCandidate<E>>) -> (order: Vec<usize>)
    ensures
        order@.len() == candidates@.len(),
        forall|x: usize| x < candidates@.len() <==> #[trigger] order@.contains(x),
        forall|k: int| 0 <= k < order@.len() ==> #[trigger] order@[k] < candidates@.len(),
        forall|k: int, l: int| 0 <= k < l < order@.len() ==> arbitrated_before(
            candidates@[#[trigger] order@[k] as int],
            order@[k] as int,
            candidates@[#[trigger] order@[l] as int],
            order@[l] as int,
        ),
{
    let mut order: Vec<usize> = Vec::new();
    let mut next: usize = 0;
    while next < candidates.len()
        invariant
            0 <= next <= candidates@.len(),
            order@.len() == next,
            forall|x: usize| x < next <==> #[trigger] order@.contains(x),
            forall|k: int| 0 <= k < order@.len() ==> #[trigger] order@[k] < next,
            forall|k: int, l: int| 0 <= k < l < order@.len() ==> arbitrated_before(
                candidates@[#[trigger] order@[k] as int],
                order@[k] as int,
                candidates@[#[trigger] order@[l] as int],
                order@[l] as int,
            ),
        decreases candidates@.len() - next,
    {
        // the new position goes after every position arbitrated before it
        let mut position: usize = 0;
        while position < order.len()
            invariant
                0 <= position <= order@.len(),
                next < candidates@.len(),
                forall|k: int| 0 <= k < order@.len() ==> #[trigger] order@[k] < next,
                forall|k: int| 0 <= k < position ==> arbitrated_before(
                    candidates@[#[trigger] order@[k] as int],
                    order@[k] as int,
                    candidates@[next as int],
                    next as int,
                ),
            ensures
                0 <= position <= order@.len(),
                forall|k: int| 0 <= k < position ==> arbitrated_before(
                    candidates@[#[trigger] order@[k] as int],
                    order@[k] as int,
                    candidates@[next as int],
                    next as int,
                ),
                position < order@.len() ==> arbitrated_before(
                    candidates@[next as int],
                    next as int,
                    candidates@[order@[position as int] as int],
                    order@[position as int] as int,
                ),
            decreases order@.len() - position,
        {
            let other: usize = order[position];
            if arbitrated_before_exec(&candidates[next], next, &candidates[other], other) {
                break;
            }
            proof {
                lemma_arbitrated_order(
                    candidates@[other as int], other as int,
                    candidates@[next as int], next as int,
                    candidates@[next as int], next as int,
                );
            }
            position = position + 1;
        }
        let ghost before = order@;
        order.insert(position, next);
        proof {
            assert forall|x: usize| x < next + 1 <==> #[trigger] order@.contains(x) by {
                if x < next {
                    assert(before.contains(x));
                    let k = choose|k: int| 0 <= k < before.len() && before[k] == x;
                    if k < position {
                        assert(order@[k] == x);
                    } else {
                        assert(order@[k + 1] == x);
                    }
                } else if x == next {
                    assert(order@[position as int] == x);
                }
                if order@.contains(x) {
                    let k = choose|k: int| 0 <= k < order@.len() && order@[k] == x;
                    if k < position {
                        assert(before[k] == x);
                    } else if k > position {
                        assert(before[k - 1] == x);
                    }
                }
            }
            assert forall|k: int, l: int| 0 <= k < l < order@.len() implies arbitrated_before(
                candidates@[#[trigger] order@[k] as int],
                order@[k] as int,
                candidates@[#[trigger] order@[l] as int],
                order@[l] as int,
            ) by {
                let nx = next as int;
                let p = position as int;
                if l < p {
                    assert(order@[k] == before[k] && order@[l] == before[l]);
                } else if l == p {
                    assert(order@[k] == before[k]);
                } else if k == p {
                    assert(order@[l] == before[l - 1]);
                    if l - 1 > p {
                        lemma_arbitrated_order(
                            candidates@[nx], nx,
                            candidates@[before[p] as int], before[p] as int,
                            candidates@[before[l - 1] as int], before[l - 1] as int,
                        );
                    }
                } else if k < p {
                    assert(order@[k] == before[k] && order@[l] == before[l - 1]);
                } else {
                    assert(order@[k] == before[k - 1] && order@[l] == before[l - 1]);
                }
            }
        }
        next = next + 1;
    }
    order
}

/// Whether `claimed` holds the authority `key`
fn is_claimed(claimed: &Vec<u64>, key: u64) -> (found: bool)
    ensures
        found == claimed@.contains(key),
{
    let mut index: usize = 0;
    while index < claimed.len()
        invariant
            0 <= index <= claimed@.len(),
            forall|i: int| 0 <= i < index ==> claimed@[i] != key,
        decreases claimed@.len() - index,
    {
        if claimed[index] == key {
            return true;
        }
        index = index + 1;
    }
    false
}

/// Whether a candidate reserves an authority already in `claimed`
fn conflicts_with_claimed<E>(candidate: &ReactionCandidate<E>, claimed: &Vec<u64>) -> (conflict: bool)
    ensures
        conflict == exists|key: u64| #[trigger] claimed@.contains(key) && reserves(*candidate, key),
{
    let first: bool = match candidate.authorities[0] {
        Some(key) => is_claimed(claimed, key),
        None => false,
    };
    let second: bool = match candidate.authorities[1] {
        Some(key) => is_claimed(claimed, key),
        None => false,
    };
    proof {
        if exists|key: u64| #[trigger] claimed@.contains(key) && reserves(*candidate, key) {
            let key = choose|key: u64| #[trigger] claimed@.contains(key) && reserves(*candidate, key);
            assert(first || second);
        }
    }
    first || second
}

/// Moves the candidates at the chosen positions, in that order, out of `candidates`
fn take_chosen<E>(candidates: Vec<ReactionCandidate<E>>, chosen: &Vec<usize>) -> (taken: Vec<ReactionCandidate<E>>)
    requires
        forall|k: int| 0 <= k < chosen@.len() ==> #[trigger] chosen@[k] < candidates@.len(),
        forall|k: int, l: int| 0 <= k < l < chosen@.len() ==> #[trigger] chosen@[k] != #[trigger] chosen@[l],
    ensures
        taken@.len() == chosen@.len(),
        forall|k: int| 0 <= k < chosen@.len() ==> #[trigger] taken@[k] == candidates@[chosen@[k] as int],
{
    let ghost all = candidates@;
    let mut holders: Vec<Option<ReactionCandidate<E>>> = Vec::new();
    let mut remaining: Vec<ReactionCandidate<E>> = candidates;
    let count: usize = remaining.len();
    while holders.len() < count
        invariant
            holders@.len() <= count,
            count == remaining@.len(),
            forall|i: int| 0 <= i < holders@.len() ==> #[trigger] holders@[i] is None,
        decreases count - holders@.len(),
    {
        holders.push(None);
    }
    while remaining.len() > 0
        invariant
            holders@.len() == count,
            count == all.len(),
            remaining@.len() <= count,
            remaining@ == all.take(remaining@.len() as int),
            forall|i: int| 0 <= i < remaining@.len() ==> #[trigger] holders@[i] is None,
            forall|i: int| remaining@.len() <= i < count ==> #[trigger] holders@[i] == Some(all[i]),
        decreases remaining@.len(),
    {
        let position: usize = remaining.len() - 1;
        let candidate: ReactionCandidate<E> = remaining.pop().unwrap();
        holders.set(position, Some(candidate));
        assert(remaining@ =~= all.take(remaining@.len() as int));
    }
    let mut taken: Vec<ReactionCandidate<E>> = Vec::new();
    let mut k: usize = 0;
    while k < chosen.len()
        invariant
            holders@.len() == count,
            count == all.len(),
            forall|j: int| 0 <= j < chosen@.len() ==> #[trigger] chosen@[j] < count,
            forall|a: int, b: int| 0 <= a < b < chosen@.len() ==> #[trigger] chosen@[a] != #[trigger] chosen@[b],
            0 <= k <= chosen@.len(),
            taken@.len() == k,
            forall|j: int| 0 <= j < k ==> #[trigger] taken@[j] == all[chosen@[j] as int],
            forall|i: int| 0 <= i < count ==> (#[trigger] holders@[i] == Some(all[i])
                || exists|j: int| 0 <= j < k && chosen@[j] == i),
        decreases chosen@.len() - k,
    {
        let position: usize = chosen[k];
        proof {
            if holders@[position as int] != Some(all[position as int]) {
                let j = choose|j: int| 0 <= j < k && chosen@[j] == position;
                assert(chosen@[j] != chosen@[k as int]);
            }
        }
        let holder: Option<ReactionCandidate<E>> = holders.remove(position);
        holders.insert(position, None);
        let candidate: ReactionCandidate<E> = holder.unwrap();
        taken.push(candidate);
        proof {
            assert forall|i: int| 0 <= i < count implies (#[trigger] holders@[i] == Some(all[i])
                || exists|j: int| 0 <= j < k + 1 && chosen@[j] == i) by {
                if i == position as int {
                    assert(chosen@[k as int] == i);
                } else {
                    if holders@[i] != Some(all[i]) {
                        let j = choose|j: int| 0 <= j < k && chosen@[j] == i;
                        assert(0 <= j < k + 1 && chosen@[j] == i);
                    }
                }
            }
        }
        k = k + 1;
    }
    taken
}

/// Sort by explicit priority, stable authoring order, then anchor. Accepted
/// candidates reserve every authority as an all-or-nothing set, so neither GPU
/// invocation order nor overlapping raster claims can double-consume matter.
pub fn resolve_contention<E>(candidates: Vec<ReactionCandidate<E>>) -> (accepted: Vec<ReactionCandidate<E>>)
    ensures
        exists|chosen: Seq<int>|
            #![trigger is_arbitration(candidates@, chosen)]
            is_arbitration(candidates@, chosen) && accepted@.len() == chosen.len() && forall|k: int|
                0 <= k < chosen.len() ==> #[trigger] accepted@[k] == candidates@[chosen[k]],
{
    let order: Vec<usize> = arbitration_order(&candidates);
    let ghost all = candidates@;
    let mut claimed: Vec<u64> = Vec::new();
    let mut chosen: Vec<usize> = Vec::new();
    let ghost mut positions: Seq<int> = Seq::empty();
    let mut t: usize = 0;
    while t < order.len()
        invariant
            all == candidates@,
            order@.len() == all.len(),
            forall|x: usize| x < all.len() <==> #[trigger] order@.contains(x),
            forall|k: int| 0 <= k < order@.len() ==> #[trigger] order@[k] < all.len(),
            forall|k: int, l: int| 0 <= k < l < order@.len() ==> arbitrated_before(
                all[#[trigger] order@[k] as int],
                order@[k] as int,
                all[#[trigger] order@[l] as int],
                order@[l] as int,
            ),
            0 <= t <= order@.len(),
            positions.len() == chosen@.len(),
            forall|k: int| 0 <= k < chosen@.len() ==> 0 <= #[trigger] positions[k] < t && chosen@[k] == order@[positions[k]],
            forall|k: int, l: int| 0 <= k < l < chosen@.len() ==> #[trigger] positions[k] < #[trigger] positions[l],
            forall|key: u64| #[trigger] claimed@.contains(key) <==> exists|k: int| 0 <= k < chosen@.len() && reserves(all[#[trigger] chosen@[k] as int], key),
            forall|s: int| 0 <= s < t ==> (chosen@.contains(#[trigger] order@[s]) <==> !exists|k: int|
                0 <= k < chosen@.len() && arbitrated_before(all[chosen@[k] as int], chosen@[k] as int, all[order@[s] as int], order@[s] as int)
                    && #[trigger] shares_authority(all[chosen@[k] as int], all[order@[s] as int])),
        decreases order@.len() - t,
    {
        let index: usize = order[t];
        let conflict: bool = conflicts_with_claimed(&candidates[index], &claimed);
        let ghost previous_chosen = chosen@;
        let ghost previous_claimed = claimed@;
        let ghost previous_positions = positions;
        proof {
            // positions in the order are distinct, so order[t] is not chosen yet
            assert forall|k: int| 0 <= k < previous_chosen.len() implies #[trigger] previous_chosen[k] != index
                && arbitrated_before(all[previous_chosen[k] as int], previous_chosen[k] as int, all[index as int], index as int) by {
                let p = previous_positions[k];
                assert(previous_chosen[k] == order@[p]);
                assert(arbitrated_before(all[order@[p] as int], order@[p] as int, all[order@[t as int] as int], order@[t as int] as int));
                lemma_arbitrated_order(all[index as int], index as int, all[index as int], index as int, all[index as int], index as int);
            }
        }
        if !conflict {
            chosen.push(index);
            proof {
                positions = positions.push(t as int);
            }
            let first: Option<u64> = candidates[index].authorities[0];
            let second: Option<u64> = candidates[index].authorities[1];
            if let Some(key) = first {
                claimed.push(key);
            }
            if let Some(key) = second {
                claimed.push(key);
            }
            proof {
                let c = all[index as int];
                assert(chosen@ == previous_chosen.push(index));
                assert forall|key: u64| #[trigger] claimed@.contains(key) <==> exists|k: int| 0 <= k < chosen@.len() && reserves(all[#[trigger] chosen@[k] as int], key) by {
                    if claimed@.contains(key) {
                        let i = choose|i: int| 0 <= i < claimed@.len() && claimed@[i] == key;
                        if i < previous_claimed.len() {
                            assert(previous_claimed[i] == key);
                            assert(previous_claimed.contains(key));
                            let k = choose|k: int| 0 <= k < previous_chosen.len() && reserves(all[#[trigger] previous_chosen[k] as int], key);
                            assert(chosen@[k] == previous_chosen[k]);
                        } else {
                            assert(reserves(c, key));
                            assert(chosen@[previous_chosen.len() as int] == index);
                        }
                    }
                    if exists|k: int| 0 <= k < chosen@.len() && reserves(all[#[trigger] chosen@[k] as int], key) {
                        let k = choose|k: int| 0 <= k < chosen@.len() && reserves(all[#[trigger] chosen@[k] as int], key);
                        if k < previous_chosen.len() {
                            assert(chosen@[k] == previous_chosen[k]);
                            assert(previous_claimed.contains(key));
                            let i = choose|i: int| 0 <= i < previous_claimed.len() && previous_claimed[i] == key;
                            assert(claimed@[i] == key);
                        } else {
                            assert(chosen@[k] == index);
                            if first == Some(key) {
                                assert(claimed@[previous_claimed.len() as int] == key);
                            } else {
                                assert(second == Some(key));
                                assert(claimed@[claimed@.len() - 1] == key);
                            }
                        }
                    }
                }
                assert forall|s: int| 0 <= s < t + 1 implies (chosen@.contains(#[trigger] order@[s]) <==> !exists|k: int|
                    0 <= k < chosen@.len() && arbitrated_before(all[chosen@[k] as int], chosen@[k] as int, all[order@[s] as int], order@[s] as int)
                        && #[trigger] shares_authority(all[chosen@[k] as int], all[order@[s] as int])) by {
                    let o = order@[s];
                    if s < t {
                        assert(arbitrated_before(all[o as int], o as int, all[index as int], index as int));
                        lemma_arbitrated_order(all[o as int], o as int, all[index as int], index as int, all[o as int], o as int);
                        assert(o != index);
                        if chosen@.contains(o) {
                            let k = choose|k: int| 0 <= k < chosen@.len() && chosen@[k] == o;
                            assert(k < previous_chosen.len());
                            assert(previous_chosen.contains(o));
                        }
                        if previous_chosen.contains(o) {
                            let k = choose|k: int| 0 <= k < previous_chosen.len() && previous_chosen[k] == o;
                            assert(chosen@[k] == o);
                        }
                        if exists|k: int| 0 <= k < chosen@.len() && arbitrated_before(all[chosen@[k] as int], chosen@[k] as int, all[o as int], o as int)
                            && #[trigger] shares_authority(all[chosen@[k] as int], all[o as int]) {
                            let k = choose|k: int| 0 <= k < chosen@.len() && arbitrated_before(all[chosen@[k] as int], chosen@[k] as int, all[o as int], o as int)
                                && #[trigger] shares_authority(all[chosen@[k] as int], all[o as int]);
                            assert(k < previous_chosen.len());
                            assert(previous_chosen[k] == chosen@[k]);
                        }
                        if exists|k: int| 0 <= k < previous_chosen.len() && arbitrated_before(all[previous_chosen[k] as int], previous_chosen[k] as int, all[o as int], o as int)
                            && #[trigger] shares_authority(all[previous_chosen[k] as int], all[o as int]) {
                            let k = choose|k: int| 0 <= k < previous_chosen.len() && arbitrated_before(all[previous_chosen[k] as int], previous_chosen[k] as int, all[o as int], o as int)
                                && #[trigger] shares_authority(all[previous_chosen[k] as int], all[o as int]);
                            assert(chosen@[k] == previous_chosen[k]);
                        }
                    } else {
                        assert(o == index);
                        assert(chosen@[previous_chosen.len() as int] == index);
                        if exists|k: int| 0 <= k < chosen@.len() && arbitrated_before(all[chosen@[k] as int], chosen@[k] as int, all[o as int], o as int)
                            && #[trigger] shares_authority(all[chosen@[k] as int], all[o as int]) {
                            let k = choose|k: int| 0 <= k < chosen@.len() && arbitrated_before(all[chosen@[k] as int], chosen@[k] as int, all[o as int], o as int)
                                && #[trigger] shares_authority(all[chosen@[k] as int], all[o as int]);
                            if k == previous_chosen.len() {
                                lemma_arbitrated_order(c, index as int, c, index as int, c, index as int);
                            } else {
                                assert(chosen@[k] == previous_chosen[k]);
                                let key = choose|key: u64| reserves(all[chosen@[k] as int], key) && #[trigger] reserves(c, key);
                                assert(previous_claimed.contains(key));
                            }
                        }
                    }
                }
            }
        } else {
            proof {
                let c = all[index as int];
                let key = choose|key: u64| #[trigger] claimed@.contains(key) && reserves(c, key);
                let k = choose|k: int| 0 <= k < chosen@.len() && reserves(all[#[trigger] chosen@[k] as int], key);
                assert(shares_authority(all[chosen@[k] as int], c));
                assert forall|s: int| 0 <= s < t + 1 implies (chosen@.contains(#[trigger] order@[s]) <==> !exists|k: int|
                    0 <= k < chosen@.len() && arbitrated_before(all[chosen@[k] as int], chosen@[k] as int, all[order@[s] as int], order@[s] as int)
                        && #[trigger] shares_authority(all[chosen@[k] as int], all[order@[s] as int])) by {
                    if s == t {
                        if chosen@.contains(index) {
                            let j = choose|j: int| 0 <= j < chosen@.len() && chosen@[j] == index;
                            assert(previous_chosen[j] != index);
                        }
                    }
                }
            }
        }
        t = t + 1;
    }
    let ghost chosen_positions: Seq<int> = chosen@.map_values(|x: usize| x as int);
    proof {
        assert forall|i: int| 0 <= i < all.len() implies (#[trigger] chosen_positions.contains(i) <==> !exists|k: int|
            0 <= k < chosen_positions.len() && arbitrated_before(all[chosen_positions[k]], chosen_positions[k], all[i], i)
                && #[trigger] shares_authority(all[chosen_positions[k]], all[i])) by {
            assert(order@.contains(i as usize));
            let s = choose|s: int| 0 <= s < order@.len() && order@[s] == i as usize;
            assert(order@[s] == i as usize);
            if chosen_positions.contains(i) {
                let k = choose|k: int| 0 <= k < chosen_positions.len() && chosen_positions[k] == i;
                assert(chosen@[k] == i as usize);
                assert(chosen@.contains(order@[s]));
            }
            if chosen@.contains(order@[s]) {
                let k = choose|k: int| 0 <= k < chosen@.len() && chosen@[k] == order@[s];
                assert(chosen_positions[k] == i);
            }
            if exists|k: int| 0 <= k < chosen_positions.len() && arbitrated_before(all[chosen_positions[k]], chosen_positions[k], all[i], i)
                && #[trigger] shares_authority(all[chosen_positions[k]], all[i]) {
                let k = choose|k: int| 0 <= k < chosen_positions.len() && arbitrated_before(all[chosen_positions[k]], chosen_positions[k], all[i], i)
                    && #[trigger] shares_authority(all[chosen_positions[k]], all[i]);
                assert(shares_authority(all[chosen@[k] as int], all[order@[s] as int]));
            }
            if exists|k: int| 0 <= k < chosen@.len() && arbitrated_before(all[chosen@[k] as int], chosen@[k] as int, all[order@[s] as int], order@[s] as int)
                && #[trigger] shares_authority(all[chosen@[k] as int], all[order@[s] as int]) {
                let k = choose|k: int| 0 <= k < chosen@.len() && arbitrated_before(all[chosen@[k] as int], chosen@[k] as int, all[order@[s] as int], order@[s] as int)
                    && #[trigger] shares_authority(all[chosen@[k] as int], all[order@[s] as int]);
                assert(shares_authority(all[chosen_positions[k]], all[i]));
            }
        }
        assert forall|k: int, l: int| 0 <= k < l < chosen_positions.len() implies arbitrated_before(
            all[#[trigger] chosen_positions[k]],
            chosen_positions[k],
            all[#[trigger] chosen_positions[l]],
            chosen_positions[l],
        ) by {
            assert(positions[k] < positions[l]);
            assert(chosen@[k] == order@[positions[k]]);
            assert(chosen@[l] == order@[positions[l]]);
        }
        assert forall|k: int| 0 <= k < chosen_positions.len() implies 0 <= #[trigger] chosen_positions[k] < all.len() by {
            assert(chosen@[k] == order@[positions[k]]);
        }
        assert forall|k: int, l: int| 0 <= k < l < chosen@.len() implies #[trigger] chosen@[k] != #[trigger] chosen@[l] by {
            assert(arbitrated_before(all[chosen_positions[k]], chosen_positions[k], all[chosen_positions[l]], chosen_positions[l]));
            lemma_arbitrated_order(all[chosen_positions[k]], chosen_positions[k], all[chosen_positions[k]], chosen_positions[k], all[chosen_positions[k]], chosen_positions[k]);
        }
        assert forall|k: int| 0 <= k < chosen@.len() implies #[trigger] chosen@[k] < candidates@.len() by {
            assert(chosen_positions[k] == chosen@[k] as int);
        }
        assert(is_arbitration(all, chosen_positions));
    }
    let accepted: Vec<ReactionCandidate<E>> = take_chosen(candidates, &chosen);
    accepted
}

/// Discovers and applies material reactions over the ring cells
pub struct MaterialReactions {
    pub cell_count: u32,
    pub reaction_count: u32,
}

impl MaterialReactions {
    /// Bookkeeping for `reaction_count` compiled reactions over `cell_count` ring cells
    pub fn new(cell_count: u32, reaction_count: u32) -> (reactions: Self)
        ensures
            reactions.cell_count == cell_count,
            reactions.reaction_count == reaction_count,
    {
        MaterialReactions { cell_count, reaction_count }
    }

    /// The workgroups of each of the discover and apply passes, or nothing to run
    /// when no reaction is compiled
    pub fn encode(&self) -> (workgroups: Option<u32>)
        ensures
            self.reaction_count == 0 ==> workgroups is None,
            self.reaction_count != 0 ==> workgroups == Some(
                crate::simulation::thermal_phase_transitions::spec_workgroups(self.cell_count as int) as u32,
            ),
    {
        if self.reaction_count == 0 {
            return None;
        }
        Some(crate::simulation::thermal_phase_transitions::workgroups_for(self.cell_count))
    }
}

} // verus!
