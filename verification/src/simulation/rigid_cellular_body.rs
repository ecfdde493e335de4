//! Body-local static cellular matter owned by one rigid body: splitting it into
//! 4-connected pieces, and covering it with axis-aligned cell rectangles.

use vstd::prelude::*;

verus! {

/// An axis-aligned block of `width` by `height` cells whose lowest corner cell is (`x`, `y`)
#[derive(Clone, Copy, Debug, PartialEq, Eq, Structural)]
pub struct CellRectangle {
    pub x: i32,
    pub y: i32,
    pub width: u32,
    pub height: u32,
}

/// Whether cell (`x`, `y`) lies inside `rectangle`
pub open spec fn in_rectangle(rectangle: CellRectangle, x: int, y: int) -> bool {
    &&& rectangle.x <= x < rectangle.x + rectangle.width
    &&& rectangle.y <= y < rectangle.y + rectangle.height
}

/// Whether cell (`x`, `y`) lies inside one of the first `count` rectangles
pub open spec fn covered_by(rectangles: Seq<CellRectangle>, count: int, x: int, y: int) -> bool {
    exists|j: int| 0 <= j < count && j < rectangles.len() && in_rectangle(#[trigger] rectangles[j], x, y)
}

/// One body-local cell of a rigid body together with its material, appearance and
/// the slot and generation of its persistent per-cell state
#[derive(Clone, Copy, Debug)]
pub struct RigidCellularBodyCell {
    pub local: [i32; 2],
    pub material: u32,
    pub appearance: u32,
    pub state_slot: u32,
    pub state_generation: u32,
}

/// Authoritative body-local static cellular matter owned by one rigid body
pub struct RigidCellularBody<M, A> {
    /// The rigid body's handle as its raw (index, generation) parts
    pub handle: (u32, u32),
    /// Local integer cells relative to the body's local origin
    pub cells: Vec<([i32; 2], M, A)>,
}

/// Whether two local positions name the same cell
pub open spec fn same_position(a: [i32; 2], b: [i32; 2]) -> bool {
    a[0] == b[0] && a[1] == b[1]
}

/// Whether two local positions share an edge
pub open spec fn adjacent(a: [i32; 2], b: [i32; 2]) -> bool {
    ||| a[1] == b[1] && (a[0] - b[0] == 1 || b[0] - a[0] == 1)
    ||| a[0] == b[0] && (a[1] - b[1] == 1 || b[1] - a[1] == 1)
}

/// Whether `a` comes strictly before `b` in row-major scan order (by row, then column)
pub open spec fn scan_before(a: [i32; 2], b: [i32; 2]) -> bool {
    a[1] < b[1] || (a[1] == b[1] && a[0] < b[0])
}

/// Whether `p` can have all four edge neighbors computed without overflow
pub open spec fn neighbors_representable(p: [i32; 2]) -> bool {
    i32::MIN < p[0] < i32::MAX && i32::MIN < p[1] < i32::MAX
}

/// Whether the cell at index `i` is the last one listed at its position
pub open spec fn is_latest<M, A>(cells: Seq<([i32; 2], M, A)>, i: int) -> bool {
    &&& 0 <= i < cells.len()
    &&& forall|j: int| i < j < cells.len() ==> !same_position(#[trigger] cells[j].0, cells[i].0)
}

/// Whether no two entries of `cells` share a position
pub open spec fn distinct_positions<M, A>(cells: Seq<([i32; 2], M, A)>) -> bool {
    forall|a: int, b: int|
        0 <= a < cells.len() && 0 <= b < cells.len() && a != b ==> !same_position(
            #[trigger] cells[a].0,
            #[trigger] cells[b].0,
        )
}

/// Whether `cell` is the last-listed cell at its position in `cells`
pub open spec fn is_latest_cell<M, A>(cells: Seq<([i32; 2], M, A)>, cell: ([i32; 2], M, A)) -> bool {
    exists|i: int| is_latest(cells, i) && cells[i] == cell
}

/// Whether `cell` is one of the entries of `cells`
pub open spec fn is_listed<M, A>(cells: Seq<([i32; 2], M, A)>, cell: ([i32; 2], M, A)) -> bool {
    exists|k: int| 0 <= k < cells.len() && cells[k] == cell
}

/// `unique` holds exactly the last-listed cell of every position of `cells`
pub open spec fn is_latest_per_position<M, A>(
    cells: Seq<([i32; 2], M, A)>,
    unique: Seq<([i32; 2], M, A)>,
) -> bool {
    &&& distinct_positions(unique)
    &&& forall|k: int| 0 <= k < unique.len() ==> is_latest_cell(cells, #[trigger] unique[k])
    &&& forall|i: int| is_latest(cells, i) ==> is_listed(unique, #[trigger] cells[i])
}

/// The number of `false` entries of a flag sequence
pub open spec fn count_false(flags: Seq<bool>) -> nat
    decreases flags.len(),
{
    if flags.len() == 0 {
        0
    } else {
        count_false(flags.drop_last()) + if flags.last() {
            0nat
        } else {
            1nat
        }
    }
}

/// Setting one `false` flag to `true` removes exactly one `false` entry
proof fn lemma_count_false_set(flags: Seq<bool>, u: int)
    requires
        0 <= u < flags.len(),
        !flags[u],
    ensures
        count_false(flags.update(u, true)) + 1 == count_false(flags),
    decreases flags.len(),
{
    let updated = flags.update(u, true);
    if u == flags.len() - 1 {
        assert(updated.drop_last() =~= flags.drop_last());
    } else {
        assert(updated.drop_last() =~= flags.drop_last().update(u, true));
        lemma_count_false_set(flags.drop_last(), u);
    }
}

/// A flag sequence with no `false` entry has every entry set
proof fn lemma_count_false_zero(flags: Seq<bool>)
    requires
        count_false(flags) == 0,
    ensures
        forall|u: int| 0 <= u < flags.len() ==> #[trigger] flags[u],
    decreases flags.len(),
{
    if flags.len() > 0 {
        lemma_count_false_zero(flags.drop_last());
        assert forall|u: int| 0 <= u < flags.len() implies #[trigger] flags[u] by {
            if u < flags.len() - 1 {
                assert(flags[u] == flags.drop_last()[u]);
            }
        }
    }
}

/// The last-listed cell of every distinct position, keeping the input order
fn latest_cells<M: Copy, A: Copy>(cells: &Vec<([i32; 2], M, A)>) -> (unique: Vec<([i32; 2], M, A)>)
    ensures
        is_latest_per_position(cells@, unique@),
{
    let n: usize = cells.len();
    let mut unique: Vec<([i32; 2], M, A)> = Vec::new();
    let ghost mut source: Seq<int> = Seq::empty();
    let mut i: usize = 0;
    while i < n
        invariant
            n == cells.len(),
            i <= n,
            source.len() == unique.len(),
            forall|k: int| 0 <= k < unique.len() ==> 0 <= #[trigger] source[k] < i,
            forall|k: int| 0 <= k < unique.len() ==> is_latest(cells@, #[trigger] source[k]),
            forall|k: int| 0 <= k < unique.len() ==> #[trigger] unique@[k] == cells@[source[k]],
            forall|a: int, b: int| 0 <= a < b < unique.len() ==> #[trigger] source[a] < #[trigger] source[b],
            forall|j: int|
                0 <= j < i && is_latest(cells@, j) ==> exists|k: int|
                    0 <= k < unique.len() && #[trigger] source[k] == j,
        decreases n - i,
    {
        let mut later: usize = i + 1;
        let mut shadowed: bool = false;
        while later < n
            invariant
                n == cells.len(),
                i < n,
                i + 1 <= later <= n,
                shadowed ==> !is_latest(cells@, i as int),
                !shadowed ==> forall|j: int|
                    i < j < later ==> !same_position(#[trigger] cells@[j].0, cells@[i as int].0),
            decreases n - later,
        {
            if cells[later].0[0] == cells[i].0[0] && cells[later].0[1] == cells[i].0[1] {
                shadowed = true;
            }
            later = later + 1;
        }
        let ghost previous: Seq<int> = source;
        if !shadowed {
            unique.push(cells[i]);
            proof {
                source = source.push(i as int);
            }
        }
        proof {
            assert forall|j: int| 0 <= j < i + 1 && is_latest(cells@, j) implies exists|k: int|
                0 <= k < unique.len() && #[trigger] source[k] == j by {
                if j == i {
                    assert(source[unique.len() - 1] == j);
                } else {
                    let k = choose|k: int| 0 <= k < previous.len() && #[trigger] previous[k] == j;
                    assert(source[k] == j);
                }
            }
        }
        i = i + 1;
    }
    proof {
        assert forall|a: int, b: int|
            0 <= a < unique.len() && 0 <= b < unique.len() && a != b implies !same_position(
            #[trigger] unique@[a].0,
            #[trigger] unique@[b].0,
        ) by {
            if source[a] < source[b] {
                assert(!same_position(cells@[source[b]].0, cells@[source[a]].0));
            } else {
                assert(!same_position(cells@[source[a]].0, cells@[source[b]].0));
            }
        }
        assert forall|k: int| 0 <= k < unique.len() implies is_latest_cell(
            cells@,
            #[trigger] unique@[k],
        ) by {
            assert(is_latest(cells@, source[k]) && cells@[source[k]] == unique@[k]);
        }
        assert forall|j: int| is_latest(cells@, j) implies is_listed(unique@, #[trigger] cells@[j]) by {
            let k = choose|k: int| 0 <= k < unique.len() && #[trigger] source[k] == j;
            assert(unique@[k] == cells@[j]);
        }
    }
    unique
}

/// The index of the unassigned cell at position `position`, if there is one
fn find_unassigned_at<M: Copy, A: Copy>(
    unique: &Vec<([i32; 2], M, A)>,
    assigned: &Vec<bool>,
    position: [i32; 2],
) -> (found: Option<usize>)
    requires
        assigned.len() == unique.len(),
    ensures
        found matches Some(u) ==> u < unique.len() && !assigned@[u as int] && same_position(
            unique@[u as int].0,
            position,
        ),
        found is None ==> forall|u: int|
            0 <= u < unique.len() && !assigned@[u] ==> !same_position(#[trigger] unique@[u].0, position),
{
    let n: usize = unique.len();
    let mut u: usize = 0;
    while u < n
        invariant
            n == unique.len(),
            assigned.len() == n,
            u <= n,
            forall|v: int| 0 <= v < u && !assigned@[v] ==> !same_position(#[trigger] unique@[v].0, position),
        decreases n - u,
    {
        if !assigned[u] && unique[u].0[0] == position[0] && unique[u].0[1] == position[1] {
            return Some(u);
        }
        u = u + 1;
    }
    None
}

/// The unassigned cell that comes first in row-major scan order, if any is left
fn first_unassigned<M: Copy, A: Copy>(
    unique: &Vec<([i32; 2], M, A)>,
    assigned: &Vec<bool>,
) -> (first: Option<usize>)
    requires
        assigned.len() == unique.len(),
    ensures
        first matches Some(s) ==> s < unique.len() && !assigned@[s as int] && forall|u: int|
            0 <= u < unique.len() && !assigned@[u] ==> !scan_before(#[trigger] unique@[u].0, unique@[s as int].0),
        first is None ==> forall|u: int| 0 <= u < unique.len() ==> #[trigger] assigned@[u],
{
    let n: usize = unique.len();
    let mut best: Option<usize> = None;
    let mut u: usize = 0;
    while u < n
        invariant
            n == unique.len(),
            assigned.len() == n,
            u <= n,
            best matches Some(s) ==> s < u && !assigned@[s as int] && forall|v: int|
                0 <= v < u && !assigned@[v] ==> !scan_before(#[trigger] unique@[v].0, unique@[s as int].0),
            best is None ==> forall|v: int| 0 <= v < u ==> #[trigger] assigned@[v],
        decreases n - u,
    {
        if !assigned[u] {
            match best {
                None => {
                    best = Some(u);
                },
                Some(s) => {
                    let candidate: [i32; 2] = unique[u].0;
                    let current: [i32; 2] = unique[s].0;
                    if candidate[1] < current[1] || (candidate[1] == current[1] && candidate[0]
                        < current[0]) {
                        best = Some(u);
                    }
                },
            }
        }
        u = u + 1;
    }
    best
}

/// Whether every cell of `cells` has representable neighbors
pub open spec fn all_neighbors_representable<M, A>(cells: Seq<([i32; 2], M, A)>) -> bool {
    forall|i: int| 0 <= i < cells.len() ==> neighbors_representable(#[trigger] cells[i].0)
}

/// Whether each cell after the first shares an edge with an earlier one
pub open spec fn grows_by_adjacency<M, A>(component: Seq<([i32; 2], M, A)>) -> bool {
    forall|k: int|
        #![trigger component[k]]
        0 < k < component.len() ==> touches_before(component, k, component[k].0)
}

/// Whether one of the first `count` cells of `component` shares an edge with `position`
pub open spec fn touches_before<M, A>(
    component: Seq<([i32; 2], M, A)>,
    count: int,
    position: [i32; 2],
) -> bool {
    exists|k: int| 0 <= k < count && k < component.len() && adjacent(#[trigger] component[k].0, position)
}

/// Whether some entry of `pending` is at the same position as `position`
pub open spec fn is_pending(pending: Seq<[i32; 2]>, position: [i32; 2]) -> bool {
    exists|p: int| 0 <= p < pending.len() && same_position(#[trigger] pending[p], position)
}

/// Whether index `u` is one of the entries of `source`
pub open spec fn in_source(source: Seq<int>, u: int) -> bool {
    exists|k: int| 0 <= k < source.len() && source[k] == u
}

/// Collects, depth first, the 4-connected piece of unassigned cells around `start`,
/// marking every collected cell as assigned
#[verifier::rlimit(80)]
#[verifier::spinoff_prover]
fn grow_component<M: Copy, A: Copy>(
    unique: &Vec<([i32; 2], M, A)>,
    assigned: &mut Vec<bool>,
    start: usize,
) -> (grown: (Vec<([i32; 2], M, A)>, Ghost<Seq<int>>))
    requires
        old(assigned).len() == unique.len(),
        distinct_positions(unique@),
        all_neighbors_representable(unique@),
        start < unique.len(),
        !old(assigned)@[start as int],
        forall|u: int|
            0 <= u < unique.len() && !old(assigned)@[u] ==> !scan_before(
                #[trigger] unique@[u].0,
                unique@[start as int].0,
            ),
    ensures
        final(assigned).len() == unique.len(),
        grown.0.len() > 0,
        grown.0@[0] == unique@[start as int],
        grown.1@.len() == grown.0.len(),
        forall|k: int|
            0 <= k < grown.0.len() ==> 0 <= #[trigger] grown.1@[k] < unique.len() && !old(
                assigned,
            )@[grown.1@[k]] && grown.0@[k] == unique@[grown.1@[k]],
        forall|a: int, b: int|
            0 <= a < grown.0.len() && 0 <= b < grown.0.len() && a != b ==> #[trigger] grown.1@[a]
                != #[trigger] grown.1@[b],
        forall|u: int|
            0 <= u < unique.len() ==> (#[trigger] final(assigned)@[u] <==> (old(assigned)@[u]
                || in_source(grown.1@, u))),
        grows_by_adjacency(grown.0@),
        forall|k: int, u: int|
            0 <= k < grown.0.len() && 0 <= u < unique.len() && !final(assigned)@[u] ==> !adjacent(
                #[trigger] grown.0@[k].0,
                #[trigger] unique@[u].0,
            ),
        forall|k: int| 0 <= k < grown.0.len() ==> !scan_before(#[trigger] grown.0@[k].0, grown.0@[0].0),
        count_false(final(assigned)@) + grown.0.len() == count_false(old(assigned)@),
{
    let n: usize = unique.len();
    let mut component: Vec<([i32; 2], M, A)> = Vec::new();
    let ghost mut source: Seq<int> = Seq::empty();
    let mut pending: Vec<[i32; 2]> = Vec::new();
    pending.push(unique[start].0);
    while pending.len() > 0
        invariant
            n == unique.len(),
            assigned.len() == n,
            distinct_positions(unique@),
            all_neighbors_representable(unique@),
            start < n,
            !old(assigned)@[start as int],
            forall|u: int|
                0 <= u < n && !old(assigned)@[u] ==> !scan_before(
                    #[trigger] unique@[u].0,
                    unique@[start as int].0,
                ),
            source.len() == component.len(),
            forall|k: int|
                0 <= k < component.len() ==> 0 <= #[trigger] source[k] < n && !old(
                    assigned,
                )@[source[k]] && component@[k] == unique@[source[k]],
            forall|a: int, b: int|
                0 <= a < component.len() && 0 <= b < component.len() && a != b ==> #[trigger] source[a]
                    != #[trigger] source[b],
            forall|u: int|
                0 <= u < n ==> (#[trigger] assigned@[u] <==> (old(assigned)@[u] || in_source(
                    source,
                    u,
                ))),
            component.len() == 0 ==> pending.len() == 1 && same_position(
                pending@[0],
                unique@[start as int].0,
            ),
            component.len() > 0 ==> source[0] == start,
            component.len() > 0 ==> forall|q: int|
                0 <= q < pending.len() ==> touches_before(
                    component@,
                    component.len() as int,
                    #[trigger] pending@[q],
                ),
            grows_by_adjacency(component@),
            forall|k: int, u: int|
                0 <= k < component.len() && 0 <= u < n && !assigned@[u] && adjacent(
                    #[trigger] component@[k].0,
                    #[trigger] unique@[u].0,
                ) ==> is_pending(pending@, unique@[u].0),
            count_false(assigned@) + component.len() == count_false(old(assigned)@),
        decreases count_false(assigned@) * 5 + pending.len(),
    {
        let ghost pre_pop = pending@;
        let position: [i32; 2] = pending.pop().unwrap();
        proof {
            assert(position == pre_pop[pre_pop.len() - 1]);
            assert forall|q: int| 0 <= q < pending.len() implies #[trigger] pending@[q] == pre_pop[q] by {}
        }
        match find_unassigned_at(unique, assigned, position) {
            None => {
                proof {
                    assert forall|k: int, v: int|
                        0 <= k < component.len() && 0 <= v < n && !assigned@[v] && adjacent(
                            #[trigger] component@[k].0,
                            #[trigger] unique@[v].0,
                        ) implies is_pending(pending@, unique@[v].0) by {
                        assert(is_pending(pre_pop, unique@[v].0));
                        let p = choose|p: int|
                            0 <= p < pre_pop.len() && same_position(
                                #[trigger] pre_pop[p],
                                unique@[v].0,
                            );
                        if p == pre_pop.len() - 1 {
                            assert(!same_position(unique@[v].0, position));
                        } else {
                            assert(pending@[p] == pre_pop[p]);
                        }
                    }
                }
            },
            Some(u) => {
                proof {
                    lemma_count_false_set(assigned@, u as int);
                }
                let ghost previous_component = component@;
                let ghost previous_source = source;
                let ghost popped_pending = pending@;
                assigned.set(u, true);
                component.push(unique[u]);
                proof {
                    source = source.push(u as int);
                    assert(in_source(source, u as int)) by {
                        assert(source[source.len() - 1] == u as int);
                    }
                    assert forall|v: int| 0 <= v < n && v != u implies (in_source(source, v)
                        <==> in_source(previous_source, v)) by {
                        if in_source(source, v) {
                            let k = choose|k: int| 0 <= k < source.len() && source[k] == v;
                            assert(previous_source[k] == v);
                        }
                        if in_source(previous_source, v) {
                            let k = choose|k: int|
                                0 <= k < previous_source.len() && previous_source[k] == v;
                            assert(source[k] == v);
                        }
                    }
                }
                let x: i32 = position[0];
                let y: i32 = position[1];
                pending.push([x - 1, y]);
                pending.push([x + 1, y]);
                pending.push([x, y - 1]);
                pending.push([x, y + 1]);
                proof {
                    let last: int = component.len() - 1;
                    assert forall|q: int| 0 <= q < pending.len() implies touches_before(
                        component@,
                        component.len() as int,
                        #[trigger] pending@[q],
                    ) by {
                        if q < popped_pending.len() {
                            assert(pending@[q] == popped_pending[q]);
                            let k = choose|k: int|
                                0 <= k < previous_component.len() && adjacent(
                                    #[trigger] previous_component[k].0,
                                    popped_pending[q],
                                );
                            assert(component@[k] == previous_component[k]);
                        } else {
                            assert(component@[last].0 == unique@[u as int].0);
                            assert(adjacent(component@[last].0, pending@[q]));
                        }
                    }
                    assert forall|k: int|
                        #![trigger component@[k]]
                        0 < k < component.len() implies touches_before(
                        component@,
                        k,
                        component@[k].0,
                    ) by {
                        if k < last {
                            assert(component@[k] == previous_component[k]);
                            assert(touches_before(previous_component, k, previous_component[k].0));
                            let j = choose|j: int|
                                0 <= j < k && j < previous_component.len() && adjacent(
                                    #[trigger] previous_component[j].0,
                                    previous_component[k].0,
                                );
                            assert(component@[j] == previous_component[j]);
                        } else {
                            assert(touches_before(
                                previous_component,
                                previous_component.len() as int,
                                pre_pop[pre_pop.len() - 1],
                            ));
                            let j = choose|j: int|
                                0 <= j < previous_component.len() && adjacent(
                                    #[trigger] previous_component[j].0,
                                    pre_pop[pre_pop.len() - 1],
                                );
                            assert(component@[j] == previous_component[j]);
                            assert(adjacent(component@[j].0, component@[k].0));
                        }
                    }
                    assert forall|k: int, v: int|
                        0 <= k < component.len() && 0 <= v < n && !assigned@[v] && adjacent(
                            #[trigger] component@[k].0,
                            #[trigger] unique@[v].0,
                        ) implies is_pending(pending@, unique@[v].0) by {
                        if k == last {
                            let here = unique@[v].0;
                            if here[1] == y && here[0] == x - 1 {
                                assert(same_position(pending@[pending.len() - 4], here));
                            } else if here[1] == y && here[0] == x + 1 {
                                assert(same_position(pending@[pending.len() - 3], here));
                            } else if here[0] == x && here[1] == y - 1 {
                                assert(same_position(pending@[pending.len() - 2], here));
                            } else {
                                assert(same_position(pending@[pending.len() - 1], here));
                            }
                        } else {
                            assert(component@[k] == previous_component[k]);
                            assert(is_pending(pre_pop, unique@[v].0));
                            let p = choose|p: int|
                                0 <= p < pre_pop.len() && same_position(
                                    #[trigger] pre_pop[p],
                                    unique@[v].0,
                                );
                            if p == pre_pop.len() - 1 {
                                assert(same_position(unique@[v].0, unique@[u as int].0));
                                assert(v != u);
                            } else {
                                assert(pending@[p] == pre_pop[p]);
                            }
                        }
                    }
                }
            },
        }
    }
    proof {
        assert forall|k: int| 0 <= k < component.len() implies !scan_before(
            #[trigger] component@[k].0,
            component@[0].0,
        ) by {
            assert(component@[k] == unique@[source[k]]);
        }
    }
    (component, Ghost(source))
}

/// The contents of each inner list
pub open spec fn cell_lists<T>(lists: Seq<Vec<T>>) -> Seq<Seq<T>> {
    lists.map_values(|list: Vec<T>| list@)
}

/// Whether `cell` is an entry of one of the `components`
pub open spec fn is_split_member<M, A>(
    components: Seq<Seq<([i32; 2], M, A)>>,
    cell: ([i32; 2], M, A),
) -> bool {
    exists|c: int, k: int|
        0 <= c < components.len() && 0 <= k < components[c].len() && #[trigger] components[c][k]
            == cell
}

/// `components` splits the last-listed cell of every position of `cells` into maximal
/// 4-connected pieces: each piece is non-empty and lists every cell after its first
/// next to an earlier one, no two pieces touch, every cell is listed exactly once,
/// and each piece starts at the scan-order first cell of itself and of every later piece
pub open spec fn is_component_split<M, A>(
    cells: Seq<([i32; 2], M, A)>,
    components: Seq<Seq<([i32; 2], M, A)>>,
) -> bool {
    &&& forall|c: int| 0 <= c < components.len() ==> (#[trigger] components[c]).len() > 0
    &&& forall|c: int| 0 <= c < components.len() ==> grows_by_adjacency(#[trigger] components[c])
    &&& forall|c: int, k: int|
        0 <= c < components.len() && 0 <= k < components[c].len() ==> is_latest_cell(
            cells,
            #[trigger] components[c][k],
        )
    &&& forall|i: int| is_latest(cells, i) ==> is_split_member(components, #[trigger] cells[i])
    &&& forall|c: int, k: int, d: int, l: int|
        0 <= c < components.len() && 0 <= k < components[c].len() && 0 <= d < components.len() && 0
            <= l < components[d].len() && (c != d || k != l) ==> !same_position(
            #[trigger] components[c][k].0,
            #[trigger] components[d][l].0,
        )
    &&& forall|c: int, k: int, d: int, l: int|
        0 <= c < components.len() && 0 <= k < components[c].len() && 0 <= d < components.len() && 0
            <= l < components[d].len() && c != d ==> !adjacent(
            #[trigger] components[c][k].0,
            #[trigger] components[d][l].0,
        )
    &&& forall|c: int, d: int, l: int|
        0 <= c <= d < components.len() && 0 <= l < components[d].len() ==> !scan_before(
            #[trigger] components[d][l].0,
            #[trigger] components[c][0].0,
        )
}

/// Whether unique-cell index `u` is the source of some finished piece entry
pub open spec fn is_placed(sources: Seq<Seq<int>>, u: int) -> bool {
    exists|c: int, k: int| 0 <= c < sources.len() && 0 <= k < sources[c].len() && #[trigger] sources[c][k] == u
}

/// The bookkeeping that holds between finished pieces: `sources[c][k]` is the unique-cell
/// index of `components[c][k]`, and the finished pieces are exactly the assigned cells
pub open spec fn split_progress<M, A>(
    unique: Seq<([i32; 2], M, A)>,
    assigned: Seq<bool>,
    components: Seq<Seq<([i32; 2], M, A)>>,
    sources: Seq<Seq<int>>,
) -> bool {
    &&& assigned.len() == unique.len()
    &&& sources.len() == components.len()
    &&& forall|c: int| 0 <= c < components.len() ==> (#[trigger] sources[c]).len() == components[c].len()
    &&& forall|c: int| 0 <= c < components.len() ==> (#[trigger] components[c]).len() > 0
    &&& forall|c: int| 0 <= c < components.len() ==> grows_by_adjacency(#[trigger] components[c])
    &&& forall|c: int, k: int|
        0 <= c < components.len() && 0 <= k < components[c].len() ==> {
            let u = #[trigger] sources[c][k];
            0 <= u < unique.len() && assigned[u] && components[c][k] == unique[u]
        }
    &&& forall|c: int, k: int, d: int, l: int|
        0 <= c < components.len() && 0 <= k < components[c].len() && 0 <= d < components.len() && 0
            <= l < components[d].len() && (c != d || k != l) ==> #[trigger] sources[c][k]
            != #[trigger] sources[d][l]
    &&& forall|u: int| 0 <= u < unique.len() && #[trigger] assigned[u] ==> is_placed(sources, u)
    &&& forall|c: int, k: int, d: int, l: int|
        0 <= c < components.len() && 0 <= k < components[c].len() && 0 <= d < components.len() && 0
            <= l < components[d].len() && c != d ==> !adjacent(
            #[trigger] components[c][k].0,
            #[trigger] components[d][l].0,
        )
    &&& forall|c: int, k: int, u: int|
        0 <= c < components.len() && 0 <= k < components[c].len() && 0 <= u < unique.len()
            && !assigned[u] ==> !adjacent(#[trigger] components[c][k].0, #[trigger] unique[u].0)
    &&& forall|c: int, d: int, l: int|
        0 <= c <= d < components.len() && 0 <= l < components[d].len() ==> !scan_before(
            #[trigger] components[d][l].0,
            #[trigger] components[c][0].0,
        )
    &&& forall|c: int, u: int|
        0 <= c < components.len() && 0 <= u < unique.len() && !assigned[u] ==> !scan_before(
            #[trigger] unique[u].0,
            #[trigger] components[c][0].0,
        )
}

/// Appending a freshly grown, closed piece keeps the bookkeeping between pieces
#[verifier::rlimit(40)]
proof fn lemma_split_progress_close<M, A>(
    unique: Seq<([i32; 2], M, A)>,
    before: Seq<bool>,
    after: Seq<bool>,
    components: Seq<Seq<([i32; 2], M, A)>>,
    sources: Seq<Seq<int>>,
    component: Seq<([i32; 2], M, A)>,
    source: Seq<int>,
    start: int,
)
    requires
        split_progress(unique, before, components, sources),
        0 <= start < unique.len(),
        !before[start],
        forall|u: int|
            0 <= u < unique.len() && !before[u] ==> !scan_before(#[trigger] unique[u].0, unique[start].0),
        after.len() == unique.len(),
        component.len() > 0,
        component[0] == unique[start],
        source.len() == component.len(),
        forall|k: int|
            0 <= k < component.len() ==> 0 <= #[trigger] source[k] < unique.len() && !before[source[k]]
                && component[k] == unique[source[k]],
        forall|a: int, b: int|
            0 <= a < component.len() && 0 <= b < component.len() && a != b ==> #[trigger] source[a]
                != #[trigger] source[b],
        forall|u: int|
            0 <= u < unique.len() ==> (#[trigger] after[u] <==> (before[u] || in_source(source, u))),
        grows_by_adjacency(component),
        forall|k: int, u: int|
            0 <= k < component.len() && 0 <= u < unique.len() && !after[u] ==> !adjacent(
                #[trigger] component[k].0,
                #[trigger] unique[u].0,
            ),
        forall|k: int| 0 <= k < component.len() ==> !scan_before(#[trigger] component[k].0, component[0].0),
    ensures
        split_progress(unique, after, components.push(component), sources.push(source)),
{
    let comps = components.push(component);
    let srcs = sources.push(source);
    let m = components.len() as int;
    assert(comps[m] == component);
    assert(srcs[m] == source);
    assert forall|c: int| 0 <= c < comps.len() implies (#[trigger] srcs[c]).len() == comps[c].len() by {
        if c < m {
            assert(srcs[c] == sources[c] && comps[c] == components[c]);
        }
    }
    assert forall|c: int| 0 <= c < comps.len() implies (#[trigger] comps[c]).len() > 0 by {
        if c < m {
            assert(comps[c] == components[c]);
        }
    }
    assert forall|c: int| 0 <= c < comps.len() implies grows_by_adjacency(#[trigger] comps[c]) by {
        if c < m {
            assert(comps[c] == components[c]);
        }
    }
    assert forall|c: int, k: int| 0 <= c < comps.len() && 0 <= k < comps[c].len() implies {
        let u = #[trigger] srcs[c][k];
        0 <= u < unique.len() && after[u] && comps[c][k] == unique[u]
    } by {
        if c < m {
            assert(srcs[c] == sources[c] && comps[c] == components[c]);
            let u = sources[c][k];
            assert(before[u]);
        } else {
            let u = source[k];
            assert(in_source(source, u));
        }
    }
    assert forall|c: int, k: int, d: int, l: int|
        0 <= c < comps.len() && 0 <= k < comps[c].len() && 0 <= d < comps.len() && 0 <= l
            < comps[d].len() && (c != d || k != l) implies #[trigger] srcs[c][k] != #[trigger] srcs[d][l] by {
        if c < m && d < m {
            assert(srcs[c] == sources[c] && srcs[d] == sources[d]);
            assert(comps[c] == components[c] && comps[d] == components[d]);
        } else if c < m {
            assert(srcs[c] == sources[c] && comps[c] == components[c]);
            assert(before[sources[c][k]]);
            assert(!before[source[l]]);
        } else if d < m {
            assert(srcs[d] == sources[d] && comps[d] == components[d]);
            assert(before[sources[d][l]]);
            assert(!before[source[k]]);
        }
    }
    assert forall|u: int| 0 <= u < unique.len() && #[trigger] after[u] implies is_placed(srcs, u) by {
        if before[u] {
            let (c, k) = choose|c: int, k: int|
                0 <= c < sources.len() && 0 <= k < sources[c].len() && #[trigger] sources[c][k] == u;
            assert(srcs[c] == sources[c]);
            assert(srcs[c][k] == u);
        } else {
            assert(in_source(source, u));
            let k = choose|k: int| 0 <= k < source.len() && source[k] == u;
            assert(srcs[m][k] == u);
        }
    }
    assert forall|c: int, k: int, d: int, l: int|
        0 <= c < comps.len() && 0 <= k < comps[c].len() && 0 <= d < comps.len() && 0 <= l
            < comps[d].len() && c != d implies !adjacent(
        #[trigger] comps[c][k].0,
        #[trigger] comps[d][l].0,
    ) by {
        if c < m && d < m {
            assert(comps[c] == components[c] && comps[d] == components[d]);
        } else if c < m {
            assert(comps[c] == components[c]);
            assert(comps[d][l] == unique[source[l]]);
            assert(!before[source[l]]);
            assert(!adjacent(components[c][k].0, unique[source[l]].0));
        } else {
            assert(comps[d] == components[d]);
            assert(comps[c][k] == unique[source[k]]);
            assert(!before[source[k]]);
            assert(!adjacent(components[d][l].0, unique[source[k]].0));
        }
    }
    assert forall|c: int, k: int, u: int|
        0 <= c < comps.len() && 0 <= k < comps[c].len() && 0 <= u < unique.len()
            && !after[u] implies !adjacent(#[trigger] comps[c][k].0, #[trigger] unique[u].0) by {
        if c < m {
            assert(comps[c] == components[c]);
        }
    }
    assert forall|c: int, d: int, l: int|
        0 <= c <= d < comps.len() && 0 <= l < comps[d].len() implies !scan_before(
        #[trigger] comps[d][l].0,
        #[trigger] comps[c][0].0,
    ) by {
        if d < m {
            assert(comps[c] == components[c] && comps[d] == components[d]);
        } else if c < m {
            assert(comps[c] == components[c]);
            assert(comps[d][l] == unique[source[l]]);
            assert(!before[source[l]]);
        }
    }
    assert forall|c: int, u: int|
        0 <= c < comps.len() && 0 <= u < unique.len() && !after[u] implies !scan_before(
        #[trigger] unique[u].0,
        #[trigger] comps[c][0].0,
    ) by {
        if c < m {
            assert(comps[c] == components[c]);
        }
    }
}

/// Once every unique cell is assigned, the finished pieces split the input cells
proof fn lemma_split_complete<M, A>(
    cells: Seq<([i32; 2], M, A)>,
    unique: Seq<([i32; 2], M, A)>,
    assigned: Seq<bool>,
    components: Seq<Seq<([i32; 2], M, A)>>,
    sources: Seq<Seq<int>>,
)
    requires
        is_latest_per_position(cells, unique),
        split_progress(unique, assigned, components, sources),
        forall|u: int| 0 <= u < unique.len() ==> #[trigger] assigned[u],
    ensures
        is_component_split(cells, components),
{
    assert forall|c: int, k: int|
        0 <= c < components.len() && 0 <= k < components[c].len() implies is_latest_cell(
        cells,
        #[trigger] components[c][k],
    ) by {
        let u = sources[c][k];
        assert(components[c][k] == unique[u]);
        assert(is_latest_cell(cells, unique[u]));
    }
    assert forall|i: int| is_latest(cells, i) implies is_split_member(components, #[trigger] cells[i]) by {
        assert(is_listed(unique, cells[i]));
        let u = choose|u: int| 0 <= u < unique.len() && unique[u] == cells[i];
        assert(assigned[u]);
        assert(is_placed(sources, u));
        let (c, k) = choose|c: int, k: int|
            0 <= c < sources.len() && 0 <= k < sources[c].len() && #[trigger] sources[c][k] == u;
        assert(components[c][k] == cells[i]);
    }
    assert forall|c: int, k: int, d: int, l: int|
        0 <= c < components.len() && 0 <= k < components[c].len() && 0 <= d < components.len() && 0
            <= l < components[d].len() && (c != d || k != l) implies !same_position(
        #[trigger] components[c][k].0,
        #[trigger] components[d][l].0,
    ) by {
        let u = sources[c][k];
        let v = sources[d][l];
        assert(u != v);
        assert(components[c][k] == unique[u] && components[d][l] == unique[v]);
    }
}

/// Whether every coordinate of `cells` leaves room for one more cell above it
pub open spec fn cells_below_max<M, A>(cells: Seq<([i32; 2], M, A)>) -> bool {
    forall|i: int| 0 <= i < cells.len() ==> (#[trigger] cells[i]).0[0] < i32::MAX && cells[i].0[1] < i32::MAX
}

impl<M: Copy, A: Copy> RigidCellularBody<M, A> {
    /// Builds the greedy rectangle cover of the occupied body-local cells.
    ///
    /// Cells are visited in row-major scan order; each cell not yet covered starts a
    /// rectangle that grows right, then up, over uncovered occupied cells.
    pub fn collision_shape(cells: &[([i32; 2], M, A)]) -> (rectangles: Vec<CellRectangle>)
        requires
            cells_below_max(cells@),
        ensures
            is_greedy_rectangle_cover(cell_occupancy(cells@), rectangles@),
    {
        let points: Vec<[i32; 2]> = occupied_positions(cells);
        proof {
            assert forall|k: int| 0 <= k < points.len() implies (#[trigger] points@[k])[0] < i32::MAX
                && points@[k][1] < i32::MAX by {
                assert(listed_at(points@, points@[k][0] as int, points@[k][1] as int));
                assert(occupied_at(cells@, points@[k][0] as int, points@[k][1] as int));
                let i = choose|i: int|
                    0 <= i < cells@.len() && (#[trigger] cells@[i]).0[0] == points@[k][0] && cells@[i].0[1]
                        == points@[k][1];
            }
        }
        let n: usize = points.len();
        let mut consumed: Vec<bool> = Vec::new();
        while consumed.len() < n
            invariant
                consumed.len() <= n,
                forall|k: int| 0 <= k < consumed.len() ==> !#[trigger] consumed@[k],
            decreases n - consumed.len(),
        {
            consumed.push(false);
        }
        let mut rectangles: Vec<CellRectangle> = Vec::new();
        loop
            invariant
                n == points.len(),
                consumed.len() == n,
                distinct_points(points@),
                points_below_max(points@),
                forall|x: int, y: int| occupied_at(cells@, x, y) <==> listed_at(points@, x, y),
                forall|k: int|
                    0 <= k < n ==> (#[trigger] consumed@[k] <==> covered_by(
                        rectangles@,
                        rectangles.len() as int,
                        points@[k][0] as int,
                        points@[k][1] as int,
                    )),
                greedy_steps(cell_occupancy(cells@), rectangles@),
            decreases count_false(consumed@),
        {
            match first_free(&points, &consumed) {
                None => {
                    proof {
                        assert forall|x: int, y: int|
                            occupied_at(cells@, x, y) <==> covered_by(
                                rectangles@,
                                rectangles.len() as int,
                                x,
                                y,
                            ) by {
                            if occupied_at(cells@, x, y) {
                                assert(listed_at(points@, x, y));
                                let k = choose|k: int|
                                    0 <= k < points.len() && (#[trigger] points@[k])[0] == x
                                        && points@[k][1] == y;
                                assert(consumed@[k]);
                            }
                            if covered_by(rectangles@, rectangles.len() as int, x, y) {
                                let r = choose|r: int|
                                    0 <= r < rectangles.len() && r < rectangles@.len() && in_rectangle(
                                        #[trigger] rectangles@[r],
                                        x,
                                        y,
                                    );
                                assert(free_cell(cell_occupancy(cells@), rectangles@, r, x, y));
                            }
                        }
                    }
                    return rectangles;
                },
                Some(start) => {
                    let ghost before = consumed@;
                    let rectangle = take_rectangle(&points, &mut consumed, start);
                    proof {
                        lemma_greedy_step(
                            cell_occupancy(cells@),
                            rectangles@,
                            rectangle,
                            points@,
                            before,
                            consumed@,
                            start as int,
                        );
                    }
                    rectangles.push(rectangle);
                },
            }
        }
    }

    /// Splits occupied local cells into deterministic 4-connected components.
    ///
    /// Where several cells share a position the last one listed wins. Each component
    /// starts at its scan-order first cell, and components come in scan order of
    /// those first cells.
    pub fn connected_components(cells: Vec<([i32; 2], M, A)>) -> (components: Vec<
        Vec<([i32; 2], M, A)>,
    >)
        requires
            all_neighbors_representable(cells@),
        ensures
            is_component_split(cells@, cell_lists(components@)),
    {
        let unique: Vec<([i32; 2], M, A)> = latest_cells(&cells);
        proof {
            assert forall|k: int| 0 <= k < unique.len() implies neighbors_representable(
                #[trigger] unique@[k].0,
            ) by {
                assert(is_latest_cell(cells@, unique@[k]));
                let i = choose|i: int| is_latest(cells@, i) && cells@[i] == unique@[k];
                assert(neighbors_representable(cells@[i].0));
            }
        }
        let n: usize = unique.len();
        let mut assigned: Vec<bool> = Vec::new();
        while assigned.len() < n
            invariant
                assigned.len() <= n,
                forall|u: int| 0 <= u < assigned.len() ==> !#[trigger] assigned@[u],
            decreases n - assigned.len(),
        {
            assigned.push(false);
        }
        let mut components: Vec<Vec<([i32; 2], M, A)>> = Vec::new();
        let ghost mut sources: Seq<Seq<int>> = Seq::empty();
        proof {
            assert(cell_lists(components@) =~= Seq::<Seq<([i32; 2], M, A)>>::empty());
        }
        loop
            invariant
                n == unique.len(),
                is_latest_per_position(cells@, unique@),
                all_neighbors_representable(unique@),
                split_progress(unique@, assigned@, cell_lists(components@), sources),
            decreases count_false(assigned@),
        {
            match first_unassigned(&unique, &assigned) {
                None => {
                    proof {
                        lemma_split_complete(
                            cells@,
                            unique@,
                            assigned@,
                            cell_lists(components@),
                            sources,
                        );
                    }
                    return components;
                },
                Some(start) => {
                    let ghost before = assigned@;
                    let (component, source) = grow_component(&unique, &mut assigned, start);
                    proof {
                        lemma_split_progress_close(
                            unique@,
                            before,
                            assigned@,
                            cell_lists(components@),
                            sources,
                            component@,
                            source@,
                            start as int,
                        );
                        sources = sources.push(source@);
                    }
                    let ghost previous = components@;
                    components.push(component);
                    proof {
                        assert(cell_lists(components@) =~= cell_lists(previous).push(component@));
                    }
                },
            }
        }
    }
}

/// Whether some cell of `cells` is at (`x`, `y`)
pub open spec fn occupied_at<M, A>(cells: Seq<([i32; 2], M, A)>, x: int, y: int) -> bool {
    exists|i: int| 0 <= i < cells.len() && (#[trigger] cells[i]).0[0] == x && cells[i].0[1] == y
}

/// The occupancy of the cells of `cells`, as a predicate on cell coordinates
pub open spec fn cell_occupancy<M, A>(cells: Seq<([i32; 2], M, A)>) -> spec_fn(int, int) -> bool {
    |x: int, y: int| occupied_at(cells, x, y)
}

/// Whether cell (`x`, `y`) is occupied and not inside any of the first `count` rectangles
pub open spec fn free_cell(
    occupied: spec_fn(int, int) -> bool,
    rectangles: Seq<CellRectangle>,
    count: int,
    x: int,
    y: int,
) -> bool {
    occupied(x, y) && !covered_by(rectangles, count, x, y)
}

/// Whether row `row` of `rectangle`'s columns holds a cell that is not free before
/// rectangle number `count`
pub open spec fn row_blocked(
    occupied: spec_fn(int, int) -> bool,
    rectangles: Seq<CellRectangle>,
    count: int,
    rectangle: CellRectangle,
    row: int,
) -> bool {
    exists|column: int|
        rectangle.x <= column < rectangle.x + rectangle.width && !#[trigger] free_cell(
            occupied,
            rectangles,
            count,
            column,
            row,
        )
}

/// Each of `rectangles` is the greedy rectangle taken after the ones before it: it
/// starts at the scan-order first occupied cell not yet covered, grows right as far
/// as uncovered occupied cells go, then grows up while its whole next row is
/// uncovered and occupied. Such rectangles are pairwise disjoint.
pub open spec fn greedy_steps(occupied: spec_fn(int, int) -> bool, rectangles: Seq<CellRectangle>) -> bool {
    &&& forall|r: int|
        0 <= r < rectangles.len() ==> (#[trigger] rectangles[r]).width >= 1 && rectangles[r].height
            >= 1
    &&& forall|r: int, x: int, y: int|
        0 <= r < rectangles.len() && #[trigger] in_rectangle(rectangles[r], x, y) ==> free_cell(
            occupied,
            rectangles,
            r,
            x,
            y,
        )
    &&& forall|r: int, x: int, y: int|
        0 <= r < rectangles.len() && #[trigger] free_cell(occupied, rectangles, r, x, y) ==> !(y
            < rectangles[r].y || (y == rectangles[r].y && x < rectangles[r].x))
    &&& forall|r: int|
        0 <= r < rectangles.len() ==> !free_cell(
            occupied,
            rectangles,
            r,
            (#[trigger] rectangles[r]).x + rectangles[r].width,
            rectangles[r].y as int,
        )
    &&& forall|r: int|
        0 <= r < rectangles.len() ==> row_blocked(
            occupied,
            rectangles,
            r,
            #[trigger] rectangles[r],
            rectangles[r].y + rectangles[r].height,
        )
    &&& forall|r: int, q: int, x: int, y: int|
        0 <= r < q < rectangles.len() ==> !(#[trigger] in_rectangle(rectangles[r], x, y)
            && #[trigger] in_rectangle(rectangles[q], x, y))
}

/// `rectangles` is the greedy row-major rectangle cover of the occupied cells: the
/// greedy rectangles of `greedy_steps`, which together cover exactly the occupied cells
pub open spec fn is_greedy_rectangle_cover(
    occupied: spec_fn(int, int) -> bool,
    rectangles: Seq<CellRectangle>,
) -> bool {
    &&& greedy_steps(occupied, rectangles)
    &&& forall|x: int, y: int|
        #[trigger] occupied(x, y) <==> covered_by(rectangles, rectangles.len() as int, x, y)
}

/// Whether some entry of `points` is cell (`x`, `y`)
pub open spec fn listed_at(points: Seq<[i32; 2]>, x: int, y: int) -> bool {
    exists|k: int| 0 <= k < points.len() && (#[trigger] points[k])[0] == x && points[k][1] == y
}

/// Whether some entry of `points` not yet `consumed` is cell (`x`, `y`)
pub open spec fn is_free(points: Seq<[i32; 2]>, consumed: Seq<bool>, x: int, y: int) -> bool {
    exists|k: int|
        0 <= k < points.len() && !consumed[k] && (#[trigger] points[k])[0] == x && points[k][1] == y
}

/// Whether no two entries of `points` are the same cell
pub open spec fn distinct_points(points: Seq<[i32; 2]>) -> bool {
    forall|a: int, b: int|
        0 <= a < points.len() && 0 <= b < points.len() && a != b ==> !same_position(
            #[trigger] points[a],
            #[trigger] points[b],
        )
}

/// Whether every coordinate of `points` leaves room for one more cell above it
pub open spec fn points_below_max(points: Seq<[i32; 2]>) -> bool {
    forall|k: int| 0 <= k < points.len() ==> (#[trigger] points[k])[0] < i32::MAX && points[k][1] < i32::MAX
}

/// Whether one of the first `count` cells of `cells` is at (`x`, `y`)
pub open spec fn occupied_before<M, A>(cells: Seq<([i32; 2], M, A)>, count: int, x: int, y: int) -> bool {
    exists|i: int| 0 <= i < count && (#[trigger] cells[i]).0[0] == x && cells[i].0[1] == y
}

/// The distinct positions of `cells`
fn occupied_positions<M: Copy, A: Copy>(cells: &[([i32; 2], M, A)]) -> (points: Vec<[i32; 2]>)
    ensures
        distinct_points(points@),
        forall|x: int, y: int| occupied_at(cells@, x, y) <==> listed_at(points@, x, y),
{
    let n: usize = cells.len();
    let mut points: Vec<[i32; 2]> = Vec::new();
    let mut i: usize = 0;
    while i < n
        invariant
            n == cells.len(),
            i <= n,
            distinct_points(points@),
            forall|x: int, y: int| listed_at(points@, x, y) <==> occupied_before(cells@, i as int, x, y),
        decreases n - i,
    {
        let position: [i32; 2] = cells[i].0;
        let ghost previous = points@;
        match index_at(&points, position[0], position[1]) {
            Some(k) => {
                proof {
                    assert forall|x: int, y: int|
                        listed_at(points@, x, y) <==> occupied_before(cells@, i + 1, x, y) by {
                        if occupied_before(cells@, i + 1, x, y) && !occupied_before(cells@, i as int, x, y) {
                            let j = choose|j: int|
                                0 <= j < i + 1 && (#[trigger] cells@[j]).0[0] == x && cells@[j].0[1] == y;
                            assert(j == i);
                            assert(points@[k as int][0] == x && points@[k as int][1] == y);
                        }
                        if occupied_before(cells@, i as int, x, y) {
                            let j = choose|j: int|
                                0 <= j < i && (#[trigger] cells@[j]).0[0] == x && cells@[j].0[1] == y;
                            assert(occupied_before(cells@, i + 1, x, y)) by {
                                assert(cells@[j].0[0] == x);
                            }
                        }
                    }
                }
            },
            None => {
                points.push(position);
                proof {
                    let last: int = points.len() - 1;
                    assert forall|a: int, b: int|
                        0 <= a < points.len() && 0 <= b < points.len() && a != b implies !same_position(
                        #[trigger] points@[a],
                        #[trigger] points@[b],
                    ) by {
                        if a == last {
                            assert(points@[b] == previous[b]);
                        } else if b == last {
                            assert(points@[a] == previous[a]);
                        } else {
                            assert(points@[a] == previous[a] && points@[b] == previous[b]);
                        }
                    }
                    assert forall|x: int, y: int|
                        listed_at(points@, x, y) <==> occupied_before(cells@, i + 1, x, y) by {
                        if listed_at(points@, x, y) {
                            let k = choose|k: int|
                                0 <= k < points.len() && (#[trigger] points@[k])[0] == x && points@[k][1]
                                    == y;
                            if k == last {
                                assert(cells@[i as int].0[0] == x && cells@[i as int].0[1] == y);
                            } else {
                                assert(previous[k] == points@[k]);
                                assert(listed_at(previous, x, y));
                                let j = choose|j: int|
                                    0 <= j < i && (#[trigger] cells@[j]).0[0] == x && cells@[j].0[1] == y;
                                assert(cells@[j].0[0] == x);
                            }
                        }
                        if occupied_before(cells@, i + 1, x, y) {
                            let j = choose|j: int|
                                0 <= j < i + 1 && (#[trigger] cells@[j]).0[0] == x && cells@[j].0[1] == y;
                            if j == i {
                                assert(points@[last][0] == x && points@[last][1] == y);
                            } else {
                                assert(occupied_before(cells@, i as int, x, y));
                                assert(listed_at(previous, x, y));
                                let k = choose|k: int|
                                    0 <= k < previous.len() && (#[trigger] previous[k])[0] == x
                                        && previous[k][1] == y;
                                assert(points@[k] == previous[k]);
                            }
                        }
                    }
                }
            },
        }
        i = i + 1;
    }
    proof {
        assert forall|x: int, y: int| occupied_at(cells@, x, y) <==> listed_at(points@, x, y) by {
            if occupied_at(cells@, x, y) {
                let j = choose|j: int| 0 <= j < cells@.len() && (#[trigger] cells@[j]).0[0] == x && cells@[j].0[1] == y;
                assert(occupied_before(cells@, n as int, x, y));
            }
            if listed_at(points@, x, y) {
                assert(occupied_before(cells@, n as int, x, y));
                let j = choose|j: int| 0 <= j < n && (#[trigger] cells@[j]).0[0] == x && cells@[j].0[1] == y;
                assert(cells@[j].0[0] == x);
            }
        }
    }
    points
}

/// The index of the entry of `points` at cell (`x`, `y`), if there is one
fn index_at(points: &Vec<[i32; 2]>, x: i32, y: i32) -> (found: Option<usize>)
    ensures
        found matches Some(k) ==> k < points.len() && points@[k as int][0] == x && points@[k as int][1] == y,
        found is None ==> !listed_at(points@, x as int, y as int),
{
    let n: usize = points.len();
    let mut k: usize = 0;
    while k < n
        invariant
            n == points.len(),
            k <= n,
            forall|j: int| 0 <= j < k ==> !((#[trigger] points@[j])[0] == x && points@[j][1] == y),
        decreases n - k,
    {
        if points[k][0] == x && points[k][1] == y {
            return Some(k);
        }
        k = k + 1;
    }
    None
}

/// Whether cell (`x`, `y`) is listed in `points` and not yet consumed
fn is_free_at(points: &Vec<[i32; 2]>, consumed: &Vec<bool>, x: i32, y: i32) -> (free: bool)
    requires
        consumed.len() == points.len(),
        distinct_points(points@),
    ensures
        free == is_free(points@, consumed@, x as int, y as int),
{
    match index_at(points, x, y) {
        Some(k) => {
            let free: bool = !consumed[k];
            proof {
                if is_free(points@, consumed@, x as int, y as int) {
                    let j = choose|j: int|
                        0 <= j < points.len() && !consumed@[j] && (#[trigger] points@[j])[0] == x
                            && points@[j][1] == y;
                    if j != k {
                        assert(same_position(points@[j], points@[k as int]));
                    }
                }
            }
            free
        },
        None => false,
    }
}

/// The not yet consumed entry of `points` that comes first in scan order, if any
fn first_free(points: &Vec<[i32; 2]>, consumed: &Vec<bool>) -> (first: Option<usize>)
    requires
        consumed.len() == points.len(),
    ensures
        first matches Some(s) ==> s < points.len() && !consumed@[s as int] && forall|k: int|
            0 <= k < points.len() && !consumed@[k] ==> !scan_before(
                #[trigger] points@[k],
                points@[s as int],
            ),
        first is None ==> forall|k: int| 0 <= k < points.len() ==> #[trigger] consumed@[k],
{
    let n: usize = points.len();
    let mut best: Option<usize> = None;
    let mut k: usize = 0;
    while k < n
        invariant
            n == points.len(),
            consumed.len() == n,
            k <= n,
            best matches Some(s) ==> s < k && !consumed@[s as int] && forall|j: int|
                0 <= j < k && !consumed@[j] ==> !scan_before(#[trigger] points@[j], points@[s as int]),
            best is None ==> forall|j: int| 0 <= j < k ==> #[trigger] consumed@[j],
        decreases n - k,
    {
        if !consumed[k] {
            match best {
                None => {
                    best = Some(k);
                },
                Some(s) => {
                    let candidate: [i32; 2] = points[k];
                    let current: [i32; 2] = points[s];
                    if candidate[1] < current[1] || (candidate[1] == current[1] && candidate[0]
                        < current[0]) {
                        best = Some(k);
                    }
                },
            }
        }
        k = k + 1;
    }
    best
}

/// Whether every cell of row `row` from column `x` up to `x + width` is free
fn row_is_free(points: &Vec<[i32; 2]>, consumed: &Vec<bool>, x: i32, width: u32, row: i32) -> (free: bool)
    requires
        consumed.len() == points.len(),
        distinct_points(points@),
        x + width <= i32::MAX,
    ensures
        free <==> forall|column: int|
            x <= column < x + width ==> #[trigger] is_free(points@, consumed@, column, row as int),
{
    let mut offset: u32 = 0;
    while offset < width
        invariant
            consumed.len() == points.len(),
            distinct_points(points@),
            offset <= width,
            x + width <= i32::MAX,
            forall|column: int|
                x <= column < x + offset ==> #[trigger] is_free(points@, consumed@, column, row as int),
        decreases width - offset,
    {
        if !is_free_at(points, consumed, (x as i64 + offset as i64) as i32, row) {
            return false;
        }
        offset = offset + 1;
    }
    true
}

/// Whether cell (`column`, `row`) is covered by the part of a `width` by `height`
/// block at (`x`, `y`) that comes before cell (`x + dx`, `y + dy`) in scan order
pub open spec fn swept(x: int, y: int, width: int, height: int, dx: int, dy: int, column: int, row: int) -> bool {
    &&& x <= column < x + width
    &&& y <= row < y + height
    &&& (row < y + dy || (row == y + dy && column < x + dx))
}

/// Takes the greedy rectangle that starts at free cell `start`: it grows right while
/// the next cell is free, then up while the whole next row is free, and every cell
/// it covers is consumed
#[verifier::rlimit(40)]
fn take_rectangle(points: &Vec<[i32; 2]>, consumed: &mut Vec<bool>, start: usize) -> (rectangle:
    CellRectangle)
    requires
        old(consumed).len() == points.len(),
        distinct_points(points@),
        points_below_max(points@),
        start < points.len(),
        !old(consumed)@[start as int],
    ensures
        final(consumed).len() == points.len(),
        rectangle.x == points@[start as int][0],
        rectangle.y == points@[start as int][1],
        rectangle.width >= 1,
        rectangle.height >= 1,
        forall|x: int, y: int|
            #[trigger] in_rectangle(rectangle, x, y) ==> is_free(points@, old(consumed)@, x, y),
        !is_free(points@, old(consumed)@, rectangle.x + rectangle.width, rectangle.y as int),
        exists|column: int|
            rectangle.x <= column < rectangle.x + rectangle.width && !#[trigger] is_free(
                points@,
                old(consumed)@,
                column,
                rectangle.y + rectangle.height,
            ),
        forall|k: int|
            0 <= k < points.len() ==> (#[trigger] final(consumed)@[k] <==> (old(consumed)@[k]
                || in_rectangle(rectangle, points@[k][0] as int, points@[k][1] as int))),
        count_false(final(consumed)@) < count_false(old(consumed)@),
{
    let n: usize = points.len();
    let x: i32 = points[start][0];
    let y: i32 = points[start][1];
    let ghost initial = consumed@;
    assert(is_free(points@, consumed@, x as int, y as int)) by {
        assert(points@[start as int][0] == x && points@[start as int][1] == y);
    }
    let mut width: u32 = 1;
    loop
        invariant
            consumed@ == initial,
            consumed.len() == points.len(),
            distinct_points(points@),
            points_below_max(points@),
            1 <= width,
            x + width <= i32::MAX,
            forall|column: int|
                x <= column < x + width ==> #[trigger] is_free(points@, consumed@, column, y as int),
        ensures
            consumed@ == initial,
            1 <= width,
            x + width <= i32::MAX,
            forall|column: int|
                x <= column < x + width ==> #[trigger] is_free(points@, consumed@, column, y as int),
            !is_free(points@, consumed@, x + width, y as int),
        decreases i32::MAX - (x + width),
    {
        let next: i32 = (x as i64 + width as i64) as i32;
        if !is_free_at(points, consumed, next, y) {
            break;
        }
        proof {
            let k = choose|k: int|
                0 <= k < points.len() && !consumed@[k] && (#[trigger] points@[k])[0] == next
                    && points@[k][1] == y;
            assert(points@[k][0] < i32::MAX);
        }
        width = width + 1;
    }
    let mut height: u32 = 1;
    loop
        invariant
            consumed@ == initial,
            consumed.len() == points.len(),
            distinct_points(points@),
            points_below_max(points@),
            1 <= width,
            x + width <= i32::MAX,
            1 <= height,
            y + height <= i32::MAX,
            forall|column: int, row: int|
                x <= column < x + width && y <= row < y + height ==> #[trigger] is_free(
                    points@,
                    consumed@,
                    column,
                    row,
                ),
        ensures
            1 <= height,
            y + height <= i32::MAX,
            forall|column: int, row: int|
                x <= column < x + width && y <= row < y + height ==> #[trigger] is_free(
                    points@,
                    consumed@,
                    column,
                    row,
                ),
            exists|column: int|
                x <= column < x + width && !#[trigger] is_free(points@, consumed@, column, y + height),
        decreases i32::MAX - (y + height),
    {
        let row: i32 = (y as i64 + height as i64) as i32;
        if !row_is_free(points, consumed, x, width, row) {
            break;
        }
        proof {
            assert(is_free(points@, consumed@, x as int, row as int));
            let k = choose|k: int|
                0 <= k < points.len() && !consumed@[k] && (#[trigger] points@[k])[0] == x
                    && points@[k][1] == row;
            assert(points@[k][1] < i32::MAX);
        }
        height = height + 1;
    }
    let mut dy: u32 = 0;
    while dy < height
        invariant
            consumed.len() == n,
            n == points.len(),
            distinct_points(points@),
            1 <= width,
            x + width <= i32::MAX,
            1 <= height,
            y + height <= i32::MAX,
            dy <= height,
            forall|column: int, row: int|
                x <= column < x + width && y <= row < y + height ==> #[trigger] is_free(
                    points@,
                    initial,
                    column,
                    row,
                ),
            forall|k: int|
                0 <= k < n ==> (#[trigger] consumed@[k] <==> (initial[k] || swept(
                    x as int,
                    y as int,
                    width as int,
                    height as int,
                    0,
                    dy as int,
                    points@[k][0] as int,
                    points@[k][1] as int,
                ))),
            count_false(consumed@) <= count_false(initial),
            dy > 0 ==> count_false(consumed@) < count_false(initial),
        decreases height - dy,
    {
        let mut dx: u32 = 0;
        while dx < width
            invariant
                consumed.len() == n,
                n == points.len(),
                distinct_points(points@),
                1 <= width,
                x + width <= i32::MAX,
                1 <= height,
                y + height <= i32::MAX,
                dy < height,
                dx <= width,
                forall|column: int, row: int|
                    x <= column < x + width && y <= row < y + height ==> #[trigger] is_free(
                        points@,
                        initial,
                        column,
                        row,
                    ),
                forall|k: int|
                    0 <= k < n ==> (#[trigger] consumed@[k] <==> (initial[k] || swept(
                        x as int,
                        y as int,
                        width as int,
                        height as int,
                        dx as int,
                        dy as int,
                        points@[k][0] as int,
                        points@[k][1] as int,
                    ))),
                count_false(consumed@) <= count_false(initial),
                dy > 0 || dx > 0 ==> count_false(consumed@) < count_false(initial),
            decreases width - dx,
        {
            let column: i32 = (x as i64 + dx as i64) as i32;
            let row: i32 = (y as i64 + dy as i64) as i32;
            match index_at(points, column, row) {
                Some(k) => {
                    proof {
                        assert(is_free(points@, initial, column as int, row as int));
                        let j = choose|j: int|
                            0 <= j < points.len() && !initial[j] && (#[trigger] points@[j])[0]
                                == column && points@[j][1] == row;
                        if j != k {
                            assert(same_position(points@[j], points@[k as int]));
                        }
                        assert(!consumed@[k as int]);
                        lemma_count_false_set(consumed@, k as int);
                    }
                    consumed.set(k, true);
                    proof {
                        assert forall|j: int| 0 <= j < n implies (#[trigger] consumed@[j] <==> (
                        initial[j] || swept(
                            x as int,
                            y as int,
                            width as int,
                            height as int,
                            dx + 1,
                            dy as int,
                            points@[j][0] as int,
                            points@[j][1] as int,
                        ))) by {
                            if j != k && points@[j][0] == column && points@[j][1] == row {
                                assert(same_position(points@[j], points@[k as int]));
                            }
                        }
                    }
                },
                None => {
                    proof {
                        assert(is_free(points@, initial, column as int, row as int));
                        let j = choose|j: int|
                            0 <= j < points.len() && !initial[j] && (#[trigger] points@[j])[0]
                                == column && points@[j][1] == row;
                        assert(listed_at(points@, column as int, row as int));
                    }
                },
            }
            dx = dx + 1;
        }
        proof {
            assert forall|k: int| 0 <= k < n implies (#[trigger] consumed@[k] <==> (initial[k] || swept(
                x as int,
                y as int,
                width as int,
                height as int,
                0,
                dy + 1,
                points@[k][0] as int,
                points@[k][1] as int,
            ))) by {}
        }
        dy = dy + 1;
    }
    let rectangle = CellRectangle { x, y, width, height };
    proof {
        assert forall|k: int| 0 <= k < points.len() implies (#[trigger] consumed@[k] <==> (initial[k]
            || in_rectangle(rectangle, points@[k][0] as int, points@[k][1] as int))) by {}
    }
    rectangle
}

/// Coverage by the first `count` rectangles ignores rectangles appended later
proof fn lemma_covered_by_prefix(rectangles: Seq<CellRectangle>, next: CellRectangle, count: int)
    requires
        0 <= count <= rectangles.len(),
    ensures
        forall|x: int, y: int|
            #[trigger] covered_by(rectangles.push(next), count, x, y) == covered_by(rectangles, count, x, y),
{
    assert forall|x: int, y: int|
        #[trigger] covered_by(rectangles.push(next), count, x, y) == covered_by(rectangles, count, x, y) by {
        if covered_by(rectangles.push(next), count, x, y) {
            let j = choose|j: int|
                0 <= j < count && j < rectangles.push(next).len() && in_rectangle(
                    #[trigger] rectangles.push(next)[j],
                    x,
                    y,
                );
            assert(rectangles[j] == rectangles.push(next)[j]);
        }
        if covered_by(rectangles, count, x, y) {
            let j = choose|j: int|
                0 <= j < count && j < rectangles.len() && in_rectangle(#[trigger] rectangles[j], x, y);
            assert(rectangles[j] == rectangles.push(next)[j]);
        }
    }
}

/// A cell is free in the consumed-flag bookkeeping exactly when it is occupied and
/// not covered by the rectangles taken so far
proof fn lemma_free_matches(
    occupied: spec_fn(int, int) -> bool,
    rectangles: Seq<CellRectangle>,
    points: Seq<[i32; 2]>,
    consumed: Seq<bool>,
)
    requires
        distinct_points(points),
        consumed.len() == points.len(),
        forall|x: int, y: int| occupied(x, y) <==> listed_at(points, x, y),
        forall|k: int|
            0 <= k < points.len() ==> (#[trigger] consumed[k] <==> covered_by(
                rectangles,
                rectangles.len() as int,
                points[k][0] as int,
                points[k][1] as int,
            )),
    ensures
        forall|x: int, y: int|
            #[trigger] is_free(points, consumed, x, y) <==> free_cell(
                occupied,
                rectangles,
                rectangles.len() as int,
                x,
                y,
            ),
{
    assert forall|x: int, y: int|
        #[trigger] is_free(points, consumed, x, y) <==> free_cell(
            occupied,
            rectangles,
            rectangles.len() as int,
            x,
            y,
        ) by {
        if is_free(points, consumed, x, y) {
            let k = choose|k: int|
                0 <= k < points.len() && !consumed[k] && (#[trigger] points[k])[0] == x && points[k][1] == y;
            assert(listed_at(points, x, y));
        }
        if free_cell(occupied, rectangles, rectangles.len() as int, x, y) {
            assert(listed_at(points, x, y));
            let k = choose|k: int| 0 <= k < points.len() && (#[trigger] points[k])[0] == x && points[k][1] == y;
            assert(!consumed[k]);
        }
    }
}

/// Appending the rectangle that starts at the scan-order first free cell, grows right
/// to the first cell that is not free, and grows up to the first row that is not all
/// free, keeps the greedy steps
#[verifier::rlimit(40)]
pub proof fn lemma_greedy_extend(
    occupied: spec_fn(int, int) -> bool,
    rectangles: Seq<CellRectangle>,
    rectangle: CellRectangle,
)
    requires
        greedy_steps(occupied, rectangles),
        rectangle.width >= 1,
        rectangle.height >= 1,
        forall|x: int, y: int|
            #[trigger] in_rectangle(rectangle, x, y) ==> free_cell(
                occupied,
                rectangles,
                rectangles.len() as int,
                x,
                y,
            ),
        forall|x: int, y: int|
            #[trigger] free_cell(occupied, rectangles, rectangles.len() as int, x, y) ==> !(y
                < rectangle.y || (y == rectangle.y && x < rectangle.x)),
        !free_cell(
            occupied,
            rectangles,
            rectangles.len() as int,
            rectangle.x + rectangle.width,
            rectangle.y as int,
        ),
        row_blocked(
            occupied,
            rectangles,
            rectangles.len() as int,
            rectangle,
            rectangle.y + rectangle.height,
        ),
    ensures
        greedy_steps(occupied, rectangles.push(rectangle)),
        forall|x: int, y: int|
            #[trigger] covered_by(rectangles.push(rectangle), rectangles.len() + 1int, x, y) == (
            covered_by(rectangles, rectangles.len() as int, x, y) || in_rectangle(rectangle, x, y)),
{
    let extended = rectangles.push(rectangle);
    let m = rectangles.len() as int;
    assert forall|count: int, x: int, y: int|
        0 <= count <= m implies #[trigger] free_cell(occupied, extended, count, x, y) == free_cell(
        occupied,
        rectangles,
        count,
        x,
        y,
    ) by {
        lemma_covered_by_prefix(rectangles, rectangle, count);
        assert(covered_by(extended, count, x, y) == covered_by(rectangles, count, x, y));
    }
    assert(extended[m] == rectangle);
    assert forall|r: int| 0 <= r < extended.len() implies (#[trigger] extended[r]).width >= 1
        && extended[r].height >= 1 by {
        if r < m {
            assert(extended[r] == rectangles[r]);
        }
    }
    assert forall|r: int, x: int, y: int|
        0 <= r < extended.len() && #[trigger] in_rectangle(extended[r], x, y) implies free_cell(
        occupied,
        extended,
        r,
        x,
        y,
    ) by {
        if r < m {
            assert(extended[r] == rectangles[r]);
            assert(free_cell(occupied, rectangles, r, x, y));
        } else {
            assert(free_cell(occupied, rectangles, m, x, y));
        }
    }
    assert forall|r: int, x: int, y: int|
        0 <= r < extended.len() && #[trigger] free_cell(occupied, extended, r, x, y) implies !(y
        < extended[r].y || (y == extended[r].y && x < extended[r].x)) by {
        if r < m {
            assert(extended[r] == rectangles[r]);
            assert(free_cell(occupied, rectangles, r, x, y));
        } else {
            assert(free_cell(occupied, rectangles, m, x, y));
        }
    }
    assert forall|r: int| 0 <= r < extended.len() implies !free_cell(
        occupied,
        extended,
        r,
        (#[trigger] extended[r]).x + extended[r].width,
        extended[r].y as int,
    ) by {
        if r < m {
            assert(extended[r] == rectangles[r]);
            assert(!free_cell(
                occupied,
                rectangles,
                r,
                rectangles[r].x + rectangles[r].width,
                rectangles[r].y as int,
            ));
        } else {
            assert(!free_cell(occupied, rectangles, m, rectangle.x + rectangle.width, rectangle.y as int));
        }
    }
    assert forall|r: int| 0 <= r < extended.len() implies row_blocked(
        occupied,
        extended,
        r,
        #[trigger] extended[r],
        extended[r].y + extended[r].height,
    ) by {
        let (block, row) = if r < m {
            (rectangles[r], rectangles[r].y + rectangles[r].height)
        } else {
            (rectangle, rectangle.y + rectangle.height)
        };
        if r < m {
            assert(extended[r] == rectangles[r]);
        }
        assert(row_blocked(occupied, rectangles, r, block, row));
        let column = choose|column: int|
            block.x <= column < block.x + block.width && !#[trigger] free_cell(
                occupied,
                rectangles,
                r,
                column,
                row,
            );
        assert(!free_cell(occupied, extended, r, column, row));
    }
    assert forall|r: int, q: int, x: int, y: int|
        0 <= r < q < extended.len() implies !(#[trigger] in_rectangle(extended[r], x, y)
        && #[trigger] in_rectangle(extended[q], x, y)) by {
        assert(extended[r] == rectangles[r]);
        if q < m {
            assert(extended[q] == rectangles[q]);
        } else if in_rectangle(extended[r], x, y) && in_rectangle(extended[q], x, y) {
            assert(free_cell(occupied, rectangles, m, x, y));
            assert(covered_by(rectangles, m, x, y));
        }
    }
    assert forall|x: int, y: int|
        #[trigger] covered_by(extended, m + 1, x, y) == (covered_by(rectangles, m, x, y)
            || in_rectangle(rectangle, x, y)) by {
        lemma_covered_by_prefix(rectangles, rectangle, m);
        if covered_by(extended, m + 1, x, y) && !in_rectangle(rectangle, x, y) {
            let j = choose|j: int|
                0 <= j < m + 1 && j < extended.len() && in_rectangle(#[trigger] extended[j], x, y);
            assert(covered_by(extended, m, x, y));
        }
        if in_rectangle(rectangle, x, y) {
            assert(in_rectangle(extended[m], x, y));
        }
        if covered_by(rectangles, m, x, y) {
            assert(covered_by(extended, m, x, y));
            let j = choose|j: int|
                0 <= j < m && j < extended.len() && in_rectangle(#[trigger] extended[j], x, y);
            assert(covered_by(extended, m + 1, x, y));
        }
    }
}

/// Appending the rectangle taken at the scan-order first free cell keeps the greedy steps
proof fn lemma_greedy_step(
    occupied: spec_fn(int, int) -> bool,
    rectangles: Seq<CellRectangle>,
    rectangle: CellRectangle,
    points: Seq<[i32; 2]>,
    before: Seq<bool>,
    after: Seq<bool>,
    start: int,
)
    requires
        greedy_steps(occupied, rectangles),
        distinct_points(points),
        before.len() == points.len(),
        after.len() == points.len(),
        forall|x: int, y: int| occupied(x, y) <==> listed_at(points, x, y),
        forall|k: int|
            0 <= k < points.len() ==> (#[trigger] before[k] <==> covered_by(
                rectangles,
                rectangles.len() as int,
                points[k][0] as int,
                points[k][1] as int,
            )),
        0 <= start < points.len(),
        !before[start],
        forall|k: int| 0 <= k < points.len() && !before[k] ==> !scan_before(#[trigger] points[k], points[start]),
        rectangle.x == points[start][0],
        rectangle.y == points[start][1],
        rectangle.width >= 1,
        rectangle.height >= 1,
        forall|x: int, y: int| #[trigger] in_rectangle(rectangle, x, y) ==> is_free(points, before, x, y),
        !is_free(points, before, rectangle.x + rectangle.width, rectangle.y as int),
        exists|column: int|
            rectangle.x <= column < rectangle.x + rectangle.width && !#[trigger] is_free(
                points,
                before,
                column,
                rectangle.y + rectangle.height,
            ),
        forall|k: int|
            0 <= k < points.len() ==> (#[trigger] after[k] <==> (before[k] || in_rectangle(
                rectangle,
                points[k][0] as int,
                points[k][1] as int,
            ))),
    ensures
        greedy_steps(occupied, rectangles.push(rectangle)),
        forall|k: int|
            0 <= k < points.len() ==> (#[trigger] after[k] <==> covered_by(
                rectangles.push(rectangle),
                rectangles.len() + 1int,
                points[k][0] as int,
                points[k][1] as int,
            )),
{
    let m = rectangles.len() as int;
    lemma_free_matches(occupied, rectangles, points, before);
    assert forall|x: int, y: int|
        #[trigger] free_cell(occupied, rectangles, m, x, y) implies !(y < rectangle.y || (y
        == rectangle.y && x < rectangle.x)) by {
        assert(is_free(points, before, x, y));
        let k = choose|k: int|
            0 <= k < points.len() && !before[k] && (#[trigger] points[k])[0] == x && points[k][1] == y;
        assert(!scan_before(points[k], points[start]));
    }
    let column = choose|column: int|
        rectangle.x <= column < rectangle.x + rectangle.width && !#[trigger] is_free(
            points,
            before,
            column,
            rectangle.y + rectangle.height,
        );
    assert(!free_cell(occupied, rectangles, m, column, rectangle.y + rectangle.height));
    lemma_greedy_extend(occupied, rectangles, rectangle);
}

} // verus!
