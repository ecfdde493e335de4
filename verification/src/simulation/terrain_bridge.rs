//! The cache that bridges the latest cellular collision snapshot to collision-world
//! geometry: which dynamic tiles and static terrain patches are required this tick,
//! what each required entry asks of the collision world, when unrequired entries
//! expire, and the counters that describe the work done.
//!
//! Entries are keyed by their grid position packed into one word, so the caches are
//! hash maps of integers. The collision world itself stays with the caller, which
//! performs each returned action and hands inserted collider handles back.

use vstd::prelude::*;
use std::collections::{HashMap, HashSet};
use vstd::std_specs::hash::spec_keys_iter;
use vstd::std_specs::iter::IteratorSpec;
use crate::simulation::scene_physics_world::{
    is_dynamic_refresh, is_patch_refresh, refresh_dynamic_tile, refresh_terrain_patch, DynamicTile,
    DynamicTileAction, DynamicTileKey, GridSpan, TerrainPatch, TerrainPatchAction, TerrainPatchKey,
};
use crate::simulation_cellulars::collision_occupancy_snapshot::{spec_grid_tile_mask, CollisionOccupancySnapshot};
use crate::simulation::simulation_constants::{DYNAMIC_TILE_RETENTION_TICKS, TERRAIN_PATCH_RETENTION_TICKS};

verus! {

broadcast use vstd::std_specs::hash::group_hash_axioms;

/// The cache key of grid position (`x`, `y`): the two's-complement bits of `x`
/// above those of `y`
pub open spec fn grid_key(x: i32, y: i32) -> u64 {
    ((x as u32 as u64) << 32u64) | (y as u32 as u64)
}

/// Distinct grid positions have distinct cache keys
pub proof fn lemma_grid_key_injective(a: i32, b: i32, c: i32, d: i32)
    ensures
        grid_key(a, b) == grid_key(c, d) ==> a == c && b == d,
{
    assert(((a as u32 as u64) << 32u64) | (b as u32 as u64) == ((c as u32 as u64) << 32u64) | (d
        as u32 as u64) ==> a == c && b == d) by (bit_vector);
}

/// The cache key of grid position (`x`, `y`)
pub fn pack_grid_key(x: i32, y: i32) -> (key: u64)
    ensures
        key == grid_key(x, y),
{
    let high: u32 = #[verifier::truncate] (x as u32);
    let low: u32 = #[verifier::truncate] (y as u32);
    ((high as u64) << 32u64) | (low as u64)
}

/// The grid positions of an inclusive span
pub open spec fn span_positions(span: GridSpan) -> Set<(i32, i32)> {
    Set::new(
        |p: (i32, i32)| span.low_x <= p.0 <= span.high_x && span.low_y <= p.1 <= span.high_y,
    )
}

/// The grid positions required this tick, each listed once, in the order first required
pub struct TileDemand {
    pub seen: HashSet<u64>,
    pub positions: Vec<(i32, i32)>,
}

impl TileDemand {
    /// The listed positions are distinct and `seen` holds exactly their keys
    pub open spec fn wf(&self) -> bool {
        &&& self.positions@.no_duplicates()
        &&& forall|w: u64| #[trigger] self.seen@.contains(w) <==> exists|k: int|
            0 <= k < self.positions@.len() && grid_key(self.positions@[k].0, self.positions@[k].1) == w
    }

    /// No position required yet
    pub fn new() -> (demand: Self)
        ensures
            demand.wf(),
            demand.positions@ == Seq::<(i32, i32)>::empty(),
    {
        TileDemand { seen: HashSet::new(), positions: Vec::new() }
    }

    /// Requires `position`, listing it when it was not required yet
    fn require(&mut self, x: i32, y: i32)
        requires
            old(self).wf(),
        ensures
            final(self).wf(),
            final(self).positions@ == if old(self).positions@.contains((x, y)) {
                old(self).positions@
            } else {
                old(self).positions@.push((x, y))
            },
    {
        let key: u64 = pack_grid_key(x, y);
        if self.seen.contains(&key) {
            proof {
                let k = choose|k: int|
                    0 <= k < self.positions@.len() && grid_key(self.positions@[k].0, self.positions@[k].1) == key;
                lemma_grid_key_injective(self.positions@[k].0, self.positions@[k].1, x, y);
                assert(self.positions@[k] == (x, y));
            }
            return;
        }
        let ghost before = self.positions@;
        proof {
            if before.contains((x, y)) {
                let k = choose|k: int| 0 <= k < before.len() && before[k] == (x, y);
                assert(self.seen@.contains(key));
            }
        }
        self.seen.insert(key);
        self.positions.push((x, y));
        proof {
            assert forall|w: u64| #[trigger] self.seen@.contains(w) <==> exists|k: int|
                0 <= k < self.positions@.len() && grid_key(self.positions@[k].0, self.positions@[k].1) == w by {
                if w == key {
                    assert(self.positions@[before.len() as int] == (x, y));
                } else if self.seen@.contains(w) {
                    let k = choose|k: int| 0 <= k < before.len() && grid_key(before[k].0, before[k].1) == w;
                    assert(self.positions@[k] == before[k]);
                } else {
                    if exists|k: int|
                        0 <= k < self.positions@.len() && grid_key(self.positions@[k].0, self.positions@[k].1) == w {
                        let k = choose|k: int|
                            0 <= k < self.positions@.len() && grid_key(self.positions@[k].0, self.positions@[k].1) == w;
                        assert(k < before.len());
                        assert(before[k] == self.positions@[k]);
                    }
                }
            }
            assert forall|a: int, b: int| 0 <= a < b < self.positions@.len() implies self.positions@[a]
                != self.positions@[b] by {
                if b == before.len() {
                    assert(before[a] == self.positions@[a]);
                    assert(before.contains(before[a]));
                }
            }
        }
    }

    /// Requires every position of `span`, scanning rows from the lowest and each row
    /// from its lowest column
    pub fn require_span(&mut self, span: GridSpan)
        requires
            old(self).wf(),
        ensures
            final(self).wf(),
            final(self).positions@.to_set() == old(self).positions@.to_set() + span_positions(span),
            final(self).positions@.len() >= old(self).positions@.len(),
            forall|k: int| 0 <= k < old(self).positions@.len() ==> #[trigger] final(self).positions@[k]
                == old(self).positions@[k],
    {
        let ghost initial = self.positions@;
        let mut y: i64 = span.low_y as i64;
        while y <= span.high_y as i64
            invariant
                self.wf(),
                span.low_y <= y <= span.high_y as i64 + 1 || (y == span.low_y && span.low_y > span.high_y),
                self.positions@.len() >= initial.len(),
                forall|k: int| 0 <= k < initial.len() ==> #[trigger] self.positions@[k] == initial[k],
                self.positions@.to_set() == initial.to_set() + Set::new(
                    |p: (i32, i32)| span.low_x <= p.0 <= span.high_x && span.low_y <= p.1 < y,
                ),
            decreases span.high_y as i64 + 1 - y,
        {
            let row: i32 = y as i32;
            let mut x: i64 = span.low_x as i64;
            let ghost row_start = self.positions@;
            while x <= span.high_x as i64
                invariant
                    self.wf(),
                    span.low_y <= y <= span.high_y,
                    row == y,
                    span.low_x <= x <= span.high_x as i64 + 1 || (x == span.low_x && span.low_x > span.high_x),
                    self.positions@.len() >= row_start.len(),
                    forall|k: int| 0 <= k < row_start.len() ==> #[trigger] self.positions@[k] == row_start[k],
                    self.positions@.to_set() == row_start.to_set() + Set::new(
                        |p: (i32, i32)| span.low_x <= p.0 < x && p.1 == y,
                    ),
                decreases span.high_x as i64 + 1 - x,
            {
                let ghost before = self.positions@;
                self.require(x as i32, row);
                proof {
                    assert(self.positions@.to_set() =~= before.to_set().insert((x as i32, row))) by {
                        if !before.contains((x as i32, row)) {
                            assert forall|p: (i32, i32)| #[trigger] self.positions@.contains(p) <==> before.contains(p)
                                || p == (x as i32, row) by {
                                if self.positions@.contains(p) {
                                    let k = choose|k: int| 0 <= k < self.positions@.len() && self.positions@[k] == p;
                                    if k < before.len() {
                                        assert(before[k] == p);
                                    }
                                }
                                if before.contains(p) {
                                    let k = choose|k: int| 0 <= k < before.len() && before[k] == p;
                                    assert(self.positions@[k] == p);
                                }
                                if p == (x as i32, row) {
                                    assert(self.positions@[before.len() as int] == p);
                                }
                            }
                        }
                    }
                    assert(self.positions@.to_set() =~= row_start.to_set() + Set::new(
                        |p: (i32, i32)| span.low_x <= p.0 < x + 1 && p.1 == y,
                    ));
                }
                x = x + 1;
            }
            proof {
                assert(self.positions@.to_set() =~= initial.to_set() + Set::new(
                    |p: (i32, i32)| span.low_x <= p.0 <= span.high_x && span.low_y <= p.1 < y + 1,
                ));
            }
            y = y + 1;
        }
        proof {
            assert(self.positions@.to_set() =~= initial.to_set() + span_positions(span));
        }
    }
}


/// Whether `x` is one of the first `n` keys of `keys`
pub open spec fn listed(keys: Seq<&u64>, n: int, x: u64) -> bool {
    exists|j: int| 0 <= j < n && *keys[j] == x
}

/// A sequence whose elements make up a set lists exactly that set's members
proof fn lemma_listed_covers(s: Seq<&u64>, d: Set<u64>)
    requires
        s.unref().to_set() == d,
    ensures
        forall|x: u64| d.contains(x) <==> #[trigger] listed(s, s.len() as int, x),
{
    assert forall|x: u64| d.contains(x) <==> #[trigger] listed(s, s.len() as int, x) by {
        assert(s.unref().to_set().contains(x) == d.contains(x));
        if d.contains(x) {
            assert(s.unref().contains(x));
            let j = choose|j: int| 0 <= j < s.unref().len() && s.unref()[j] == x;
            assert(*s[j] == x);
        }
        if listed(s, s.len() as int, x) {
            let j = choose|j: int| 0 <= j < s.len() && *s[j] == x;
            assert(s.unref()[j] == x);
            assert(s.unref().contains(x));
        }
    }
}

/// A sequence with one more element holds exactly that element besides its old ones
proof fn lemma_push_contains(s: Seq<u64>, a: u64)
    ensures
        forall|w: u64| #[trigger] s.push(a).contains(w) <==> (s.contains(w) || w == a),
{
    assert forall|w: u64| #[trigger] s.push(a).contains(w) <==> (s.contains(w) || w == a) by {
        if s.push(a).contains(w) {
            let j = choose|j: int| 0 <= j < s.push(a).len() && s.push(a)[j] == w;
            if j < s.len() {
                assert(s[j] == w);
            }
        }
        if s.contains(w) {
            let j = choose|j: int| 0 <= j < s.len() && s[j] == w;
            assert(s.push(a)[j] == w);
        }
        if w == a {
            assert(s.push(a)[s.len() as int] == w);
        }
    }
}

/// A refreshed dynamic tile is settled: refreshing it again with the same mask in
/// the same tick asks nothing of the collision world and leaves it as it is
pub proof fn lemma_dynamic_refresh_settles<H>(
    tile: Option<DynamicTile<H>>,
    mask: [u32; 2],
    tick: u64,
    enabled: bool,
    next: DynamicTile<H>,
    action: DynamicTileAction<H>,
    again_enabled: bool,
    again: DynamicTile<H>,
    again_action: DynamicTileAction<H>,
)
    requires
        is_dynamic_refresh(tile, mask, tick, enabled, next, action),
        is_dynamic_refresh(Some(next), mask, tick, again_enabled, again, again_action),
    ensures
        again_action is Unchanged,
        again == next,
{
}

/// A refreshed terrain patch is settled: refreshing it again with the same masks in
/// the same tick asks nothing of the collision world and leaves it as it is
pub proof fn lemma_patch_refresh_settles<H>(
    patch: Option<TerrainPatch<H>>,
    masks: [[u32; 2]; 16],
    tick: u64,
    next: TerrainPatch<H>,
    action: TerrainPatchAction<H>,
    again: TerrainPatch<H>,
    again_action: TerrainPatchAction<H>,
)
    requires
        is_patch_refresh(patch, masks, tick, next, action),
        is_patch_refresh(Some(next), masks, tick, again, again_action),
    ensures
        again_action is Unchanged,
        again == next,
{
}

/// Counters describing the bridge's work; the event counters wrap at 2^64
#[derive(Clone, Copy, Debug)]
pub struct TerrainBridgeStatistics {
    pub active_patches: usize,
    pub collider_patches: usize,
    pub patch_rebuilds: u64,
    pub patch_cells_scanned: u64,
    pub dynamic_required_tiles: usize,
    pub dynamic_cached_tiles: usize,
    pub dynamic_collider_tiles: usize,
    pub dynamic_mask_changes: u64,
    pub dynamic_shape_rebuilds: u64,
    pub dynamic_set_shape_calls: u64,
    pub dynamic_enable_disable_changes: u64,
    pub dynamic_cells_scanned: u64,
    pub dynamic_rectangles_emitted: u64,
    pub collision_snapshot_age: u64,
}

/// Every counter at zero
pub open spec fn zero_statistics() -> TerrainBridgeStatistics {
    TerrainBridgeStatistics {
        active_patches: 0,
        collider_patches: 0,
        patch_rebuilds: 0,
        patch_cells_scanned: 0,
        dynamic_required_tiles: 0,
        dynamic_cached_tiles: 0,
        dynamic_collider_tiles: 0,
        dynamic_mask_changes: 0,
        dynamic_shape_rebuilds: 0,
        dynamic_set_shape_calls: 0,
        dynamic_enable_disable_changes: 0,
        dynamic_cells_scanned: 0,
        dynamic_rectangles_emitted: 0,
        collision_snapshot_age: 0,
    }
}

/// The counters after one dynamic tile refresh asked `action` of the collision
/// world: a changed mask scans the tile's 64 cells; a new shape counts as a
/// rebuild with its rectangles; reshaping an existing collider counts a shape
/// call, and enabling or disabling a collider counts a toggle
pub open spec fn statistics_after_dynamic<H>(
    s: TerrainBridgeStatistics,
    action: DynamicTileAction<H>,
) -> TerrainBridgeStatistics {
    match action {
        DynamicTileAction::Unchanged => s,
        DynamicTileAction::Cleared => TerrainBridgeStatistics {
            dynamic_mask_changes: s.dynamic_mask_changes.wrapping_add(1),
            dynamic_cells_scanned: s.dynamic_cells_scanned.wrapping_add(64),
            ..s
        },
        DynamicTileAction::Disable { .. } => TerrainBridgeStatistics {
            dynamic_mask_changes: s.dynamic_mask_changes.wrapping_add(1),
            dynamic_cells_scanned: s.dynamic_cells_scanned.wrapping_add(64),
            dynamic_enable_disable_changes: s.dynamic_enable_disable_changes.wrapping_add(1),
            ..s
        },
        DynamicTileAction::Reshape { enable, rectangles, .. } => TerrainBridgeStatistics {
            dynamic_mask_changes: s.dynamic_mask_changes.wrapping_add(1),
            dynamic_cells_scanned: s.dynamic_cells_scanned.wrapping_add(64),
            dynamic_shape_rebuilds: s.dynamic_shape_rebuilds.wrapping_add(1),
            dynamic_rectangles_emitted: s.dynamic_rectangles_emitted.wrapping_add(rectangles.len() as u64),
            dynamic_set_shape_calls: s.dynamic_set_shape_calls.wrapping_add(1),
            dynamic_enable_disable_changes: if enable {
                s.dynamic_enable_disable_changes.wrapping_add(1)
            } else {
                s.dynamic_enable_disable_changes
            },
            ..s
        },
        DynamicTileAction::Insert { rectangles } => TerrainBridgeStatistics {
            dynamic_mask_changes: s.dynamic_mask_changes.wrapping_add(1),
            dynamic_cells_scanned: s.dynamic_cells_scanned.wrapping_add(64),
            dynamic_shape_rebuilds: s.dynamic_shape_rebuilds.wrapping_add(1),
            dynamic_rectangles_emitted: s.dynamic_rectangles_emitted.wrapping_add(rectangles.len() as u64),
            ..s
        },
    }
}

/// The counters after one terrain patch refresh asked `action` of the collision
/// world: changed masks rebuild the patch and scan its 1024 cells
pub open spec fn statistics_after_patch<H>(
    s: TerrainBridgeStatistics,
    action: TerrainPatchAction<H>,
) -> TerrainBridgeStatistics {
    if action is Unchanged {
        s
    } else {
        TerrainBridgeStatistics {
            patch_rebuilds: s.patch_rebuilds.wrapping_add(1),
            patch_cells_scanned: s.patch_cells_scanned.wrapping_add(1024),
            ..s
        }
    }
}

/// The bridge's caches of dynamic tiles and terrain patches, keyed by `grid_key`
pub struct TerrainBridge<H> {
    pub tick: u64,
    pub snapshot_updated: bool,
    pub statistics: TerrainBridgeStatistics,
    pub dynamic_tiles: HashMap<u64, DynamicTile<H>>,
    pub terrain_patches: HashMap<u64, TerrainPatch<H>>,
    /// Every dynamic tile mask change so far, without wrapping
    pub mask_change_total: Ghost<nat>,
    /// Every dynamic tile shape rebuild so far, without wrapping
    pub shape_rebuild_total: Ghost<nat>,
    /// Every reshape of an existing dynamic tile collider so far, without wrapping
    pub set_shape_total: Ghost<nat>,
    /// Every terrain patch rebuild so far, without wrapping
    pub patch_rebuild_total: Ghost<nat>,
}

/// `total` reduced to the 64-bit range of a wrapping counter
pub open spec fn wrapped(total: nat) -> u64 {
    (total % 0x1_0000_0000_0000_0000) as u64
}

/// A wrapping counter that holds `unit * total` holds `unit * (total + 1)` after
/// `unit` more
proof fn lemma_wrapping_count(counter: u64, total: nat, unit: u64)
    requires
        counter == wrapped((unit as nat) * total),
    ensures
        counter.wrapping_add(unit) == wrapped((unit as nat) * (total + 1)),
{
    let m: int = 0x1_0000_0000_0000_0000;
    assert(unit * (total + 1) == unit * total + unit) by (nonlinear_arith);
    assert(unit * total >= 0) by (nonlinear_arith);
    vstd::arithmetic::div_mod::lemma_add_mod_noop(unit * total, unit as int, m);
    vstd::arithmetic::div_mod::lemma_mod_bound(unit * total, m);
    vstd::arithmetic::div_mod::lemma_small_mod(unit as nat, m as nat);
    if counter + unit < m {
        vstd::arithmetic::div_mod::lemma_small_mod((counter + unit) as nat, m as nat);
    } else {
        vstd::arithmetic::div_mod::lemma_fundamental_div_mod_converse(counter + unit, m, 1, counter + unit - m);
    }
}

impl<H: Copy> TerrainBridge<H> {
    /// No cached entry was required after the current tick, and the work counters
    /// agree with each other: each is its exact total wrapped to 64 bits, every mask
    /// change scanned 64 cells and every patch rebuild 1024, and a reshape of an
    /// existing collider is one of the shape rebuilds, each of which follows a mask
    /// change
    pub open spec fn wf(&self) -> bool {
        &&& forall|w: u64| #[trigger] self.dynamic_tiles@.contains_key(w) ==> self.dynamic_tiles@[w].last_required_tick <= self.tick
        &&& forall|w: u64| #[trigger] self.terrain_patches@.contains_key(w) ==> self.terrain_patches@[w].last_required_tick <= self.tick
        &&& self.statistics.dynamic_mask_changes == wrapped(1 * self.mask_change_total@)
        &&& self.statistics.dynamic_cells_scanned == wrapped(64 * self.mask_change_total@)
        &&& self.statistics.dynamic_shape_rebuilds == wrapped(1 * self.shape_rebuild_total@)
        &&& self.statistics.dynamic_set_shape_calls == wrapped(1 * self.set_shape_total@)
        &&& self.statistics.patch_rebuilds == wrapped(1 * self.patch_rebuild_total@)
        &&& self.statistics.patch_cells_scanned == wrapped(1024 * self.patch_rebuild_total@)
        &&& self.set_shape_total@ <= self.shape_rebuild_total@ <= self.mask_change_total@
    }

    /// The collider of a cached entry, if it has one
    pub open spec fn spec_collider_of_tile(&self, w: u64) -> Option<H> {
        if self.dynamic_tiles@.contains_key(w) {
            self.dynamic_tiles@[w].collider
        } else {
            None
        }
    }

    /// An empty bridge before its first tick
    pub fn new() -> (bridge: Self)
        ensures
            bridge.wf(),
            bridge.tick == 0,
            !bridge.snapshot_updated,
            bridge.statistics == zero_statistics(),
            bridge.dynamic_tiles@ == Map::<u64, DynamicTile<H>>::empty(),
            bridge.terrain_patches@ == Map::<u64, TerrainPatch<H>>::empty(),
    {
        TerrainBridge {
            tick: 0,
            snapshot_updated: false,
            statistics: TerrainBridgeStatistics {
                active_patches: 0,
                collider_patches: 0,
                patch_rebuilds: 0,
                patch_cells_scanned: 0,
                dynamic_required_tiles: 0,
                dynamic_cached_tiles: 0,
                dynamic_collider_tiles: 0,
                dynamic_mask_changes: 0,
                dynamic_shape_rebuilds: 0,
                dynamic_set_shape_calls: 0,
                dynamic_enable_disable_changes: 0,
                dynamic_cells_scanned: 0,
                dynamic_rectangles_emitted: 0,
                collision_snapshot_age: 0,
            },
            dynamic_tiles: HashMap::new(),
            terrain_patches: HashMap::new(),
            mask_change_total: Ghost(0),
            shape_rebuild_total: Ghost(0),
            set_shape_total: Ghost(0),
            patch_rebuild_total: Ghost(0),
        }
    }

    /// Records that a new snapshot arrived during the current tick
    pub fn note_snapshot_update(&mut self)
        requires
            old(self).wf(),
        ensures
            final(self).wf(),
            final(self).snapshot_updated,
            final(self).tick == old(self).tick,
            final(self).statistics == old(self).statistics,
            final(self).dynamic_tiles@ == old(self).dynamic_tiles@,
            final(self).terrain_patches@ == old(self).terrain_patches@,
    {
        self.snapshot_updated = true;
    }

    /// Sets how many ticks old the snapshot is
    pub fn set_collision_snapshot_age(&mut self, age: u64)
        requires
            old(self).wf(),
        ensures
            final(self).wf(),
            final(self).statistics == (TerrainBridgeStatistics { collision_snapshot_age: age, ..old(self).statistics }),
            final(self).tick == old(self).tick,
            final(self).snapshot_updated == old(self).snapshot_updated,
            final(self).dynamic_tiles@ == old(self).dynamic_tiles@,
            final(self).terrain_patches@ == old(self).terrain_patches@,
    {
        self.statistics.collision_snapshot_age = age;
    }

    /// Starts a tick: the snapshot ages by one unless one arrived during the last tick
    pub fn begin_tick(&mut self)
        requires
            old(self).wf(),
            old(self).tick < u64::MAX,
        ensures
            final(self).wf(),
            final(self).tick == old(self).tick + 1,
            !final(self).snapshot_updated,
            final(self).statistics == if old(self).snapshot_updated {
                old(self).statistics
            } else {
                TerrainBridgeStatistics {
                    collision_snapshot_age: old(self).statistics.collision_snapshot_age.wrapping_add(1),
                    ..old(self).statistics
                }
            },
            final(self).dynamic_tiles@ == old(self).dynamic_tiles@,
            final(self).terrain_patches@ == old(self).terrain_patches@,
    {
        self.tick = self.tick + 1;
        if !self.snapshot_updated {
            self.statistics.collision_snapshot_age = self.statistics.collision_snapshot_age.wrapping_add(1);
        }
        self.snapshot_updated = false;
    }

    /// Records how many dynamic tiles this tick requires
    pub fn set_required_dynamic_tiles(&mut self, count: usize)
        requires
            old(self).wf(),
        ensures
            final(self).wf(),
            final(self).statistics == (TerrainBridgeStatistics { dynamic_required_tiles: count, ..old(self).statistics }),
            final(self).tick == old(self).tick,
            final(self).snapshot_updated == old(self).snapshot_updated,
            final(self).dynamic_tiles@ == old(self).dynamic_tiles@,
            final(self).terrain_patches@ == old(self).terrain_patches@,
    {
        self.statistics.dynamic_required_tiles = count;
    }

    /// Records how many cached dynamic tiles have an enabled collider
    pub fn set_dynamic_collider_tiles(&mut self, count: usize)
        requires
            old(self).wf(),
        ensures
            final(self).wf(),
            final(self).statistics == (TerrainBridgeStatistics { dynamic_collider_tiles: count, ..old(self).statistics }),
            final(self).tick == old(self).tick,
            final(self).snapshot_updated == old(self).snapshot_updated,
            final(self).dynamic_tiles@ == old(self).dynamic_tiles@,
            final(self).terrain_patches@ == old(self).terrain_patches@,
    {
        self.statistics.dynamic_collider_tiles = count;
    }

    /// The collider of the cached dynamic tile at `key`, if it has one
    pub fn dynamic_collider(&self, key: DynamicTileKey) -> (collider: Option<H>)
        ensures
            collider == self.spec_collider_of_tile(grid_key(key.x, key.y)),
    {
        let w: u64 = pack_grid_key(key.x, key.y);
        match self.dynamic_tiles.get(&w) {
            Some(tile) => tile.collider,
            None => None,
        }
    }

    /// Refreshes the required dynamic tile at `key` from the snapshot's dynamic mask
    /// there; `collider_enabled` tells whether the tile's collider, if any, is enabled
    pub fn refresh_dynamic(
        &mut self,
        snapshot: &CollisionOccupancySnapshot,
        key: DynamicTileKey,
        collider_enabled: bool,
    ) -> (action: DynamicTileAction<H>)
        requires
            old(self).wf(),
            snapshot.dynamic_masks@.len() >= snapshot.width * snapshot.height,
        ensures
            final(self).wf(),
            ({
                let w = grid_key(key.x, key.y);
                let mask = spec_grid_tile_mask(
                    snapshot.dynamic_masks@,
                    snapshot.origin,
                    snapshot.width,
                    snapshot.height,
                    key.x as int,
                    key.y as int,
                );
                &&& final(self).dynamic_tiles@ == old(self).dynamic_tiles@.insert(w, final(self).dynamic_tiles@[w])
                &&& is_dynamic_refresh(
                    old(self).dynamic_tiles@.get(w),
                    mask,
                    old(self).tick,
                    collider_enabled,
                    final(self).dynamic_tiles@[w],
                    action,
                )
            }),
            final(self).statistics == statistics_after_dynamic(old(self).statistics, action),
            final(self).tick == old(self).tick,
            final(self).snapshot_updated == old(self).snapshot_updated,
            final(self).terrain_patches@ == old(self).terrain_patches@,
    {
        let w: u64 = pack_grid_key(key.x, key.y);
        let mask: [u32; 2] = snapshot.dynamic_tile_mask(key.x, key.y);
        let prior: Option<DynamicTile<H>> = match self.dynamic_tiles.get(&w) {
            Some(tile) => Some(*tile),
            None => None,
        };
        let (next, action) = refresh_dynamic_tile(prior, mask, self.tick, collider_enabled);
        self.dynamic_tiles.insert(w, next);
        match &action {
            DynamicTileAction::Unchanged => {},
            DynamicTileAction::Cleared => {
                proof {
                    lemma_wrapping_count(self.statistics.dynamic_mask_changes, self.mask_change_total@, 1);
                    lemma_wrapping_count(self.statistics.dynamic_cells_scanned, self.mask_change_total@, 64);
                }
                self.mask_change_total = Ghost(self.mask_change_total@ + 1);
                self.statistics.dynamic_mask_changes = self.statistics.dynamic_mask_changes.wrapping_add(1);
                self.statistics.dynamic_cells_scanned = self.statistics.dynamic_cells_scanned.wrapping_add(64);
            },
            DynamicTileAction::Disable { .. } => {
                proof {
                    lemma_wrapping_count(self.statistics.dynamic_mask_changes, self.mask_change_total@, 1);
                    lemma_wrapping_count(self.statistics.dynamic_cells_scanned, self.mask_change_total@, 64);
                }
                self.mask_change_total = Ghost(self.mask_change_total@ + 1);
                self.statistics.dynamic_mask_changes = self.statistics.dynamic_mask_changes.wrapping_add(1);
                self.statistics.dynamic_cells_scanned = self.statistics.dynamic_cells_scanned.wrapping_add(64);
                self.statistics.dynamic_enable_disable_changes =
                    self.statistics.dynamic_enable_disable_changes.wrapping_add(1);
            },
            DynamicTileAction::Reshape { enable, rectangles, .. } => {
                proof {
                    lemma_wrapping_count(self.statistics.dynamic_mask_changes, self.mask_change_total@, 1);
                    lemma_wrapping_count(self.statistics.dynamic_cells_scanned, self.mask_change_total@, 64);
                }
                self.mask_change_total = Ghost(self.mask_change_total@ + 1);
                proof {
                    lemma_wrapping_count(self.statistics.dynamic_shape_rebuilds, self.shape_rebuild_total@, 1);
                }
                self.shape_rebuild_total = Ghost(self.shape_rebuild_total@ + 1);
                proof {
                    lemma_wrapping_count(self.statistics.dynamic_set_shape_calls, self.set_shape_total@, 1);
                }
                self.set_shape_total = Ghost(self.set_shape_total@ + 1);
                self.statistics.dynamic_mask_changes = self.statistics.dynamic_mask_changes.wrapping_add(1);
                self.statistics.dynamic_cells_scanned = self.statistics.dynamic_cells_scanned.wrapping_add(64);
                self.statistics.dynamic_shape_rebuilds = self.statistics.dynamic_shape_rebuilds.wrapping_add(1);
                self.statistics.dynamic_rectangles_emitted =
                    self.statistics.dynamic_rectangles_emitted.wrapping_add(rectangles.len() as u64);
                self.statistics.dynamic_set_shape_calls = self.statistics.dynamic_set_shape_calls.wrapping_add(1);
                if *enable {
                    self.statistics.dynamic_enable_disable_changes =
                        self.statistics.dynamic_enable_disable_changes.wrapping_add(1);
                }
            },
            DynamicTileAction::Insert { rectangles } => {
                proof {
                    lemma_wrapping_count(self.statistics.dynamic_mask_changes, self.mask_change_total@, 1);
                    lemma_wrapping_count(self.statistics.dynamic_cells_scanned, self.mask_change_total@, 64);
                }
                self.mask_change_total = Ghost(self.mask_change_total@ + 1);
                proof {
                    lemma_wrapping_count(self.statistics.dynamic_shape_rebuilds, self.shape_rebuild_total@, 1);
                }
                self.shape_rebuild_total = Ghost(self.shape_rebuild_total@ + 1);
                self.statistics.dynamic_mask_changes = self.statistics.dynamic_mask_changes.wrapping_add(1);
                self.statistics.dynamic_cells_scanned = self.statistics.dynamic_cells_scanned.wrapping_add(64);
                self.statistics.dynamic_shape_rebuilds = self.statistics.dynamic_shape_rebuilds.wrapping_add(1);
                self.statistics.dynamic_rectangles_emitted =
                    self.statistics.dynamic_rectangles_emitted.wrapping_add(rectangles.len() as u64);
            },
        }
        action
    }

    /// Records the collider inserted for the cached dynamic tile at `key`
    pub fn attach_dynamic_collider(&mut self, key: DynamicTileKey, collider: H)
        requires
            old(self).wf(),
            old(self).dynamic_tiles@.contains_key(grid_key(key.x, key.y)),
        ensures
            final(self).wf(),
            ({
                let w = grid_key(key.x, key.y);
                final(self).dynamic_tiles@ == old(self).dynamic_tiles@.insert(
                    w,
                    DynamicTile { collider: Some(collider), ..old(self).dynamic_tiles@[w] },
                )
            }),
            final(self).statistics == old(self).statistics,
            final(self).tick == old(self).tick,
            final(self).snapshot_updated == old(self).snapshot_updated,
            final(self).terrain_patches@ == old(self).terrain_patches@,
    {
        let w: u64 = pack_grid_key(key.x, key.y);
        let tile: DynamicTile<H> = *self.dynamic_tiles.get(&w).unwrap();
        self.dynamic_tiles.insert(w, DynamicTile { collider: Some(collider), mask: tile.mask, last_required_tick: tile.last_required_tick });
    }

    /// Refreshes the required terrain patch at `key` from the snapshot's static masks
    /// of its sixteen tiles
    pub fn refresh_patch(&mut self, snapshot: &CollisionOccupancySnapshot, key: TerrainPatchKey) -> (action: TerrainPatchAction<H>)
        requires
            old(self).wf(),
            snapshot.static_masks@.len() >= snapshot.width * snapshot.height,
        ensures
            final(self).wf(),
            ({
                let w = grid_key(key.x, key.y);
                &&& final(self).terrain_patches@ == old(self).terrain_patches@.insert(w, final(self).terrain_patches@[w])
                &&& exists|masks: [[u32; 2]; 16]| {
                    &&& forall|patch_tile_x: int, patch_tile_y: int|
                        0 <= patch_tile_x < 4 && 0 <= patch_tile_y < 4 ==> #[trigger] masks[patch_tile_y * 4 + patch_tile_x]
                            == spec_grid_tile_mask(
                            snapshot.static_masks@,
                            snapshot.origin,
                            snapshot.width,
                            snapshot.height,
                            key.x * 4 + patch_tile_x,
                            key.y * 4 + patch_tile_y,
                        )
                    &&& is_patch_refresh(
                        old(self).terrain_patches@.get(w),
                        masks,
                        old(self).tick,
                        final(self).terrain_patches@[w],
                        action,
                    )
                }
            }),
            final(self).statistics == statistics_after_patch(old(self).statistics, action),
            final(self).tick == old(self).tick,
            final(self).snapshot_updated == old(self).snapshot_updated,
            final(self).dynamic_tiles@ == old(self).dynamic_tiles@,
    {
        let w: u64 = pack_grid_key(key.x, key.y);
        let masks: [[u32; 2]; 16] = snapshot.static_patch_masks(key.x, key.y);
        let prior: Option<TerrainPatch<H>> = match self.terrain_patches.get(&w) {
            Some(patch) => Some(*patch),
            None => None,
        };
        let ghost old_patches = self.terrain_patches@;
        proof {
            assert(prior == old_patches.get(w));
        }
        let (next, action) = refresh_terrain_patch(prior, masks, self.tick);
        self.terrain_patches.insert(w, next);
        proof {
            assert(self.terrain_patches@[w] == next);
            assert(is_patch_refresh(old_patches.get(w), masks, self.tick, self.terrain_patches@[w], action));
        }
        if !matches!(action, TerrainPatchAction::Unchanged) {
            proof {
                lemma_wrapping_count(self.statistics.patch_rebuilds, self.patch_rebuild_total@, 1);
                lemma_wrapping_count(self.statistics.patch_cells_scanned, self.patch_rebuild_total@, 1024);
            }
            self.patch_rebuild_total = Ghost(self.patch_rebuild_total@ + 1);
            self.statistics.patch_rebuilds = self.statistics.patch_rebuilds.wrapping_add(1);
            self.statistics.patch_cells_scanned = self.statistics.patch_cells_scanned.wrapping_add(1024);
        }
        action
    }

    /// Records the collider inserted for the cached terrain patch at `key`
    pub fn attach_patch_collider(&mut self, key: TerrainPatchKey, collider: H)
        requires
            old(self).wf(),
            old(self).terrain_patches@.contains_key(grid_key(key.x, key.y)),
        ensures
            final(self).wf(),
            ({
                let w = grid_key(key.x, key.y);
                final(self).terrain_patches@ == old(self).terrain_patches@.insert(
                    w,
                    TerrainPatch { collider: Some(collider), ..old(self).terrain_patches@[w] },
                )
            }),
            final(self).statistics == old(self).statistics,
            final(self).tick == old(self).tick,
            final(self).snapshot_updated == old(self).snapshot_updated,
            final(self).dynamic_tiles@ == old(self).dynamic_tiles@,
    {
        let w: u64 = pack_grid_key(key.x, key.y);
        let patch: TerrainPatch<H> = *self.terrain_patches.get(&w).unwrap();
        self.terrain_patches.insert(w, TerrainPatch { collider: Some(collider), masks: patch.masks, last_required_tick: patch.last_required_tick });
    }

    /// Whether the cached dynamic tile at `w` went unrequired for longer than its retention
    pub open spec fn dynamic_expired(&self, w: u64) -> bool {
        self.tick - self.dynamic_tiles@[w].last_required_tick > DYNAMIC_TILE_RETENTION_TICKS
    }

    /// Whether the cached terrain patch at `w` went unrequired for longer than its retention
    pub open spec fn patch_expired(&self, w: u64) -> bool {
        self.tick - self.terrain_patches@[w].last_required_tick > TERRAIN_PATCH_RETENTION_TICKS
    }

    /// The keys of the expired dynamic tiles, each once
    fn expired_dynamic_keys(&self) -> (keys: Vec<u64>)
        requires
            self.wf(),
        ensures
            keys@.no_duplicates(),
            forall|w: u64| #[trigger] keys@.contains(w) <==> (self.dynamic_tiles@.contains_key(w) && self.dynamic_expired(w)),
    {
        let mut keys: Vec<u64> = Vec::new();
        proof {
            lemma_listed_covers(IteratorSpec::remaining(&spec_keys_iter(&self.dynamic_tiles)), self.dynamic_tiles@.dom());
        }
        for k in it: self.dynamic_tiles.keys()
            invariant
                self.wf(),
                it.seq() == IteratorSpec::remaining(&spec_keys_iter(&self.dynamic_tiles)),
                forall|x: u64| self.dynamic_tiles@.contains_key(x) <==> #[trigger] listed(
                    IteratorSpec::remaining(&spec_keys_iter(&self.dynamic_tiles)),
                    IteratorSpec::remaining(&spec_keys_iter(&self.dynamic_tiles)).len() as int,
                    x,
                ),
                it.seq().no_duplicates(),
                keys@.no_duplicates(),
                forall|x: u64| #[trigger] keys@.contains(x) <==> listed(it.seq(), it.index(), x) && self.dynamic_expired(x),
            ensures
                keys@.no_duplicates(),
                forall|x: u64| #[trigger] keys@.contains(x) <==> listed(it.seq(), it.seq().len() as int, x) && self.dynamic_expired(x),
        {
            let ghost idx = it.index();
            let ghost s = it.seq();
            assert(*s[idx] == *k);
            assert(self.dynamic_tiles@.contains_key(*k)) by {
                assert(listed(s, s.len() as int, *k));
            }
            let ghost before = keys@;
            let tile: &DynamicTile<H> = self.dynamic_tiles.get(k).unwrap();
            if self.tick - tile.last_required_tick > DYNAMIC_TILE_RETENTION_TICKS {
                keys.push(*k);
            }
            assert(!before.contains(*k)) by {
                if before.contains(*k) {
                    assert(listed(s, idx, *k));
                    let j = choose|j: int| 0 <= j < idx && *s[j] == *k;
                    assert(s[j] == s[idx]);
                }
            }
            assert forall|x: u64| #[trigger] keys@.contains(x) <==> listed(s, idx + 1, x) && self.dynamic_expired(x) by {
                if x == *k {
                    assert(listed(s, idx + 1, x));
                    if self.dynamic_expired(x) {
                        assert(keys@[keys@.len() - 1] == x);
                    }
                } else {
                    if keys@.contains(x) {
                        let p = choose|p: int| 0 <= p < keys@.len() && keys@[p] == x;
                        assert(before[p] == x);
                        assert(before.contains(x));
                        let j = choose|j: int| 0 <= j < idx && *s[j] == x;
                        assert(listed(s, idx + 1, x));
                    }
                    if listed(s, idx + 1, x) && self.dynamic_expired(x) {
                        let j = choose|j: int| 0 <= j < idx + 1 && *s[j] == x;
                        assert(j < idx);
                        assert(listed(s, idx, x));
                        assert(before.contains(x));
                        let p = choose|p: int| 0 <= p < before.len() && before[p] == x;
                        assert(keys@[p] == x);
                    }
                }
            }
        }
        keys
    }

    /// The keys of the expired terrain patches, each once
    fn expired_patch_keys(&self) -> (keys: Vec<u64>)
        requires
            self.wf(),
        ensures
            keys@.no_duplicates(),
            forall|w: u64| #[trigger] keys@.contains(w) <==> (self.terrain_patches@.contains_key(w) && self.patch_expired(w)),
    {
        let mut keys: Vec<u64> = Vec::new();
        proof {
            lemma_listed_covers(IteratorSpec::remaining(&spec_keys_iter(&self.terrain_patches)), self.terrain_patches@.dom());
        }
        for k in it: self.terrain_patches.keys()
            invariant
                self.wf(),
                it.seq() == IteratorSpec::remaining(&spec_keys_iter(&self.terrain_patches)),
                forall|x: u64| self.terrain_patches@.contains_key(x) <==> #[trigger] listed(
                    IteratorSpec::remaining(&spec_keys_iter(&self.terrain_patches)),
                    IteratorSpec::remaining(&spec_keys_iter(&self.terrain_patches)).len() as int,
                    x,
                ),
                it.seq().no_duplicates(),
                keys@.no_duplicates(),
                forall|x: u64| #[trigger] keys@.contains(x) <==> listed(it.seq(), it.index(), x) && self.patch_expired(x),
            ensures
                keys@.no_duplicates(),
                forall|x: u64| #[trigger] keys@.contains(x) <==> listed(it.seq(), it.seq().len() as int, x) && self.patch_expired(x),
        {
            let ghost idx = it.index();
            let ghost s = it.seq();
            assert(*s[idx] == *k);
            assert(self.terrain_patches@.contains_key(*k)) by {
                assert(listed(s, s.len() as int, *k));
            }
            let ghost before = keys@;
            let patch: &TerrainPatch<H> = self.terrain_patches.get(k).unwrap();
            if self.tick - patch.last_required_tick > TERRAIN_PATCH_RETENTION_TICKS {
                keys.push(*k);
            }
            assert(!before.contains(*k)) by {
                if before.contains(*k) {
                    assert(listed(s, idx, *k));
                    let j = choose|j: int| 0 <= j < idx && *s[j] == *k;
                    assert(s[j] == s[idx]);
                }
            }
            assert forall|x: u64| #[trigger] keys@.contains(x) <==> listed(s, idx + 1, x) && self.patch_expired(x) by {
                if x == *k {
                    assert(listed(s, idx + 1, x));
                    if self.patch_expired(x) {
                        assert(keys@[keys@.len() - 1] == x);
                    }
                } else {
                    if keys@.contains(x) {
                        let p = choose|p: int| 0 <= p < keys@.len() && keys@[p] == x;
                        assert(before[p] == x);
                        assert(before.contains(x));
                        let j = choose|j: int| 0 <= j < idx && *s[j] == x;
                        assert(listed(s, idx + 1, x));
                    }
                    if listed(s, idx + 1, x) && self.patch_expired(x) {
                        let j = choose|j: int| 0 <= j < idx + 1 && *s[j] == x;
                        assert(j < idx);
                        assert(listed(s, idx, x));
                        assert(before.contains(x));
                        let p = choose|p: int| 0 <= p < before.len() && before[p] == x;
                        assert(keys@[p] == x);
                    }
                }
            }
        }
        keys
    }


    /// Drops every dynamic tile unrequired for longer than its retention and returns
    /// the colliders the collision world must remove, one per dropped tile that had
    /// one, in an order the cache walk leaves open
    pub fn expire_dynamic_tiles(&mut self) -> (removed: Vec<H>)
        requires
            old(self).wf(),
        ensures
            final(self).wf(),
            forall|w: u64| #[trigger] final(self).dynamic_tiles@.contains_key(w) <==> (
                old(self).dynamic_tiles@.contains_key(w) && !old(self).dynamic_expired(w)),
            forall|w: u64| #[trigger] final(self).dynamic_tiles@.contains_key(w) ==> final(self).dynamic_tiles@[w]
                == old(self).dynamic_tiles@[w],
            exists|dropped: Seq<u64>| {
                &&& dropped.no_duplicates()
                &&& forall|w: u64| #[trigger] dropped.contains(w) <==> (old(self).dynamic_tiles@.contains_key(w)
                    && old(self).dynamic_expired(w) && old(self).dynamic_tiles@[w].collider is Some)
                &&& removed@.len() == dropped.len()
                &&& forall|j: int| 0 <= j < dropped.len() ==> old(self).dynamic_tiles@[#[trigger] dropped[j]].collider
                    == Some(removed@[j])
            },
            final(self).statistics == (TerrainBridgeStatistics {
                dynamic_cached_tiles: final(self).dynamic_tiles@.len() as usize,
                ..old(self).statistics
            }),
            final(self).tick == old(self).tick,
            final(self).snapshot_updated == old(self).snapshot_updated,
            final(self).terrain_patches@ == old(self).terrain_patches@,
    {
        let expired: Vec<u64> = self.expired_dynamic_keys();
        let ghost initial = self.dynamic_tiles@;
        let ghost start = *self;
        let mut removed: Vec<H> = Vec::new();
        let ghost mut dropped: Seq<u64> = Seq::empty();
        let mut i: usize = 0;
        while i < expired.len()
            invariant
                initial == old(self).dynamic_tiles@,
                start == *old(self),
                start.wf(),
                self.mask_change_total@ == start.mask_change_total@,
                self.shape_rebuild_total@ == start.shape_rebuild_total@,
                self.set_shape_total@ == start.set_shape_total@,
                self.patch_rebuild_total@ == start.patch_rebuild_total@,
                self.tick == old(self).tick,
                self.snapshot_updated == old(self).snapshot_updated,
                self.statistics == old(self).statistics,
                self.terrain_patches@ == old(self).terrain_patches@,
                expired@.no_duplicates(),
                forall|w: u64| #[trigger] expired@.contains(w) <==> (initial.contains_key(w) && start.dynamic_expired(w)),
                i <= expired@.len(),
                forall|w: u64| #[trigger] self.dynamic_tiles@.contains_key(w) <==> (initial.contains_key(w)
                    && !expired@.take(i as int).contains(w)),
                forall|w: u64| #[trigger] self.dynamic_tiles@.contains_key(w) ==> self.dynamic_tiles@[w] == initial[w],
                dropped.no_duplicates(),
                removed@.len() == dropped.len(),
                forall|j: int| 0 <= j < dropped.len() ==> initial[#[trigger] dropped[j]].collider == Some(removed@[j]),
                forall|w: u64| #[trigger] dropped.contains(w) <==> (expired@.take(i as int).contains(w)
                    && initial[w].collider is Some),
            decreases expired@.len() - i,
        {
            let key: u64 = expired[i];
            proof {
                assert(expired@.contains(key));
                assert(!expired@.take(i as int).contains(key)) by {
                    if expired@.take(i as int).contains(key) {
                        let j = choose|j: int| 0 <= j < i && expired@.take(i as int)[j] == key;
                        assert(expired@[j] == expired@[i as int]);
                    }
                }
                assert(expired@.take(i + 1) =~= expired@.take(i as int).push(key));
                lemma_push_contains(expired@.take(i as int), key);
            }
            let ghost before_dropped = dropped;
            let ghost before_map = self.dynamic_tiles@;
            let entry: Option<DynamicTile<H>> = self.dynamic_tiles.remove(&key);
            proof {
                assert(self.dynamic_tiles@ == before_map.remove(key));
                assert(before_map.contains_key(key));
                assert(entry == Some(initial[key]));
            }
            match entry {
                Some(tile) => {
                    match tile.collider {
                        Some(h) => {
                            removed.push(h);
                            proof {
                                dropped = dropped.push(key);
                                assert forall|a: int, b: int| 0 <= a < b < dropped.len() implies dropped[a] != dropped[b] by {
                                    if b == before_dropped.len() {
                                        assert(before_dropped.contains(before_dropped[a]));
                                    }
                                }
                                assert forall|j: int| 0 <= j < dropped.len() implies initial[#[trigger] dropped[j]].collider
                                    == Some(removed@[j]) by {
                                    if j < before_dropped.len() {
                                        assert(dropped[j] == before_dropped[j]);
                                    }
                                }
                                assert forall|w: u64| #[trigger] dropped.contains(w) <==> (expired@.take(i + 1).contains(w)
                                    && initial[w].collider is Some) by {
                                    if w != key && expired@.take(i + 1).contains(w) {
                                        assert(expired@.take(i as int).contains(w));
                                    }
                                    if dropped.contains(w) && w != key {
                                        let j = choose|j: int| 0 <= j < dropped.len() && dropped[j] == w;
                                        assert(before_dropped[j] == w);
                                    }
                                    if before_dropped.contains(w) {
                                        let j = choose|j: int| 0 <= j < before_dropped.len() && before_dropped[j] == w;
                                        assert(dropped[j] == w);
                                    }
                                    if w == key {
                                        assert(dropped[before_dropped.len() as int] == w);
                                    }
                                }
                            }
                        },
                        None => {},
                    }
                },
                None => {},
            }
            i = i + 1;
        }
        proof {
            assert(expired@.take(i as int) =~= expired@);
        }
        self.statistics.dynamic_cached_tiles = self.dynamic_tiles.len();
        removed
    }

    /// Drops every terrain patch unrequired for longer than its retention and returns
    /// the colliders the collision world must remove, one per dropped patch that had
    /// one, in an order the cache walk leaves open
    pub fn expire_terrain_patches(&mut self) -> (removed: Vec<H>)
        requires
            old(self).wf(),
        ensures
            final(self).wf(),
            forall|w: u64| #[trigger] final(self).terrain_patches@.contains_key(w) <==> (
                old(self).terrain_patches@.contains_key(w) && !old(self).patch_expired(w)),
            forall|w: u64| #[trigger] final(self).terrain_patches@.contains_key(w) ==> final(self).terrain_patches@[w]
                == old(self).terrain_patches@[w],
            exists|dropped: Seq<u64>| {
                &&& dropped.no_duplicates()
                &&& forall|w: u64| #[trigger] dropped.contains(w) <==> (old(self).terrain_patches@.contains_key(w)
                    && old(self).patch_expired(w) && old(self).terrain_patches@[w].collider is Some)
                &&& removed@.len() == dropped.len()
                &&& forall|j: int| 0 <= j < dropped.len() ==> old(self).terrain_patches@[#[trigger] dropped[j]].collider
                    == Some(removed@[j])
            },
            final(self).statistics == (TerrainBridgeStatistics {
                active_patches: final(self).terrain_patches@.len() as usize,
                collider_patches: final(self).terrain_patches@.dom().filter(
                    |w: u64| final(self).terrain_patches@[w].collider is Some,
                ).len() as usize,
                ..old(self).statistics
            }),
            final(self).tick == old(self).tick,
            final(self).snapshot_updated == old(self).snapshot_updated,
            final(self).dynamic_tiles@ == old(self).dynamic_tiles@,
    {
        let expired: Vec<u64> = self.expired_patch_keys();
        let ghost initial = self.terrain_patches@;
        let ghost start = *self;
        let mut removed: Vec<H> = Vec::new();
        let ghost mut dropped: Seq<u64> = Seq::empty();
        let mut i: usize = 0;
        while i < expired.len()
            invariant
                initial == old(self).terrain_patches@,
                start == *old(self),
                start.wf(),
                self.mask_change_total@ == start.mask_change_total@,
                self.shape_rebuild_total@ == start.shape_rebuild_total@,
                self.set_shape_total@ == start.set_shape_total@,
                self.patch_rebuild_total@ == start.patch_rebuild_total@,
                self.tick == old(self).tick,
                self.snapshot_updated == old(self).snapshot_updated,
                self.statistics == old(self).statistics,
                self.dynamic_tiles@ == old(self).dynamic_tiles@,
                expired@.no_duplicates(),
                forall|w: u64| #[trigger] expired@.contains(w) <==> (initial.contains_key(w) && start.patch_expired(w)),
                i <= expired@.len(),
                forall|w: u64| #[trigger] self.terrain_patches@.contains_key(w) <==> (initial.contains_key(w)
                    && !expired@.take(i as int).contains(w)),
                forall|w: u64| #[trigger] self.terrain_patches@.contains_key(w) ==> self.terrain_patches@[w] == initial[w],
                dropped.no_duplicates(),
                removed@.len() == dropped.len(),
                forall|j: int| 0 <= j < dropped.len() ==> initial[#[trigger] dropped[j]].collider == Some(removed@[j]),
                forall|w: u64| #[trigger] dropped.contains(w) <==> (expired@.take(i as int).contains(w)
                    && initial[w].collider is Some),
            decreases expired@.len() - i,
        {
            let key: u64 = expired[i];
            proof {
                assert(expired@.contains(key));
                assert(!expired@.take(i as int).contains(key)) by {
                    if expired@.take(i as int).contains(key) {
                        let j = choose|j: int| 0 <= j < i && expired@.take(i as int)[j] == key;
                        assert(expired@[j] == expired@[i as int]);
                    }
                }
                assert(expired@.take(i + 1) =~= expired@.take(i as int).push(key));
                lemma_push_contains(expired@.take(i as int), key);
            }
            let ghost before_dropped = dropped;
            let ghost before_map = self.terrain_patches@;
            let entry: Option<TerrainPatch<H>> = self.terrain_patches.remove(&key);
            proof {
                assert(self.terrain_patches@ == before_map.remove(key));
                assert(before_map.contains_key(key));
                assert(entry == Some(initial[key]));
            }
            match entry {
                Some(tile) => {
                    match tile.collider {
                        Some(h) => {
                            removed.push(h);
                            proof {
                                dropped = dropped.push(key);
                                assert forall|a: int, b: int| 0 <= a < b < dropped.len() implies dropped[a] != dropped[b] by {
                                    if b == before_dropped.len() {
                                        assert(before_dropped.contains(before_dropped[a]));
                                    }
                                }
                                assert forall|j: int| 0 <= j < dropped.len() implies initial[#[trigger] dropped[j]].collider
                                    == Some(removed@[j]) by {
                                    if j < before_dropped.len() {
                                        assert(dropped[j] == before_dropped[j]);
                                    }
                                }
                                assert forall|w: u64| #[trigger] dropped.contains(w) <==> (expired@.take(i + 1).contains(w)
                                    && initial[w].collider is Some) by {
                                    if w != key && expired@.take(i + 1).contains(w) {
                                        assert(expired@.take(i as int).contains(w));
                                    }
                                    if dropped.contains(w) && w != key {
                                        let j = choose|j: int| 0 <= j < dropped.len() && dropped[j] == w;
                                        assert(before_dropped[j] == w);
                                    }
                                    if before_dropped.contains(w) {
                                        let j = choose|j: int| 0 <= j < before_dropped.len() && before_dropped[j] == w;
                                        assert(dropped[j] == w);
                                    }
                                    if w == key {
                                        assert(dropped[before_dropped.len() as int] == w);
                                    }
                                }
                            }
                        },
                        None => {},
                    }
                },
                None => {},
            }
            i = i + 1;
        }
        proof {
            assert(expired@.take(i as int) =~= expired@);
        }
        self.statistics.active_patches = self.terrain_patches.len();
        self.statistics.collider_patches = self.count_patch_colliders();
        removed
    }

    /// The number of cached terrain patches that have a collider
    fn count_patch_colliders(&self) -> (count: usize)
        ensures
            count == self.terrain_patches@.dom().filter(|w: u64| self.terrain_patches@[w].collider is Some).len(),
    {
        let total: usize = self.terrain_patches.len();
        let mut count: usize = 0;
        let ghost mut counted: Set<u64> = Set::empty();
        proof {
            lemma_listed_covers(IteratorSpec::remaining(&spec_keys_iter(&self.terrain_patches)), self.terrain_patches@.dom());
        }
        for k in it: self.terrain_patches.keys()
            invariant
                it.seq() == IteratorSpec::remaining(&spec_keys_iter(&self.terrain_patches)),
                forall|x: u64| self.terrain_patches@.contains_key(x) <==> #[trigger] listed(
                    IteratorSpec::remaining(&spec_keys_iter(&self.terrain_patches)),
                    IteratorSpec::remaining(&spec_keys_iter(&self.terrain_patches)).len() as int,
                    x,
                ),
                it.seq().no_duplicates(),
                it.seq().len() == total,
                counted.finite(),
                count == counted.len(),
                count <= it.index(),
                forall|x: u64| #[trigger] counted.contains(x) <==> listed(it.seq(), it.index(), x)
                    && self.terrain_patches@[x].collider is Some,
            ensures
                counted.finite(),
                count == counted.len(),
                forall|x: u64| #[trigger] counted.contains(x) <==> listed(it.seq(), it.seq().len() as int, x)
                    && self.terrain_patches@[x].collider is Some,
        {
            let ghost idx = it.index();
            let ghost s = it.seq();
            assert(*s[idx] == *k);
            assert(self.terrain_patches@.contains_key(*k)) by {
                assert(listed(s, s.len() as int, *k));
            }
            assert(!counted.contains(*k)) by {
                if counted.contains(*k) {
                    assert(listed(s, idx, *k));
                    let j = choose|j: int| 0 <= j < idx && *s[j] == *k;
                    assert(s[j] == s[idx]);
                }
            }
            let ghost before = counted;
            let patch: &TerrainPatch<H> = self.terrain_patches.get(k).unwrap();
            if patch.collider.is_some() {
                count = count + 1;
                proof {
                    counted = counted.insert(*k);
                }
            }
            assert forall|x: u64| #[trigger] counted.contains(x) <==> listed(s, idx + 1, x)
                && self.terrain_patches@[x].collider is Some by {
                if x == *k {
                    assert(listed(s, idx + 1, x));
                } else {
                    if listed(s, idx + 1, x) {
                        let j = choose|j: int| 0 <= j < idx + 1 && *s[j] == x;
                        assert(j < idx);
                        assert(listed(s, idx, x));
                    }
                    if before.contains(x) {
                        let j = choose|j: int| 0 <= j < idx && *s[j] == x;
                        assert(listed(s, idx + 1, x));
                    }
                }
            }
        }
        proof {
            assert(counted =~= self.terrain_patches@.dom().filter(|w: u64| self.terrain_patches@[w].collider is Some));
        }
        count
    }

}

/// The bridge's work counters relate as its work does: until a counter wraps, the
/// dynamic cells scanned are 64 per mask change, the patch cells scanned 1024 per
/// patch rebuild, and reshapes of existing colliders are at most the shape rebuilds,
/// which are at most the mask changes
pub proof fn lemma_terrain_work_counters<H: Copy>(bridge: &TerrainBridge<H>)
    requires
        bridge.wf(),
        64 * bridge.mask_change_total@ < 0x1_0000_0000_0000_0000,
        1024 * bridge.patch_rebuild_total@ < 0x1_0000_0000_0000_0000,
    ensures
        bridge.statistics.dynamic_cells_scanned == 64 * bridge.statistics.dynamic_mask_changes,
        bridge.statistics.patch_cells_scanned == 1024 * bridge.statistics.patch_rebuilds,
        bridge.statistics.dynamic_set_shape_calls <= bridge.statistics.dynamic_shape_rebuilds
            <= bridge.statistics.dynamic_mask_changes,
{
    let m: nat = 0x1_0000_0000_0000_0000;
    vstd::arithmetic::div_mod::lemma_small_mod(64 * bridge.mask_change_total@, m);
    vstd::arithmetic::div_mod::lemma_small_mod(1 * bridge.mask_change_total@, m);
    vstd::arithmetic::div_mod::lemma_small_mod(1 * bridge.shape_rebuild_total@, m);
    vstd::arithmetic::div_mod::lemma_small_mod(1 * bridge.set_shape_total@, m);
    vstd::arithmetic::div_mod::lemma_small_mod(1024 * bridge.patch_rebuild_total@, m);
    vstd::arithmetic::div_mod::lemma_small_mod(1 * bridge.patch_rebuild_total@, m);
}

} // verus!
