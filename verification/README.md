# engine_physics

The host-side logic of a cellular physics engine, verified with Verus.

- `src/` is the verified library: tile and occupancy snapshots, greedy collision
  geometry, rigid-body connectivity, reaction arbitration, readback decoding and
  sequencing, the terrain bridge cache, and the parameter blocks, buffer sizes and
  pass schedules of the accelerator solvers. Every public function carries a
  contract; the laws that relate several functions are public proof functions.
- `tests/` runs the library on concrete values.
- `app/` is the unverified edge: the rapier collision world driven by the terrain
  bridge, rapier shapes and interaction groups built from the library's geometry,
  and the floating-point rules of reactions, phase changes and readbacks.
