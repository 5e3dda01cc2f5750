# bowo

A small simulation workbench: bouncing particles in a box, tile maps with shortest
paths, procedural trees, walking stick figures, their animated pictures,
and the ledger that measures them against budgets.

- `src/` is the library. Every function states in its contract what it
  returns or changes, and Verus proves it. Numbers that floating point
  computes enter as bit patterns; the arithmetic itself is handed in as
  functions that give one value per argument.
- `tests/` runs the library against expected values and against the
  machine's floating point.
- `app/` is the program around it: `bowo <demo|tree|map|walker|perf> ...`.
  It reads and writes files, drives the engine, and supplies the floating
  point. The live windows need a build with the `viewer` feature and an
  engine with its windowing features; the allocation pass and its heap
  profile need a build with the `perf-alloc` feature.

| what | where |
| --- | --- |
| particles, spatial grid, random numbers | `sim`, `grid`, `grid_laws`, `rng`, `demo` |
| maps, tiles, paths, map pictures | `map`, `map_laws`, `tiles`, `path`, `route`, `heap`, `map_gallery`, `map_svg` |
| trees | `tree`, `tree_gallery`, `grove`, `playback`, `strokes`, `tree_svg`, `tree_view` |
| figures | `character`, `gait`, `movement`, `walkers`, `mandala`, `walker_svg`, `walker_view`, `mandala_view` |
| measuring and budgets | `gallery`, `counting`, `probe`, `stats`, `record`, `packages`, `perf`, `budgets`, `budget_laws`, `report`, `backlog`, `calendar` |
| shared | `args`, `bits`, `chars`, `digest`, `doc`, `eval`, `singles`, `smil`, `table`, `text`, `time`, `view` |
