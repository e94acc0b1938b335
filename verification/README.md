# wander

The core of a first-person shooter that renders in a terminal, as a Verus
library, with the terminal front end around it.

- `src/world.rs` — block ids, themes, weather, the world table, palettes and
  the procedural city generator. `World::build` is proved to produce, cell by
  cell, the city that `world_cell` describes: forest ring, streets, parks with
  ponds and trees, plazas, buildings, and a clear spawn crossroads.
- `src/sim.rs` — the difficulty table, the generator step, the weather pick,
  and the round ledger (enemies down, each player's kills and score, enemies
  left, completion).
- `src/ui.rs` — the menu state machine (title, mode, world, difficulty,
  address, play), held-key motions, weather rolls.
- `src/net.rs` — little-endian integers, length-prefixed frames (read back
  the same however the stream is cut into chunks), the join / hello / input /
  snapshot packets with round-trip proofs, and the host's seats (never more than eight clients held).
- `src/render.rs` — half-block cell decoding and the integer overlays
  (crosshair, gun, muzzle flash, minimap).
- `tests/` — tests of the library, among them a comparison of every world
  with a double-precision reference generator.
- `app/` — the program: terminal I/O, the floating-point raycaster and
  simulation, sockets and threads.
