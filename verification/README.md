# Galaxy Roamer

The rules and generators of a small space-exploration and creature-collecting
game, written in Verus with their contracts proved.

`src/` is the verified library:

- `planet` — splitting a land grid into its 4-connected continents
  (breadth-first flood fill), with the continents proved to be exactly the
  land's components of at least four cells, in scan order and breadth-first
  order.
- `city` — placing cities on a planet's land, pairwise far enough apart, each
  laid out in districts and blocks.
- `galaxy`, `rng` — planet types and the random-number generators the
  generators draw from.
- `creatures`, `battle` — species, moves, the type chart, EXP and levels, the
  battle menu, consumables and what a capture books.
- `save`, `text` — the plain-text save format, proved to read back what it
  writes.
- `pause`, `onfoot`, `help`, `party`, `theme`, `targeting`, `warp`, `toast`,
  `hud` — the game's state switches: pausing, landing, overlays, themes,
  target cycling, the autopilot, warp destinations and notifications.

`app/` is a text-mode driver around the library: the noise-driven terrain, the
galaxy's positions, the hit-point and capture arithmetic (all floating point),
and save-file I/O.

`tests/` exercises the library on concrete values.
