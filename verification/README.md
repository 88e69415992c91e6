# nanai_multifall

An eight-lane cooperative tromino game: every lane drops straight and corner
trominoes into one shared, connected field, and a lane AI plans each piece's
landing around the other lanes' predicted pieces and signals.

- `src/` — the verified library: the field and its bitboard twin (locking,
  line clearing, heights, holes, wells), the landing searches with their
  routes, the lane signals and pace, the integer features that score a
  placement, falling-piece collision and locking, the exit dialog's
  decisions, and the laws that tie these together.
- `tests/` — tests of the library on concrete fields.
- `app/` — the Bevy game around the library: ECS systems, timers and smooth
  movement, the weighted floating-point score, rendering, UI and the play log.
