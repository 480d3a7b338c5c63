# rust_eze

The rules of a small top-down arena game, verified with Verus, and the bevy
program that plays it.

- `src/` is the verified library: lives (`lives`), the room graph and the
  player's moves through it (`rooms`), what a collision and the end of a game
  do (`game`), the score and lives texts (`ui`), the choice of projectile and
  its hits (`projectiles`), and the game's dimensions (`config`).
- `app/` is the bevy program: plugins, systems, drawing, input, time and
  random placement. It measures distances and positions in floating point and
  hands the library the resulting decisions' inputs.
- `tests/` exercises the library on concrete values.
