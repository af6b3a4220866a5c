# Rhythm Aim Trainer

A 3d aim trainer that plays osu! beatmaps: hit objects become targets and
slider paths in front of the player, timed to the song.

Mouse sensitivity is given in inches per 360° (in/360).

## Layout

- `src/` — the library, verified with Verus:
  - `text.rs`: character classes, scanners, Rust's integer and `f32` literal
    syntax;
  - `osu_parser.rs`: the `.osu` beatmap reader (sections, key-value and list
    bodies, hit object lines, slider fields);
  - `curve.rs`: the marker plan of a hit object, the split of Bezier control
    points into segments, the triangle indices of a slider tube, slider sound
    events;
  - `timing.rs`: song positions, markers and the frames that trigger them,
    slider hints and the hit error of a target;
  - `target.rs`: hits on targets, the hovered-target effect, spawner limits;
  - `game.rs`: pause, debug and full-screen switches and the fire input.
- `app/` — the command line around the library: importing `.osz` archives,
  reading beatmap files and songs, and the floating-point geometry (world
  positions, curve sampling, tube vertices, hit judgement, free-play
  spawners).
- `tests/` — tests of the library, including a comparison of the beatmap
  grammar with a reference grammar written with `nom`.
