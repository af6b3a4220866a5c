//! Beatmap reading and gameplay rules of a rhythm aim trainer that plays
//! osu! beatmaps in 3d.
//!
//! The library holds the parts of the game that decide or compute on plain
//! values: the `.osu` beatmap reader, the split of slider control points into
//! Bezier segments, the index buffer of the slider tube mesh, the timing of
//! markers, the hit rules of targets and the game-state transitions.
pub mod curve;
pub mod game;
pub mod osu_parser;
pub mod target;
pub mod text;
pub mod timing;
