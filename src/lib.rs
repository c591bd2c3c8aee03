//! Snapshots of a 2-D engine's authored resources (palette, images,
//! tilemaps, channels, sounds, musics, waveforms) as plain values, with a
//! lossless compression of the grid-shaped ones.
pub mod color;
pub mod grid;
pub mod resource;
pub mod runtime;
pub mod snapshot;
