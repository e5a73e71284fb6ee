//! Procedural dungeon-level generation: a pipeline of interchangeable
//! carving algorithms that produce a connected tile grid, a start position
//! and a list of entities to spawn, all from a single random seed.

pub mod area_based_spawner;
pub mod bsp_dungeon;
pub mod bsp_interior;
pub mod builder_map;
pub mod cellular_automata;
pub mod common;
pub mod dice;
pub mod dla;
pub mod drunkard;
pub mod finalize;
pub mod geometry;
pub mod grid;
pub mod map_builders;
pub mod maze;
pub mod path;
pub mod random_table;
pub mod rng;
pub mod room_based_spawner;
pub mod room_based_stairs;
pub mod room_based_starting_position;
pub mod simple_map;
pub mod spawner;
pub mod tile;
pub mod voronoi;
pub mod waveform_collapse;
