//! Movement coordination for agents on a shared grid: a spatial index of
//! tiles, an incremental A* search, and the per-agent state machine that walks
//! found paths while reserving cells so that no two agents share one.
pub mod grid;
pub mod tile;
pub mod spatial_index;
pub mod pathfinder;
pub mod occupancy;
pub mod walk;
pub mod simulation;
pub mod approach;
