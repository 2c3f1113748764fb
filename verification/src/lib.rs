//! World-object store and spatial query engine for a 2-D isometric hex
//! game world.
//!
//! The library owns every placed entity (critters, scenery, walls, items,
//! interface overlays), indexes them per tile and elevation, keeps each
//! tile's list in draw order, and answers spatial questions: blocking,
//! line of sight, shot paths, pathfinding cost, hit testing and
//! talk-reachability.

pub mod asset;
pub mod flags;
pub mod geom;
pub mod handle;
pub mod object;
pub mod objects;
