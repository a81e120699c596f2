//! Paths, scopes and the items declared in them.

pub mod item_map;
pub mod laws;
pub mod model;
pub mod path;
pub mod scope;
pub mod source_cell;
