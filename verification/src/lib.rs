//! Territory vectorization and ownership-transfer engine for a map-editing
//! tool: traces closed polygon borders out of a flat-colored raster province
//! map, re-derives state- and country-level borders by recoloring the same
//! raster, and performs territory transfers that keep geometry, province
//! membership, population records and building records consistent.

pub mod border_trace;
pub mod buildings;
pub mod cache;
pub mod country;
pub mod geometry;
pub mod pops;
pub mod raster;
pub mod rotation;
pub mod setup;
pub mod state_history;
pub mod transfer;
