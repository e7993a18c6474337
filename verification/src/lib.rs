//! Column-layout engine for a directory listing tool.
//!
//! The heart of the crate turns an ordered list of display names into a
//! multi-column grid: names fill a column top to bottom before spilling into
//! the next one, while the grid itself is stored and printed row by row.
//! Around it sit the simpler renderers (one per line, comma-separated
//! stream), name filtering and sorting, and the permission-bit formatting of
//! the long listing.

pub mod filesystem;
pub mod grid;
pub mod names;
pub mod parse;
pub mod render;
