//! Similarity-graph analysis of tabular data.
//!
//! Rows of cells are encoded into a fixed-point feature matrix, the matrix is
//! min-max normalized, rows that lie close together are joined in an
//! undirected weighted graph, and shortest paths over that graph give a
//! distance table and an estimate of the graph's diameter.
//!
//! All numbers are fixed-point integers: a real value `x` is held as
//! `x * SCALE`, rounded by whoever produced the cell.

pub mod analysis;
pub mod classes;
pub mod data;
pub mod error;
pub mod graph;
pub mod matrix;
pub mod scaling;
pub mod store;
pub mod util;
