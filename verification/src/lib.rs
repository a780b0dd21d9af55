//! Containers for two-dimensional grids: a dense grid of fixed size, an
//! unbounded sparse grid addressed by signed coordinates, and rectangular
//! views that work the same way over both.
pub mod auto_index_impl;
pub mod bounded_grid;
pub mod cache_map;
pub mod coordinate;
pub mod element;
pub mod infinite_grid;
pub mod slice;

pub use bounded_grid::Grid;
pub use infinite_grid::InfiniteGrid;
