//! Conway's Game of Life on an unbounded lattice: a sparse set of live
//! cells, the rule that computes each next generation from neighbour
//! counts, the mapping from screen to grid, and the per-frame state of an
//! interactive simulation.

pub mod coord;
pub mod cells;
pub mod counts;
pub mod life;
pub mod sim;
pub mod laws;

pub use cells::CellSet;
pub use coord::{mouse_to_grid, neighbours, Coord, CELL_SIZE};
pub use counts::NeighbourCounts;
pub use life::{neighbour_counts, step};
pub use sim::{Event, Key, Pointer, Simulation};
