//! A minesweeper core, verified: a rectangular grid of cells, random mine
//! placement with incremental adjacency accounting, and a flood-fill reveal,
//! together with proofs that placement leaves exactly the asked number of
//! mines, that every stored magnitude equals the true count of adjacent
//! mines, and that a reveal grows the revealed region exactly to the
//! connected zero-adjacency closure of the chosen cell.

pub mod engine;
pub mod grid;
pub mod params;
pub mod render;

pub use engine::MineField;
pub use engine::Phase;
pub use grid::Cell;
pub use grid::FieldError;
pub use grid::Grid;
pub use params::get_valid_mine_count;
pub use params::get_valid_size;
