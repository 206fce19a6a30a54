//! Verified Smith-Waterman local sequence alignment.
//!
//! The scoring matrix, the serial and wavefront fill strategies, and the
//! backtrace that reconstructs the aligned pair are all specified against a
//! single mathematical recurrence and proved correct.

pub mod engine;
pub mod laws;
pub mod matrix;
pub mod model;
pub mod wavefront;

pub use engine::GraphMovements;
pub use engine::SmithWaterman;
pub use matrix::ScoreMatrix;
pub use wavefront::CellTask;
pub use wavefront::MaxCell;
