//! Core engine of a fixed-length word-guessing puzzle solver.
//!
//! Given a dictionary of equal-length words and per-guess feedback marks
//! (exact-position match / present-elsewhere / absent), the library keeps
//! the set of dictionary words still consistent with all feedback received
//! and recommends the guess that maximizes an expected-split heuristic.

pub mod api;
pub mod classify;
pub mod feedback;
pub mod filter;
pub mod marks;
pub mod patterns;
pub mod score;
pub mod select;
pub mod session;

pub use api::process_data;
pub use classify::ClassifiedGuess;
pub use classify::classify;
pub use filter::filter;
pub use marks::Mark;
pub use marks::SolverError;
pub use marks::parse_feedback;
pub use patterns::generate;
pub use score::score;
pub use select::select_best;
pub use session::Session;
pub use session::SessionState;
