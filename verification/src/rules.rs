//! Rustev's deterministic rules backend: a bounded, identified rules
//! program, `rustev.rules/1`, its validation into a checked form, and the
//! evaluation of one projection's fields against it. Outputs are authored
//! heuristics over the projected inputs: not calibrated probabilities.
pub mod answer;
pub mod backend;
pub mod check;
pub mod eval;
pub mod limits;
pub mod program;
pub mod projection;
