//! The command-line host's own rules: the argument grammar, the host inputs
//! given by flags, the read budget, the dependency file caps, the task
//! adapter's validation and the `run` settings. Files, clocks and the
//! commands themselves belong to the host program around the library.
pub mod adapter;
pub mod args;
pub mod calibrate;
pub mod code;
pub mod deps;
pub mod eval;
pub mod exit;
pub mod host;
pub mod io;
pub mod out;
pub mod plan;
pub mod run;
pub mod settings;
pub mod sink;
pub mod store;
pub mod verdict;
