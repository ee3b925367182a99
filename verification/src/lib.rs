//! Rustev's decision contract: exact decimals, bounded JSON, canonical
//! bytes and identities, the replay and remote documents, and the rules
//! backend's program checks and evaluator.
use vstd::prelude::*;

pub mod bounded;
pub mod calibration;
pub mod canonical;
pub mod cli;
pub mod decimal;
pub mod definition;
pub mod descriptor;
pub mod document;
pub mod eval_report;
pub mod evidence;
pub mod execution;
pub mod digits;
pub mod ids;
pub mod judgment;
pub mod limits;
pub mod order;
pub mod plan;
pub mod reason;
pub mod remote;
pub mod replay;
pub mod request;
pub mod retention;
pub mod rules;
pub mod run;
pub mod schema;
pub mod scope;
pub mod text;
pub mod text_map;
pub mod time;

verus! {
}
