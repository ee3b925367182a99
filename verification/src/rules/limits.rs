//! The limits of rules schema version 1.
use vstd::prelude::*;

verus! {

pub const BACKEND_ID_BYTES: usize = 64;
pub const MAX_PROJECTION_BYTES: u64 = 65_536;
pub const TASKS: usize = 32;
pub const TASK_BYTES: usize = 256;
pub const QUESTION_BYTES: usize = 4_096;
pub const OPTIONS_MIN: usize = 2;
pub const OPTIONS: usize = 64;
pub const OPTION_BYTES: usize = 256;
pub const INTERPRETATION_BYTES: usize = 1_024;
pub const FIELDS: usize = 16;
pub const NAME_BYTES: usize = 64;
pub const RULES: usize = 128;
pub const CONDITION_NODES: usize = 32;
pub const CONDITION_DEPTH: usize = 4;
pub const CONDITION_MEMBERS: usize = 16;
pub const TERMS: usize = 32;
pub const TERM_BYTES: usize = 64;
pub const TERMS_PER_TASK: usize = 1_024;
pub const CONTRIBUTIONS: usize = 8;
pub const LOOKUP_ENTRIES: usize = 256;
pub const LOOKUP_KEY_BYTES: usize = 256;
pub const LOOKUP_ENTRIES_PER_TASK: usize = 1_024;

} // verus!
