//! Exit codes: each command's status, as the process reports it.
use vstd::prelude::*;

verus! {

pub const OK: u8 = 0;
pub const USAGE: u8 = 2;
pub const IO: u8 = 3;
pub const INVALID_INPUT: u8 = 4;
pub const REFUSED: u8 = 5;
pub const REJECTED: u8 = 6;
pub const CANCELLED: u8 = 7;
pub const EVIDENCE_NOT_DELIVERED: u8 = 8;
pub const DIVERGED: u8 = 9;
pub const INCOMPARABLE: u8 = 10;
pub const FAIL: u8 = 11;
pub const UNKNOWN: u8 = 12;

} // verus!
