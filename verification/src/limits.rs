//! The named parse limit sets: each document type uses exactly one.
use vstd::prelude::*;

use crate::bounded::ParseLimits;

verus! {

/// The limit set with these bounds.
pub open spec fn limits_are(
    l: ParseLimits,
    bytes: usize,
    depth: usize,
    string: usize,
    collection: usize,
    values: usize,
    number: usize,
    fractional: bool,
) -> bool {
    &&& l.max_bytes == bytes
    &&& l.max_depth == depth
    &&& l.max_string_bytes == string
    &&& l.max_collection_len == collection
    &&& l.max_total_values == values
    &&& l.max_number_bytes == number
    &&& l.allow_fractional_numbers == fractional
}

/// Decision definitions.
pub fn definition_v1() -> (r: ParseLimits)
    ensures
        limits_are(r, 1048576, 32, 65536, 4096, 100000, 40, false),
{
    ParseLimits {
        max_bytes: 1048576,
        max_depth: 32,
        max_string_bytes: 65536,
        max_collection_len: 4096,
        max_total_values: 100000,
        max_number_bytes: 40,
        allow_fractional_numbers: false,
    }
}

/// Context snapshots.
pub fn snapshot_v1() -> (r: ParseLimits)
    ensures
        limits_are(r, 4194304, 32, 262144, 10000, 500000, 40, false),
{
    ParseLimits {
        max_bytes: 4194304,
        max_depth: 32,
        max_string_bytes: 262144,
        max_collection_len: 10000,
        max_total_values: 500000,
        max_number_bytes: 40,
        allow_fractional_numbers: false,
    }
}

/// Backend descriptors and calibration artifacts.
pub fn descriptor_v1() -> (r: ParseLimits)
    ensures
        limits_are(r, 262144, 16, 4096, 1024, 20000, 40, false),
{
    ParseLimits {
        max_bytes: 262144,
        max_depth: 16,
        max_string_bytes: 4096,
        max_collection_len: 1024,
        max_total_values: 20000,
        max_number_bytes: 40,
        allow_fractional_numbers: false,
    }
}

/// Backend outputs; masses, logits and scores are JSON numbers.
pub fn backend_output_v1() -> (r: ParseLimits)
    ensures
        limits_are(r, 1048576, 8, 4096, 4096, 50000, 40, true),
{
    ParseLimits {
        max_bytes: 1048576,
        max_depth: 8,
        max_string_bytes: 4096,
        max_collection_len: 4096,
        max_total_values: 50000,
        max_number_bytes: 40,
        allow_fractional_numbers: true,
    }
}

/// Compiled plans.
pub fn plan_v1() -> (r: ParseLimits)
    ensures
        limits_are(r, 2097152, 32, 65536, 4096, 200000, 40, false),
{
    ParseLimits {
        max_bytes: 2097152,
        max_depth: 32,
        max_string_bytes: 65536,
        max_collection_len: 4096,
        max_total_values: 200000,
        max_number_bytes: 40,
        allow_fractional_numbers: false,
    }
}

/// Judgments, evidence records and evaluation reports.
pub fn record_v1() -> (r: ParseLimits)
    ensures
        limits_are(r, 4194304, 32, 262144, 10000, 500000, 40, true),
{
    ParseLimits {
        max_bytes: 4194304,
        max_depth: 32,
        max_string_bytes: 262144,
        max_collection_len: 10000,
        max_total_values: 500000,
        max_number_bytes: 40,
        allow_fractional_numbers: true,
    }
}

/// Replay bundles and evaluation-owned documents.
pub fn replay_v1() -> (r: ParseLimits)
    ensures
        limits_are(r, 16777216, 48, 8388608, 10000, 1000000, 40, true),
{
    ParseLimits {
        max_bytes: 16777216,
        max_depth: 48,
        max_string_bytes: 8388608,
        max_collection_len: 10000,
        max_total_values: 1000000,
        max_number_bytes: 40,
        allow_fractional_numbers: true,
    }
}

/// Request identity documents: the replay limits tightened to 4 MiB.
pub fn request_v1() -> (r: ParseLimits)
    ensures
        limits_are(r, 4194304, 48, 8388608, 10000, 1000000, 40, true),
{
    ParseLimits {
        max_bytes: 4194304,
        max_depth: 48,
        max_string_bytes: 8388608,
        max_collection_len: 10000,
        max_total_values: 1000000,
        max_number_bytes: 40,
        allow_fractional_numbers: true,
    }
}

/// The remote protocol documents.
pub fn remote_v1() -> (r: ParseLimits)
    ensures
        limits_are(r, 4194304, 16, 1048576, 4096, 100000, 40, true),
{
    ParseLimits {
        max_bytes: 4194304,
        max_depth: 16,
        max_string_bytes: 1048576,
        max_collection_len: 4096,
        max_total_values: 100000,
        max_number_bytes: 40,
        allow_fractional_numbers: true,
    }
}

/// Exchange records: a fixed maximum size, free text cut to 256 bytes before escaping.
pub fn exchange_v1() -> (r: ParseLimits)
    ensures
        limits_are(r, 524288, 8, 2048, 64, 4096, 40, false),
{
    ParseLimits {
        max_bytes: 524288,
        max_depth: 8,
        max_string_bytes: 2048,
        max_collection_len: 64,
        max_total_values: 4096,
        max_number_bytes: 40,
        allow_fractional_numbers: false,
    }
}

} // verus!
