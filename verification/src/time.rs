//! Time as a value: nothing here reads a clock; the evaluation time is
//! supplied by the caller.
use vstd::prelude::*;
use vstd::string::StringExecFns;

verus! {

/// The largest timestamp: 9999-12-31T23:59:59.999Z.
pub const MAX_TIMESTAMP_MS: i64 = 253_402_300_799_999;

/// Milliseconds since the Unix epoch, UTC, in `0..=MAX_TIMESTAMP_MS`.
#[derive(Debug, Clone, Copy, PartialEq, Eq, Hash)]
pub struct Timestamp {
    ms: i64,
}

/// A non-negative span in milliseconds.
#[derive(Debug, Clone, Copy, PartialEq, Eq, Hash)]
pub struct DurationMs(pub u64);

/// A timestamp outside the representable range, or an arithmetic result
/// that would leave it.
#[derive(Debug, Clone, Copy, PartialEq, Eq)]
pub struct TimeRangeError;

/// Whether `ms` is a representable timestamp.
pub open spec fn ms_in_range(ms: int) -> bool {
    0 <= ms <= MAX_TIMESTAMP_MS
}

/// A timestamp result seen as its millisecond count.
pub open spec fn ms_result(r: Result<Timestamp, TimeRangeError>) -> Option<int> {
    match r {
        Ok(t) => Some(t@),
        Err(_) => None,
    }
}

impl View for Timestamp {
    type V = int;

    closed spec fn view(&self) -> int {
        self.ms as int
    }
}

impl Timestamp {
    /// Every timestamp lies within the representable range.
    #[verifier::type_invariant]
    spec fn in_range(self) -> bool {
        0 <= self.ms <= MAX_TIMESTAMP_MS
    }

    /// A validated timestamp.
    pub fn from_ms(ms: i64) -> (r: Result<Timestamp, TimeRangeError>)
        ensures
            ms_result(r) == (if ms_in_range(ms as int) {
                Some(ms as int)
            } else {
                None
            }),
    {
        if 0 <= ms && ms <= MAX_TIMESTAMP_MS {
            Ok(Timestamp { ms })
        } else {
            Err(TimeRangeError)
        }
    }

    pub fn as_ms(self) -> (r: i64)
        ensures
            r == self@,
            ms_in_range(r as int),
    {
        proof {
            use_type_invariant(&self);
        }
        self.ms
    }

    /// `self < other`.
    pub fn before(self, other: Timestamp) -> (r: bool)
        ensures
            r == (self@ < other@),
    {
        self.ms < other.ms
    }

    /// `self - earlier`, refused when negative.
    pub fn since(self, earlier: Timestamp) -> (r: Result<DurationMs, TimeRangeError>)
        ensures
            r is Ok <==> earlier@ <= self@,
            r matches Ok(d) ==> d.0 == self@ - earlier@,
    {
        proof {
            use_type_invariant(&self);
            use_type_invariant(&earlier);
        }
        if self.ms < earlier.ms {
            return Err(TimeRangeError);
        }
        // Both are in range, so the difference fits.
        Ok(DurationMs((self.ms - earlier.ms) as u64))
    }

    /// `self + d`, refused outside the representable range.
    pub fn checked_add(self, d: DurationMs) -> (r: Result<Timestamp, TimeRangeError>)
        ensures
            ms_result(r) == (if ms_in_range(self@ + d.0) {
                Some(self@ + d.0)
            } else {
                None
            }),
    {
        proof {
            use_type_invariant(&self);
        }
        if d.0 > 9_223_372_036_854_775_807u64 {
            return Err(TimeRangeError);
        }
        let d = d.0 as i64;
        // self.ms <= MAX_TIMESTAMP_MS, so the sum cannot leave i64 before the
        // range check refuses it.
        if self.ms > 9_223_372_036_854_775_807i64 - d {
            return Err(TimeRangeError);
        }
        Timestamp::from_ms(self.ms + d)
    }

    /// `self - d`, refused outside the representable range.
    pub fn checked_sub(self, d: DurationMs) -> (r: Result<Timestamp, TimeRangeError>)
        ensures
            ms_result(r) == (if ms_in_range(self@ - d.0) {
                Some(self@ - d.0)
            } else {
                None
            }),
    {
        proof {
            use_type_invariant(&self);
        }
        if d.0 > 9_223_372_036_854_775_807u64 {
            return Err(TimeRangeError);
        }
        let d = d.0 as i64;
        Timestamp::from_ms(self.ms - d)
    }
}


impl TimeRangeError {
    /// The refusal as text.
    pub fn message(&self) -> (r: String)
        ensures
            r@ == "timestamp outside 0..=253402300799999 ms"@,
    {
        String::from_str("timestamp outside 0..=253402300799999 ms")
    }
}

} // verus!
