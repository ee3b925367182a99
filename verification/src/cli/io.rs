//! The read budget of one command: each file is read up to its document's
//! limit plus one byte, so an oversized file reaches the parser and is
//! refused by the document's own bound, and one command reads at most
//! [`MAX_TOTAL_BYTES`] in total. The reads themselves are the host's.
use vstd::prelude::*;

use vstd::string::StringExecFns;

use crate::text::{decimal_text, join3, usize_text};

verus! {

/// The most bytes one command reads, store items included.
pub const MAX_TOTAL_BYTES: usize = 268_435_456;

/// The most rules files one command reads.
pub const MAX_RULES_FILES: usize = 64;

/// The most descriptor files one command reads.
pub const MAX_DESCRIPTOR_FILES: usize = 4096;

/// The most calibration files one command reads.
pub const MAX_CALIBRATION_FILES: usize = 4096;

/// Why a file could not be read or written: status `io_error`, exit 3.
#[derive(Debug, Clone, PartialEq, Eq)]
pub struct IoFail {
    pub path: String,
    pub detail: String,
}

/// The per-command read budget.
#[derive(Debug)]
pub struct Reads {
    cap: usize,
    remaining: usize,
}

impl Reads {
    /// What is left never exceeds the cap.
    #[verifier::type_invariant]
    spec fn within_cap(self) -> bool {
        self.remaining <= self.cap
    }

    /// The budget's cap in bytes.
    pub closed spec fn cap_of(self) -> usize {
        self.cap
    }

    /// The bytes still allowed.
    pub closed spec fn left(self) -> usize {
        self.remaining
    }

    /// A budget of `cap` bytes, none spent.
    pub fn with_cap(cap: usize) -> (r: Reads)
        ensures
            r.cap_of() == cap,
            r.left() == cap,
    {
        Reads { cap, remaining: cap }
    }

    /// The bytes still allowed.
    pub fn remaining(&self) -> (r: usize)
        ensures
            r == self.left(),
            r <= self.cap_of(),
    {
        proof {
            use_type_invariant(self);
        }
        self.remaining
    }

    /// How many bytes to read for a file allowed `max` bytes: one past what
    /// is left tells an exhausted budget from a file that fits exactly.
    pub fn take_limit(&self, max: usize) -> (r: usize)
        ensures
            r == if max as int <= self.left() + 1 {
                max as int
            } else {
                self.left() + 1
            },
    {
        let one_more = if self.remaining == usize::MAX {
            usize::MAX
        } else {
            self.remaining + 1
        };
        if max <= one_more {
            max
        } else {
            one_more
        }
    }

    /// Charge `got` bytes read from `path` to the budget: refused, and
    /// nothing charged, when more were read than are left.
    pub fn charge(&mut self, path: &str, got: usize) -> (r: Result<(), IoFail>)
        ensures
            final(self).cap_of() == old(self).cap_of(),
            got <= old(self).left() ==> r is Ok && final(self).left() == old(self).left() - got,
            got > old(self).left() ==> (r matches Err(e) && e.path@ == path@ && e.detail@
                == "the command's read budget of "@ + decimal_text(old(self).cap_of() as nat)
                + " bytes is exhausted"@) && final(self).left() == old(self).left(),
    {
        proof {
            use_type_invariant(&*self);
        }
        if got > self.remaining {
            let cap = usize_text(self.cap);
            return Err(
                IoFail {
                    path: String::from_str(path),
                    detail: join3("the command's read budget of ", cap.as_str(), " bytes is exhausted"),
                },
            );
        }
        self.remaining = self.remaining - got;
        Ok(())
    }
}

impl Default for Reads {
    /// A budget of [`MAX_TOTAL_BYTES`].
    fn default() -> (r: Reads)
        ensures
            r.cap_of() == MAX_TOTAL_BYTES,
            r.left() == MAX_TOTAL_BYTES,
    {
        Reads::with_cap(MAX_TOTAL_BYTES)
    }
}

} // verus!
