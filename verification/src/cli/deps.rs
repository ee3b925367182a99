//! A plan's dependencies: backend descriptors, rules programs (whose
//! descriptors are derived) and calibration artifacts, and the file-count
//! caps checked before a command reads its first file.
use vstd::prelude::*;
use vstd::string::StringExecFns;

use crate::calibration::CalibrationArtifact;
use crate::cli::args::{values_for, Parsed};
use crate::cli::io::{IoFail, MAX_CALIBRATION_FILES, MAX_DESCRIPTOR_FILES, MAX_RULES_FILES};
use crate::descriptor::BackendDescriptor;
use crate::rules::backend::RulesBackend;
use crate::text::{decimal_text, join, join4, usize_text};

verus! {

/// What the dependency flags named.
pub struct Deps {
    /// `--descriptor` files, then each rules program's derived descriptor.
    pub descriptors: Vec<BackendDescriptor>,
    pub calibrations: Vec<CalibrationArtifact>,
    pub rules: Vec<RulesBackend>,
}

/// Why the dependencies could not be read.
#[derive(Debug)]
pub enum DepFail {
    Io(IoFail),
    /// A malformed descriptor or calibration: a category 1 refusal naming
    /// `descriptor:<path>` or `calibration:<path>`.
    Parse { subject: String, detail: String },
    /// A rules program that does not parse or validate.
    Rules { path: String, detail: String },
}

/// The refusal of more than `max` files for `--{flag}`.
pub open spec fn too_many(flag: Seq<char>, n: nat, max: nat) -> (Seq<char>, Seq<char>) {
    ("--"@ + flag, decimal_text(n) + " files given; at most "@ + decimal_text(max) + " are read"@)
}

/// `r` is the refusal `f`.
pub open spec fn fails_with(r: Result<(), IoFail>, f: (Seq<char>, Seq<char>)) -> bool {
    match r {
        Err(e) => e.path@ == f.0 && e.detail@ == f.1,
        Ok(_) => false,
    }
}

/// `n` files for `--{flag}`, at most `max` allowed.
fn count(flag: &str, n: usize, max: usize) -> (r: Result<(), IoFail>)
    ensures
        n <= max ==> r is Ok,
        n > max ==> fails_with(r, too_many(flag@, n as nat, max as nat)),
{
    if n > max {
        let a = usize_text(n);
        let b = usize_text(max);
        return Err(
            IoFail {
                path: join("--", flag),
                detail: join4(a.as_str(), " files given; at most ", b.as_str(), " are read"),
            },
        );
    }
    Ok(())
}

/// The file-count caps, checked before a command reads its first file:
/// descriptors, then rules programs, then calibrations.
pub fn check_counts(p: &Parsed) -> (r: Result<(), IoFail>)
    ensures
        ({
            let d = values_for(p.pairs(), "descriptor"@).len();
            let u = values_for(p.pairs(), "rules"@).len();
            let c = values_for(p.pairs(), "calibration"@).len();
            if d > MAX_DESCRIPTOR_FILES {
                fails_with(r, too_many("descriptor"@, d, MAX_DESCRIPTOR_FILES as nat))
            } else if u > MAX_RULES_FILES {
                fails_with(r, too_many("rules"@, u, MAX_RULES_FILES as nat))
            } else if c > MAX_CALIBRATION_FILES {
                fails_with(r, too_many("calibration"@, c, MAX_CALIBRATION_FILES as nat))
            } else {
                r is Ok
            }
        }),
{
    let d = p.many("descriptor");
    count("descriptor", d.len(), MAX_DESCRIPTOR_FILES)?;
    let u = p.many("rules");
    count("rules", u.len(), MAX_RULES_FILES)?;
    let c = p.many("calibration");
    count("calibration", c.len(), MAX_CALIBRATION_FILES)
}

} // verus!
