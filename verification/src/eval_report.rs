//! The evaluation report envelope, `rustev.eval-report/1`: a report names
//! its dataset, split and provenance, and synthetic data is labeled as such.
use vstd::prelude::*;

use crate::ids::DatasetId;

verus! {

/// The dataset a report measured on.
#[derive(Debug, Clone, PartialEq, Eq)]
pub struct DatasetRef {
    pub id: DatasetId,
    pub split: Split,
    pub provenance: DatasetProvenance,
}

/// A split used to fit a head or a calibration map is not a holdout
/// afterwards.
#[derive(Debug, Clone, Copy, PartialEq, Eq)]
pub enum Split {
    Training,
    ModelSelection,
    Calibration,
    FinalTest,
}

/// Where a dataset came from.
#[derive(Debug, Clone, PartialEq, Eq)]
pub enum DatasetProvenance {
    /// Generated; evidence of mechanics, never of semantic quality.
    Synthetic { generator: String },
    Real { source: String, license: String, labeling: String, limitations: String },
}

/// Whether a report's measurements are complete and comparable.
#[derive(Debug, Clone, PartialEq, Eq)]
pub enum ReportStatus {
    Complete,
    Incomplete { reason: String },
    Incomparable { reason: String },
}

} // verus!
