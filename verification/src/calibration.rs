//! Calibration artifacts, `rustev.calibration/1`. An artifact names the
//! transformation and what it is bound to; applying it establishes which
//! transformation was applied, not that the result is calibrated on current
//! data.
use vstd::prelude::*;

use crate::decimal::Decimal;
use crate::ids::{ArtifactId, DatasetId};

verus! {

/// A fitted calibration for one question of one backend artifact.
#[derive(Debug, Clone, PartialEq, Eq)]
pub struct CalibrationArtifact {
    pub schema: String,
    pub binding: CalibrationBinding,
    /// The options, in the step's declared order.
    pub options: Vec<String>,
    pub parameters: CalibrationParameters,
}

/// What the calibration was fitted for.
#[derive(Debug, Clone, PartialEq, Eq)]
pub struct CalibrationBinding {
    pub artifact: ArtifactId,
    pub task: String,
    /// The step id of the question.
    pub question: String,
    pub dataset: DatasetId,
    pub method: CalibrationMethod,
}

/// The calibration methods.
#[derive(Debug, Clone, Copy, PartialEq, Eq)]
pub enum CalibrationMethod {
    /// `softmax(z / T)` over logits, or over natural logarithms of masses.
    Temperature1,
}

/// The fitted parameters of a method.
#[derive(Debug, Clone, PartialEq, Eq)]
pub enum CalibrationParameters {
    /// Temperature in `(0, 1000]`.
    Temperature { temperature: Decimal },
}

} // verus!
