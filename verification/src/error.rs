//! The ways in which reading text from a frame can fail.

use vstd::prelude::*;

verus! {

/// Why an extraction gave no results.
#[derive(Debug)]
pub enum OcrError {
    /// The region to read has no width or no height.
    DegenerateCrop,
    /// The OCR engine failed; the text says how.
    EngineFailure(String),
    /// A box does not fit into screen coordinates.
    ProjectionOverflow,
}

impl OcrError {
    /// What went wrong, in words.
    pub fn message(&self) -> (text: String)
        ensures
            self is DegenerateCrop ==> text@ == "Image dimensions are 0 in one direction"@,
            self matches OcrError::EngineFailure(reason) ==> text@ == reason@,
            self is ProjectionOverflow ==> text@ == "A box lies outside the screen's coordinates"@,
    {
        match self {
            OcrError::DegenerateCrop => "Image dimensions are 0 in one direction".to_owned(),
            OcrError::EngineFailure(reason) => reason.clone(),
            OcrError::ProjectionOverflow => {
                "A box lies outside the screen's coordinates".to_owned()
            },
        }
    }
}

} // verus!
