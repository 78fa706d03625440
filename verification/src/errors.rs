//! The error taxonomy of the pipeline.  Every variant is fatal to the run:
//! the caller is expected to stop at the first error.

use vstd::prelude::*;

verus! {

/// Why a run failed.
#[derive(Debug)]
pub enum PipelineError {
    /// Enrichment looked up a field that the record does not hold.
    MissingField,
    /// The sink reported `errors: true` for a chunk; carries the raw
    /// response body for diagnostics.
    SinkErrors { body: String },
    /// The sink's response held no boolean `errors` flag; carries the raw
    /// response body for diagnostics.
    BadResponse { body: String },
}

impl PipelineError {
    /// A diagnostic label naming the kind of failure.
    pub fn kind(&self) -> (r: &'static str)
        ensures
            self is MissingField ==> r@ == "missing field"@,
            self is SinkErrors ==> r@ == "sink reported errors"@,
            self is BadResponse ==> r@ == "malformed sink response"@,
    {
        match self {
            PipelineError::MissingField => "missing field",
            PipelineError::SinkErrors { .. } => "sink reported errors",
            PipelineError::BadResponse { .. } => "malformed sink response",
        }
    }
}

} // verus!
