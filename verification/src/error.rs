//! The ways in which the pipeline can fail.
use vstd::prelude::*;

verus! {

/// Why a run of the pipeline ended early. No failure is recovered from: each
/// one ends the run.
#[derive(Clone, Copy, Debug, PartialEq, Eq, Structural)]
pub enum PipelineError {
    /// A distribution parameter is unusable, such as a spread that is not
    /// strictly positive.
    Generation,
    /// The clustering cannot be fitted: no rows, no clusters, more clusters
    /// than rows, or a label outside the requested range.
    Fit,
    /// Rows and columns do not line up while a table is put together.
    TableConstruction,
    /// The table file could not be created or written.
    Io,
    /// The canvas could not be set up or the image could not be finished.
    Render,
}

impl PipelineError {
    /// The text that `message` gives for each failure.
    pub open spec fn spec_message(self) -> Seq<char> {
        match self {
            PipelineError::Generation => "invalid distribution parameters"@,
            PipelineError::Fit => "the clustering could not be fitted"@,
            PipelineError::TableConstruction => "rows and columns of the table do not line up"@,
            PipelineError::Io => "the table file could not be written"@,
            PipelineError::Render => "the scatter plot could not be drawn"@,
        }
    }

    /// A short description of the failure for the user.
    pub fn message(self) -> (text: &'static str)
        ensures
            text@ == self.spec_message(),
    {
        match self {
            PipelineError::Generation => "invalid distribution parameters",
            PipelineError::Fit => "the clustering could not be fitted",
            PipelineError::TableConstruction => "rows and columns of the table do not line up",
            PipelineError::Io => "the table file could not be written",
            PipelineError::Render => "the scatter plot could not be drawn",
        }
    }
}

} // verus!
