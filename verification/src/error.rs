//! The ways in which a run can fail.

use vstd::prelude::*;

verus! {

/// Why a stage of the analysis gave up.
#[derive(Clone, Copy, Debug, PartialEq, Eq, Structural)]
pub enum AnalysisError {
    /// The table has no header row.
    LoadFailure,
    /// The selected columns do not all lie inside the header.
    InvalidSchema,
    /// A path query named a node that the graph does not have.
    InvalidNode,
    /// The data is larger than the matrix or the graph can index.
    CapacityExceeded,
}

impl AnalysisError {
    /// A one-line diagnostic naming the stage and the cause.
    pub fn message(&self) -> (text: String)
        ensures
            text@ == (match *self {
                AnalysisError::LoadFailure => "load: the table has no header row"@,
                AnalysisError::InvalidSchema => "encode: a selected column lies outside the header"@,
                AnalysisError::InvalidNode => "paths: the source node is not in the graph"@,
                AnalysisError::CapacityExceeded => "encode: the data is too large to index"@,
            }),
    {
        match self {
            AnalysisError::LoadFailure => String::from_str("load: the table has no header row"),
            AnalysisError::InvalidSchema => String::from_str(
                "encode: a selected column lies outside the header",
            ),
            AnalysisError::InvalidNode => String::from_str("paths: the source node is not in the graph"),
            AnalysisError::CapacityExceeded => String::from_str("encode: the data is too large to index"),
        }
    }
}

} // verus!
