use vstd::prelude::*;

verus! {

/// What went wrong in the catalog or in the processing of a message.
#[derive(Debug, PartialEq, Eq)]
pub enum M2SError {
    /// Two metrics of the catalog share a name.
    DuplicateMetric { metric_name: String },
    /// The extraction expression failed on the payload.
    QueryFailed { metric_name: String },
    /// What the extraction expression produced is not a JSON document.
    MalformedResult { metric_name: String },
    /// The wall clock could not be read as milliseconds since the epoch.
    ClockUnreadable,
}

} // verus!
