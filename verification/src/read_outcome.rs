//! The one read-outcome classifier.
//!
//! A read packs three outcomes into its status and the data pointer it
//! returned: failure (a non-zero code), not found (success with no data),
//! and data. Every decision that needs the distinction consumes this
//! classification rather than testing the pointer itself.
use vstd::prelude::*;

use crate::status::al_status_t;

verus! {

/// Which of the three things one read did.
#[derive(Debug, Clone, Copy, PartialEq, Eq, Structural)]
pub enum ReadOutcome {
    /// A non-zero code: the read failed outright.
    Failure,
    /// Success with no data returned: the field is absent.
    NotFound,
    /// Success with data returned.
    Data,
}

/// The outcome of a read with status code `code` that did or did not
/// return data.
pub open spec fn outcome_of(code: i32, data_present: bool) -> ReadOutcome {
    if code != 0 {
        ReadOutcome::Failure
    } else if !data_present {
        ReadOutcome::NotFound
    } else {
        ReadOutcome::Data
    }
}

/// Classifies one read from its status and whether it returned a data
/// pointer.
pub fn classify(status: &al_status_t, data_present: bool) -> (r: ReadOutcome)
    ensures
        r == outcome_of(status.code, data_present),
{
    if status.code != 0 {
        ReadOutcome::Failure
    } else if !data_present {
        ReadOutcome::NotFound
    } else {
        ReadOutcome::Data
    }
}

} // verus!
