//! Classification of the one-character sector status used by map files.

use vstd::prelude::*;

verus! {

/// How one sector range of the image behaves once mounted.
#[derive(Clone, Copy, PartialEq, Eq, Structural, Debug)]
pub enum Status {
    /// The range was read successfully and is passed through unchanged.
    Linear,
    /// The range was not recovered and must surface as an I/O error.
    Error,
}

/// The status characters a map file may use for a data line.
pub open spec fn spec_classify(c: char) -> Option<Status> {
    if c == '+' {
        Some(Status::Linear)
    } else if c == '?' || c == '*' || c == '/' || c == '-' {
        Some(Status::Error)
    } else {
        None
    }
}

/// Maps a data-line status character to its behaviour; every character
/// other than `+`, `?`, `*`, `/` and `-` is unknown.
pub fn classify(c: char) -> (r: Option<Status>)
    ensures
        r == spec_classify(c),
{
    if c == '+' {
        Some(Status::Linear)
    } else if c == '?' || c == '*' || c == '/' || c == '-' {
        Some(Status::Error)
    } else {
        None
    }
}

/// Every single character meets exactly one of three fates: `+` maps to a
/// linear range, the four failure characters map to an error range, and
/// anything else is rejected as unknown; there is no fourth outcome.
pub proof fn lemma_status_classification_total(c: char)
    ensures
        c == '+' ==> spec_classify(c) == Some(Status::Linear),
        (c == '?' || c == '*' || c == '/' || c == '-') ==> spec_classify(c) == Some(Status::Error),
        !(c == '+' || c == '?' || c == '*' || c == '/' || c == '-') ==> spec_classify(c) is None,
{
}

/// The status characters accepted in the header line's current-status field.
pub open spec fn spec_header_status_ok(c: char) -> bool {
    c == '?' || c == '*' || c == '/' || c == '-' || c == 'F' || c == 'G' || c == '+'
}

/// Whether a character is a valid current-status for the header line.
pub fn header_status_ok(c: char) -> (r: bool)
    ensures
        r == spec_header_status_ok(c),
{
    c == '?' || c == '*' || c == '/' || c == '-' || c == 'F' || c == 'G' || c == '+'
}

} // verus!
