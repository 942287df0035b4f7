//! The failures that end a run.

use vstd::prelude::*;

verus! {

/// Why a program could not be translated or could not go on running.
///
/// Every failure is final: nothing is retried and no partial result is
/// handed back.
#[derive(Debug, Clone, Copy, PartialEq, Eq, Structural)]
pub enum Error {
    /// The loop markers of the source text do not pair up.
    MalformedProgram,
    /// The data pointer would leave the tape.
    TapeBoundsExceeded,
    /// An input instruction found no byte left to read.
    InputExhausted,
}

} // verus!
