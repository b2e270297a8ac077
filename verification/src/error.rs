//! The ways in which decoding can fail.

use vstd::prelude::*;

verus! {

/// Why a value could not be decoded.
///
/// An unrecognised record format is not among these: such a record is
/// stepped over and reported as a placeholder.
#[derive(Clone, Copy, Debug, PartialEq, Eq, Structural)]
pub enum DecodeError {
    /// The stream could not satisfy a read or a seek: it ended too early,
    /// or the seek aimed outside of it.
    Io,
    /// A decoder met a field whose value lies outside of its domain.
    Malformed,
}

} // verus!
