use vstd::prelude::*;

verus! {

/// Error kinds propagated as a result value from every fallible operation.
///
/// The `IO`-pending signal is not an error: it is a normal control return
/// (see `types::CursorResult` and `vdbe::StepResult`).
#[derive(Clone, Copy, PartialEq, Eq, Structural, Debug)]
pub enum DbError {
    /// Malformed page header, cell offset out of range, unknown page type,
    /// bad varint, or a record body that does not fit its cell.
    Corrupt,
    /// An underlying read failed (distinct from the `IO`-pending return).
    IO,
    /// An invariant was violated: a program-builder bug such as
    /// `DecrJumpZero` on a non-integer register or a reference to an
    /// unopened cursor.
    Internal,
    /// A rowid lookup missed.
    NotFound,
}

} // verus!
