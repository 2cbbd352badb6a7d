use vstd::prelude::*;

verus! {

/// Why rows returned by the store could not be converted for the query kind
/// they were produced for.
#[derive(Clone, Copy, PartialEq, Eq, Structural, Debug)]
pub enum ConversionError {
    /// A row's shape did not match the expected query kind.
    UnexpectedShape,
    /// The counts of the converted rows do not fit into one machine word
    /// when added, so no layout could ever be computed for them.
    CountOverflow,
}

/// The failures the navigation subsystem can report.
#[derive(PartialEq, Eq, Debug)]
pub enum EngineError {
    /// The background worker has terminated and its channel is closed;
    /// fatal for the link that reported it.
    ChannelClosed,
    /// The store failed to execute a query; recoverable, the worker stays up.
    StoreError(String),
    /// Rows could not be converted into the requested result shape.
    Conversion(ConversionError),
    /// The navigation stacks or the response stream are out of sync; the
    /// operation was aborted without mutating state.
    InvariantViolation,
}

} // verus!
