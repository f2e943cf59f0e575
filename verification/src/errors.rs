use vstd::prelude::*;

verus! {

/// The failure taxonomy of the protocol. Every fallible operation of the
/// library returns exactly one of these kinds on failure, and a failed
/// operation leaves every record and vault unchanged.
#[derive(Clone, Copy, Debug, PartialEq, Eq, Structural)]
pub enum CoreError {
    /// A derived address is already bound to a record; re-creation is
    /// rejected, never treated as a no-op or an overwrite.
    AlreadyInitialized,
    /// The acting identity does not match the authority that the
    /// operation requires.
    Unauthorized,
    /// The source vault holds less value than the requested movement.
    InsufficientBalance,
    /// Source and destination vault are denominated in different mints.
    MintMismatch,
    /// A checked addition on a balance or counter would exceed the
    /// representable range.
    Overflow,
    /// A checked subtraction on a counter would fall below zero.
    Underflow,
    /// No bump in the allowed range yields a usable address for the
    /// given key tuple.
    AddressSpaceExhausted,
    /// An externally supplied precondition (such as membership of a
    /// verified collection) does not hold.
    PreconditionFailed,
}

} // verus!
