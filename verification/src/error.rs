use vstd::prelude::*;

verus! {

/// Why an operation on a blob was refused.
///
/// Every failure is decided by the arguments alone, so repeating a call with
/// the same arguments gives the same error.
#[derive(Debug, Clone, Copy, PartialEq, Eq, Structural)]
pub enum BlobError {
    /// A requested range is empty, inverted, or reaches outside the window
    /// it was to be cut from.
    OutOfRange,
    /// The bytes are not UTF-8. `valid_up_to` is the offset, counted from the
    /// start of the decoded bytes, of the first byte that cannot be decoded.
    InvalidEncoding { valid_up_to: usize },
    /// The operation needs a host adapter that this library does not
    /// contain.
    NotImplemented,
}

} // verus!
