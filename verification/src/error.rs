//! The result and error convention every syscall invocation resolves to.

use vstd::prelude::*;

verus! {

/// Read or write intent declared for an address-translation request.
/// `Store` is a strictly stronger permission requirement than `Load`:
/// it is satisfied only by a writable mapping, while `Load` is satisfied
/// by any mapping.
#[derive(Clone, Copy, Debug, PartialEq, Eq, Structural)]
pub enum AccessType {
    /// Read intent.
    Load,
    /// Write intent.
    Store,
}

/// A guest-visible failure of a syscall invocation.
#[derive(Clone, Copy, Debug, PartialEq, Eq, Structural)]
pub enum EbpfError {
    /// A translation request was not fully covered by one mapped region
    /// whose permissions satisfy the intent. Carries the intent, the guest
    /// address and the length of the failed request.
    AccessViolation(AccessType, u64, u64),
}

/// What one syscall invocation resolves to: exactly one success value or
/// one typed failure, written once into the invocation's output slot.
pub type SyscallResult = Result<u64, EbpfError>;

} // verus!
