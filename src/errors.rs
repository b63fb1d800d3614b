use vstd::prelude::*;

verus! {

/// Why an instruction failed. Any of them aborts the instruction as a whole.
#[derive(Clone, Copy, Debug, PartialEq, Eq, Structural)]
pub enum ErrorCode {
    VaultLocked,
    InsufficientBalance,
    TopicTooLong,
    ContentTooLong,
    AlreadyInitialized,
    /// A derivation, `has_one`, writability or program-id constraint failed.
    ConstraintViolation,
    MissingSignature,
    /// An account the instruction reads does not exist or holds the wrong record.
    AccountNotInitialized,
    /// The host refuses to leave a program account below its rent-exempt minimum.
    InsufficientFundsForRent,
}

} // verus!
