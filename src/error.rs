use vstd::prelude::*;

verus! {

/// Every way an operation of the processor or the codec can fail.
#[derive(Clone, Copy, Debug, PartialEq, Eq, Structural)]
pub enum VerifiAgentError {
    /// The wallet that must authorise the operation did not sign it.
    MissingSignature,
    /// The target slot already holds a valid record.
    AlreadyInitialized,
    /// A slot's bytes do not decode as the record expected there.
    InvalidAccountData,
    /// Instruction bytes, or an argument carried by them, do not decode.
    MalformedData,
    /// The activity counter would pass its largest value.
    CounterOverflow,
    /// A slot does not have the size allocated for its record type.
    StorageSizeMismatch,
    /// The instruction names fewer slots than the operation needs.
    NotEnoughAccountKeys,
}

} // verus!
