use vstd::prelude::*;

verus! {

/// Failures reported by the ledger runtime itself.
#[derive(Debug, Clone, Copy, PartialEq, Eq, Structural)]
pub enum ProgramFault {
    NotEnoughAccountKeys,
    MissingRequiredSignature,
    IncorrectProgramId,
    AccountDataTooSmall,
    InvalidSeeds,
}

/// Every way a request can fail.
#[derive(Debug, Clone, Copy, PartialEq, Eq, Structural)]
pub enum Error {
    /// The request payload is not a well-formed command.
    InvalidInstructionData,
    /// A stored record does not hold a well-formed payload.
    AccountDataDeserialize,
    Program(ProgramFault),
    ZeroThreshold,
    TooManyMembers,
    NoMembers,
    ZeroWeight,
    UnreachableThreshold,
    InvalidGroupAccountKey,
    InvalidProposalAccountKey,
    InvalidProtectedAccountKey,
    Unauthorized,
    AlreadyParticipate,
    InvalidAccountType,
    EmptyAccountData,
}

impl From<ProgramFault> for Error {
    fn from(fault: ProgramFault) -> (r: Error)
        ensures
            r == Error::Program(fault),
    {
        Error::Program(fault)
    }
}

impl vstd::std_specs::convert::FromSpecImpl<ProgramFault> for Error {
    open spec fn obeys_from_spec() -> bool {
        true
    }

    open spec fn from_spec(fault: ProgramFault) -> Error {
        Error::Program(fault)
    }
}

} // verus!
