//! The commands a request carries: one discriminant byte (0 Init,
//! 1 Propose, 2 Approve, 3 CloseProposal), then the command's fields.
use vstd::prelude::*;

use crate::codec::{
    group_encodable, instruction_encodable, parse_group, parse_instructions, parse_key, parse_u64,
    read_group, read_instructions, read_key, read_u64, read_u8, reads, whole,
};
use crate::error::Error;
use crate::state::{GroupData, GroupView, InstructionView, Key, ProposedInstruction};

verus! {

/// How to create a group's vault.
#[derive(Debug, Clone, Copy)]
pub struct ProtectedAccountConfig {
    /// Resource units to fund the vault with.
    pub lamports: u64,
    /// Bytes to allocate for the vault.
    pub space: u64,
    /// The module that will own the vault.
    pub owner: Key,
}

/// Create a group record, and optionally its vault.
///
/// Accounts: the signing funder; the group record, at the address derived
/// from the group; the system program; the vault, when one is asked for.
#[derive(Debug, Clone)]
pub struct InitInstruction {
    pub group_data: GroupData,
    /// Resource units to fund the group record with.
    pub lamports: u64,
    pub protected_account_config: Option<ProtectedAccountConfig>,
}

/// Propose a batch of actions to the group.
///
/// Accounts: the signing proposer, a member; the group record; the proposal
/// record, at the address derived from the proposal's configuration (used
/// only when the proposer's weight is below the threshold); then what the
/// actions need.
#[derive(Debug, Clone)]
pub struct ProposeInstruction {
    pub instructions: Vec<ProposedInstruction>,
    /// Resource units to fund the proposal record with.
    pub lamports: u64,
    /// Distinguishes otherwise identical proposals.
    pub salt: u64,
}

/// Approve a pending proposal.
///
/// Accounts: the signing approver, a member; the group record; the proposal
/// record; the vault, which receives the proposal's resource units once it
/// executes; then what the actions need.
#[derive(Debug, Clone, Copy)]
pub struct ApproveInstruction {}

/// Close a proposal, sending its resource units to a destination.
///
/// Accounts: the signing author of the proposal; the proposal record; the
/// destination.
#[derive(Debug, Clone, Copy)]
pub struct CloseProposalInstruction {}

#[derive(Debug, Clone)]
pub enum MultiSigInstruction {
    Init(InitInstruction),
    Propose(ProposeInstruction),
    Approve(ApproveInstruction),
    CloseProposal(CloseProposalInstruction),
}

pub struct ProtectedView {
    pub lamports: u64,
    pub space: u64,
    pub owner: Seq<u8>,
}

pub enum CommandView {
    Init { group: GroupView, lamports: u64, protected: Option<ProtectedView> },
    Propose { instructions: Seq<InstructionView>, lamports: u64, salt: u64 },
    Approve,
    CloseProposal,
}

impl View for ProtectedAccountConfig {
    type V = ProtectedView;

    open spec fn view(&self) -> ProtectedView {
        ProtectedView { lamports: self.lamports, space: self.space, owner: self.owner@ }
    }
}

impl View for MultiSigInstruction {
    type V = CommandView;

    open spec fn view(&self) -> CommandView {
        match self {
            MultiSigInstruction::Init(i) => CommandView::Init {
                group: i.group_data@,
                lamports: i.lamports,
                protected: match i.protected_account_config {
                    Some(c) => Some(c@),
                    None => None,
                },
            },
            MultiSigInstruction::Propose(p) => CommandView::Propose {
                instructions: p.instructions@.map_values(|i: ProposedInstruction| i@),
                lamports: p.lamports,
                salt: p.salt,
            },
            MultiSigInstruction::Approve(_) => CommandView::Approve,
            MultiSigInstruction::CloseProposal(_) => CommandView::CloseProposal,
        }
    }
}

pub open spec fn parse_protected(s: Seq<u8>) -> Option<(Option<ProtectedView>, Seq<u8>)> {
    if s.len() == 0 {
        None
    } else if s[0] == 0 {
        Some((None, s.skip(1)))
    } else if s[0] == 1 {
        match parse_u64(s.skip(1)) {
            Some((lamports, r)) => match parse_u64(r) {
                Some((space, r2)) => match parse_key(r2) {
                    Some((owner, r3)) => Some((Some(ProtectedView { lamports, space, owner }), r3)),
                    None => None,
                },
                None => None,
            },
            None => None,
        }
    } else {
        None
    }
}

pub open spec fn parse_command(s: Seq<u8>) -> Option<(CommandView, Seq<u8>)> {
    if s.len() == 0 {
        None
    } else if s[0] == 0 {
        match parse_group(s.skip(1)) {
            Some((group, r)) => match parse_u64(r) {
                Some((lamports, r2)) => match parse_protected(r2) {
                    Some((protected, r3)) => Some(
                        (CommandView::Init { group, lamports, protected }, r3),
                    ),
                    None => None,
                },
                None => None,
            },
            None => None,
        }
    } else if s[0] == 1 {
        match parse_instructions(s.skip(1)) {
            Some((instructions, r)) => match parse_u64(r) {
                Some((lamports, r2)) => match parse_u64(r2) {
                    Some((salt, r3)) => Some(
                        (CommandView::Propose { instructions, lamports, salt }, r3),
                    ),
                    None => None,
                },
                None => None,
            },
            None => None,
        }
    } else if s[0] == 2 {
        Some((CommandView::Approve, s.skip(1)))
    } else if s[0] == 3 {
        Some((CommandView::CloseProposal, s.skip(1)))
    } else {
        None
    }
}

fn read_protected(b: &[u8], pos: usize) -> (r: Option<(Option<ProtectedAccountConfig>, usize)>)
    requires
        pos <= b@.len(),
    ensures
        reads(
            b@,
            pos,
            match r {
                Some((Some(c), q)) => Some((Some(c@), q)),
                Some((None, q)) => Some((None, q)),
                None => None,
            },
            parse_protected(b@.skip(pos as int)),
        ),
{
    let (flag, at0) = match read_u8(b, pos) {
        Some(x) => x,
        None => return None,
    };
    assert(b@.skip(pos as int).skip(1) =~= b@.skip(at0 as int));
    if flag == 0 {
        return Some((None, at0));
    }
    if flag != 1 {
        return None;
    }
    let (lamports, at1) = match read_u64(b, at0) {
        Some(x) => x,
        None => return None,
    };
    let (space, at2) = match read_u64(b, at1) {
        Some(x) => x,
        None => return None,
    };
    let (owner, at3) = match read_key(b, at2) {
        Some(x) => x,
        None => return None,
    };
    Some((Some(ProtectedAccountConfig { lamports, space, owner }), at3))
}

impl MultiSigInstruction {
    /// Decodes a request payload, which must hold exactly one command.
    pub fn try_from_slice(data: &[u8]) -> (r: Result<MultiSigInstruction, Error>)
        ensures
            match whole(parse_command(data@)) {
                Some(c) => r matches Ok(x) && x@ == c,
                None => r == Err::<MultiSigInstruction, Error>(Error::InvalidInstructionData),
            },
            r matches Ok(MultiSigInstruction::Init(i)) ==> group_encodable(i.group_data@),
            r matches Ok(MultiSigInstruction::Propose(p)) ==> p.instructions@.len() <= u32::MAX
                && forall|j: int|
                0 <= j < p.instructions@.len() ==> instruction_encodable(
                    #[trigger] p.instructions@[j]@,
                ),
    {
        let (tag, at0) = match read_u8(data, 0) {
            Some(x) => x,
            None => return Err(Error::InvalidInstructionData),
        };
        assert(data@.skip(1) =~= data@.skip(at0 as int));
        let (command, end) = if tag == 0 {
            let (group_data, at1) = match read_group(data, at0) {
                Some(x) => x,
                None => return Err(Error::InvalidInstructionData),
            };
            let (lamports, at2) = match read_u64(data, at1) {
                Some(x) => x,
                None => return Err(Error::InvalidInstructionData),
            };
            let (protected_account_config, at3) = match read_protected(data, at2) {
                Some(x) => x,
                None => return Err(Error::InvalidInstructionData),
            };
            (
                MultiSigInstruction::Init(
                    InitInstruction { group_data, lamports, protected_account_config },
                ),
                at3,
            )
        } else if tag == 1 {
            let (instructions, at1) = match read_instructions(data, at0) {
                Some(x) => x,
                None => return Err(Error::InvalidInstructionData),
            };
            let (lamports, at2) = match read_u64(data, at1) {
                Some(x) => x,
                None => return Err(Error::InvalidInstructionData),
            };
            let (salt, at3) = match read_u64(data, at2) {
                Some(x) => x,
                None => return Err(Error::InvalidInstructionData),
            };
            (MultiSigInstruction::Propose(ProposeInstruction { instructions, lamports, salt }), at3)
        } else if tag == 2 {
            (MultiSigInstruction::Approve(ApproveInstruction {  }), at0)
        } else if tag == 3 {
            (MultiSigInstruction::CloseProposal(CloseProposalInstruction {  }), at0)
        } else {
            return Err(Error::InvalidInstructionData);
        };
        if end != data.len() {
            return Err(Error::InvalidInstructionData);
        }
        Ok(command)
    }
}

} // verus!
