//! The request processor. It reads a snapshot of the accounts a request
//! names, decides, and returns what the runtime must do: create records,
//! write them, invoke the approved actions as the group's vault, or zero a
//! proposal and move its resource units.
use vstd::prelude::*;

use crate::address::{
    derive_address, derive_vault_address, derived, group_address, proposal_address, sha256_of,
    vault_address, GROUP_TAG, PROPOSAL_TAG, PROTECTED_TAG,
};
use crate::codec::{
    config_encodable, enc_config, enc_group, enc_proposal, encode_config, encode_group,
    encode_proposal, group_encodable, instruction_encodable, parse_group, parse_proposal, put_raw,
    whole, zero_padded,
};
use crate::error::{Error, ProgramFault};
use crate::instruction::{
    parse_command, CommandView, InitInstruction, MultiSigInstruction, ProposeInstruction,
    ProtectedView,
};
use crate::state::{
    bit_set, group_error, group_valid, keys_equal, member_index, sat_add, total_weight,
    AccountType, ConfigView,
    GroupData, GroupView, Key, ProposalConfig, ProposalData, ProposalState, ProposalView,
    ProposedInstruction, MAX_MEMBERS,
};
use crate::utils::{framed, frame_record, read_account_data, write_account_data, AccountData};

verus! {

/// What a request sees of one account.
#[derive(Debug, Clone)]
pub struct AccountSnapshot {
    pub key: Key,
    pub is_signer: bool,
    /// The module that owns the account.
    pub owner: Key,
    pub data: Vec<u8>,
}

pub struct AccountView {
    pub key: Seq<u8>,
    pub is_signer: bool,
    pub owner: Seq<u8>,
    pub data: Seq<u8>,
}

impl View for AccountSnapshot {
    type V = AccountView;

    open spec fn view(&self) -> AccountView {
        AccountView { key: self.key@, is_signer: self.is_signer, owner: self.owner@, data: self.data@ }
    }
}

/// One request: this program's identity and the accounts, in the order the
/// command expects them.
#[derive(Debug, Clone)]
pub struct Processor {
    pub program_id: Key,
    pub accounts: Vec<AccountSnapshot>,
}

pub struct ProcessorView {
    pub program_id: Seq<u8>,
    pub accounts: Seq<AccountView>,
}

impl View for Processor {
    type V = ProcessorView;

    open spec fn view(&self) -> ProcessorView {
        ProcessorView {
            program_id: self.program_id@,
            accounts: self.accounts@.map_values(|a: AccountSnapshot| a@),
        }
    }
}

/// The seeds with which the program signs for a derived address:
/// `[tag]`, `seed`, `[bump]`.
#[derive(Debug, Clone, Copy)]
pub struct SignerSeeds {
    pub tag: u8,
    pub seed: Key,
    pub bump: u8,
}

/// A record to create at a derived address, which the program signs for.
#[derive(Debug, Clone, Copy)]
pub struct CreateAccount {
    pub funder: Key,
    pub address: Key,
    pub lamports: u64,
    pub space: u64,
    pub owner: Key,
    pub signer: SignerSeeds,
}

/// Zero the record at `from` and move all its resource units to `to`.
#[derive(Debug, Clone, Copy)]
pub struct Sweep {
    pub from: Key,
    pub to: Key,
}

/// What the runtime must carry out, in order, for a request that succeeded.
#[derive(Debug, Clone)]
pub enum Outcome {
    /// Create the group record and write `data` into it; then create the vault.
    Initialized { group: CreateAccount, data: Vec<u8>, vault: Option<CreateAccount> },
    /// Create the proposal record and write `data` into it.
    Proposed { proposal: CreateAccount, data: Vec<u8> },
    /// Invoke each action in order, signed as the vault; then sweep.
    Executed { instructions: Vec<ProposedInstruction>, vault: SignerSeeds, sweep: Option<Sweep> },
    /// Overwrite the proposal record with `data`.
    Approved { proposal: Key, data: Vec<u8> },
    /// Sweep the proposal record.
    Closed { sweep: Sweep },
}

pub open spec fn not_enough_keys() -> Error {
    Error::Program(ProgramFault::NotEnoughAccountKeys)
}

pub open spec fn missing_signature() -> Error {
    Error::Program(ProgramFault::MissingRequiredSignature)
}

/// The group stored in account `a`, if `a` is a group record of this
/// program at the address derived from its payload.
pub open spec fn group_record(a: AccountView, program_id: Seq<u8>) -> Result<GroupView, Error> {
    if a.owner != program_id {
        Err(Error::Program(ProgramFault::IncorrectProgramId))
    } else if a.data.len() == 0 {
        Err(Error::EmptyAccountData)
    } else if a.data[0] != AccountType::Group.spec_tag() {
        Err(Error::InvalidAccountType)
    } else {
        match whole(parse_group(a.data.skip(1))) {
            None => Err(Error::AccountDataDeserialize),
            Some(g) => match derived(GROUP_TAG, sha256_of(a.data.skip(1)), program_id) {
                None => Err(Error::Program(ProgramFault::InvalidSeeds)),
                Some((addr, _)) => if addr != a.key {
                    Err(Error::InvalidGroupAccountKey)
                } else {
                    Ok(g)
                },
            },
        }
    }
}

/// The proposal stored in account `a`, if `a` is a proposal record of this
/// program at the address derived from its configuration.
pub open spec fn proposal_record(a: AccountView, program_id: Seq<u8>) -> Result<ProposalView, Error> {
    if a.owner != program_id {
        Err(Error::Program(ProgramFault::IncorrectProgramId))
    } else if a.data.len() == 0 {
        Err(Error::EmptyAccountData)
    } else if a.data[0] != AccountType::Proposal.spec_tag() {
        Err(Error::InvalidAccountType)
    } else {
        match zero_padded(parse_proposal(a.data.skip(1))) {
            None => Err(Error::AccountDataDeserialize),
            Some(p) => match proposal_address(p.config, program_id) {
                None => Err(Error::Program(ProgramFault::InvalidSeeds)),
                Some((addr, _)) => if addr != a.key {
                    Err(Error::InvalidProposalAccountKey)
                } else {
                    Ok(p)
                },
            },
        }
    }
}

/// `c` creates a record at `at` (address and bump), funded by `funder`,
/// signed for with the seeds `[tag]`, `seed`, `[bump]`.
pub open spec fn creates(
    c: CreateAccount,
    funder: Seq<u8>,
    at: (Seq<u8>, u8),
    lamports: u64,
    space: nat,
    owner: Seq<u8>,
    tag: u8,
    seed: Seq<u8>,
) -> bool {
    &&& c.funder@ == funder
    &&& c.address@ == at.0
    &&& c.lamports == lamports
    &&& c.space == space
    &&& c.owner@ == owner
    &&& c.signer.tag == tag
    &&& c.signer.seed@ == seed
    &&& c.signer.bump == at.1
}

/// `s` signs as the vault of the group at `group`.
pub open spec fn signs_as_vault(s: SignerSeeds, group: Seq<u8>, program_id: Seq<u8>) -> bool {
    &&& vault_address(group, program_id) is Some
    &&& s.tag == PROTECTED_TAG
    &&& s.seed@ == group
    &&& s.bump == (vault_address(group, program_id)->Some_0).1
}

// ---- Init ----

/// The first check that an Init request fails, if any.
pub open spec fn init_failure(p: ProcessorView, g: GroupView, protected: Option<ProtectedView>) -> Option<Error> {
    if p.accounts.len() < 3 {
        Some(not_enough_keys())
    } else if !p.accounts[0].is_signer {
        Some(missing_signature())
    } else if group_error(g) is Some {
        group_error(g)
    } else {
        match group_address(g, p.program_id) {
            None => Some(Error::Program(ProgramFault::InvalidSeeds)),
            Some((addr, _)) => if addr != p.accounts[1].key {
                Some(Error::InvalidGroupAccountKey)
            } else if protected is Some {
                if p.accounts.len() < 4 {
                    Some(not_enough_keys())
                } else {
                    match vault_address(addr, p.program_id) {
                        None => Some(Error::Program(ProgramFault::InvalidSeeds)),
                        Some((v, _)) => if v != p.accounts[3].key {
                            Some(Error::InvalidProtectedAccountKey)
                        } else {
                            None
                        },
                    }
                }
            } else {
                None
            },
        }
    }
}

/// What an Init request returns: the first failure, or the creation of the
/// group record holding the group's encoding (and of the vault if asked).
pub open spec fn init_outcome(
    p: ProcessorView,
    g: GroupView,
    lamports: u64,
    protected: Option<ProtectedView>,
    r: Result<Outcome, Error>,
) -> bool {
    match init_failure(p, g, protected) {
        Some(e) => r == Err::<Outcome, Error>(e),
        None => r matches Ok(Outcome::Initialized { group, data, vault }) && {
            let at = group_address(g, p.program_id)->Some_0;
            &&& creates(
                group,
                p.accounts[0].key,
                at,
                lamports,
                enc_group(g).len() + 1,
                p.program_id,
                GROUP_TAG,
                sha256_of(enc_group(g)),
            )
            &&& data@ == seq![AccountType::Group.spec_tag()] + enc_group(g)
            &&& match protected {
                None => vault is None,
                Some(c) => vault matches Some(v) && creates(
                    v,
                    p.accounts[0].key,
                    vault_address(at.0, p.program_id)->Some_0,
                    c.lamports,
                    c.space as nat,
                    c.owner,
                    PROTECTED_TAG,
                    at.0,
                ),
            }
        },
    }
}

// ---- Propose ----

/// The configuration of a proposal made in this request.
pub open spec fn propose_config(p: ProcessorView, instructions: Seq<crate::state::InstructionView>, salt: u64) -> ConfigView {
    ConfigView { group: p.accounts[1].key, instructions, author: p.accounts[0].key, salt }
}

/// The first check that a Propose request fails, if any.
pub open spec fn propose_failure(p: ProcessorView, instructions: Seq<crate::state::InstructionView>, salt: u64) -> Option<Error> {
    if p.accounts.len() < 1 {
        Some(not_enough_keys())
    } else if !p.accounts[0].is_signer {
        Some(missing_signature())
    } else if p.accounts.len() < 2 {
        Some(not_enough_keys())
    } else {
        match group_record(p.accounts[1], p.program_id) {
            Err(e) => Some(e),
            Ok(g) => match member_index(g.members, p.accounts[0].key) {
                None => Some(Error::Unauthorized),
                Some(i) => if i >= MAX_MEMBERS {
                    Some(Error::TooManyMembers)
                } else if g.members[i].weight >= g.threshold {
                    if vault_address(p.accounts[1].key, p.program_id) is None {
                        Some(Error::Program(ProgramFault::InvalidSeeds))
                    } else {
                        None
                    }
                } else if p.accounts.len() < 3 {
                    Some(not_enough_keys())
                } else {
                    match proposal_address(propose_config(p, instructions, salt), p.program_id) {
                        None => Some(Error::Program(ProgramFault::InvalidSeeds)),
                        Some((addr, _)) => if addr != p.accounts[2].key {
                            Some(Error::InvalidProposalAccountKey)
                        } else {
                            None
                        },
                    }
                },
            },
        }
    }
}

/// What a Propose request returns: the first failure; the batch to execute
/// at once when the proposer's weight alone meets the threshold; otherwise
/// the creation of the proposal record, with the proposer's approval.
pub open spec fn propose_outcome(
    p: ProcessorView,
    instructions: Seq<crate::state::InstructionView>,
    lamports: u64,
    salt: u64,
    r: Result<Outcome, Error>,
) -> bool {
    match propose_failure(p, instructions, salt) {
        Some(e) => r == Err::<Outcome, Error>(e),
        None => {
            let g = group_record(p.accounts[1], p.program_id)->Ok_0;
            let i = member_index(g.members, p.accounts[0].key)->Some_0;
            let w = g.members[i].weight;
            if w >= g.threshold {
                r matches Ok(Outcome::Executed { instructions: ixs, vault, sweep }) && ixs@.map_values(
                    |x: ProposedInstruction| x@,
                ) == instructions && signs_as_vault(vault, p.accounts[1].key, p.program_id)
                    && sweep is None
            } else {
                let c = propose_config(p, instructions, salt);
                let pv = ProposalView {
                    config: c,
                    state: ProposalState { members: 1u64 << (i as u64), current_weight: w },
                };
                r matches Ok(Outcome::Proposed { proposal, data }) && creates(
                    proposal,
                    p.accounts[0].key,
                    proposal_address(c, p.program_id)->Some_0,
                    lamports,
                    enc_proposal(pv).len() + 1,
                    p.program_id,
                    PROPOSAL_TAG,
                    sha256_of(enc_config(c)),
                ) && data@ == seq![AccountType::Proposal.spec_tag()] + enc_proposal(pv)
            }
        },
    }
}

// ---- Approve ----

/// The proposal after member `i` of weight `w` approved it.
pub open spec fn approved(pv: ProposalView, i: int, w: u32) -> ProposalView {
    ProposalView {
        config: pv.config,
        state: ProposalState {
            members: pv.state.members | (1u64 << (i as u64)),
            current_weight: sat_add(pv.state.current_weight, w),
        },
    }
}

/// The first check that an Approve request fails, if any.
pub open spec fn approve_failure(p: ProcessorView) -> Option<Error> {
    if p.accounts.len() < 1 {
        Some(not_enough_keys())
    } else if !p.accounts[0].is_signer {
        Some(missing_signature())
    } else if p.accounts.len() < 2 {
        Some(not_enough_keys())
    } else {
        match group_record(p.accounts[1], p.program_id) {
            Err(e) => Some(e),
            Ok(g) => match member_index(g.members, p.accounts[0].key) {
                None => Some(Error::Unauthorized),
                Some(i) => if p.accounts.len() < 3 {
                    Some(not_enough_keys())
                } else {
                    match proposal_record(p.accounts[2], p.program_id) {
                        Err(e) => Some(e),
                        Ok(pv) => if p.accounts.len() < 4 {
                            Some(not_enough_keys())
                        } else if pv.config.group != p.accounts[1].key {
                            Some(Error::InvalidGroupAccountKey)
                        } else if i >= MAX_MEMBERS {
                            Some(Error::TooManyMembers)
                        } else if bit_set(pv.state.members, i as u64) {
                            Some(Error::AlreadyParticipate)
                        } else if sat_add(pv.state.current_weight, g.members[i].weight)
                            >= g.threshold {
                            if vault_address(p.accounts[1].key, p.program_id) is None {
                                Some(Error::Program(ProgramFault::InvalidSeeds))
                            } else {
                                None
                            }
                        } else if p.accounts[2].data.len() < enc_proposal(
                            approved(pv, i, g.members[i].weight),
                        ).len() + 1 {
                            Some(Error::Program(ProgramFault::AccountDataTooSmall))
                        } else {
                            None
                        },
                    }
                },
            },
        }
    }
}

/// What an Approve request returns: the first failure; once the approvals
/// meet the threshold, the batch to execute followed by the sweep of the
/// proposal into the vault account; otherwise the updated proposal record.
pub open spec fn approve_outcome(p: ProcessorView, r: Result<Outcome, Error>) -> bool {
    match approve_failure(p) {
        Some(e) => r == Err::<Outcome, Error>(e),
        None => {
            let g = group_record(p.accounts[1], p.program_id)->Ok_0;
            let i = member_index(g.members, p.accounts[0].key)->Some_0;
            let pv = proposal_record(p.accounts[2], p.program_id)->Ok_0;
            let next = approved(pv, i, g.members[i].weight);
            if next.state.current_weight >= g.threshold {
                r matches Ok(Outcome::Executed { instructions: ixs, vault, sweep }) && ixs@.map_values(
                    |x: ProposedInstruction| x@,
                ) == pv.config.instructions && signs_as_vault(
                    vault,
                    p.accounts[1].key,
                    p.program_id,
                ) && (sweep matches Some(s) && s.from@ == p.accounts[2].key && s.to@
                    == p.accounts[3].key)
            } else {
                r matches Ok(Outcome::Approved { proposal, data }) && proposal@ == p.accounts[2].key
                    && data@ == framed(
                    AccountType::Proposal,
                    enc_proposal(next),
                    p.accounts[2].data.len(),
                )
            }
        },
    }
}

// ---- CloseProposal ----

/// The first check that a CloseProposal request fails, if any.
pub open spec fn close_failure(p: ProcessorView) -> Option<Error> {
    if p.accounts.len() < 1 {
        Some(not_enough_keys())
    } else if !p.accounts[0].is_signer {
        Some(missing_signature())
    } else if p.accounts.len() < 2 {
        Some(not_enough_keys())
    } else {
        match proposal_record(p.accounts[1], p.program_id) {
            Err(e) => Some(e),
            Ok(pv) => if p.accounts[0].key != pv.config.author {
                Some(missing_signature())
            } else if p.accounts.len() < 3 {
                Some(not_enough_keys())
            } else {
                None
            },
        }
    }
}

/// What a CloseProposal request returns: the first failure, or the sweep of
/// the proposal record into the destination, whatever its approvals.
pub open spec fn close_outcome(p: ProcessorView, r: Result<Outcome, Error>) -> bool {
    match close_failure(p) {
        Some(e) => r == Err::<Outcome, Error>(e),
        None => r matches Ok(Outcome::Closed { sweep }) && sweep.from@ == p.accounts[1].key
            && sweep.to@ == p.accounts[2].key,
    }
}

/// What a request with payload `data` returns.
pub open spec fn request_outcome(p: ProcessorView, data: Seq<u8>, r: Result<Outcome, Error>) -> bool {
    match whole(parse_command(data)) {
        None => r == Err::<Outcome, Error>(Error::InvalidInstructionData),
        Some(CommandView::Init { group, lamports, protected }) => init_outcome(
            p,
            group,
            lamports,
            protected,
            r,
        ),
        Some(CommandView::Propose { instructions, lamports, salt }) => propose_outcome(
            p,
            instructions,
            lamports,
            salt,
            r,
        ),
        Some(CommandView::Approve) => approve_outcome(p, r),
        Some(CommandView::CloseProposal) => close_outcome(p, r),
    }
}

proof fn lemma_first_bit(x: u64)
    ensures
        0u64 | x == x,
        0u64 & x == 0,
{
    assert(0u64 | x == x) by (bit_vector);
    assert(0u64 & x == 0) by (bit_vector);
}

/// Reads the group record in `info`, checking its owner, its type, its
/// payload and that its address is derived from that payload.
pub fn check_and_read_group_data(info: &AccountSnapshot, program_id: &Key) -> (r: Result<GroupData, Error>)
    ensures
        match group_record(info@, program_id@) {
            Ok(g) => r matches Ok(x) && x@ == g,
            Err(e) => r == Err::<GroupData, Error>(e),
        },
        r matches Ok(x) ==> group_encodable(x@),
{
    if !keys_equal(&info.owner, program_id) {
        return Err(Error::Program(ProgramFault::IncorrectProgramId));
    }
    let data = info.data.as_slice();
    let group_data = match read_account_data(AccountType::Group, data) {
        Ok(AccountData::Group(g)) => g,
        Ok(AccountData::Proposal(_)) => return Err(Error::AccountDataDeserialize),
        Err(e) => return Err(e),
    };
    let payload = vstd::slice::slice_subrange(data, 1, data.len());
    assert(payload@ =~= data@.skip(1));
    let (addr, _seed, _bump) = match derive_address(GROUP_TAG, payload, program_id) {
        Some(x) => x,
        None => return Err(Error::Program(ProgramFault::InvalidSeeds)),
    };
    if !keys_equal(&addr, &info.key) {
        return Err(Error::InvalidGroupAccountKey);
    }
    Ok(group_data)
}

/// Reads the proposal record in `info`, checking its owner, its type, its
/// payload and that its address is derived from its configuration.
pub fn check_and_read_proposal_data(info: &AccountSnapshot, program_id: &Key) -> (r: Result<ProposalData, Error>)
    ensures
        match proposal_record(info@, program_id@) {
            Ok(p) => r matches Ok(x) && x@ == p,
            Err(e) => r == Err::<ProposalData, Error>(e),
        },
        r matches Ok(x) ==> config_encodable(x.config@),
{
    if !keys_equal(&info.owner, program_id) {
        return Err(Error::Program(ProgramFault::IncorrectProgramId));
    }
    let proposal_data = match read_account_data(AccountType::Proposal, info.data.as_slice()) {
        Ok(AccountData::Proposal(p)) => p,
        Ok(AccountData::Group(_)) => return Err(Error::AccountDataDeserialize),
        Err(e) => return Err(e),
    };
    let config_bytes = encode_config(&proposal_data.config);
    let (addr, _seed, _bump) = match derive_address(
        PROPOSAL_TAG,
        config_bytes.as_slice(),
        program_id,
    ) {
        Some(x) => x,
        None => return Err(Error::Program(ProgramFault::InvalidSeeds)),
    };
    if !keys_equal(&addr, &info.key) {
        return Err(Error::InvalidProposalAccountKey);
    }
    Ok(proposal_data)
}

impl Processor {
    /// Decodes the request payload and runs the command it holds.
    pub fn process(&self, instruction_data: &[u8]) -> (r: Result<Outcome, Error>)
        ensures
            request_outcome(self@, instruction_data@, r),
    {
        let instruction = match MultiSigInstruction::try_from_slice(instruction_data) {
            Ok(i) => i,
            Err(e) => return Err(e),
        };
        match instruction {
            MultiSigInstruction::Init(i) => self.initialize(i),
            MultiSigInstruction::Propose(p) => self.propose(p),
            MultiSigInstruction::Approve(_) => self.approve(),
            MultiSigInstruction::CloseProposal(_) => self.close_proposal(),
        }
    }

    /// Validates a group and plans the creation of its record (and vault).
    pub fn initialize(&self, instruction: InitInstruction) -> (r: Result<Outcome, Error>)
        ensures
            init_outcome(
                self@,
                instruction.group_data@,
                instruction.lamports,
                match instruction.protected_account_config {
                    Some(c) => Some(c@),
                    None => None,
                },
                r,
            ),
            r is Ok ==> group_valid(instruction.group_data@),
            self@.accounts.len() >= 3 && self@.accounts[0].is_signer && !group_valid(
                instruction.group_data@,
            ) ==> r == Err::<Outcome, Error>(group_error(instruction.group_data@)->Some_0),
    {
        proof {
            crate::state::lemma_group_error_iff_invalid(instruction.group_data@);
        }
        let InitInstruction { group_data: data, lamports, protected_account_config: init_protected } =
            instruction;
        if self.accounts.len() < 3 {
            return Err(Error::Program(ProgramFault::NotEnoughAccountKeys));
        }
        let initializer = &self.accounts[0];
        let group_account = &self.accounts[1];
        assert(self@.accounts[0] == initializer@ && self@.accounts[1] == group_account@);
        if !initializer.is_signer {
            return Err(Error::Program(ProgramFault::MissingRequiredSignature));
        }
        match data.validate() {
            Ok(()) => {},
            Err(e) => return Err(e),
        }
        let serialized = encode_group(&data);
        let (addr, seed, bump) = match derive_address(GROUP_TAG, serialized.as_slice(), &self.program_id) {
            Some(x) => x,
            None => return Err(Error::Program(ProgramFault::InvalidSeeds)),
        };
        if !keys_equal(&group_account.key, &addr) {
            return Err(Error::InvalidGroupAccountKey);
        }
        let record = frame_record(AccountType::Group, serialized.as_slice());
        let group = CreateAccount {
            funder: initializer.key,
            address: addr,
            lamports,
            space: record.len() as u64,
            owner: self.program_id,
            signer: SignerSeeds { tag: GROUP_TAG, seed, bump },
        };
        let vault = match init_protected {
            None => None,
            Some(config) => {
                if self.accounts.len() < 4 {
                    return Err(Error::Program(ProgramFault::NotEnoughAccountKeys));
                }
                let protected_account = &self.accounts[3];
                assert(self@.accounts[3] == protected_account@);
                let (protected_key, protected_bump) = match derive_vault_address(&addr, &self.program_id) {
                    Some(x) => x,
                    None => return Err(Error::Program(ProgramFault::InvalidSeeds)),
                };
                if !keys_equal(&protected_account.key, &protected_key) {
                    return Err(Error::InvalidProtectedAccountKey);
                }
                Some(
                    CreateAccount {
                        funder: initializer.key,
                        address: protected_key,
                        lamports: config.lamports,
                        space: config.space,
                        owner: config.owner,
                        signer: SignerSeeds { tag: PROTECTED_TAG, seed: addr, bump: protected_bump },
                    },
                )
            },
        };
        Ok(Outcome::Initialized { group, data: record, vault })
    }

    /// Records the proposer's approval; executes the batch at once when that
    /// meets the threshold, else plans the proposal record.
    #[verifier::rlimit(50)]
    pub fn propose(&self, instruction: ProposeInstruction) -> (r: Result<Outcome, Error>)
        requires
            instruction.instructions@.len() <= u32::MAX,
            forall|j: int|
                0 <= j < instruction.instructions@.len() ==> instruction_encodable(
                    #[trigger] instruction.instructions@[j]@,
                ),
        ensures
            propose_outcome(
                self@,
                instruction.instructions@.map_values(|x: ProposedInstruction| x@),
                instruction.lamports,
                instruction.salt,
                r,
            ),
    {
        let ghost ixs = instruction.instructions@.map_values(|x: ProposedInstruction| x@);
        let ProposeInstruction { instructions, lamports, salt } = instruction;
        if self.accounts.len() < 1 {
            return Err(Error::Program(ProgramFault::NotEnoughAccountKeys));
        }
        let signer = &self.accounts[0];
        assert(self@.accounts[0] == signer@);
        if !signer.is_signer {
            return Err(Error::Program(ProgramFault::MissingRequiredSignature));
        }
        if self.accounts.len() < 2 {
            return Err(Error::Program(ProgramFault::NotEnoughAccountKeys));
        }
        let group_account = &self.accounts[1];
        assert(self@.accounts[1] == group_account@);
        let group_data = match check_and_read_group_data(group_account, &self.program_id) {
            Ok(g) => g,
            Err(e) => return Err(e),
        };
        let (signer_index, signer_weight) = match group_data.weight(&signer.key) {
            Ok(x) => x,
            Err(e) => return Err(e),
        };
        if signer_index >= MAX_MEMBERS {
            return Err(Error::TooManyMembers);
        }
        let mut state = ProposalState::new();
        match state.add_approval(signer_index, signer_weight) {
            Ok(()) => {},
            Err(e) => return Err(e),
        }
        proof {
            lemma_first_bit(1u64 << (signer_index as u64));
        }
        if state.current_weight() >= group_data.threshold {
            let (_protected, bump) = match derive_vault_address(&group_account.key, &self.program_id) {
                Some(x) => x,
                None => return Err(Error::Program(ProgramFault::InvalidSeeds)),
            };
            return Ok(
                Outcome::Executed {
                    instructions,
                    vault: SignerSeeds { tag: PROTECTED_TAG, seed: group_account.key, bump },
                    sweep: None,
                },
            );
        }
        if self.accounts.len() < 3 {
            return Err(Error::Program(ProgramFault::NotEnoughAccountKeys));
        }
        let proposal_account = &self.accounts[2];
        assert(self@.accounts[2] == proposal_account@);
        let config = ProposalConfig { group: group_account.key, instructions, author: signer.key, salt };
        assert(config@.instructions =~= ixs);
        assert(config@ == propose_config(self@, ixs, salt));
        let serialized_config = encode_config(&config);
        let (addr, seed, bump) = match derive_address(
            PROPOSAL_TAG,
            serialized_config.as_slice(),
            &self.program_id,
        ) {
            Some(x) => x,
            None => return Err(Error::Program(ProgramFault::InvalidSeeds)),
        };
        if !keys_equal(&proposal_account.key, &addr) {
            return Err(Error::InvalidProposalAccountKey);
        }
        let proposal = ProposalData { config, state };
        let serialized = encode_proposal(&proposal);
        let record = frame_record(AccountType::Proposal, serialized.as_slice());
        Ok(
            Outcome::Proposed {
                proposal: CreateAccount {
                    funder: signer.key,
                    address: addr,
                    lamports,
                    space: record.len() as u64,
                    owner: self.program_id,
                    signer: SignerSeeds { tag: PROPOSAL_TAG, seed, bump },
                },
                data: record,
            },
        )
    }

    /// Adds the signer's approval to a proposal; executes it once the
    /// threshold is met, else stores the new approval state.
    pub fn approve(&self) -> (r: Result<Outcome, Error>)
        ensures
            approve_outcome(self@, r),
    {
        if self.accounts.len() < 1 {
            return Err(Error::Program(ProgramFault::NotEnoughAccountKeys));
        }
        let signer = &self.accounts[0];
        assert(self@.accounts[0] == signer@);
        if !signer.is_signer {
            return Err(Error::Program(ProgramFault::MissingRequiredSignature));
        }
        if self.accounts.len() < 2 {
            return Err(Error::Program(ProgramFault::NotEnoughAccountKeys));
        }
        let group_account = &self.accounts[1];
        assert(self@.accounts[1] == group_account@);
        let group_data = match check_and_read_group_data(group_account, &self.program_id) {
            Ok(g) => g,
            Err(e) => return Err(e),
        };
        let (signer_index, signer_weight) = match group_data.weight(&signer.key) {
            Ok(x) => x,
            Err(e) => return Err(e),
        };
        if self.accounts.len() < 3 {
            return Err(Error::Program(ProgramFault::NotEnoughAccountKeys));
        }
        let proposal_account = &self.accounts[2];
        assert(self@.accounts[2] == proposal_account@);
        let proposal_data = match check_and_read_proposal_data(proposal_account, &self.program_id) {
            Ok(p) => p,
            Err(e) => return Err(e),
        };
        let ProposalData { config: proposal_config, state: mut proposal_state } = proposal_data;
        if self.accounts.len() < 4 {
            return Err(Error::Program(ProgramFault::NotEnoughAccountKeys));
        }
        let protected_account = &self.accounts[3];
        assert(self@.accounts[3] == protected_account@);
        if !keys_equal(&proposal_config.group, &group_account.key) {
            return Err(Error::InvalidGroupAccountKey);
        }
        if signer_index >= MAX_MEMBERS {
            return Err(Error::TooManyMembers);
        }
        match proposal_state.add_approval(signer_index, signer_weight) {
            Ok(()) => {},
            Err(e) => return Err(e),
        }
        if proposal_state.current_weight() >= group_data.threshold {
            let (_protected, bump) = match derive_vault_address(&group_account.key, &self.program_id) {
                Some(x) => x,
                None => return Err(Error::Program(ProgramFault::InvalidSeeds)),
            };
            Ok(
                Outcome::Executed {
                    instructions: proposal_config.instructions,
                    vault: SignerSeeds { tag: PROTECTED_TAG, seed: group_account.key, bump },
                    sweep: Some(Sweep { from: proposal_account.key, to: protected_account.key }),
                },
            )
        } else {
            let proposal_data = AccountData::Proposal(
                ProposalData { config: proposal_config, state: proposal_state },
            );
            let mut buf: Vec<u8> = Vec::new();
            put_raw(&mut buf, proposal_account.data.as_slice());
            match write_account_data(&mut buf, AccountType::Proposal, &proposal_data) {
                Ok(()) => {},
                Err(e) => return Err(e),
            }
            Ok(Outcome::Approved { proposal: proposal_account.key, data: buf })
        }
    }

    /// Lets the proposal's author close it, whatever its approvals.
    pub fn close_proposal(&self) -> (r: Result<Outcome, Error>)
        ensures
            close_outcome(self@, r),
    {
        if self.accounts.len() < 1 {
            return Err(Error::Program(ProgramFault::NotEnoughAccountKeys));
        }
        let signer = &self.accounts[0];
        assert(self@.accounts[0] == signer@);
        if !signer.is_signer {
            return Err(Error::Program(ProgramFault::MissingRequiredSignature));
        }
        if self.accounts.len() < 2 {
            return Err(Error::Program(ProgramFault::NotEnoughAccountKeys));
        }
        let proposal_account = &self.accounts[1];
        assert(self@.accounts[1] == proposal_account@);
        let proposal_data = match check_and_read_proposal_data(proposal_account, &self.program_id) {
            Ok(p) => p,
            Err(e) => return Err(e),
        };
        if !keys_equal(&signer.key, &proposal_data.config.author) {
            return Err(Error::Program(ProgramFault::MissingRequiredSignature));
        }
        if self.accounts.len() < 3 {
            return Err(Error::Program(ProgramFault::NotEnoughAccountKeys));
        }
        let destination = &self.accounts[2];
        assert(self@.accounts[2] == destination@);
        Ok(Outcome::Closed { sweep: Sweep { from: proposal_account.key, to: destination.key } })
    }
}

/// Re-deriving a group's address from the record that Init writes gives the
/// address the record is created at: reading that record back yields the
/// group.
pub proof fn lemma_initialized_group_reads_back(
    p: ProcessorView,
    g: GroupView,
    lamports: u64,
    protected: Option<ProtectedView>,
    r: Result<Outcome, Error>,
    is_signer: bool,
)
    requires
        group_encodable(g),
        init_outcome(p, g, lamports, protected, r),
    ensures
        r matches Ok(Outcome::Initialized { group, data, vault }) ==> group_record(
            AccountView { key: group.address@, is_signer, owner: group.owner@, data: data@ },
            p.program_id,
        ) == Ok::<GroupView, Error>(g),
{
    if let Ok(Outcome::Initialized { group, data, vault }) = r {
        crate::codec::lemma_parse_group(g, Seq::empty());
        assert(enc_group(g) + Seq::<u8>::empty() =~= enc_group(g));
        assert(data@.skip(1) =~= enc_group(g));
    }
}

/// A record whose bytes are all zero, as an executed or closed proposal is
/// left, never reads as a proposal.
pub proof fn lemma_zeroed_record_is_no_proposal(a: AccountView, program_id: Seq<u8>)
    requires
        forall|i: int| 0 <= i < a.data.len() ==> a.data[i] == 0,
    ensures
        proposal_record(a, program_id) is Err,
{
}

/// An Approve or a CloseProposal that names a zeroed record as the proposal
/// fails.
pub proof fn lemma_zeroed_proposal_refused(p: ProcessorView)
    ensures
        p.accounts.len() >= 3 && (forall|i: int|
            0 <= i < p.accounts[2].data.len() ==> p.accounts[2].data[i] == 0) ==> approve_failure(
            p,
        ) is Some,
        p.accounts.len() >= 2 && (forall|i: int|
            0 <= i < p.accounts[1].data.len() ==> p.accounts[1].data[i] == 0) ==> close_failure(
            p,
        ) is Some,
{
    if p.accounts.len() >= 3 && (forall|i: int|
        0 <= i < p.accounts[2].data.len() ==> p.accounts[2].data[i] == 0) {
        lemma_zeroed_record_is_no_proposal(p.accounts[2], p.program_id);
    }
    if p.accounts.len() >= 2 && (forall|i: int|
        0 <= i < p.accounts[1].data.len() ==> p.accounts[1].data[i] == 0) {
        lemma_zeroed_record_is_no_proposal(p.accounts[1], p.program_id);
    }
}

/// The accounts of a later request that sees the proposal record (the third
/// account) holding `data`, everything else being as in `p`.
pub open spec fn with_proposal_data(p: ProcessorView, data: Seq<u8>) -> ProcessorView {
    ProcessorView {
        program_id: p.program_id,
        accounts: p.accounts.update(
            2,
            AccountView {
                key: p.accounts[2].key,
                is_signer: p.accounts[2].is_signer,
                owner: p.accounts[2].owner,
                data,
            },
        ),
    }
}

/// A proposal record rewritten with another approval state of the same
/// configuration reads back as the new proposal.
proof fn lemma_rewritten_proposal_reads_back(
    a: AccountView,
    program_id: Seq<u8>,
    state: ProposalState,
    data: Seq<u8>,
)
    requires
        proposal_record(a, program_id) is Ok,
        data == framed(
            AccountType::Proposal,
            enc_proposal(
                ProposalView { config: (proposal_record(a, program_id)->Ok_0).config, state },
            ),
            a.data.len(),
        ),
    ensures
        proposal_record(
            AccountView { key: a.key, is_signer: a.is_signer, owner: a.owner, data },
            program_id,
        ) == Ok::<ProposalView, Error>(
            ProposalView { config: (proposal_record(a, program_id)->Ok_0).config, state },
        ),
{
    let pv = proposal_record(a, program_id)->Ok_0;
    let next = ProposalView { config: pv.config, state };
    let payload = enc_proposal(next);
    crate::codec::lemma_padded_proposal_sound(a.data.skip(1));
    crate::codec::lemma_proposal_len(next, pv);
    assert(a.data.len() >= payload.len() + 1);
    let pad = Seq::new((a.data.len() - payload.len() - 1) as nat, |i: int| 0u8);
    assert(data.skip(1) =~= payload + pad);
    assert(data[0] == AccountType::Proposal.spec_tag());
    crate::codec::lemma_parse_proposal(next, pad);
    assert(zero_padded(parse_proposal(data.skip(1))) == Some(next));
}

/// After an Approve that stores the new approval state, the same member
/// approving the stored proposal again is refused as `AlreadyParticipate`,
/// so nothing more is written.
pub proof fn lemma_second_approval_refused(p: ProcessorView, r: Result<Outcome, Error>)
    requires
        approve_outcome(p, r),
    ensures
        r matches Ok(Outcome::Approved { proposal, data }) ==> approve_failure(
            with_proposal_data(p, data@),
        ) == Some(Error::AlreadyParticipate),
{
    if let Ok(Outcome::Approved { proposal, data }) = r {
        let q = with_proposal_data(p, data@);
        let g = group_record(p.accounts[1], p.program_id)->Ok_0;
        let i = member_index(g.members, p.accounts[0].key)->Some_0;
        let pv = proposal_record(p.accounts[2], p.program_id)->Ok_0;
        let next = approved(pv, i, g.members[i].weight);
        crate::state::lemma_member_index_in_range(g.members, p.accounts[0].key);
        assert(0 <= i < MAX_MEMBERS);
        lemma_rewritten_proposal_reads_back(p.accounts[2], p.program_id, next.state, data@);
        assert(q.accounts[0] == p.accounts[0]);
        assert(q.accounts[1] == p.accounts[1]);
        assert(proposal_record(q.accounts[2], q.program_id) == Ok::<ProposalView, Error>(next));
        crate::state::lemma_approval_bit_sticks(
            pv.state.members,
            i as u64,
            if i == 0 {
                1
            } else {
                0
            },
        );
    }
}

/// Init, on a request that names its accounts with a signing funder and the
/// group record at the group's derived address, succeeds exactly when the
/// group is valid. Otherwise it fails with the error of the first rule the
/// group breaks, and creates nothing.
pub proof fn lemma_initialize_validates(
    p: ProcessorView,
    g: GroupView,
    lamports: u64,
    r: Result<Outcome, Error>,
)
    requires
        init_outcome(p, g, lamports, None, r),
        p.accounts.len() >= 3,
        p.accounts[0].is_signer,
        group_address(g, p.program_id) is Some,
        (group_address(g, p.program_id)->Some_0).0 == p.accounts[1].key,
    ensures
        r is Ok <==> group_valid(g),
        g.threshold == 0 ==> r == Err::<Outcome, Error>(Error::ZeroThreshold),
        g.threshold > 0 && g.members.len() > MAX_MEMBERS ==> r == Err::<Outcome, Error>(
            Error::TooManyMembers,
        ),
        g.threshold > 0 && g.members.len() == 0 ==> r == Err::<Outcome, Error>(Error::NoMembers),
        g.threshold > 0 && 1 <= g.members.len() <= MAX_MEMBERS && (exists|i: int|
            0 <= i < g.members.len() && (#[trigger] g.members[i]).weight == 0) ==> r == Err::<
            Outcome,
            Error,
        >(Error::ZeroWeight),
        g.threshold > 0 && 1 <= g.members.len() <= MAX_MEMBERS && (forall|i: int|
            0 <= i < g.members.len() ==> (#[trigger] g.members[i]).weight > 0) && total_weight(
            g.members,
        ) < g.threshold ==> r == Err::<Outcome, Error>(Error::UnreachableThreshold),
{
    crate::state::lemma_group_error_iff_invalid(g);
}

/// An Approve that brings the proposal's weight to the threshold runs the
/// proposal's actions, in order, signed as the group's vault, then zeroes
/// the proposal record and sweeps its resource units into the vault account.
pub proof fn lemma_threshold_met_executes(
    p: ProcessorView,
    g: GroupView,
    i: int,
    pv: ProposalView,
    r: Result<Outcome, Error>,
)
    requires
        approve_outcome(p, r),
        p.accounts.len() >= 4,
        p.accounts[0].is_signer,
        group_record(p.accounts[1], p.program_id) == Ok::<GroupView, Error>(g),
        member_index(g.members, p.accounts[0].key) == Some(i),
        i < MAX_MEMBERS,
        proposal_record(p.accounts[2], p.program_id) == Ok::<ProposalView, Error>(pv),
        pv.config.group == p.accounts[1].key,
        !bit_set(pv.state.members, i as u64),
        sat_add(pv.state.current_weight, g.members[i].weight) >= g.threshold,
        vault_address(p.accounts[1].key, p.program_id) is Some,
    ensures
        r matches Ok(Outcome::Executed { instructions, vault, sweep }) && instructions@.map_values(
            |x: ProposedInstruction| x@,
        ) == pv.config.instructions && signs_as_vault(vault, p.accounts[1].key, p.program_id) && (
        sweep matches Some(s) && s.from@ == p.accounts[2].key && s.to@ == p.accounts[3].key),
{
}

/// The author of a proposal can close it whatever approvals it has
/// gathered: the record is zeroed and its resource units are swept to the
/// destination the author names.
pub proof fn lemma_author_closes(p: ProcessorView, pv: ProposalView, r: Result<Outcome, Error>)
    requires
        close_outcome(p, r),
        p.accounts.len() >= 3,
        p.accounts[0].is_signer,
        proposal_record(p.accounts[1], p.program_id) == Ok::<ProposalView, Error>(pv),
        p.accounts[0].key == pv.config.author,
    ensures
        r matches Ok(Outcome::Closed { sweep }) && sweep.from@ == p.accounts[1].key && sweep.to@
            == p.accounts[2].key,
{
}

} // verus!
