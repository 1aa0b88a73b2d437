use multisig::address::{derive_address, derive_vault_address, GROUP_TAG, PROPOSAL_TAG};
use multisig::codec::{encode_config, encode_group};
use multisig::error::{Error, ProgramFault};
use multisig::processor::{AccountSnapshot, Outcome, Processor};
use multisig::state::{
    AccountType, GroupData, GroupMember, ProposalConfig, ProposedAccountMeta, ProposedInstruction,
};
use multisig::utils::{read_account_data, AccountData};

const PROGRAM: [u8; 32] = [7u8; 32];
const SYSTEM: [u8; 32] = [0u8; 32];
const PAYER: [u8; 32] = [9u8; 32];
const ALICE: [u8; 32] = [1u8; 32];
const BOB: [u8; 32] = [2u8; 32];
const CHRIS: [u8; 32] = [3u8; 32];
const DESTINATION: [u8; 32] = [4u8; 32];

type Action = ([u8; 32], Vec<([u8; 32], bool, bool)>, Vec<u8>);

fn account(key: [u8; 32], is_signer: bool, owner: [u8; 32], data: Vec<u8>) -> AccountSnapshot {
    AccountSnapshot { key, is_signer, owner, data }
}

fn group_data(members: &[([u8; 32], u32)], threshold: u32) -> GroupData {
    GroupData {
        members: members.iter().map(|(k, w)| GroupMember { public_key: *k, weight: *w }).collect(),
        threshold,
    }
}

fn group_address(members: &[([u8; 32], u32)], threshold: u32) -> [u8; 32] {
    let bytes = encode_group(&group_data(members, threshold));
    derive_address(GROUP_TAG, &bytes, &PROGRAM).unwrap().0
}

fn vault_address(group: [u8; 32]) -> ([u8; 32], u8) {
    derive_vault_address(&group, &PROGRAM).unwrap()
}

fn init_bytes(
    members: &[([u8; 32], u32)],
    threshold: u32,
    vault: Option<(u64, u64, [u8; 32])>,
) -> Vec<u8> {
    let mut b = vec![0u8];
    b.extend(borsh::to_vec(&(members.to_vec(), threshold, 1000u64, vault)).unwrap());
    b
}

fn init_processor(group: [u8; 32], extra: Option<[u8; 32]>) -> Processor {
    let mut accounts = vec![
        account(PAYER, true, SYSTEM, vec![]),
        account(group, false, SYSTEM, vec![]),
        account(SYSTEM, false, SYSTEM, vec![]),
    ];
    if let Some(k) = extra {
        accounts.push(account(k, false, SYSTEM, vec![]));
    }
    Processor { program_id: PROGRAM, accounts }
}

/// Runs Init and returns the group record as the ledger would hold it.
fn create_group(members: &[([u8; 32], u32)], threshold: u32) -> AccountSnapshot {
    let addr = group_address(members, threshold);
    let outcome = init_processor(addr, None).process(&init_bytes(members, threshold, None)).unwrap();
    match outcome {
        Outcome::Initialized { group, data, vault } => {
            assert_eq!(group.address, addr);
            assert!(vault.is_none());
            account(addr, false, PROGRAM, data)
        }
        other => panic!("unexpected outcome {:?}", other),
    }
}

fn transfer_action(from: [u8; 32], to: [u8; 32], amount: u64) -> Action {
    let mut data = vec![2u8, 0, 0, 0];
    data.extend(amount.to_le_bytes());
    (SYSTEM, vec![(from, true, true), (to, false, true)], data)
}

fn to_instruction(a: &Action) -> ProposedInstruction {
    ProposedInstruction {
        program_id: a.0,
        accounts: a
            .1
            .iter()
            .map(|(k, s, w)| ProposedAccountMeta { pubkey: *k, is_signer: *s, is_writable: *w })
            .collect(),
        data: a.2.clone(),
    }
}

fn propose_bytes(actions: &[Action], salt: u64) -> Vec<u8> {
    let mut b = vec![1u8];
    b.extend(borsh::to_vec(&(actions.to_vec(), 100u64, salt)).unwrap());
    b
}

fn proposal_address(group: [u8; 32], actions: &[Action], author: [u8; 32], salt: u64) -> [u8; 32] {
    let config = ProposalConfig {
        group,
        instructions: actions.iter().map(to_instruction).collect(),
        author,
        salt,
    };
    derive_address(PROPOSAL_TAG, &encode_config(&config), &PROGRAM).unwrap().0
}

fn standard_members() -> Vec<([u8; 32], u32)> {
    vec![(ALICE, 2), (BOB, 1), (CHRIS, 1)]
}

/// Proposes `actions` as `author`, expecting a pending proposal; returns the
/// group record and the proposal record.
fn pending_proposal(
    members: &[([u8; 32], u32)],
    threshold: u32,
    author: [u8; 32],
    actions: &[Action],
) -> (AccountSnapshot, AccountSnapshot) {
    let group = create_group(members, threshold);
    let paddr = proposal_address(group.key, actions, author, 1);
    let p = Processor {
        program_id: PROGRAM,
        accounts: vec![
            account(author, true, SYSTEM, vec![]),
            group.clone(),
            account(paddr, false, SYSTEM, vec![]),
        ],
    };
    match p.process(&propose_bytes(actions, 1)).unwrap() {
        Outcome::Proposed { proposal, data } => {
            assert_eq!(proposal.address, paddr);
            assert_eq!(proposal.funder, author);
            assert_eq!(proposal.lamports, 100);
            assert_eq!(proposal.space, data.len() as u64);
            assert_eq!(proposal.owner, PROGRAM);
            assert_eq!(proposal.signer.tag, PROPOSAL_TAG);
            (group, account(paddr, false, PROGRAM, data))
        }
        other => panic!("unexpected outcome {:?}", other),
    }
}

fn approve(signer: [u8; 32], group: &AccountSnapshot, proposal: &AccountSnapshot) -> Result<Outcome, Error> {
    let (vault, _) = vault_address(group.key);
    let p = Processor {
        program_id: PROGRAM,
        accounts: vec![
            account(signer, true, SYSTEM, vec![]),
            group.clone(),
            proposal.clone(),
            account(vault, false, SYSTEM, vec![]),
        ],
    };
    p.process(&[2u8])
}

fn stored_proposal(data: &[u8]) -> multisig::state::ProposalData {
    match read_account_data(AccountType::Proposal, data).unwrap() {
        AccountData::Proposal(p) => p,
        AccountData::Group(_) => panic!("not a proposal"),
    }
}

#[test]
fn init_works() {
    let members = standard_members();
    let addr = group_address(&members, 2);
    let (vault, vault_bump) = vault_address(addr);
    let outcome = init_processor(addr, Some(vault))
        .process(&init_bytes(&members, 2, Some((1000, 0, SYSTEM))))
        .unwrap();
    match outcome {
        Outcome::Initialized { group, data, vault: Some(v) } => {
            assert_eq!(data[0], u8::from(AccountType::Group));
            assert_eq!(group.address, addr);
            assert_eq!(group.funder, PAYER);
            assert_eq!(group.lamports, 1000);
            assert_eq!(group.space, data.len() as u64);
            assert_eq!(group.owner, PROGRAM);
            match read_account_data(AccountType::Group, &data).unwrap() {
                AccountData::Group(g) => {
                    assert_eq!(g.threshold, 2);
                    assert_eq!(g.members.len(), 3);
                    for (m, (k, w)) in g.members.iter().zip(members.iter()) {
                        assert_eq!(m.public_key, *k);
                        assert_eq!(m.weight, *w);
                    }
                }
                AccountData::Proposal(_) => panic!("not a group"),
            }
            assert_eq!(v.address, vault);
            assert_eq!(v.lamports, 1000);
            assert_eq!(v.space, 0);
            assert_eq!(v.owner, SYSTEM);
            assert_eq!(v.signer.seed, addr);
            assert_eq!(v.signer.bump, vault_bump);
        }
        other => panic!("unexpected outcome {:?}", other),
    }
}

#[test]
fn propose_over_threshold() {
    let group = create_group(&standard_members(), 2);
    let (vault, bump) = vault_address(group.key);
    let actions = vec![transfer_action(ALICE, vault, 10)];
    let p = Processor {
        program_id: PROGRAM,
        accounts: vec![account(ALICE, true, SYSTEM, vec![]), group.clone()],
    };
    match p.process(&propose_bytes(&actions, 1)).unwrap() {
        Outcome::Executed { instructions, vault: seeds, sweep } => {
            assert_eq!(instructions.len(), 1);
            assert_eq!(instructions[0].data, actions[0].2);
            assert_eq!(instructions[0].accounts[1].pubkey, vault);
            assert_eq!(seeds.seed, group.key);
            assert_eq!(seeds.bump, bump);
            assert!(sweep.is_none());
        }
        other => panic!("unexpected outcome {:?}", other),
    }
}

#[test]
fn propose_not_over_threshold() {
    let group_key = group_address(&standard_members(), 2);
    let (vault, _) = vault_address(group_key);
    let actions = vec![transfer_action(vault, DESTINATION, 100)];
    let (_group, proposal) = pending_proposal(&standard_members(), 2, BOB, &actions);
    assert_eq!(proposal.data[0], u8::from(AccountType::Proposal));
    let stored = stored_proposal(&proposal.data);
    assert!(stored.state.is_approved_by(1));
    assert!(!stored.state.is_approved_by(0));
    assert_eq!(stored.state.current_weight(), 1);
    assert_eq!(stored.config.author, BOB);
    assert_eq!(stored.config.group, group_key);
    assert_eq!(stored.config.instructions.len(), 1);
}

#[test]
fn approve_over_threshold() {
    let group_key = group_address(&standard_members(), 2);
    let (vault, _) = vault_address(group_key);
    let actions = vec![transfer_action(vault, DESTINATION, 50)];
    let (group, proposal) = pending_proposal(&standard_members(), 2, BOB, &actions);
    match approve(CHRIS, &group, &proposal).unwrap() {
        Outcome::Executed { instructions, vault: seeds, sweep: Some(sweep) } => {
            assert_eq!(instructions.len(), 1);
            assert_eq!(instructions[0].data, actions[0].2);
            assert_eq!(seeds.seed, group.key);
            assert_eq!(sweep.from, proposal.key);
            assert_eq!(sweep.to, vault);
        }
        other => panic!("unexpected outcome {:?}", other),
    }
}

#[test]
fn approve_overflow() {
    let members = vec![(ALICE, 2), (BOB, 1), (CHRIS, u32::MAX)];
    let group_key = group_address(&members, 2);
    let (vault, _) = vault_address(group_key);
    let actions = vec![transfer_action(vault, DESTINATION, 50)];
    let (group, proposal) = pending_proposal(&members, 2, BOB, &actions);
    match approve(CHRIS, &group, &proposal).unwrap() {
        Outcome::Executed { sweep: Some(sweep), .. } => {
            assert_eq!(sweep.from, proposal.key);
            assert_eq!(sweep.to, vault);
        }
        other => panic!("unexpected outcome {:?}", other),
    }
}

#[test]
fn approve_twice_fails() {
    let group_key = group_address(&standard_members(), 2);
    let (vault, _) = vault_address(group_key);
    let actions = vec![transfer_action(vault, DESTINATION, 50)];
    let (group, proposal) = pending_proposal(&standard_members(), 2, BOB, &actions);
    assert_eq!(approve(BOB, &group, &proposal).unwrap_err(), Error::AlreadyParticipate);
}

#[test]
fn approve_below_threshold_updates_record() {
    let members = standard_members();
    let group_key = group_address(&members, 3);
    let (vault, _) = vault_address(group_key);
    let actions = vec![transfer_action(vault, DESTINATION, 50)];
    let (group, proposal) = pending_proposal(&members, 3, BOB, &actions);
    match approve(CHRIS, &group, &proposal).unwrap() {
        Outcome::Approved { proposal: key, data } => {
            assert_eq!(key, proposal.key);
            assert_eq!(data.len(), proposal.data.len());
            let stored = stored_proposal(&data);
            assert!(stored.state.is_approved_by(1));
            assert!(stored.state.is_approved_by(2));
            assert!(!stored.state.is_approved_by(0));
            assert_eq!(stored.state.current_weight(), 2);
            let updated = account(proposal.key, false, PROGRAM, data);
            assert_eq!(approve(CHRIS, &group, &updated).unwrap_err(), Error::AlreadyParticipate);
            match approve(ALICE, &group, &updated).unwrap() {
                Outcome::Executed { sweep: Some(s), .. } => assert_eq!(s.from, proposal.key),
                other => panic!("unexpected outcome {:?}", other),
            }
        }
        other => panic!("unexpected outcome {:?}", other),
    }
}

#[test]
fn approve_after_execution_fails() {
    let group_key = group_address(&standard_members(), 2);
    let (vault, _) = vault_address(group_key);
    let actions = vec![transfer_action(vault, DESTINATION, 50)];
    let (group, proposal) = pending_proposal(&standard_members(), 2, BOB, &actions);
    assert!(approve(CHRIS, &group, &proposal).is_ok());
    let zeroed = account(proposal.key, false, PROGRAM, vec![0u8; proposal.data.len()]);
    assert_eq!(approve(BOB, &group, &zeroed).unwrap_err(), Error::InvalidAccountType);
    let reclaimed = account(proposal.key, false, SYSTEM, vec![]);
    assert_eq!(
        approve(BOB, &group, &reclaimed).unwrap_err(),
        Error::Program(ProgramFault::IncorrectProgramId)
    );
}

#[test]
fn author_closes_proposal() {
    let group_key = group_address(&standard_members(), 2);
    let (vault, _) = vault_address(group_key);
    let actions = vec![transfer_action(vault, DESTINATION, 50)];
    let (_group, proposal) = pending_proposal(&standard_members(), 2, BOB, &actions);
    let anywhere = [42u8; 32];
    let close = |signer: [u8; 32]| {
        Processor {
            program_id: PROGRAM,
            accounts: vec![
                account(signer, true, SYSTEM, vec![]),
                proposal.clone(),
                account(anywhere, false, SYSTEM, vec![]),
            ],
        }
        .process(&[3u8])
    };
    match close(BOB).unwrap() {
        Outcome::Closed { sweep } => {
            assert_eq!(sweep.from, proposal.key);
            assert_eq!(sweep.to, anywhere);
        }
        other => panic!("unexpected outcome {:?}", other),
    }
    assert_eq!(close(ALICE).unwrap_err(), Error::Program(ProgramFault::MissingRequiredSignature));
}

#[test]
fn propose_by_non_member_is_unauthorized() {
    let group = create_group(&standard_members(), 2);
    let stranger = [5u8; 32];
    let p = Processor {
        program_id: PROGRAM,
        accounts: vec![account(stranger, true, SYSTEM, vec![]), group],
    };
    let actions = vec![transfer_action(stranger, DESTINATION, 1)];
    assert_eq!(p.process(&propose_bytes(&actions, 1)).unwrap_err(), Error::Unauthorized);
}

#[test]
fn propose_at_wrong_address_is_refused() {
    let group = create_group(&standard_members(), 2);
    let p = Processor {
        program_id: PROGRAM,
        accounts: vec![
            account(BOB, true, SYSTEM, vec![]),
            group,
            account([6u8; 32], false, SYSTEM, vec![]),
        ],
    };
    let actions = vec![transfer_action(BOB, DESTINATION, 1)];
    assert_eq!(p.process(&propose_bytes(&actions, 1)).unwrap_err(), Error::InvalidProposalAccountKey);
}

#[test]
fn spoofed_group_record_is_refused() {
    let group = create_group(&standard_members(), 2);
    let moved = account([6u8; 32], false, PROGRAM, group.data.clone());
    let p = Processor {
        program_id: PROGRAM,
        accounts: vec![account(ALICE, true, SYSTEM, vec![]), moved],
    };
    let actions = vec![transfer_action(ALICE, DESTINATION, 1)];
    assert_eq!(p.process(&propose_bytes(&actions, 1)).unwrap_err(), Error::InvalidGroupAccountKey);
    let foreign = account(group.key, false, SYSTEM, group.data.clone());
    let p = Processor {
        program_id: PROGRAM,
        accounts: vec![account(ALICE, true, SYSTEM, vec![]), foreign],
    };
    assert_eq!(
        p.process(&propose_bytes(&actions, 1)).unwrap_err(),
        Error::Program(ProgramFault::IncorrectProgramId)
    );
}

#[test]
fn init_validation_errors() {
    let run = |members: &[([u8; 32], u32)], threshold: u32| {
        init_processor(group_address(members, threshold), None)
            .process(&init_bytes(members, threshold, None))
    };
    assert_eq!(run(&standard_members(), 0).unwrap_err(), Error::ZeroThreshold);
    let many: Vec<([u8; 32], u32)> = (0..65u8).map(|i| ([i; 32], 1)).collect();
    assert_eq!(run(&many, 1).unwrap_err(), Error::TooManyMembers);
    let most: Vec<([u8; 32], u32)> = (0..64u8).map(|i| ([i; 32], 1)).collect();
    assert!(run(&most, 64).is_ok());
    assert_eq!(run(&[], 1).unwrap_err(), Error::NoMembers);
    assert_eq!(run(&[(ALICE, 1), (BOB, 0)], 1).unwrap_err(), Error::ZeroWeight);
    assert_eq!(run(&standard_members(), 5).unwrap_err(), Error::UnreachableThreshold);
    assert!(run(&standard_members(), 4).is_ok());
    assert!(run(&[(ALICE, u32::MAX), (BOB, u32::MAX)], u32::MAX).is_ok());
}

#[test]
fn init_address_and_signer_checks() {
    let members = standard_members();
    let wrong = init_processor([6u8; 32], None).process(&init_bytes(&members, 2, None));
    assert_eq!(wrong.unwrap_err(), Error::InvalidGroupAccountKey);
    let addr = group_address(&members, 2);
    let mut unsigned = init_processor(addr, None);
    unsigned.accounts[0].is_signer = false;
    assert_eq!(
        unsigned.process(&init_bytes(&members, 2, None)).unwrap_err(),
        Error::Program(ProgramFault::MissingRequiredSignature)
    );
    let bad_vault = init_processor(addr, Some([6u8; 32]))
        .process(&init_bytes(&members, 2, Some((1, 0, SYSTEM))));
    assert_eq!(bad_vault.unwrap_err(), Error::InvalidProtectedAccountKey);
    let missing_vault = init_processor(addr, None).process(&init_bytes(&members, 2, Some((1, 0, SYSTEM))));
    assert_eq!(
        missing_vault.unwrap_err(),
        Error::Program(ProgramFault::NotEnoughAccountKeys)
    );
    let short = Processor { program_id: PROGRAM, accounts: vec![account(PAYER, true, SYSTEM, vec![])] };
    assert_eq!(
        short.process(&init_bytes(&members, 2, None)).unwrap_err(),
        Error::Program(ProgramFault::NotEnoughAccountKeys)
    );
}

#[test]
fn malformed_requests_are_refused() {
    let p = init_processor([6u8; 32], None);
    assert_eq!(p.process(&[]).unwrap_err(), Error::InvalidInstructionData);
    assert_eq!(p.process(&[4u8]).unwrap_err(), Error::InvalidInstructionData);
    assert_eq!(p.process(&[2u8, 0]).unwrap_err(), Error::InvalidInstructionData);
    let mut truncated = init_bytes(&standard_members(), 2, None);
    truncated.pop();
    assert_eq!(p.process(&truncated).unwrap_err(), Error::InvalidInstructionData);
    let mut bad_flag = init_bytes(&standard_members(), 2, None);
    *bad_flag.last_mut().unwrap() = 2;
    assert_eq!(p.process(&bad_flag).unwrap_err(), Error::InvalidInstructionData);
}

#[test]
fn stored_group_is_read_without_revalidation() {
    let members = vec![(ALICE, 1)];
    let stored = group_data(&members, 0);
    let payload = encode_group(&stored);
    let addr = derive_address(GROUP_TAG, &payload, &PROGRAM).unwrap().0;
    let mut data = vec![u8::from(AccountType::Group)];
    data.extend(payload);
    let record = account(addr, false, PROGRAM, data);
    let g = multisig::processor::check_and_read_group_data(&record, &PROGRAM).unwrap();
    assert_eq!(g.threshold, 0);
    assert_eq!(g.members.len(), 1);
}

#[test]
fn padded_proposal_record_is_accepted() {
    let group_key = group_address(&standard_members(), 3);
    let (vault, _) = vault_address(group_key);
    let actions = vec![transfer_action(vault, DESTINATION, 50)];
    let (group, proposal) = pending_proposal(&standard_members(), 3, BOB, &actions);
    let mut padded = proposal.data.clone();
    padded.extend(vec![0u8; 16]);
    let record = account(proposal.key, false, PROGRAM, padded.clone());
    match approve(CHRIS, &group, &record).unwrap() {
        Outcome::Approved { data, .. } => {
            assert_eq!(data.len(), padded.len());
            assert!(data[proposal.data.len()..].iter().all(|b| *b == 0));
            let stored = stored_proposal(&data);
            assert_eq!(stored.state.current_weight(), 2);
        }
        other => panic!("unexpected outcome {:?}", other),
    }
    let mut dirty = padded;
    *dirty.last_mut().unwrap() = 1;
    let record = account(proposal.key, false, PROGRAM, dirty);
    assert_eq!(approve(CHRIS, &group, &record).unwrap_err(), Error::AccountDataDeserialize);
}
