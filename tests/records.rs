use multisig::codec::{encode_config, encode_group, encode_proposal, read_group, read_proposal};
use multisig::error::{Error, ProgramFault};
use multisig::instruction::MultiSigInstruction;
use multisig::state::{
    AccountType, GroupData, GroupMember, ProposalConfig, ProposalData, ProposalState,
    ProposedAccountMeta, ProposedInstruction,
};
use multisig::utils::{read_account_data, write_account_data, write_serialized_data, AccountData};

fn sample_group() -> GroupData {
    GroupData {
        members: vec![
            GroupMember { public_key: [1u8; 32], weight: 2 },
            GroupMember { public_key: [2u8; 32], weight: 1 },
        ],
        threshold: 2,
    }
}

fn sample_config() -> ProposalConfig {
    ProposalConfig {
        group: [8u8; 32],
        instructions: vec![ProposedInstruction {
            program_id: [0u8; 32],
            accounts: vec![
                ProposedAccountMeta { pubkey: [3u8; 32], is_signer: true, is_writable: false },
                ProposedAccountMeta { pubkey: [4u8; 32], is_signer: false, is_writable: true },
            ],
            data: vec![1, 2, 3],
        }],
        author: [2u8; 32],
        salt: 0x0102_0304_0506_0708,
    }
}

#[test]
fn new_state_has_no_approvals() {
    let s = ProposalState::new();
    assert_eq!(s.current_weight(), 0);
    for i in 0..64 {
        assert!(!s.is_approved_by(i));
    }
}

#[test]
fn approval_sets_one_bit_and_adds_weight() {
    let mut s = ProposalState::new();
    assert_eq!(s.add_approval(5, 3), Ok(()));
    assert!(s.is_approved_by(5));
    assert!(!s.is_approved_by(4));
    assert_eq!(s.current_weight(), 3);
    assert_eq!(s.members, 1u64 << 5);
    assert_eq!(s.add_approval(63, 4), Ok(()));
    assert!(s.is_approved_by(63));
    assert_eq!(s.current_weight(), 7);
}

#[test]
fn second_approval_is_refused_and_changes_nothing() {
    let mut s = ProposalState::new();
    s.add_approval(2, 10).unwrap();
    let before = (s.members, s.current_weight);
    assert_eq!(s.add_approval(2, 10), Err(Error::AlreadyParticipate));
    assert_eq!((s.members, s.current_weight), before);
}

#[test]
fn weight_saturates_at_maximum() {
    let mut s = ProposalState::new();
    s.add_approval(0, 2).unwrap();
    s.add_approval(1, u32::MAX).unwrap();
    assert_eq!(s.current_weight(), u32::MAX);
    s.add_approval(2, 1).unwrap();
    assert_eq!(s.current_weight(), u32::MAX);
}

#[test]
fn member_lookup_finds_index_and_weight() {
    let g = sample_group();
    assert_eq!(g.weight(&[2u8; 32]), Ok((1, 1)));
    assert_eq!(g.weight(&[1u8; 32]), Ok((0, 2)));
    assert_eq!(g.weight(&[9u8; 32]), Err(Error::Unauthorized));
}

#[test]
fn group_validation_rules() {
    assert_eq!(sample_group().validate(), Ok(()));
    let mut g = sample_group();
    g.threshold = 4;
    assert_eq!(g.validate(), Err(Error::UnreachableThreshold));
    g.threshold = 3;
    assert_eq!(g.validate(), Ok(()));
}

#[test]
fn group_encoding_matches_borsh() {
    let expected = borsh::to_vec(&(vec![([1u8; 32], 2u32), ([2u8; 32], 1u32)], 2u32)).unwrap();
    assert_eq!(encode_group(&sample_group()), expected);
    assert_eq!(expected.len(), 4 + 2 * 36 + 4);
}

#[test]
fn config_encoding_matches_borsh() {
    let c = sample_config();
    let expected = borsh::to_vec(&(
        [8u8; 32],
        vec![([0u8; 32], vec![([3u8; 32], true, false), ([4u8; 32], false, true)], vec![1u8, 2, 3])],
        [2u8; 32],
        0x0102_0304_0506_0708u64,
    ))
    .unwrap();
    assert_eq!(encode_config(&c), expected);
}

#[test]
fn group_round_trip() {
    let bytes = encode_group(&sample_group());
    let (g, end) = read_group(&bytes, 0).unwrap();
    assert_eq!(end, bytes.len());
    assert_eq!(g.threshold, 2);
    assert_eq!(g.members[1].public_key, [2u8; 32]);
    assert_eq!(g.members[0].weight, 2);
    assert!(read_group(&bytes[..bytes.len() - 1], 0).is_none());
}

#[test]
fn proposal_round_trip() {
    let p = ProposalData { config: sample_config(), state: ProposalState { members: 6, current_weight: 9 } };
    let bytes = encode_proposal(&p);
    let (q, end) = read_proposal(&bytes, 0).unwrap();
    assert_eq!(end, bytes.len());
    assert_eq!(q.state.members, 6);
    assert_eq!(q.state.current_weight, 9);
    assert_eq!(q.config.salt, 0x0102_0304_0506_0708);
    assert_eq!(q.config.instructions[0].data, vec![1, 2, 3]);
    assert!(q.config.instructions[0].accounts[0].is_signer);
    assert!(q.config.instructions[0].accounts[1].is_writable);
    let mut bad_bool = bytes.clone();
    bad_bool[32 + 4 + 32 + 4 + 32] = 7;
    assert!(read_proposal(&bad_bool, 0).is_none());
}

#[test]
fn record_framing() {
    let mut buf = vec![0xAAu8; 10];
    assert_eq!(write_serialized_data(&mut buf, AccountType::Group, &[5, 6]), Ok(()));
    assert_eq!(buf, vec![1, 5, 6, 0, 0, 0, 0, 0, 0, 0]);
    let mut small = vec![9u8; 2];
    assert_eq!(
        write_serialized_data(&mut small, AccountType::Proposal, &[5, 6]),
        Err(Error::Program(ProgramFault::AccountDataTooSmall))
    );
    assert_eq!(small, vec![9u8, 9]);
}

#[test]
fn record_reading_errors() {
    assert_eq!(read_account_data(AccountType::Group, &[]).unwrap_err(), Error::EmptyAccountData);
    assert_eq!(read_account_data(AccountType::Group, &[2, 0]).unwrap_err(), Error::InvalidAccountType);
    assert_eq!(read_account_data(AccountType::Group, &[1, 0]).unwrap_err(), Error::AccountDataDeserialize);
    let mut buf = vec![0u8; 1 + encode_group(&sample_group()).len() + 3];
    write_account_data(&mut buf, AccountType::Group, &AccountData::Group(sample_group())).unwrap();
    assert_eq!(read_account_data(AccountType::Group, &buf).unwrap_err(), Error::AccountDataDeserialize);
    buf.truncate(buf.len() - 3);
    assert!(matches!(read_account_data(AccountType::Group, &buf), Ok(AccountData::Group(_))));
}

#[test]
fn account_type_tags() {
    assert_eq!(u8::from(AccountType::Group), 1);
    assert_eq!(u8::from(AccountType::Proposal), 2);
}

#[test]
fn command_decoding() {
    match MultiSigInstruction::try_from_slice(&[3u8]).unwrap() {
        MultiSigInstruction::CloseProposal(_) => {}
        other => panic!("unexpected command {:?}", other),
    }
    let mut b = vec![1u8];
    b.extend(borsh::to_vec(&(Vec::<([u8; 32], Vec<([u8; 32], bool, bool)>, Vec<u8>)>::new(), 5u64, 6u64)).unwrap());
    match MultiSigInstruction::try_from_slice(&b).unwrap() {
        MultiSigInstruction::Propose(p) => {
            assert!(p.instructions.is_empty());
            assert_eq!(p.lamports, 5);
            assert_eq!(p.salt, 6);
        }
        other => panic!("unexpected command {:?}", other),
    }
}
