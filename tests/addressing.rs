use multisig::address::{derive_address, derive_vault_address, GROUP_TAG, PROPOSAL_TAG, PROTECTED_TAG};
use solana_program::hash::hash;
use solana_program::pubkey::Pubkey;

const PROGRAM: [u8; 32] = [7u8; 32];

#[test]
fn derived_address_is_the_ledgers() {
    let content = vec![1u8, 2, 3, 4, 5];
    let (address, seed, bump) = derive_address(GROUP_TAG, &content, &PROGRAM).unwrap();
    let digest = hash(&content).to_bytes();
    assert_eq!(seed, digest);
    assert_ne!(seed.to_vec(), content);
    let (expected, expected_bump) =
        Pubkey::find_program_address(&[&[GROUP_TAG], &digest], &Pubkey::new_from_array(PROGRAM));
    assert_eq!(address, expected.to_bytes());
    assert_eq!(bump, expected_bump);
}

#[test]
fn vault_address_is_the_ledgers() {
    let group = [3u8; 32];
    let (address, bump) = derive_vault_address(&group, &PROGRAM).unwrap();
    let (expected, expected_bump) =
        Pubkey::find_program_address(&[&[PROTECTED_TAG], &group], &Pubkey::new_from_array(PROGRAM));
    assert_eq!(address, expected.to_bytes());
    assert_eq!(bump, expected_bump);
    assert_ne!(address, group);
}

#[test]
fn tags_separate_address_spaces() {
    let content = vec![9u8; 40];
    let g = derive_address(GROUP_TAG, &content, &PROGRAM).unwrap();
    let p = derive_address(PROPOSAL_TAG, &content, &PROGRAM).unwrap();
    let v = derive_address(PROTECTED_TAG, &content, &PROGRAM).unwrap();
    assert_eq!(g.1, p.1);
    assert_ne!(g.0, p.0);
    assert_ne!(g.0, v.0);
    assert_ne!(p.0, v.0);
    let again = derive_address(GROUP_TAG, &content, &PROGRAM).unwrap();
    assert_eq!(g, again);
}
