//! Content addressing of records: a record's address is derived by the
//! ledger from a domain tag, a 32-byte seed and this program's identity.
use vstd::prelude::*;

use crate::codec::{enc_config, enc_group};
use crate::state::{ConfigView, GroupView, Key};

verus! {

/// Domain tag of group addresses; the seed is the digest of the group's encoding.
pub const GROUP_TAG: u8 = 0;

/// Domain tag of proposal addresses; the seed is the digest of the configuration's encoding.
pub const PROPOSAL_TAG: u8 = 1;

/// Domain tag of vault addresses; the seed is the group's address.
pub const PROTECTED_TAG: u8 = 2;

/// The SHA-256 digest of `data`.
pub uninterp spec fn sha256_of(data: Seq<u8>) -> Seq<u8>;

/// The program address found for `seeds` under `program_id`, with its bump
/// seed, if the search finds one.
pub uninterp spec fn found_program_address(seeds: Seq<Seq<u8>>, program_id: Seq<u8>) -> Option<
    (Seq<u8>, u8),
>;

/// Relies on `solana_program::hash::hash`: the SHA-256 digest of the bytes,
/// which depends on the bytes alone.
#[verifier::external_body]
pub(crate) fn content_hash(data: &[u8]) -> (r: Key)
    ensures
        r@ == sha256_of(data@),
{
    solana_program::hash::hash(data).to_bytes()
}

/// Relies on `Pubkey::try_find_program_address` with the seeds `[tag]` and
/// `seed`: the address and bump seed it finds, or none; the search depends
/// on the seeds and the program id alone and does not panic.
#[verifier::external_body]
pub(crate) fn find_program_address(tag: u8, seed: &Key, program_id: &Key) -> (r: Option<(Key, u8)>)
    ensures
        match r {
            Some((a, bump)) => found_program_address(seq![seq![tag], seed@], program_id@) == Some(
                (a@, bump),
            ),
            None => found_program_address(seq![seq![tag], seed@], program_id@) is None,
        },
{
    let program = solana_program::pubkey::Pubkey::new_from_array(*program_id);
    match solana_program::pubkey::Pubkey::try_find_program_address(&[&[tag], seed], &program) {
        Some((address, bump)) => Some((address.to_bytes(), bump)),
        None => None,
    }
}

/// The address derived under `tag` from `seed`.
pub open spec fn derived(tag: u8, seed: Seq<u8>, program_id: Seq<u8>) -> Option<(Seq<u8>, u8)> {
    found_program_address(seq![seq![tag], seed], program_id)
}

/// Where the record of group `g` lives.
pub open spec fn group_address(g: GroupView, program_id: Seq<u8>) -> Option<(Seq<u8>, u8)> {
    derived(GROUP_TAG, sha256_of(enc_group(g)), program_id)
}

/// Where the record of a proposal with configuration `c` lives.
pub open spec fn proposal_address(c: ConfigView, program_id: Seq<u8>) -> Option<(Seq<u8>, u8)> {
    derived(PROPOSAL_TAG, sha256_of(enc_config(c)), program_id)
}

/// Where the vault of the group at address `group` lives.
pub open spec fn vault_address(group: Seq<u8>, program_id: Seq<u8>) -> Option<(Seq<u8>, u8)> {
    derived(PROTECTED_TAG, group, program_id)
}

/// The digest of `data` and the address derived from it under `tag`.
pub fn derive_address(tag: u8, data: &[u8], program_id: &Key) -> (r: Option<(Key, Key, u8)>)
    ensures
        match r {
            Some((address, seed, bump)) => seed@ == sha256_of(data@) && derived(
                tag,
                sha256_of(data@),
                program_id@,
            ) == Some((address@, bump)),
            None => derived(tag, sha256_of(data@), program_id@) is None,
        },
{
    let seed = content_hash(data);
    match find_program_address(tag, &seed, program_id) {
        Some((address, bump)) => Some((address, seed, bump)),
        None => None,
    }
}

/// The address of the vault of the group at `group`.
pub fn derive_vault_address(group: &Key, program_id: &Key) -> (r: Option<(Key, u8)>)
    ensures
        match r {
            Some((a, bump)) => vault_address(group@, program_id@) == Some((a@, bump)),
            None => vault_address(group@, program_id@) is None,
        },
{
    find_program_address(PROTECTED_TAG, group, program_id)
}

} // verus!
