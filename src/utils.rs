//! Records as stored on the ledger: byte 0 is the record's type, the bytes
//! after it are the payload's encoding, zero-padded to the record's size.
use vstd::prelude::*;

use crate::codec::{
    config_encodable, enc_group, enc_proposal, group_encodable, parse_group, parse_proposal,
    encode_group, encode_proposal, put_raw, read_group, read_proposal, whole, zero_padded, all_zero,
};
use crate::error::{Error, ProgramFault};
use crate::state::{AccountType, GroupData, ProposalData};

verus! {

/// The payload of a record.
#[derive(Debug, Clone)]
pub enum AccountData {
    Group(GroupData),
    Proposal(ProposalData),
}

impl AccountData {
    /// The payload's encoding.
    pub open spec fn encoding(self) -> Seq<u8> {
        match self {
            AccountData::Group(g) => enc_group(g@),
            AccountData::Proposal(p) => enc_proposal(p@),
        }
    }

    pub open spec fn encodable(self) -> bool {
        match self {
            AccountData::Group(g) => group_encodable(g@),
            AccountData::Proposal(p) => config_encodable(p.config@),
        }
    }
}

/// The bytes of a record of type `t` whose payload encodes as `payload`,
/// padded with zeros to `size` bytes.
pub open spec fn framed(t: AccountType, payload: Seq<u8>, size: nat) -> Seq<u8> {
    seq![t.spec_tag()] + payload + Seq::new((size - payload.len() - 1) as nat, |i: int| 0u8)
}

/// Reads the payload of a record that must be of type `account_type`. A
/// group's payload must fill the record exactly (its address hashes all of
/// it); a proposal's payload may be followed by zero padding.
pub fn read_account_data(account_type: AccountType, data: &[u8]) -> (r: Result<AccountData, Error>)
    ensures
        data@.len() == 0 ==> r == Err::<AccountData, Error>(Error::EmptyAccountData),
        data@.len() > 0 && data@[0] != account_type.spec_tag() ==> r == Err::<AccountData, Error>(
            Error::InvalidAccountType,
        ),
        data@.len() > 0 && data@[0] == account_type.spec_tag() ==> match account_type {
            AccountType::Group => match whole(parse_group(data@.skip(1))) {
                Some(g) => r matches Ok(AccountData::Group(x)) && x@ == g && group_encodable(x@),
                None => r == Err::<AccountData, Error>(Error::AccountDataDeserialize),
            },
            AccountType::Proposal => match zero_padded(parse_proposal(data@.skip(1))) {
                Some(p) => r matches Ok(AccountData::Proposal(x)) && x@ == p && config_encodable(
                    x.config@,
                ),
                None => r == Err::<AccountData, Error>(Error::AccountDataDeserialize),
            },
        },
{
    if data.len() == 0 {
        return Err(Error::EmptyAccountData);
    }
    if data[0] != u8::from(account_type) {
        return Err(Error::InvalidAccountType);
    }
    match account_type {
        AccountType::Group => match read_group(data, 1) {
            Some((g, end)) => {
                if end == data.len() {
                    Ok(AccountData::Group(g))
                } else {
                    Err(Error::AccountDataDeserialize)
                }
            },
            None => Err(Error::AccountDataDeserialize),
        },
        AccountType::Proposal => match read_proposal(data, 1) {
            Some((p, end)) => {
                if all_zero_from(data, end) {
                    Ok(AccountData::Proposal(p))
                } else {
                    Err(Error::AccountDataDeserialize)
                }
            },
            None => Err(Error::AccountDataDeserialize),
        },
    }
}

/// Whether every byte of `data` from `start` on is zero.
fn all_zero_from(data: &[u8], start: usize) -> (r: bool)
    requires
        start <= data@.len(),
    ensures
        r == all_zero(data@.skip(start as int)),
{
    let mut k: usize = start;
    while k < data.len()
        invariant
            start <= k <= data@.len(),
            forall|j: int| start <= j < k ==> data@[j] == 0u8,
        decreases data@.len() - k,
    {
        if data[k] != 0 {
            assert(data@.skip(start as int)[k - start] != 0u8);
            assert(!all_zero(data@.skip(start as int)));
            return false;
        }
        k = k + 1;
    }
    assert forall|i: int| 0 <= i < data@.skip(start as int).len() implies data@.skip(
        start as int,
    )[i] == 0u8 by {
        assert(data@[start + i] == 0u8);
    }
    true
}

/// Writes a record of type `account_type` holding `data` into `buf`, zeroing
/// the rest of it. A buffer with no room for the type byte and `data` is
/// left unchanged.
pub fn write_serialized_data(buf: &mut Vec<u8>, account_type: AccountType, data: &[u8]) -> (r: Result<(), Error>)
    ensures
        old(buf)@.len() < data@.len() + 1 ==> r == Err::<(), Error>(
            Error::Program(ProgramFault::AccountDataTooSmall),
        ) && final(buf)@ == old(buf)@,
        old(buf)@.len() >= data@.len() + 1 ==> r == Ok::<(), Error>(()) && final(buf)@ == framed(
            account_type,
            data@,
            old(buf)@.len(),
        ),
{
    if buf.len() == 0 || buf.len() - 1 < data.len() {
        return Err(Error::Program(ProgramFault::AccountDataTooSmall));
    }
    let ghost size = buf@.len();
    let ghost target = framed(account_type, data@, size);
    buf[0] = u8::from(account_type);
    let mut i: usize = 0;
    while i < data.len()
        invariant
            buf@.len() == size,
            data@.len() + 1 <= size,
            target == framed(account_type, data@, size),
            0 <= i <= data@.len(),
            forall|j: int| 0 <= j <= i ==> buf@[j] == target[j],
        decreases data@.len() - i,
    {
        buf[i + 1] = data[i];
        i = i + 1;
    }
    let mut k: usize = data.len() + 1;
    while k < buf.len()
        invariant
            buf@.len() == size,
            data@.len() + 1 <= k <= size,
            target == framed(account_type, data@, size),
            forall|j: int| 0 <= j < k ==> buf@[j] == target[j],
        decreases size - k,
    {
        buf[k] = 0;
        k = k + 1;
    }
    assert(buf@ =~= target);
    Ok(())
}

/// Encodes `data` and writes it as a record of type `account_type` into `buf`.
pub fn write_account_data(buf: &mut Vec<u8>, account_type: AccountType, data: &AccountData) -> (r: Result<(), Error>)
    requires
        data.encodable(),
    ensures
        old(buf)@.len() < data.encoding().len() + 1 ==> r == Err::<(), Error>(
            Error::Program(ProgramFault::AccountDataTooSmall),
        ) && final(buf)@ == old(buf)@,
        old(buf)@.len() >= data.encoding().len() + 1 ==> r == Ok::<(), Error>(()) && final(buf)@
            == framed(account_type, data.encoding(), old(buf)@.len()),
{
    let bytes = match data {
        AccountData::Group(g) => encode_group(g),
        AccountData::Proposal(p) => encode_proposal(p),
    };
    write_serialized_data(buf, account_type, bytes.as_slice())
}

/// A fresh record of type `t` sized to hold exactly `payload`.
pub fn frame_record(t: AccountType, payload: &[u8]) -> (r: Vec<u8>)
    ensures
        r@ == seq![t.spec_tag()] + payload@,
        r@ == framed(t, payload@, payload@.len() + 1),
{
    let mut out: Vec<u8> = Vec::new();
    out.push(u8::from(t));
    put_raw(&mut out, payload);
    assert(out@ =~= framed(t, payload@, payload@.len() + 1));
    out
}

/// A record sized to its payload has no padding, and its payload follows the
/// type byte.
pub proof fn lemma_framed_exact(t: AccountType, payload: Seq<u8>)
    ensures
        framed(t, payload, payload.len() + 1) == seq![t.spec_tag()] + payload,
        framed(t, payload, payload.len() + 1).skip(1) == payload,
        framed(t, payload, payload.len() + 1)[0] == t.spec_tag(),
{
    assert(framed(t, payload, payload.len() + 1) =~= seq![t.spec_tag()] + payload);
    assert((seq![t.spec_tag()] + payload).skip(1) =~= payload);
}

} // verus!
