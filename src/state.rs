use vstd::prelude::*;

use crate::error::Error;

verus! {

/// A 32-byte public key or record address.
pub type Key = [u8; 32];

/// Largest number of members a group can hold: one approval bit each.
pub const MAX_MEMBERS: usize = 64;

/// The discriminant stored in the first byte of each record.
#[derive(Debug, Clone, Copy, PartialEq, Eq, Structural)]
pub enum AccountType {
    Group,
    Proposal,
}

impl AccountType {
    pub open spec fn spec_tag(self) -> u8 {
        match self {
            AccountType::Group => 1,
            AccountType::Proposal => 2,
        }
    }
}

impl From<AccountType> for u8 {
    fn from(value: AccountType) -> (r: u8)
        ensures
            r == value.spec_tag(),
    {
        match value {
            AccountType::Group => 1,
            AccountType::Proposal => 2,
        }
    }
}

impl vstd::std_specs::convert::FromSpecImpl<AccountType> for u8 {
    open spec fn obeys_from_spec() -> bool {
        true
    }

    open spec fn from_spec(value: AccountType) -> u8 {
        value.spec_tag()
    }
}

#[derive(Debug, Clone, Copy)]
pub struct GroupMember {
    pub public_key: Key,
    pub weight: u32,
}

#[derive(Debug, Clone)]
pub struct GroupData {
    pub members: Vec<GroupMember>,
    pub threshold: u32,
}

/// Which members approved a proposal (one bit per member index) and the
/// saturating sum of their weights.
#[derive(Debug, Clone, Copy)]
pub struct ProposalState {
    pub members: u64,
    pub current_weight: u32,
}

#[derive(Debug, Clone, Copy)]
pub struct ProposedAccountMeta {
    pub pubkey: Key,
    pub is_signer: bool,
    pub is_writable: bool,
}

#[derive(Debug, Clone)]
pub struct ProposedInstruction {
    pub program_id: Key,
    pub accounts: Vec<ProposedAccountMeta>,
    pub data: Vec<u8>,
}

#[derive(Debug, Clone)]
pub struct ProposalConfig {
    pub group: Key,
    pub instructions: Vec<ProposedInstruction>,
    pub author: Key,
    pub salt: u64,
}

#[derive(Debug, Clone)]
pub struct ProposalData {
    pub config: ProposalConfig,
    pub state: ProposalState,
}

/// Mathematical model of a member.
pub struct MemberView {
    pub key: Seq<u8>,
    pub weight: u32,
}

/// Mathematical model of a group.
pub struct GroupView {
    pub members: Seq<MemberView>,
    pub threshold: u32,
}

pub struct MetaView {
    pub key: Seq<u8>,
    pub is_signer: bool,
    pub is_writable: bool,
}

pub struct InstructionView {
    pub program_id: Seq<u8>,
    pub accounts: Seq<MetaView>,
    pub data: Seq<u8>,
}

pub struct ConfigView {
    pub group: Seq<u8>,
    pub instructions: Seq<InstructionView>,
    pub author: Seq<u8>,
    pub salt: u64,
}

pub struct ProposalView {
    pub config: ConfigView,
    pub state: ProposalState,
}

impl View for GroupMember {
    type V = MemberView;

    open spec fn view(&self) -> MemberView {
        MemberView { key: self.public_key@, weight: self.weight }
    }
}

impl View for GroupData {
    type V = GroupView;

    open spec fn view(&self) -> GroupView {
        GroupView { members: self.members@.map_values(|m: GroupMember| m@), threshold: self.threshold }
    }
}

impl View for ProposedAccountMeta {
    type V = MetaView;

    open spec fn view(&self) -> MetaView {
        MetaView { key: self.pubkey@, is_signer: self.is_signer, is_writable: self.is_writable }
    }
}

impl View for ProposedInstruction {
    type V = InstructionView;

    open spec fn view(&self) -> InstructionView {
        InstructionView {
            program_id: self.program_id@,
            accounts: self.accounts@.map_values(|a: ProposedAccountMeta| a@),
            data: self.data@,
        }
    }
}

impl View for ProposalConfig {
    type V = ConfigView;

    open spec fn view(&self) -> ConfigView {
        ConfigView {
            group: self.group@,
            instructions: self.instructions@.map_values(|i: ProposedInstruction| i@),
            author: self.author@,
            salt: self.salt,
        }
    }
}

impl View for ProposalData {
    type V = ProposalView;

    open spec fn view(&self) -> ProposalView {
        ProposalView { config: self.config@, state: self.state }
    }
}

/// The saturating sum of the members' weights.
pub open spec fn total_weight(members: Seq<MemberView>) -> u32
    decreases members.len(),
{
    if members.len() == 0 {
        0
    } else {
        sat_add(total_weight(members.drop_last()), members.last().weight)
    }
}

pub open spec fn sat_add(a: u32, b: u32) -> u32 {
    if a + b > u32::MAX {
        u32::MAX
    } else {
        (a + b) as u32
    }
}

/// The invariant of a group: a reachable positive threshold and between one
/// and `MAX_MEMBERS` members, each of positive weight.
pub open spec fn group_valid(g: GroupView) -> bool {
    &&& g.threshold > 0
    &&& 1 <= g.members.len() <= MAX_MEMBERS
    &&& forall|i: int| 0 <= i < g.members.len() ==> (#[trigger] g.members[i]).weight > 0
    &&& total_weight(g.members) >= g.threshold
}

/// The first invariant of `group_valid` that `g` breaks, as the error that
/// reports it.
pub open spec fn group_error(g: GroupView) -> Option<Error> {
    if g.threshold == 0 {
        Some(Error::ZeroThreshold)
    } else if g.members.len() > MAX_MEMBERS {
        Some(Error::TooManyMembers)
    } else if g.members.len() == 0 {
        Some(Error::NoMembers)
    } else if exists|i: int| 0 <= i < g.members.len() && (#[trigger] g.members[i]).weight == 0 {
        Some(Error::ZeroWeight)
    } else if total_weight(g.members) < g.threshold {
        Some(Error::UnreachableThreshold)
    } else {
        None
    }
}

/// A group is refused exactly when it breaks its invariant.
pub proof fn lemma_group_error_iff_invalid(g: GroupView)
    ensures
        group_error(g) is None <==> group_valid(g),
{
}

/// The saturating sum of the weights of `members`.
pub fn weight_sum(members: &Vec<GroupMember>) -> (r: u32)
    ensures
        r == total_weight(members@.map_values(|m: GroupMember| m@)),
{
    let ghost mv = members@.map_values(|m: GroupMember| m@);
    let mut sum: u32 = 0;
    let mut i: usize = 0;
    while i < members.len()
        invariant
            0 <= i <= members@.len(),
            mv == members@.map_values(|m: GroupMember| m@),
            sum == total_weight(mv.take(i as int)),
        decreases members@.len() - i,
    {
        assert(mv.take(i + 1).drop_last() =~= mv.take(i as int));
        sum = sum.saturating_add(members[i].weight);
        i = i + 1;
    }
    assert(mv.take(members@.len() as int) =~= mv);
    sum
}

impl GroupData {
    /// Checks the group invariant, reporting the first broken rule.
    pub fn validate(&self) -> (r: Result<(), Error>)
        ensures
            match group_error(self@) {
                Some(e) => r == Err::<(), Error>(e),
                None => r == Ok::<(), Error>(()),
            },
    {
        if self.threshold == 0 {
            return Err(Error::ZeroThreshold);
        }
        if self.members.len() > MAX_MEMBERS {
            return Err(Error::TooManyMembers);
        }
        if self.members.len() == 0 {
            return Err(Error::NoMembers);
        }
        let mut i: usize = 0;
        while i < self.members.len()
            invariant
                0 <= i <= self.members@.len(),
                self.threshold != 0,
                1 <= self.members@.len() <= MAX_MEMBERS,
                forall|j: int| 0 <= j < i ==> (#[trigger] self@.members[j]).weight != 0,
            decreases self.members@.len() - i,
        {
            if self.members[i].weight == 0 {
                assert(self@.members[i as int] == self.members@[i as int]@);
                assert(0 <= i < self@.members.len() && self@.members[i as int].weight == 0);
                return Err(Error::ZeroWeight);
            }
            i = i + 1;
        }
        if weight_sum(&self.members) < self.threshold {
            return Err(Error::UnreachableThreshold);
        }
        Ok(())
    }
}

/// The index of the first member whose key is `key`, if any.
pub open spec fn member_index(members: Seq<MemberView>, key: Seq<u8>) -> Option<int> {
    if exists|i: int| 0 <= i < members.len() && #[trigger] members[i].key == key {
        let i = choose|i: int|
            0 <= i < members.len() && #[trigger] members[i].key == key && forall|j: int|
                0 <= j < i ==> #[trigger] members[j].key != key;
        Some(i)
    } else {
        None
    }
}

proof fn lemma_first_match(members: Seq<MemberView>, key: Seq<u8>, k: int)
    requires
        0 <= k < members.len(),
        members[k].key == key,
    ensures
        exists|i: int|
            0 <= i < members.len() && #[trigger] members[i].key == key && forall|j: int|
                0 <= j < i ==> #[trigger] members[j].key != key,
    decreases k,
{
    if exists|j: int| 0 <= j < k && #[trigger] members[j].key == key {
        let j = choose|j: int| 0 <= j < k && #[trigger] members[j].key == key;
        lemma_first_match(members, key, j);
    } else {
        assert(forall|j: int| 0 <= j < k ==> #[trigger] members[j].key != key);
    }
}

/// A member index, when there is one, is the position of a member holding
/// the key.
pub proof fn lemma_member_index_in_range(members: Seq<MemberView>, key: Seq<u8>)
    ensures
        member_index(members, key) matches Some(i) ==> 0 <= i < members.len() && members[i].key
            == key,
{
    if exists|i: int| 0 <= i < members.len() && #[trigger] members[i].key == key {
        let k = choose|i: int| 0 <= i < members.len() && #[trigger] members[i].key == key;
        lemma_first_match(members, key, k);
    }
}

/// Whether the approval bit of member `idx` is set.
pub open spec fn bit_set(mask: u64, idx: u64) -> bool {
    mask & (1u64 << idx) != 0
}

/// Compares two keys byte by byte.
pub fn keys_equal(a: &Key, b: &Key) -> (r: bool)
    ensures
        r == (a@ == b@),
{
    let mut i: usize = 0;
    while i < 32
        invariant
            0 <= i <= 32,
            a@.len() == 32,
            b@.len() == 32,
            forall|j: int| 0 <= j < i ==> a@[j] == b@[j],
        decreases 32 - i,
    {
        if a[i] != b[i] {
            return false;
        }
        i = i + 1;
    }
    assert(a@ =~= b@);
    true
}

impl GroupData {
    /// The index and weight of the first member holding `key`; a key that
    /// belongs to no member is `Unauthorized`.
    pub fn weight(&self, key: &Key) -> (r: Result<(usize, u32), Error>)
        ensures
            match member_index(self@.members, key@) {
                Some(i) => 0 <= i < self@.members.len() && r == Ok::<(usize, u32), Error>(
                    (i as usize, self@.members[i].weight),
                ),
                None => r == Err::<(usize, u32), Error>(Error::Unauthorized),
            },
    {
        let mut i: usize = 0;
        while i < self.members.len()
            invariant
                0 <= i <= self.members.len(),
                forall|j: int| 0 <= j < i ==> #[trigger] self@.members[j].key != key@,
            decreases self.members.len() - i,
        {
            let member = &self.members[i];
            if keys_equal(&member.public_key, key) {
                assert(self@.members[i as int].key == key@);
                let ghost gi = i as int;
                assert(forall|j: int| 0 <= j < gi ==> #[trigger] self@.members[j].key != key@);
                proof {
                    let c = choose|k: int|
                        0 <= k < self@.members.len() && #[trigger] self@.members[k].key == key@
                            && forall|j: int| 0 <= j < k ==> #[trigger] self@.members[j].key != key@;
                    assert(c == gi) by {
                        if c < gi {
                            assert(self@.members[c].key != key@);
                        } else if c > gi {
                            assert(self@.members[gi].key != key@);
                        }
                    }
                }
                return Ok((i, member.weight));
            }
            i = i + 1;
        }
        Err(Error::Unauthorized)
    }
}

impl ProposalState {
    /// A state with no approvals.
    pub fn new() -> (r: ProposalState)
        ensures
            r.members == 0,
            r.current_weight == 0,
            forall|idx: u64| idx < 64 ==> !#[trigger] bit_set(r.members, idx),
    {
        assert forall|idx: u64| idx < 64 implies !#[trigger] bit_set(0u64, idx) by {
            assert(0u64 & (1u64 << idx) == 0) by (bit_vector);
        }
        ProposalState { current_weight: 0, members: 0 }
    }

    /// Records the approval of member `idx` with weight `weight`. A member
    /// that already approved is refused and the state is left unchanged.
    pub fn add_approval(&mut self, idx: usize, weight: u32) -> (r: Result<(), Error>)
        requires
            idx < MAX_MEMBERS,
        ensures
            bit_set(old(self).members, idx as u64) ==> r == Err::<(), Error>(Error::AlreadyParticipate)
                && *final(self) == *old(self),
            !bit_set(old(self).members, idx as u64) ==> r == Ok::<(), Error>(())
                && final(self).members == old(self).members | (1u64 << idx as u64)
                && final(self).current_weight == sat_add(old(self).current_weight, weight),
    {
        let bit: u64 = 1u64 << idx as u64;
        if self.members & bit != 0 {
            return Err(Error::AlreadyParticipate);
        }
        self.members = self.members | bit;
        self.current_weight = self.current_weight.saturating_add(weight);
        Ok(())
    }

    pub fn current_weight(&self) -> (r: u32)
        ensures
            r == self.current_weight,
    {
        self.current_weight
    }

    /// Whether member `idx` approved.
    pub fn is_approved_by(&self, idx: usize) -> (r: bool)
        requires
            idx < MAX_MEMBERS,
        ensures
            r == bit_set(self.members, idx as u64),
    {
        self.members & (1u64 << idx as u64) != 0
    }
}

/// Once a member's approval bit is set it stays set, so a second approval by
/// the same member is refused; the other members' bits are unchanged.
pub proof fn lemma_approval_bit_sticks(mask: u64, idx: u64, other: u64)
    requires
        idx < 64,
        other < 64,
        other != idx,
    ensures
        bit_set(mask | (1u64 << idx), idx),
        bit_set(mask | (1u64 << idx), other) == bit_set(mask, other),
{
    assert(bit_set(mask | (1u64 << idx), idx)) by (bit_vector)
        requires
            idx < 64,
    ;
    assert(bit_set(mask | (1u64 << idx), other) == bit_set(mask, other)) by (bit_vector)
        requires
            idx < 64,
            other < 64,
            other != idx,
    ;
}

/// Adding weights saturates at the largest `u32` instead of wrapping, and
/// never decreases: one approval whose weight alone meets the threshold
/// meets it whatever was accumulated before.
pub proof fn lemma_weight_saturates(acc: u32, w: u32, threshold: u32)
    ensures
        sat_add(acc, w) as int == if acc + w > u32::MAX {
            u32::MAX as int
        } else {
            acc + w
        },
        sat_add(acc, w) >= acc,
        sat_add(acc, w) >= w,
        w >= threshold ==> sat_add(acc, w) >= threshold,
        sat_add(acc, u32::MAX) == u32::MAX,
{
}

} // verus!
