//! The canonical binary grammar of records and requests: unsigned integers
//! little-endian and fixed-width, keys copied verbatim, booleans as one byte
//! (0 or 1), sequences as a 4-byte count followed by the elements.
//!
//! Each encoding is a spec function; each parser is a spec function over the
//! remaining input, returning the value read and what is left after it.
use vstd::prelude::*;

use crate::state::{
    ConfigView, GroupData, GroupMember, GroupView, InstructionView, Key, MemberView, MetaView,
    ProposalConfig, ProposalData, ProposalState, ProposalView, ProposedAccountMeta,
    ProposedInstruction,
};

verus! {

pub open spec fn enc_u32(x: u32) -> Seq<u8> {
    seq![
        (x & 0xff) as u8,
        ((x >> 8u32) & 0xff) as u8,
        ((x >> 16u32) & 0xff) as u8,
        ((x >> 24u32) & 0xff) as u8,
    ]
}

pub open spec fn enc_u64(x: u64) -> Seq<u8> {
    seq![
        (x & 0xff) as u8,
        ((x >> 8u64) & 0xff) as u8,
        ((x >> 16u64) & 0xff) as u8,
        ((x >> 24u64) & 0xff) as u8,
        ((x >> 32u64) & 0xff) as u8,
        ((x >> 40u64) & 0xff) as u8,
        ((x >> 48u64) & 0xff) as u8,
        ((x >> 56u64) & 0xff) as u8,
    ]
}

pub open spec fn enc_bool(b: bool) -> Seq<u8> {
    if b {
        seq![1u8]
    } else {
        seq![0u8]
    }
}

/// A length-prefixed byte string.
pub open spec fn enc_bytes(d: Seq<u8>) -> Seq<u8> {
    enc_u32(d.len() as u32) + d
}

pub open spec fn enc_member(m: MemberView) -> Seq<u8> {
    m.key + enc_u32(m.weight)
}

pub open spec fn enc_members(s: Seq<MemberView>) -> Seq<u8> {
    enc_u32(s.len() as u32) + s.map_values(|m: MemberView| enc_member(m)).flatten()
}

pub open spec fn enc_group(g: GroupView) -> Seq<u8> {
    enc_members(g.members) + enc_u32(g.threshold)
}

pub open spec fn enc_meta(a: MetaView) -> Seq<u8> {
    a.key + enc_bool(a.is_signer) + enc_bool(a.is_writable)
}

pub open spec fn enc_metas(s: Seq<MetaView>) -> Seq<u8> {
    enc_u32(s.len() as u32) + s.map_values(|a: MetaView| enc_meta(a)).flatten()
}

pub open spec fn enc_instruction(i: InstructionView) -> Seq<u8> {
    i.program_id + enc_metas(i.accounts) + enc_bytes(i.data)
}

pub open spec fn enc_instructions(s: Seq<InstructionView>) -> Seq<u8> {
    enc_u32(s.len() as u32) + s.map_values(|i: InstructionView| enc_instruction(i)).flatten()
}

/// The metas' encodings one after the other, without the count.
pub open spec fn enc_meta_seq(s: Seq<MetaView>) -> Seq<u8> {
    s.map_values(|a: MetaView| enc_meta(a)).flatten()
}

/// The instructions' encodings one after the other, without the count.
pub open spec fn enc_instruction_seq(s: Seq<InstructionView>) -> Seq<u8> {
    s.map_values(|i: InstructionView| enc_instruction(i)).flatten()
}

proof fn lemma_enc_meta_seq_first(s: Seq<MetaView>)
    requires
        s.len() > 0,
    ensures
        enc_meta_seq(s) == enc_meta(s[0]) + enc_meta_seq(s.drop_first()),
{
    let f = |a: MetaView| enc_meta(a);
    assert(s.map_values(f).drop_first() =~= s.drop_first().map_values(f));
}

proof fn lemma_enc_instruction_seq_first(s: Seq<InstructionView>)
    requires
        s.len() > 0,
    ensures
        enc_instruction_seq(s) == enc_instruction(s[0]) + enc_instruction_seq(s.drop_first()),
{
    let f = |i: InstructionView| enc_instruction(i);
    assert(s.map_values(f).drop_first() =~= s.drop_first().map_values(f));
}

pub open spec fn enc_config(c: ConfigView) -> Seq<u8> {
    c.group + enc_instructions(c.instructions) + c.author + enc_u64(c.salt)
}

pub open spec fn enc_state(s: ProposalState) -> Seq<u8> {
    enc_u64(s.members) + enc_u32(s.current_weight)
}

pub open spec fn enc_proposal(p: ProposalView) -> Seq<u8> {
    enc_config(p.config) + enc_state(p.state)
}

/// Every count of the group fits in its 4-byte prefix and every key is 32 bytes.
pub open spec fn group_encodable(g: GroupView) -> bool {
    &&& g.members.len() <= u32::MAX
    &&& forall|i: int| 0 <= i < g.members.len() ==> (#[trigger] g.members[i]).key.len() == 32
}

pub open spec fn instruction_encodable(i: InstructionView) -> bool {
    &&& i.program_id.len() == 32
    &&& i.accounts.len() <= u32::MAX
    &&& i.data.len() <= u32::MAX
    &&& forall|j: int| 0 <= j < i.accounts.len() ==> (#[trigger] i.accounts[j]).key.len() == 32
}

pub open spec fn config_encodable(c: ConfigView) -> bool {
    &&& c.group.len() == 32
    &&& c.author.len() == 32
    &&& c.instructions.len() <= u32::MAX
    &&& forall|j: int|
        0 <= j < c.instructions.len() ==> instruction_encodable(#[trigger] c.instructions[j])
}

// ---- parsers over the remaining input ----

pub open spec fn le_u32(s: Seq<u8>) -> u32 {
    (s[0] as u32) | ((s[1] as u32) << 8u32) | ((s[2] as u32) << 16u32) | ((s[3] as u32) << 24u32)
}

pub open spec fn le_u64(s: Seq<u8>) -> u64 {
    (s[0] as u64) | ((s[1] as u64) << 8u64) | ((s[2] as u64) << 16u64) | ((s[3] as u64) << 24u64)
        | ((s[4] as u64) << 32u64) | ((s[5] as u64) << 40u64) | ((s[6] as u64) << 48u64) | ((
    s[7] as u64) << 56u64)
}

pub open spec fn parse_u32(s: Seq<u8>) -> Option<(u32, Seq<u8>)> {
    if s.len() >= 4 {
        Some((le_u32(s), s.skip(4)))
    } else {
        None
    }
}

pub open spec fn parse_u64(s: Seq<u8>) -> Option<(u64, Seq<u8>)> {
    if s.len() >= 8 {
        Some((le_u64(s), s.skip(8)))
    } else {
        None
    }
}

pub open spec fn parse_bool(s: Seq<u8>) -> Option<(bool, Seq<u8>)> {
    if s.len() >= 1 && s[0] <= 1 {
        Some((s[0] == 1, s.skip(1)))
    } else {
        None
    }
}

pub open spec fn parse_key(s: Seq<u8>) -> Option<(Seq<u8>, Seq<u8>)> {
    if s.len() >= 32 {
        Some((s.take(32), s.skip(32)))
    } else {
        None
    }
}

pub open spec fn parse_member(s: Seq<u8>) -> Option<(MemberView, Seq<u8>)> {
    match parse_key(s) {
        Some((key, r)) => match parse_u32(r) {
            Some((weight, r2)) => Some((MemberView { key, weight }, r2)),
            None => None,
        },
        None => None,
    }
}

/// `n` members one after the other.
pub open spec fn parse_member_list(s: Seq<u8>, n: nat) -> Option<(Seq<MemberView>, Seq<u8>)>
    decreases n,
{
    if n == 0 {
        Some((Seq::empty(), s))
    } else {
        match parse_member(s) {
            Some((m, r)) => match parse_member_list(r, (n - 1) as nat) {
                Some((ms, r2)) => Some((seq![m] + ms, r2)),
                None => None,
            },
            None => None,
        }
    }
}

pub open spec fn parse_group(s: Seq<u8>) -> Option<(GroupView, Seq<u8>)> {
    match parse_u32(s) {
        Some((n, r)) => match parse_member_list(r, n as nat) {
            Some((members, r2)) => match parse_u32(r2) {
                Some((threshold, r3)) => Some((GroupView { members, threshold }, r3)),
                None => None,
            },
            None => None,
        },
        None => None,
    }
}

pub open spec fn parse_bytes(s: Seq<u8>) -> Option<(Seq<u8>, Seq<u8>)> {
    match parse_u32(s) {
        Some((n, r)) => if r.len() >= n {
            Some((r.take(n as int), r.skip(n as int)))
        } else {
            None
        },
        None => None,
    }
}

pub open spec fn parse_meta(s: Seq<u8>) -> Option<(MetaView, Seq<u8>)> {
    match parse_key(s) {
        Some((key, r)) => match parse_bool(r) {
            Some((is_signer, r2)) => match parse_bool(r2) {
                Some((is_writable, r3)) => Some((MetaView { key, is_signer, is_writable }, r3)),
                None => None,
            },
            None => None,
        },
        None => None,
    }
}

pub open spec fn parse_meta_list(s: Seq<u8>, n: nat) -> Option<(Seq<MetaView>, Seq<u8>)>
    decreases n,
{
    if n == 0 {
        Some((Seq::empty(), s))
    } else {
        match parse_meta(s) {
            Some((a, r)) => match parse_meta_list(r, (n - 1) as nat) {
                Some((rest, r2)) => Some((seq![a] + rest, r2)),
                None => None,
            },
            None => None,
        }
    }
}

#[verifier::opaque]
pub open spec fn parse_instruction(s: Seq<u8>) -> Option<(InstructionView, Seq<u8>)> {
    match parse_key(s) {
        Some((program_id, r)) => match parse_u32(r) {
            Some((n, r2)) => match parse_meta_list(r2, n as nat) {
                Some((accounts, r3)) => match parse_bytes(r3) {
                    Some((data, r4)) => Some((InstructionView { program_id, accounts, data }, r4)),
                    None => None,
                },
                None => None,
            },
            None => None,
        },
        None => None,
    }
}

pub open spec fn parse_instruction_list(s: Seq<u8>, n: nat) -> Option<
    (Seq<InstructionView>, Seq<u8>),
>
    decreases n,
{
    if n == 0 {
        Some((Seq::empty(), s))
    } else {
        match parse_instruction(s) {
            Some((i, r)) => match parse_instruction_list(r, (n - 1) as nat) {
                Some((rest, r2)) => Some((seq![i] + rest, r2)),
                None => None,
            },
            None => None,
        }
    }
}

pub open spec fn parse_instructions(s: Seq<u8>) -> Option<(Seq<InstructionView>, Seq<u8>)> {
    match parse_u32(s) {
        Some((n, r)) => parse_instruction_list(r, n as nat),
        None => None,
    }
}

pub open spec fn parse_config(s: Seq<u8>) -> Option<(ConfigView, Seq<u8>)> {
    match parse_key(s) {
        Some((group, r)) => match parse_instructions(r) {
            Some((instructions, r2)) => match parse_key(r2) {
                Some((author, r3)) => match parse_u64(r3) {
                    Some((salt, r4)) => Some((ConfigView { group, instructions, author, salt }, r4)),
                    None => None,
                },
                None => None,
            },
            None => None,
        },
        None => None,
    }
}

pub open spec fn parse_state(s: Seq<u8>) -> Option<(ProposalState, Seq<u8>)> {
    match parse_u64(s) {
        Some((members, r)) => match parse_u32(r) {
            Some((current_weight, r2)) => Some((ProposalState { members, current_weight }, r2)),
            None => None,
        },
        None => None,
    }
}

pub open spec fn parse_proposal(s: Seq<u8>) -> Option<(ProposalView, Seq<u8>)> {
    match parse_config(s) {
        Some((config, r)) => match parse_state(r) {
            Some((state, r2)) => Some((ProposalView { config, state }, r2)),
            None => None,
        },
        None => None,
    }
}

/// `r` is what a reader starting at `pos` of `b` returns when `p` is the
/// parse of the input from `pos` on: the same value, and the position where
/// the rest begins.
pub open spec fn reads<T>(b: Seq<u8>, pos: usize, r: Option<(T, usize)>, p: Option<(T, Seq<u8>)>) -> bool {
    match r {
        Some((v, q)) => pos <= q <= b.len() && p == Some((v, b.skip(q as int))),
        None => p is None,
    }
}

pub open spec fn viewed<T: View>(r: Option<(T, usize)>) -> Option<(T::V, usize)> {
    match r {
        Some((v, q)) => Some((v@, q)),
        None => None,
    }
}

/// The value that `parse` reads when it consumes the whole input.
pub open spec fn whole<T>(p: Option<(T, Seq<u8>)>) -> Option<T> {
    match p {
        Some((v, rest)) => if rest.len() == 0 {
            Some(v)
        } else {
            None
        },
        None => None,
    }
}

/// Every byte of `s` is zero.
pub open spec fn all_zero(s: Seq<u8>) -> bool {
    forall|i: int| 0 <= i < s.len() ==> s[i] == 0u8
}

/// The value that `parse` reads when nothing but zero bytes follows it.
pub open spec fn zero_padded<T>(p: Option<(T, Seq<u8>)>) -> Option<T> {
    match p {
        Some((v, rest)) => if all_zero(rest) {
            Some(v)
        } else {
            None
        },
        None => None,
    }
}

// ---- round trips ----

proof fn lemma_u32_bytes(x: u32)
    ensures
        (((x & 0xff) as u8) as u32) | ((((x >> 8u32) & 0xff) as u8 as u32) << 8u32) | ((((x
            >> 16u32) & 0xff) as u8 as u32) << 16u32) | ((((x >> 24u32) & 0xff) as u8 as u32)
            << 24u32) == x,
{
    assert((((x & 0xff) as u8) as u32) | ((((x >> 8u32) & 0xff) as u8 as u32) << 8u32) | ((((x
        >> 16u32) & 0xff) as u8 as u32) << 16u32) | ((((x >> 24u32) & 0xff) as u8 as u32)
        << 24u32) == x) by (bit_vector);
}

proof fn lemma_u64_bytes(x: u64)
    ensures
        (((x & 0xff) as u8) as u64) | ((((x >> 8u64) & 0xff) as u8 as u64) << 8u64) | ((((x
            >> 16u64) & 0xff) as u8 as u64) << 16u64) | ((((x >> 24u64) & 0xff) as u8 as u64)
            << 24u64) | ((((x >> 32u64) & 0xff) as u8 as u64) << 32u64) | ((((x >> 40u64)
            & 0xff) as u8 as u64) << 40u64) | ((((x >> 48u64) & 0xff) as u8 as u64) << 48u64)
            | ((((x >> 56u64) & 0xff) as u8 as u64) << 56u64) == x,
{
    assert((((x & 0xff) as u8) as u64) | ((((x >> 8u64) & 0xff) as u8 as u64) << 8u64) | ((((x
        >> 16u64) & 0xff) as u8 as u64) << 16u64) | ((((x >> 24u64) & 0xff) as u8 as u64)
        << 24u64) | ((((x >> 32u64) & 0xff) as u8 as u64) << 32u64) | ((((x >> 40u64) & 0xff)
        as u8 as u64) << 40u64) | ((((x >> 48u64) & 0xff) as u8 as u64) << 48u64) | ((((x
        >> 56u64) & 0xff) as u8 as u64) << 56u64) == x) by (bit_vector);
}

pub proof fn lemma_parse_u32(x: u32, rest: Seq<u8>)
    ensures
        parse_u32(enc_u32(x) + rest) == Some((x, rest)),
{
    lemma_u32_bytes(x);
    let s = enc_u32(x) + rest;
    assert(s.skip(4) =~= rest);
}

pub proof fn lemma_parse_u64(x: u64, rest: Seq<u8>)
    ensures
        parse_u64(enc_u64(x) + rest) == Some((x, rest)),
{
    lemma_u64_bytes(x);
    let s = enc_u64(x) + rest;
    assert(s.skip(8) =~= rest);
}

pub proof fn lemma_parse_bool(b: bool, rest: Seq<u8>)
    ensures
        parse_bool(enc_bool(b) + rest) == Some((b, rest)),
{
    let s = enc_bool(b) + rest;
    assert(s.skip(1) =~= rest);
}

pub proof fn lemma_parse_key(k: Seq<u8>, rest: Seq<u8>)
    requires
        k.len() == 32,
    ensures
        parse_key(k + rest) == Some((k, rest)),
{
    let s = k + rest;
    assert(s.take(32) =~= k);
    assert(s.skip(32) =~= rest);
}

proof fn lemma_parse_member_list(s: Seq<MemberView>, rest: Seq<u8>)
    requires
        forall|i: int| 0 <= i < s.len() ==> (#[trigger] s[i]).key.len() == 32,
    ensures
        parse_member_list(s.map_values(|m: MemberView| enc_member(m)).flatten() + rest, s.len())
            == Some((s, rest)),
    decreases s.len(),
{
    if s.len() > 0 {
        let f = |m: MemberView| enc_member(m);
        let tail = s.drop_first();
        assert(s.map_values(f).drop_first() =~= tail.map_values(f));
        let tail_bytes = tail.map_values(f).flatten() + rest;
        lemma_parse_member_list(tail, rest);
        let m = s[0];
        assert(s.map_values(f).flatten() + rest =~= m.key + (enc_u32(m.weight) + tail_bytes));
        lemma_parse_key(m.key, enc_u32(m.weight) + tail_bytes);
        lemma_parse_u32(m.weight, tail_bytes);
        assert(seq![m] + tail =~= s);
    } else {
        assert(s.map_values(|m: MemberView| enc_member(m)).flatten() + rest =~= rest);
        assert(s =~= Seq::<MemberView>::empty());
    }
}

/// Reading a group's encoding back gives the same group.
pub proof fn lemma_parse_group(g: GroupView, rest: Seq<u8>)
    requires
        group_encodable(g),
    ensures
        parse_group(enc_group(g) + rest) == Some((g, rest)),
{
    let body = g.members.map_values(|m: MemberView| enc_member(m)).flatten();
    let after = enc_u32(g.threshold) + rest;
    assert(enc_group(g) + rest =~= enc_u32(g.members.len() as u32) + (body + after));
    lemma_parse_u32(g.members.len() as u32, body + after);
    lemma_parse_member_list(g.members, after);
    lemma_parse_u32(g.threshold, rest);
}

proof fn lemma_u32_from_bytes(b0: u8, b1: u8, b2: u8, b3: u8)
    ensures
        ({
            let x = (b0 as u32) | ((b1 as u32) << 8u32) | ((b2 as u32) << 16u32) | ((b3 as u32)
                << 24u32);
            &&& (x & 0xff) as u8 == b0
            &&& ((x >> 8u32) & 0xff) as u8 == b1
            &&& ((x >> 16u32) & 0xff) as u8 == b2
            &&& ((x >> 24u32) & 0xff) as u8 == b3
        }),
{
    let x = (b0 as u32) | ((b1 as u32) << 8u32) | ((b2 as u32) << 16u32) | ((b3 as u32) << 24u32);
    assert((x & 0xff) as u8 == b0 && ((x >> 8u32) & 0xff) as u8 == b1 && ((x >> 16u32) & 0xff) as u8
        == b2 && ((x >> 24u32) & 0xff) as u8 == b3) by (bit_vector)
        requires
            x == (b0 as u32) | ((b1 as u32) << 8u32) | ((b2 as u32) << 16u32) | ((b3 as u32)
                << 24u32),
    ;
}

proof fn lemma_u64_from_bytes(s: Seq<u8>)
    requires
        s.len() >= 8,
    ensures
        enc_u64(le_u64(s)) == s.take(8),
{
    let (b0, b1, b2, b3, b4, b5, b6, b7) = (s[0], s[1], s[2], s[3], s[4], s[5], s[6], s[7]);
    let x = le_u64(s);
    assert((x & 0xff) as u8 == b0 && ((x >> 8u64) & 0xff) as u8 == b1 && ((x >> 16u64) & 0xff) as u8
        == b2 && ((x >> 24u64) & 0xff) as u8 == b3 && ((x >> 32u64) & 0xff) as u8 == b4 && ((x
        >> 40u64) & 0xff) as u8 == b5 && ((x >> 48u64) & 0xff) as u8 == b6 && ((x >> 56u64) & 0xff)
        as u8 == b7) by (bit_vector)
        requires
            x == (b0 as u64) | ((b1 as u64) << 8u64) | ((b2 as u64) << 16u64) | ((b3 as u64)
                << 24u64) | ((b4 as u64) << 32u64) | ((b5 as u64) << 40u64) | ((b6 as u64)
                << 48u64) | ((b7 as u64) << 56u64),
    ;
    assert(enc_u64(x) =~= s.take(8));
}

// ---- what parses is an encoding ----

proof fn lemma_u32_sound(s: Seq<u8>)
    ensures
        parse_u32(s) matches Some((v, r)) ==> s == enc_u32(v) + r,
{
    if s.len() >= 4 {
        lemma_u32_from_bytes(s[0], s[1], s[2], s[3]);
        assert(s =~= enc_u32(le_u32(s)) + s.skip(4));
    }
}

proof fn lemma_u64_sound(s: Seq<u8>)
    ensures
        parse_u64(s) matches Some((v, r)) ==> s == enc_u64(v) + r,
{
    if s.len() >= 8 {
        lemma_u64_from_bytes(s);
        assert(s =~= s.take(8) + s.skip(8));
    }
}

proof fn lemma_bool_sound(s: Seq<u8>)
    ensures
        parse_bool(s) matches Some((v, r)) ==> s == enc_bool(v) + r,
{
    if s.len() >= 1 && s[0] <= 1 {
        assert(s =~= enc_bool(s[0] == 1) + s.skip(1));
    }
}

proof fn lemma_key_sound(s: Seq<u8>)
    ensures
        parse_key(s) matches Some((k, r)) ==> s == k + r && k.len() == 32,
{
    if s.len() >= 32 {
        assert(s =~= s.take(32) + s.skip(32));
    }
}

proof fn lemma_meta_list_sound(s: Seq<u8>, n: nat)
    ensures
        parse_meta_list(s, n) matches Some((v, r)) ==> v.len() == n && s == enc_meta_seq(v) + r
            && forall|j: int| 0 <= j < v.len() ==> (#[trigger] v[j]).key.len() == 32,
    decreases n,
{
    if n > 0 {
        lemma_key_sound(s);
        if let Some((key, r1)) = parse_key(s) {
            lemma_bool_sound(r1);
            if let Some((sg, r2)) = parse_bool(r1) {
                lemma_bool_sound(r2);
                if let Some((wr, r3)) = parse_bool(r2) {
                    lemma_meta_list_sound(r3, (n - 1) as nat);
                    if let Some((rest, r4)) = parse_meta_list(r3, (n - 1) as nat) {
                        let a = MetaView { key, is_signer: sg, is_writable: wr };
                        let v = seq![a] + rest;
                        lemma_enc_meta_seq_first(v);
                        assert(v.drop_first() =~= rest);
                        assert(s =~= enc_meta(a) + (enc_meta_seq(rest) + r4));
                        assert forall|j: int| 0 <= j < v.len() implies (#[trigger] v[j]).key.len()
                            == 32 by {
                            if j > 0 {
                                assert(v[j] == rest[j - 1]);
                            }
                        }
                    }
                }
            }
        }
    } else {
        assert(s =~= enc_meta_seq(Seq::empty()) + s);
    }
}

proof fn lemma_bytes_sound(s: Seq<u8>)
    ensures
        parse_bytes(s) matches Some((d, r)) ==> d.len() <= u32::MAX && s == enc_bytes(d) + r,
{
    lemma_u32_sound(s);
    if let Some((n, r)) = parse_u32(s) {
        if r.len() >= n {
            assert(r =~= r.take(n as int) + r.skip(n as int));
        }
    }
}

proof fn lemma_instruction_sound(s: Seq<u8>)
    ensures
        parse_instruction(s) matches Some((i, r)) ==> instruction_encodable(i) && s
            == enc_instruction(i) + r,
{
    reveal(parse_instruction);
    lemma_key_sound(s);
    if let Some((program_id, r1)) = parse_key(s) {
        lemma_u32_sound(r1);
        if let Some((n, r2)) = parse_u32(r1) {
            lemma_meta_list_sound(r2, n as nat);
            if let Some((accounts, r3)) = parse_meta_list(r2, n as nat) {
                lemma_bytes_sound(r3);
                if let Some((data, r4)) = parse_bytes(r3) {
                    let i = InstructionView { program_id, accounts, data };
                    assert(s =~= enc_instruction(i) + r4);
                }
            }
        }
    }
}

proof fn lemma_instruction_list_sound(s: Seq<u8>, n: nat)
    ensures
        parse_instruction_list(s, n) matches Some((v, r)) ==> v.len() == n && s
            == enc_instruction_seq(v) + r && forall|j: int|
            0 <= j < v.len() ==> instruction_encodable(#[trigger] v[j]),
    decreases n,
{
    if n > 0 {
        lemma_instruction_sound(s);
        if let Some((i, r1)) = parse_instruction(s) {
            lemma_instruction_list_sound(r1, (n - 1) as nat);
            if let Some((rest, r2)) = parse_instruction_list(r1, (n - 1) as nat) {
                let v = seq![i] + rest;
                lemma_enc_instruction_seq_first(v);
                assert(v.drop_first() =~= rest);
                assert(s =~= enc_instruction(i) + (enc_instruction_seq(rest) + r2));
                assert forall|j: int| 0 <= j < v.len() implies instruction_encodable(
                    #[trigger] v[j],
                ) by {
                    if j > 0 {
                        assert(v[j] == rest[j - 1]);
                    }
                }
            }
        }
    } else {
        assert(s =~= enc_instruction_seq(Seq::empty()) + s);
    }
}

/// What `parse_config` reads is a configuration that encodes back to the
/// bytes it consumed.
pub proof fn lemma_config_sound(s: Seq<u8>)
    ensures
        parse_config(s) matches Some((c, r)) ==> config_encodable(c) && s == enc_config(c) + r,
{
    lemma_key_sound(s);
    if let Some((group, r1)) = parse_key(s) {
        lemma_u32_sound(r1);
        if let Some((n, r2)) = parse_u32(r1) {
            lemma_instruction_list_sound(r2, n as nat);
            if let Some((instructions, r3)) = parse_instruction_list(r2, n as nat) {
                lemma_key_sound(r3);
                if let Some((author, r4)) = parse_key(r3) {
                    lemma_u64_sound(r4);
                    if let Some((salt, r5)) = parse_u64(r4) {
                        let c = ConfigView { group, instructions, author, salt };
                        assert(s =~= enc_config(c) + r5);
                    }
                }
            }
        }
    }
}

/// What `parse_proposal` reads is a proposal that encodes back to the bytes
/// it consumed.
pub proof fn lemma_proposal_sound(s: Seq<u8>)
    ensures
        parse_proposal(s) matches Some((p, r)) ==> config_encodable(p.config) && s == enc_proposal(
            p,
        ) + r,
{
    lemma_config_sound(s);
    if let Some((config, r1)) = parse_config(s) {
        lemma_u64_sound(r1);
        if let Some((members, r2)) = parse_u64(r1) {
            lemma_u32_sound(r2);
            if let Some((w, r3)) = parse_u32(r2) {
                let p = ProposalView { config, state: ProposalState { members, current_weight: w } };
                assert(s =~= enc_proposal(p) + r3);
            }
        }
    }
}

/// A proposal record's payload followed by zero padding is the encoding of
/// what it holds, then that padding.
pub proof fn lemma_padded_proposal_sound(x: Seq<u8>)
    requires
        zero_padded(parse_proposal(x)) is Some,
    ensures
        x == enc_proposal((parse_proposal(x)->Some_0).0) + (parse_proposal(x)->Some_0).1,
        config_encodable((parse_proposal(x)->Some_0).0.config),
{
    lemma_proposal_sound(x);
}

/// Two proposals with the same configuration encode to the same length:
/// the state takes twelve bytes whatever it holds.
pub proof fn lemma_proposal_len(p: ProposalView, q: ProposalView)
    requires
        p.config == q.config,
    ensures
        enc_proposal(p).len() == enc_proposal(q).len(),
{
    assert(enc_state(p.state).len() == 12);
    assert(enc_state(q.state).len() == 12);
}

// ---- encodings parse back ----

proof fn lemma_parse_meta_list(s: Seq<MetaView>, rest: Seq<u8>)
    requires
        forall|i: int| 0 <= i < s.len() ==> (#[trigger] s[i]).key.len() == 32,
    ensures
        parse_meta_list(enc_meta_seq(s) + rest, s.len()) == Some((s, rest)),
    decreases s.len(),
{
    if s.len() > 0 {
        let tail = s.drop_first();
        lemma_enc_meta_seq_first(s);
        lemma_parse_meta_list(tail, rest);
        let a = s[0];
        let tail_bytes = enc_meta_seq(tail) + rest;
        assert(enc_meta_seq(s) + rest =~= a.key + (enc_bool(a.is_signer) + (enc_bool(
            a.is_writable,
        ) + tail_bytes)));
        lemma_parse_key(a.key, enc_bool(a.is_signer) + (enc_bool(a.is_writable) + tail_bytes));
        lemma_parse_bool(a.is_signer, enc_bool(a.is_writable) + tail_bytes);
        lemma_parse_bool(a.is_writable, tail_bytes);
        assert(seq![a] + tail =~= s);
    } else {
        assert(enc_meta_seq(s) + rest =~= rest);
        assert(s =~= Seq::<MetaView>::empty());
    }
}

proof fn lemma_parse_instruction(i: InstructionView, rest: Seq<u8>)
    requires
        instruction_encodable(i),
    ensures
        parse_instruction(enc_instruction(i) + rest) == Some((i, rest)),
{
    reveal(parse_instruction);
    let after = enc_bytes(i.data) + rest;
    assert(enc_instruction(i) + rest =~= i.program_id + (enc_u32(i.accounts.len() as u32) + (
    enc_meta_seq(i.accounts) + after)));
    lemma_parse_key(i.program_id, enc_u32(i.accounts.len() as u32) + (enc_meta_seq(i.accounts)
        + after));
    lemma_parse_u32(i.accounts.len() as u32, enc_meta_seq(i.accounts) + after);
    lemma_parse_meta_list(i.accounts, after);
    assert(after =~= enc_u32(i.data.len() as u32) + (i.data + rest));
    lemma_parse_u32(i.data.len() as u32, i.data + rest);
    assert((i.data + rest).take(i.data.len() as int) =~= i.data);
    assert((i.data + rest).skip(i.data.len() as int) =~= rest);
}

proof fn lemma_parse_instruction_list(s: Seq<InstructionView>, rest: Seq<u8>)
    requires
        forall|j: int| 0 <= j < s.len() ==> instruction_encodable(#[trigger] s[j]),
    ensures
        parse_instruction_list(enc_instruction_seq(s) + rest, s.len()) == Some((s, rest)),
    decreases s.len(),
{
    if s.len() > 0 {
        let tail = s.drop_first();
        lemma_enc_instruction_seq_first(s);
        assert forall|j: int| 0 <= j < tail.len() implies instruction_encodable(
            #[trigger] tail[j],
        ) by {
            assert(tail[j] == s[j + 1]);
        }
        lemma_parse_instruction_list(tail, rest);
        let tail_bytes = enc_instruction_seq(tail) + rest;
        vstd::seq_lib::lemma_concat_associative(
            enc_instruction(s[0]),
            enc_instruction_seq(tail),
            rest,
        );
        lemma_parse_instruction(s[0], tail_bytes);
        assert(seq![s[0]] + tail =~= s);
    } else {
        assert(enc_instruction_seq(s) + rest =~= rest);
        assert(s =~= Seq::<InstructionView>::empty());
    }
}

/// Reading a configuration's encoding back gives the same configuration.
pub proof fn lemma_parse_config(c: ConfigView, rest: Seq<u8>)
    requires
        config_encodable(c),
    ensures
        parse_config(enc_config(c) + rest) == Some((c, rest)),
{
    let after = c.author + (enc_u64(c.salt) + rest);
    assert(enc_config(c) + rest =~= c.group + (enc_u32(c.instructions.len() as u32) + (
    enc_instruction_seq(c.instructions) + after)));
    lemma_parse_key(c.group, enc_u32(c.instructions.len() as u32) + (enc_instruction_seq(
        c.instructions,
    ) + after));
    lemma_parse_u32(c.instructions.len() as u32, enc_instruction_seq(c.instructions) + after);
    lemma_parse_instruction_list(c.instructions, after);
    lemma_parse_key(c.author, enc_u64(c.salt) + rest);
    lemma_parse_u64(c.salt, rest);
}

/// Reading a proposal's encoding back gives the same proposal.
pub proof fn lemma_parse_proposal(p: ProposalView, rest: Seq<u8>)
    requires
        config_encodable(p.config),
    ensures
        parse_proposal(enc_proposal(p) + rest) == Some((p, rest)),
{
    let after = enc_u64(p.state.members) + (enc_u32(p.state.current_weight) + rest);
    assert(enc_proposal(p) + rest =~= enc_config(p.config) + after);
    lemma_parse_config(p.config, after);
    lemma_parse_u64(p.state.members, enc_u32(p.state.current_weight) + rest);
    lemma_parse_u32(p.state.current_weight, rest);
}

// ---- writers ----

pub fn put_u32(out: &mut Vec<u8>, x: u32)
    ensures
        final(out)@ == old(out)@ + enc_u32(x),
{
    out.push((x & 0xff) as u8);
    out.push(((x >> 8u32) & 0xff) as u8);
    out.push(((x >> 16u32) & 0xff) as u8);
    out.push(((x >> 24u32) & 0xff) as u8);
    assert(out@ =~= old(out)@ + enc_u32(x));
}

pub fn put_u64(out: &mut Vec<u8>, x: u64)
    ensures
        final(out)@ == old(out)@ + enc_u64(x),
{
    out.push((x & 0xff) as u8);
    out.push(((x >> 8u64) & 0xff) as u8);
    out.push(((x >> 16u64) & 0xff) as u8);
    out.push(((x >> 24u64) & 0xff) as u8);
    out.push(((x >> 32u64) & 0xff) as u8);
    out.push(((x >> 40u64) & 0xff) as u8);
    out.push(((x >> 48u64) & 0xff) as u8);
    out.push(((x >> 56u64) & 0xff) as u8);
    assert(out@ =~= old(out)@ + enc_u64(x));
}

pub fn put_bool(out: &mut Vec<u8>, b: bool)
    ensures
        final(out)@ == old(out)@ + enc_bool(b),
{
    if b {
        out.push(1u8);
    } else {
        out.push(0u8);
    }
    assert(out@ =~= old(out)@ + enc_bool(b));
}

/// Appends `bytes` verbatim.
pub fn put_raw(out: &mut Vec<u8>, bytes: &[u8])
    ensures
        final(out)@ == old(out)@ + bytes@,
{
    let mut i: usize = 0;
    while i < bytes.len()
        invariant
            0 <= i <= bytes@.len(),
            out@ == old(out)@ + bytes@.take(i as int),
        decreases bytes@.len() - i,
    {
        out.push(bytes[i]);
        i = i + 1;
        assert(out@ =~= old(out)@ + bytes@.take(i as int));
    }
    assert(bytes@.take(bytes@.len() as int) =~= bytes@);
}

pub fn put_key(out: &mut Vec<u8>, k: &Key)
    ensures
        final(out)@ == old(out)@ + k@,
{
    put_raw(out, k.as_slice());
}

fn put_member_list(out: &mut Vec<u8>, members: &Vec<GroupMember>)
    requires
        members@.len() <= u32::MAX,
    ensures
        final(out)@ == old(out)@ + enc_members(members@.map_values(|m: GroupMember| m@)),
{
    let ghost mv = members@.map_values(|m: GroupMember| m@);
    let ghost f = |m: MemberView| enc_member(m);
    put_u32(out, members.len() as u32);
    let ghost start = out@;
    let mut i: usize = 0;
    while i < members.len()
        invariant
            0 <= i <= members@.len(),
            mv == members@.map_values(|m: GroupMember| m@),
            f == (|m: MemberView| enc_member(m)),
            out@ == start + mv.take(i as int).map_values(f).flatten(),
        decreases members@.len() - i,
    {
        let m = members[i];
        put_key(out, &m.public_key);
        put_u32(out, m.weight);
        proof {
            assert(mv.take(i + 1).map_values(f) =~= mv.take(i as int).map_values(f).push(f(mv[i as int])));
            mv.take(i as int).map_values(f).lemma_flatten_push(f(mv[i as int]));
        }
        i = i + 1;
    }
    assert(mv.take(members@.len() as int) =~= mv);
}

/// The canonical encoding of a group.
pub fn encode_group(g: &GroupData) -> (r: Vec<u8>)
    requires
        g.members@.len() <= u32::MAX,
    ensures
        r@ == enc_group(g@),
{
    let mut out: Vec<u8> = Vec::new();
    put_member_list(&mut out, &g.members);
    put_u32(&mut out, g.threshold);
    out
}

fn put_meta_list(out: &mut Vec<u8>, metas: &Vec<ProposedAccountMeta>)
    requires
        metas@.len() <= u32::MAX,
    ensures
        final(out)@ == old(out)@ + enc_metas(metas@.map_values(|a: ProposedAccountMeta| a@)),
{
    let ghost mv = metas@.map_values(|a: ProposedAccountMeta| a@);
    let ghost f = |a: MetaView| enc_meta(a);
    put_u32(out, metas.len() as u32);
    let ghost start = out@;
    let mut i: usize = 0;
    while i < metas.len()
        invariant
            0 <= i <= metas@.len(),
            mv == metas@.map_values(|a: ProposedAccountMeta| a@),
            f == (|a: MetaView| enc_meta(a)),
            out@ == start + mv.take(i as int).map_values(f).flatten(),
        decreases metas@.len() - i,
    {
        let a = metas[i];
        put_key(out, &a.pubkey);
        put_bool(out, a.is_signer);
        put_bool(out, a.is_writable);
        proof {
            assert(mv.take(i + 1).map_values(f) =~= mv.take(i as int).map_values(f).push(f(mv[i as int])));
            mv.take(i as int).map_values(f).lemma_flatten_push(f(mv[i as int]));
        }
        i = i + 1;
    }
    assert(mv.take(metas@.len() as int) =~= mv);
}

fn put_instruction(out: &mut Vec<u8>, ix: &ProposedInstruction)
    requires
        instruction_encodable(ix@),
    ensures
        final(out)@ == old(out)@ + enc_instruction(ix@),
{
    put_key(out, &ix.program_id);
    put_meta_list(out, &ix.accounts);
    put_u32(out, ix.data.len() as u32);
    put_raw(out, ix.data.as_slice());
    assert(out@ =~= old(out)@ + enc_instruction(ix@));
}

fn put_instruction_list(out: &mut Vec<u8>, ixs: &Vec<ProposedInstruction>)
    requires
        ixs@.len() <= u32::MAX,
        forall|j: int| 0 <= j < ixs@.len() ==> instruction_encodable(#[trigger] ixs@[j]@),
    ensures
        final(out)@ == old(out)@ + enc_instructions(ixs@.map_values(|i: ProposedInstruction| i@)),
{
    let ghost iv = ixs@.map_values(|i: ProposedInstruction| i@);
    let ghost f = |i: InstructionView| enc_instruction(i);
    put_u32(out, ixs.len() as u32);
    let ghost start = out@;
    let mut i: usize = 0;
    while i < ixs.len()
        invariant
            0 <= i <= ixs@.len(),
            iv == ixs@.map_values(|i: ProposedInstruction| i@),
            f == (|i: InstructionView| enc_instruction(i)),
            forall|j: int| 0 <= j < ixs@.len() ==> instruction_encodable(#[trigger] ixs@[j]@),
            out@ == start + iv.take(i as int).map_values(f).flatten(),
        decreases ixs@.len() - i,
    {
        put_instruction(out, &ixs[i]);
        proof {
            assert(iv.take(i + 1).map_values(f) =~= iv.take(i as int).map_values(f).push(f(iv[i as int])));
            iv.take(i as int).map_values(f).lemma_flatten_push(f(iv[i as int]));
        }
        i = i + 1;
    }
    assert(iv.take(ixs@.len() as int) =~= iv);
}

/// The canonical encoding of a proposal's configuration.
pub fn encode_config(c: &ProposalConfig) -> (r: Vec<u8>)
    requires
        config_encodable(c@),
    ensures
        r@ == enc_config(c@),
{
    let mut out: Vec<u8> = Vec::new();
    put_config(&mut out, c);
    out
}

fn put_config(out: &mut Vec<u8>, c: &ProposalConfig)
    requires
        config_encodable(c@),
    ensures
        final(out)@ == old(out)@ + enc_config(c@),
{
    proof {
        assert forall|j: int| 0 <= j < c.instructions@.len() implies instruction_encodable(
            #[trigger] c.instructions@[j]@,
        ) by {
            assert(c@.instructions[j] == c.instructions@[j]@);
        }
    }
    put_key(out, &c.group);
    put_instruction_list(out, &c.instructions);
    put_key(out, &c.author);
    put_u64(out, c.salt);
    assert(out@ =~= old(out)@ + enc_config(c@));
}

/// The canonical encoding of a proposal: its configuration, then its state.
pub fn encode_proposal(p: &ProposalData) -> (r: Vec<u8>)
    requires
        config_encodable(p.config@),
    ensures
        r@ == enc_proposal(p@),
{
    let mut out: Vec<u8> = Vec::new();
    put_config(&mut out, &p.config);
    put_u64(&mut out, p.state.members);
    put_u32(&mut out, p.state.current_weight);
    assert(out@ =~= enc_proposal(p@));
    out
}

// ---- readers ----

pub fn read_u8(b: &[u8], pos: usize) -> (r: Option<(u8, usize)>)
    requires
        pos <= b@.len(),
    ensures
        match r {
            Some((v, q)) => q == pos + 1 && q <= b@.len() && v == b@[pos as int],
            None => pos == b@.len(),
        },
{
    if pos < b.len() {
        Some((b[pos], pos + 1))
    } else {
        None
    }
}

pub fn read_u32(b: &[u8], pos: usize) -> (r: Option<(u32, usize)>)
    requires
        pos <= b@.len(),
    ensures
        reads(b@, pos, r, parse_u32(b@.skip(pos as int))),
{
    if b.len() - pos < 4 {
        return None;
    }
    let v = (b[pos] as u32) | ((b[pos + 1] as u32) << 8u32) | ((b[pos + 2] as u32) << 16u32) | ((
    b[pos + 3] as u32) << 24u32);
    assert(b@.skip(pos as int).skip(4) =~= b@.skip(pos + 4));
    Some((v, pos + 4))
}

pub fn read_u64(b: &[u8], pos: usize) -> (r: Option<(u64, usize)>)
    requires
        pos <= b@.len(),
    ensures
        reads(b@, pos, r, parse_u64(b@.skip(pos as int))),
{
    if b.len() - pos < 8 {
        return None;
    }
    let v = (b[pos] as u64) | ((b[pos + 1] as u64) << 8u64) | ((b[pos + 2] as u64) << 16u64) | ((
    b[pos + 3] as u64) << 24u64) | ((b[pos + 4] as u64) << 32u64) | ((b[pos + 5] as u64) << 40u64)
        | ((b[pos + 6] as u64) << 48u64) | ((b[pos + 7] as u64) << 56u64);
    assert(b@.skip(pos as int).skip(8) =~= b@.skip(pos + 8));
    Some((v, pos + 8))
}

pub fn read_bool(b: &[u8], pos: usize) -> (r: Option<(bool, usize)>)
    requires
        pos <= b@.len(),
    ensures
        reads(b@, pos, r, parse_bool(b@.skip(pos as int))),
{
    if pos < b.len() && b[pos] <= 1 {
        assert(b@.skip(pos as int).skip(1) =~= b@.skip(pos + 1));
        Some((b[pos] == 1, pos + 1))
    } else {
        None
    }
}

pub fn read_key(b: &[u8], pos: usize) -> (r: Option<(Key, usize)>)
    requires
        pos <= b@.len(),
    ensures
        match r {
            Some((k, q)) => pos <= q <= b@.len() && parse_key(b@.skip(pos as int)) == Some(
                (k@, b@.skip(q as int)),
            ),
            None => parse_key(b@.skip(pos as int)) is None,
        },
{
    if b.len() - pos < 32 {
        return None;
    }
    let mut k: Key = [0u8; 32];
    let mut i: usize = 0;
    while i < 32
        invariant
            0 <= i <= 32,
            pos + 32 <= b.len(),
            k@.len() == 32,
            forall|j: int| 0 <= j < i ==> k@[j] == b@[pos + j],
        decreases 32 - i,
    {
        k[i] = b[pos + i];
        i = i + 1;
    }
    assert(k@ =~= b@.skip(pos as int).take(32));
    assert(b@.skip(pos as int).skip(32) =~= b@.skip(pos + 32));
    Some((k, pos + 32))
}

pub fn read_bytes(b: &[u8], pos: usize) -> (r: Option<(Vec<u8>, usize)>)
    requires
        pos <= b@.len(),
    ensures
        reads(b@, pos, viewed(r), parse_bytes(b@.skip(pos as int))),
        r matches Some((v, _)) ==> v@.len() <= u32::MAX,
{
    let (n, p) = match read_u32(b, pos) {
        Some(x) => x,
        None => return None,
    };
    assert(b@.skip(p as int) == b@.skip(pos as int).skip(4));
    if ((b.len() - p) as u64) < (n as u64) {
        return None;
    }
    let n = n as usize;
    let mut out: Vec<u8> = Vec::new();
    let mut i: usize = 0;
    while i < n
        invariant
            0 <= i <= n,
            p + n <= b.len(),
            out@ == b@.subrange(p as int, p + i),
        decreases n - i,
    {
        out.push(b[p + i]);
        i = i + 1;
        assert(out@ =~= b@.subrange(p as int, p + i));
    }
    assert(out@ =~= b@.skip(p as int).take(n as int));
    assert(b@.skip(p as int).skip(n as int) =~= b@.skip(p + n));
    Some((out, p + n))
}

fn read_member_list(b: &[u8], pos: usize, n: u32) -> (r: Option<(Vec<GroupMember>, usize)>)
    requires
        pos <= b@.len(),
    ensures
        reads(
            b@,
            pos,
            match r {
                Some((v, q)) => Some((v@.map_values(|m: GroupMember| m@), q)),
                None => None,
            },
            parse_member_list(b@.skip(pos as int), n as nat),
        ),
        r matches Some((v, _)) ==> v@.len() == n,
{
    let mut out: Vec<GroupMember> = Vec::new();
    let mut p: usize = pos;
    let mut i: u32 = 0;
    while i < n
        invariant
            0 <= i <= n,
            pos <= p <= b@.len(),
            out@.len() == i,
            parse_member_list(b@.skip(pos as int), n as nat) == match parse_member_list(
                b@.skip(p as int),
                (n - i) as nat,
            ) {
                Some((ms, r)) => Some((out@.map_values(|m: GroupMember| m@) + ms, r)),
                None => None,
            },
        decreases n - i,
    {
        let ghost before = out@.map_values(|m: GroupMember| m@);
        let (key, at1) = match read_key(b, p) {
            Some(x) => x,
            None => return None,
        };
        let (weight, at2) = match read_u32(b, at1) {
            Some(x) => x,
            None => return None,
        };
        let m = GroupMember { public_key: key, weight };
        out.push(m);
        proof {
            assert(out@.map_values(|m: GroupMember| m@) =~= before.push(m@));
            let rest = parse_member_list(b@.skip(at2 as int), (n - i - 1) as nat);
            match rest {
                Some((ms, r)) => {
                    assert(before + (seq![m@] + ms) =~= before.push(m@) + ms);
                },
                None => {},
            }
        }
        p = at2;
        i = i + 1;
    }
    assert(out@.map_values(|m: GroupMember| m@) + Seq::<MemberView>::empty() =~= out@.map_values(
        |m: GroupMember| m@,
    ));
    Some((out, p))
}

pub fn read_group(b: &[u8], pos: usize) -> (r: Option<(GroupData, usize)>)
    requires
        pos <= b@.len(),
    ensures
        reads(b@, pos, viewed(r), parse_group(b@.skip(pos as int))),
        r matches Some((g, _)) ==> group_encodable(g@),
{
    let (n, at1) = match read_u32(b, pos) {
        Some(x) => x,
        None => return None,
    };
    let (members, at2) = match read_member_list(b, at1, n) {
        Some(x) => x,
        None => return None,
    };
    let (threshold, at3) = match read_u32(b, at2) {
        Some(x) => x,
        None => return None,
    };
    Some((GroupData { members, threshold }, at3))
}

fn read_meta_list(b: &[u8], pos: usize, n: u32) -> (r: Option<(Vec<ProposedAccountMeta>, usize)>)
    requires
        pos <= b@.len(),
    ensures
        reads(
            b@,
            pos,
            match r {
                Some((v, q)) => Some((v@.map_values(|a: ProposedAccountMeta| a@), q)),
                None => None,
            },
            parse_meta_list(b@.skip(pos as int), n as nat),
        ),
        r matches Some((v, _)) ==> v@.len() == n,
{
    let mut out: Vec<ProposedAccountMeta> = Vec::new();
    let mut p: usize = pos;
    let mut i: u32 = 0;
    while i < n
        invariant
            0 <= i <= n,
            pos <= p <= b@.len(),
            out@.len() == i,
            parse_meta_list(b@.skip(pos as int), n as nat) == match parse_meta_list(
                b@.skip(p as int),
                (n - i) as nat,
            ) {
                Some((ms, r)) => Some((out@.map_values(|a: ProposedAccountMeta| a@) + ms, r)),
                None => None,
            },
        decreases n - i,
    {
        let ghost before = out@.map_values(|a: ProposedAccountMeta| a@);
        let (pubkey, at1) = match read_key(b, p) {
            Some(x) => x,
            None => return None,
        };
        let (is_signer, at2) = match read_bool(b, at1) {
            Some(x) => x,
            None => return None,
        };
        let (is_writable, at3) = match read_bool(b, at2) {
            Some(x) => x,
            None => return None,
        };
        let a = ProposedAccountMeta { pubkey, is_signer, is_writable };
        out.push(a);
        proof {
            assert(out@.map_values(|a: ProposedAccountMeta| a@) =~= before.push(a@));
            let rest = parse_meta_list(b@.skip(at3 as int), (n - i - 1) as nat);
            match rest {
                Some((ms, r)) => {
                    assert(before + (seq![a@] + ms) =~= before.push(a@) + ms);
                },
                None => {},
            }
        }
        p = at3;
        i = i + 1;
    }
    assert(out@.map_values(|a: ProposedAccountMeta| a@) + Seq::<MetaView>::empty()
        =~= out@.map_values(|a: ProposedAccountMeta| a@));
    Some((out, p))
}

pub fn read_instruction(b: &[u8], pos: usize) -> (r: Option<(ProposedInstruction, usize)>)
    requires
        pos <= b@.len(),
    ensures
        reads(b@, pos, viewed(r), parse_instruction(b@.skip(pos as int))),
        r matches Some((ix, _)) ==> instruction_encodable(ix@),
{
    reveal(parse_instruction);
    let (program_id, at1) = match read_key(b, pos) {
        Some(x) => x,
        None => return None,
    };
    let (n, at2) = match read_u32(b, at1) {
        Some(x) => x,
        None => return None,
    };
    let (accounts, at3) = match read_meta_list(b, at2, n) {
        Some(x) => x,
        None => return None,
    };
    let (data, at4) = match read_bytes(b, at3) {
        Some(x) => x,
        None => return None,
    };
    Some((ProposedInstruction { program_id, accounts, data }, at4))
}

fn read_instruction_list(b: &[u8], pos: usize, n: u32) -> (r: Option<
    (Vec<ProposedInstruction>, usize),
>)
    requires
        pos <= b@.len(),
    ensures
        reads(
            b@,
            pos,
            match r {
                Some((v, q)) => Some((v@.map_values(|i: ProposedInstruction| i@), q)),
                None => None,
            },
            parse_instruction_list(b@.skip(pos as int), n as nat),
        ),
        r matches Some((v, _)) ==> v@.len() == n && forall|j: int|
            0 <= j < v@.len() ==> instruction_encodable(#[trigger] v@[j]@),
{
    let mut out: Vec<ProposedInstruction> = Vec::new();
    let mut p: usize = pos;
    let mut i: u32 = 0;
    while i < n
        invariant
            0 <= i <= n,
            pos <= p <= b@.len(),
            out@.len() == i,
            forall|j: int| 0 <= j < out@.len() ==> instruction_encodable(#[trigger] out@[j]@),
            parse_instruction_list(b@.skip(pos as int), n as nat) == match parse_instruction_list(
                b@.skip(p as int),
                (n - i) as nat,
            ) {
                Some((ms, r)) => Some((out@.map_values(|i: ProposedInstruction| i@) + ms, r)),
                None => None,
            },
        decreases n - i,
    {
        let ghost before = out@.map_values(|i: ProposedInstruction| i@);
        let (ix, at1) = match read_instruction(b, p) {
            Some(x) => x,
            None => return None,
        };
        let ghost ixv = ix@;
        out.push(ix);
        proof {
            assert(out@.map_values(|i: ProposedInstruction| i@) =~= before.push(ixv));
            let rest = parse_instruction_list(b@.skip(at1 as int), (n - i - 1) as nat);
            match rest {
                Some((ms, r)) => {
                    assert(before + (seq![ixv] + ms) =~= before.push(ixv) + ms);
                },
                None => {},
            }
        }
        p = at1;
        i = i + 1;
    }
    assert(out@.map_values(|i: ProposedInstruction| i@) + Seq::<InstructionView>::empty()
        =~= out@.map_values(|i: ProposedInstruction| i@));
    Some((out, p))
}

/// A count followed by that many proposed instructions.
pub fn read_instructions(b: &[u8], pos: usize) -> (r: Option<(Vec<ProposedInstruction>, usize)>)
    requires
        pos <= b@.len(),
    ensures
        reads(
            b@,
            pos,
            match r {
                Some((v, q)) => Some((v@.map_values(|i: ProposedInstruction| i@), q)),
                None => None,
            },
            parse_instructions(b@.skip(pos as int)),
        ),
        r matches Some((v, _)) ==> v@.len() <= u32::MAX && forall|j: int|
            0 <= j < v@.len() ==> instruction_encodable(#[trigger] v@[j]@),
{
    let (n, at1) = match read_u32(b, pos) {
        Some(x) => x,
        None => return None,
    };
    read_instruction_list(b, at1, n)
}

pub fn read_config(b: &[u8], pos: usize) -> (r: Option<(ProposalConfig, usize)>)
    requires
        pos <= b@.len(),
    ensures
        reads(b@, pos, viewed(r), parse_config(b@.skip(pos as int))),
        r matches Some((c, _)) ==> config_encodable(c@),
{
    let (group, at1) = match read_key(b, pos) {
        Some(x) => x,
        None => return None,
    };
    let (instructions, at2) = match read_instructions(b, at1) {
        Some(x) => x,
        None => return None,
    };
    let (author, at3) = match read_key(b, at2) {
        Some(x) => x,
        None => return None,
    };
    let (salt, at4) = match read_u64(b, at3) {
        Some(x) => x,
        None => return None,
    };
    Some((ProposalConfig { group, instructions, author, salt }, at4))
}

pub fn read_proposal(b: &[u8], pos: usize) -> (r: Option<(ProposalData, usize)>)
    requires
        pos <= b@.len(),
    ensures
        reads(b@, pos, viewed(r), parse_proposal(b@.skip(pos as int))),
        r matches Some((p, _)) ==> config_encodable(p.config@),
{
    let (config, at1) = match read_config(b, pos) {
        Some(x) => x,
        None => return None,
    };
    let (members, at2) = match read_u64(b, at1) {
        Some(x) => x,
        None => return None,
    };
    let (current_weight, at3) = match read_u32(b, at2) {
        Some(x) => x,
        None => return None,
    };
    Some((ProposalData { config, state: ProposalState { members, current_weight } }, at3))
}

} // verus!
