//! The bit layout of an identifier, as integers.
use vstd::prelude::*;
use vstd::arithmetic::div_mod::lemma_fundamental_div_mod_converse;

verus! {

/// Milliseconds from `epoch` to `now` as unsigned wrapping subtraction gives
/// them: a reading before the epoch wraps around past `u64::MAX`.
pub open spec fn elapsed(epoch: u64, now: u64) -> int {
    if epoch <= now {
        now - epoch
    } else {
        now - epoch + 0x1_0000_0000_0000_0000
    }
}

/// The identifier with the low 41 bits of `elapsed` in bits 62..22, the low
/// 10 bits of `shard` in bits 21..12 and the low 12 bits of `sequence` in
/// bits 11..0.
pub open spec fn compose(elapsed: int, shard: int, sequence: int) -> int {
    (elapsed % 0x200_0000_0000) * 0x40_0000 + (shard % 0x400) * 0x1000 + sequence % 0x1000
}

/// The elapsed-milliseconds field of an identifier: bits 63..22.
pub open spec fn timestamp_field(id: u64) -> int {
    id as int / 0x40_0000
}

/// The shard field of an identifier: bits 21..12.
pub open spec fn shard_field(id: u64) -> int {
    (id as int / 0x1000) % 0x400
}

/// The sequence field of an identifier: bits 11..0.
pub open spec fn sequence_field(id: u64) -> int {
    id as int % 0x1000
}

/// Decoding a composed identifier gives back each field, reduced to its width.
pub proof fn lemma_fields_of_compose(elapsed: int, shard: int, sequence: int)
    ensures
        0 <= compose(elapsed, shard, sequence) < 0x8000_0000_0000_0000,
        timestamp_field(compose(elapsed, shard, sequence) as u64) == elapsed % 0x200_0000_0000,
        shard_field(compose(elapsed, shard, sequence) as u64) == shard % 0x400,
        sequence_field(compose(elapsed, shard, sequence) as u64) == sequence % 0x1000,
{
    let t = elapsed % 0x200_0000_0000;
    let s = shard % 0x400;
    let q = sequence % 0x1000;
    let id = compose(elapsed, shard, sequence);
    assert(id == t * 0x40_0000 + s * 0x1000 + q);
    lemma_fundamental_div_mod_converse(id, 0x40_0000, t, s * 0x1000 + q);
    lemma_fundamental_div_mod_converse(id, 0x1000, t * 0x400 + s, q);
    lemma_fundamental_div_mod_converse(t * 0x400 + s, 0x400, t, s);
}

/// Two composed identifiers are equal only where all three fields are.
pub proof fn lemma_compose_injective(e1: int, s1: int, q1: int, e2: int, s2: int, q2: int)
    requires
        compose(e1, s1, q1) == compose(e2, s2, q2),
    ensures
        e1 % 0x200_0000_0000 == e2 % 0x200_0000_0000,
        s1 % 0x400 == s2 % 0x400,
        q1 % 0x1000 == q2 % 0x1000,
{
    lemma_fields_of_compose(e1, s1, q1);
    lemma_fields_of_compose(e2, s2, q2);
}

proof fn lemma_pack_bits(elapsed: u64, shard: u64, sequence: u64)
    by (bit_vector)
    ensures
        ((elapsed & 0x1FF_FFFF_FFFF) << 22u64) | ((shard & 0x3FF) << 12u64) | (sequence & 0xFFF)
            == (elapsed % 0x200_0000_0000) * 0x40_0000 + (shard % 0x400) * 0x1000 + sequence
            % 0x1000,
{
}

/// Packs the three fields into one identifier, masking each to its width.
pub fn pack(elapsed: u64, shard: u16, sequence: u16) -> (id: u64)
    ensures
        id == compose(elapsed as int, shard as int, sequence as int),
{
    let id = ((elapsed & 0x1FF_FFFF_FFFF) << 22u64) | ((shard as u64 & 0x3FF) << 12u64) | (
    sequence as u64 & 0xFFF);
    proof {
        lemma_pack_bits(elapsed, shard as u64, sequence as u64);
    }
    id
}

} // verus!
