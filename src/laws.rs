//! What holds of a run of calls on one generator.
use vstd::prelude::*;
use vstd::arithmetic::div_mod::{
    lemma_fundamental_div_mod,
    lemma_fundamental_div_mod_converse,
    lemma_small_mod,
};
use crate::generator::IdGenerator;
use crate::layout::{
    compose,
    elapsed,
    lemma_compose_injective,
    lemma_fields_of_compose,
    sequence_field,
    shard_field,
    timestamp_field,
};

verus! {

/// The generator after `g` has served one call at each of the first `k`
/// readings of `nows`, in order.
pub open spec fn state_before(g: IdGenerator, nows: Seq<u64>, k: nat) -> IdGenerator
    decreases k,
{
    if k == 0 {
        g
    } else {
        state_before(g, nows, (k - 1) as nat).after(nows[k - 1])
    }
}

/// The identifier that call `k` of the run returns.
pub open spec fn issued(g: IdGenerator, nows: Seq<u64>, k: int) -> u64 {
    state_before(g, nows, k as nat).id_at(nows[k])
}

/// The sequence counter that call `k` of the run uses.
pub open spec fn counter(g: IdGenerator, nows: Seq<u64>, k: int) -> u16 {
    state_before(g, nows, k as nat).sequence_at(nows[k])
}

/// The readings never go down.
pub open spec fn non_decreasing(nows: Seq<u64>) -> bool {
    forall|i: int, j: int| 0 <= i <= j < nows.len() ==> nows[i] <= nows[j]
}

/// After a call at `now`, a later call at the same reading opens no slot.
proof fn lemma_no_reopen(g: IdGenerator, now: u64)
    ensures
        !g.after(now).opens_slot(now),
{
}

/// Calls at one repeated reading count up from the first of them.
proof fn lemma_same_reading(g: IdGenerator, nows: Seq<u64>, i: int, j: int)
    requires
        0 <= i <= j < nows.len(),
        forall|k: int| i <= k <= j ==> nows[k] == nows[i],
    ensures
        counter(g, nows, j) as int == (counter(g, nows, i) + (j - i)) % 0x1_0000,
    decreases j - i,
{
    if j == i {
        assert(counter(g, nows, i) < 0x1_0000);
    } else {
        let prev = j - 1;
        lemma_same_reading(g, nows, i, prev);
        lemma_no_reopen(state_before(g, nows, prev as nat), nows[prev]);
        assert(counter(g, nows, j) as int == (counter(g, nows, prev) + 1) % 0x1_0000);
        let c = counter(g, nows, i) + (prev - i);
        lemma_fundamental_div_mod(c, 0x1_0000);
        lemma_fundamental_div_mod(c + 1, 0x1_0000);
        lemma_fundamental_div_mod(c % 0x1_0000 + 1, 0x1_0000);
    }
}

/// A call's identifier, decoded, gives back its reading less the epoch (as
/// long as the reading is no earlier than the epoch and less than 2^41 ms
/// after it), the low 10 bits of the shard number, which is the shard
/// number itself where it is below 1024, and the low 12 bits of the
/// sequence counter that the call used.
pub proof fn lemma_fields_round_trip(g: IdGenerator, now: u64)
    requires
        g.epoch <= now,
        now - g.epoch < 0x200_0000_0000,
    ensures
        timestamp_field(g.id_at(now)) + g.epoch == now,
        shard_field(g.id_at(now)) == g.shard_id % 0x400,
        g.shard_id < 0x400 ==> shard_field(g.id_at(now)) == g.shard_id,
        sequence_field(g.id_at(now)) == g.sequence_at(now) % 0x1000,
        g.sequence_at(now) < 0x1000 ==> sequence_field(g.id_at(now)) == g.sequence_at(now),
{
    lemma_fields_of_compose(elapsed(g.epoch, now), g.shard_id as int, g.sequence_at(now) as int);
}

/// A call at a reading two or more milliseconds after the previous one,
/// with a clock that did not go back, uses sequence number 0, and the call
/// after it, at a reading at most one millisecond later, uses 1.
pub proof fn lemma_new_slot_restarts_sequence(g: IdGenerator, first: u64, second: u64, third: u64)
    requires
        g.timestamp <= first,
        first + 2 <= second,
        third <= second + 1,
    ensures
        sequence_field(g.after(first).id_at(second)) == 0,
        sequence_field(g.after(first).after(second).id_at(third)) == 1,
{
    let h = g.after(first);
    assert(h.opens_slot(second));
    lemma_fields_of_compose(elapsed(h.epoch, second), h.shard_id as int, 0);
    let k = h.after(second);
    assert(k.sequence_at(third) == 1);
    lemma_fields_of_compose(elapsed(k.epoch, third), k.shard_id as int, 1);
}

/// Every call of a run keeps the generator's epoch and shard number.
proof fn lemma_configuration_kept(g: IdGenerator, nows: Seq<u64>, k: nat)
    ensures
        state_before(g, nows, k as nat).epoch == g.epoch,
        state_before(g, nows, k as nat).shard_id == g.shard_id,
    decreases k,
{
    if k > 0 {
        lemma_configuration_kept(g, nows, (k - 1) as nat);
    }
}

/// Two readings that lie less than 2^41 ms apart give distinct timestamp fields.
proof fn lemma_distinct_readings(epoch: u64, a: u64, b: u64)
    requires
        a < b,
        b - a < 0x200_0000_0000,
    ensures
        elapsed(epoch, a) % 0x200_0000_0000 != elapsed(epoch, b) % 0x200_0000_0000,
{
    lemma_fundamental_div_mod(elapsed(epoch, a), 0x200_0000_0000);
    lemma_fundamental_div_mod(elapsed(epoch, b), 0x200_0000_0000);
}

/// Counter values less than 4096 apart differ in their low 12 bits.
proof fn lemma_distinct_counters(c: int, d: int)
    requires
        0 <= c,
        0 < d < 0x1000,
    ensures
        ((c + d) % 0x1_0000) % 0x1000 != c % 0x1000,
{
    let r = (c + d) % 0x1_0000;
    lemma_fundamental_div_mod(c + d, 0x1_0000);
    lemma_fundamental_div_mod(r, 0x1000);
    lemma_fundamental_div_mod_converse(c + d, 0x1000, 16 * ((c + d) / 0x1_0000) + r / 0x1000, r % 0x1000);
    lemma_fundamental_div_mod(c, 0x1000);
}

proof fn lemma_distinct_pair(g: IdGenerator, nows: Seq<u64>, i: int, j: int)
    requires
        0 <= i < j < nows.len(),
        non_decreasing(nows),
        nows[j] - nows[i] < 0x200_0000_0000,
        nows[i] == nows[j] ==> j - i < 0x1000,
    ensures
        issued(g, nows, i) != issued(g, nows, j),
{
    let a = state_before(g, nows, i as nat);
    let b = state_before(g, nows, j as nat);
    let (ni, nj) = (nows[i], nows[j]);
    lemma_configuration_kept(g, nows, i as nat);
    lemma_configuration_kept(g, nows, j as nat);
    lemma_fields_of_compose(elapsed(g.epoch, ni), g.shard_id as int, a.sequence_at(ni) as int);
    lemma_fields_of_compose(elapsed(g.epoch, nj), g.shard_id as int, b.sequence_at(nj) as int);
    if issued(g, nows, i) == issued(g, nows, j) {
        lemma_compose_injective(
            elapsed(g.epoch, ni),
            g.shard_id as int,
            a.sequence_at(ni) as int,
            elapsed(g.epoch, nj),
            g.shard_id as int,
            b.sequence_at(nj) as int,
        );
        if ni == nj {
            assert forall|k: int| i <= k <= j implies nows[k] == ni by {
                assert(nows[i] <= nows[k] <= nows[j]);
            }
            lemma_same_reading(g, nows, i, j);
            lemma_distinct_counters(counter(g, nows, i) as int, j - i);
        } else {
            lemma_distinct_readings(g.epoch, ni, nj);
        }
    }
}

/// On a clock that does not go back, over readings that span less than
/// 2^41 ms, a run in which no reading is shared by more than 4096 calls
/// issues pairwise distinct identifiers.
pub proof fn lemma_unique(g: IdGenerator, nows: Seq<u64>)
    requires
        non_decreasing(nows),
        forall|i: int, j: int| 0 <= i <= j < nows.len() ==> nows[j] - nows[i] < 0x200_0000_0000,
        forall|i: int, j: int|
            0 <= i < j < nows.len() && nows[i] == nows[j] ==> j - i < 0x1000,
    ensures
        forall|i: int, j: int|
            0 <= i < j < nows.len() ==> issued(g, nows, i) != issued(g, nows, j),
{
    assert forall|i: int, j: int| 0 <= i < j < nows.len() implies issued(g, nows, i)
        != issued(g, nows, j) by {
        lemma_distinct_pair(g, nows, i, j);
    }
}

/// Call `k + 1` of a run issues a greater identifier than call `k`, where
/// both readings lie in the epoch's 2^41 ms window and neither call's
/// counter passes 4095.
proof fn lemma_next_greater(g: IdGenerator, nows: Seq<u64>, k: int)
    requires
        0 <= k,
        k + 1 < nows.len(),
        nows[k] <= nows[k + 1],
        forall|m: int|
            k <= m <= k + 1 ==> g.epoch <= nows[m] && nows[m] - g.epoch < 0x200_0000_0000,
        counter(g, nows, k) < 0x1000,
        counter(g, nows, k + 1) < 0x1000,
    ensures
        issued(g, nows, k) < issued(g, nows, k + 1),
{
    let a = state_before(g, nows, k as nat);
    let b = state_before(g, nows, (k + 1) as nat);
    let (n0, n1) = (nows[k], nows[k + 1]);
    let (e0, e1) = ((n0 - g.epoch) as nat, (n1 - g.epoch) as nat);
    let (c0, c1) = (counter(g, nows, k) as nat, counter(g, nows, k + 1) as nat);
    lemma_configuration_kept(g, nows, k as nat);
    lemma_configuration_kept(g, nows, (k + 1) as nat);
    lemma_small_mod(e0, 0x200_0000_0000);
    lemma_small_mod(e1, 0x200_0000_0000);
    lemma_small_mod(c0, 0x1000);
    lemma_small_mod(c1, 0x1000);
    lemma_fields_of_compose(e0 as int, g.shard_id as int, c0 as int);
    lemma_fields_of_compose(e1 as int, g.shard_id as int, c1 as int);
    lemma_fundamental_div_mod(g.shard_id as int, 0x400);
    if n0 == n1 {
        lemma_no_reopen(a, n0);
        lemma_small_mod(c0 + 1, 0x1_0000);
        assert(c1 == c0 + 1);
    }
}

/// Calls `i < j` of a run satisfying the conditions of `lemma_increasing`
/// issue increasing identifiers.
proof fn lemma_increasing_pair(g: IdGenerator, nows: Seq<u64>, i: int, j: int)
    requires
        0 <= i < j < nows.len(),
        non_decreasing(nows),
        forall|k: int|
            0 <= k < nows.len() ==> g.epoch <= nows[k] && nows[k] - g.epoch < 0x200_0000_0000,
        forall|k: int| 0 <= k < nows.len() ==> counter(g, nows, k) < 0x1000,
    ensures
        issued(g, nows, i) < issued(g, nows, j),
    decreases j - i,
{
    let prev = j - 1;
    assert(counter(g, nows, prev) < 0x1000);
    assert(counter(g, nows, j) < 0x1000);
    lemma_next_greater(g, nows, prev);
    if i < prev {
        lemma_increasing_pair(g, nows, i, prev);
    }
}

/// On a clock that does not go back, with every reading at or after the
/// epoch and less than 2^41 ms after it, a run in which no call's sequence
/// counter passes 4095 issues strictly increasing identifiers.
pub proof fn lemma_increasing(g: IdGenerator, nows: Seq<u64>)
    requires
        non_decreasing(nows),
        forall|k: int|
            0 <= k < nows.len() ==> g.epoch <= nows[k] && nows[k] - g.epoch < 0x200_0000_0000,
        forall|k: int| 0 <= k < nows.len() ==> counter(g, nows, k) < 0x1000,
    ensures
        forall|i: int, j: int|
            0 <= i < j < nows.len() ==> issued(g, nows, i) < issued(g, nows, j),
{
    assert forall|i: int, j: int| 0 <= i < j < nows.len() implies issued(g, nows, i)
        < issued(g, nows, j) by {
        lemma_increasing_pair(g, nows, i, j);
    }
}

/// Two successive calls issue distinct identifiers whatever the clock does
/// between them, as long as a later second reading lies less than 2^41 ms
/// after the first.
pub proof fn lemma_successive_distinct(g: IdGenerator, first: u64, second: u64)
    requires
        first < second ==> second - first < 0x200_0000_0000,
    ensures
        g.id_at(first) != g.after(first).id_at(second),
{
    let h = g.after(first);
    let (q0, q1) = (g.sequence_at(first) as int, h.sequence_at(second) as int);
    lemma_fields_of_compose(elapsed(g.epoch, first), g.shard_id as int, q0);
    lemma_fields_of_compose(elapsed(g.epoch, second), g.shard_id as int, q1);
    if g.id_at(first) == h.id_at(second) {
        lemma_compose_injective(
            elapsed(g.epoch, first),
            g.shard_id as int,
            q0,
            elapsed(g.epoch, second),
            g.shard_id as int,
            q1,
        );
        if h.opens_slot(second) {
            lemma_distinct_readings(g.epoch, first, second);
        } else {
            lemma_distinct_counters(q0, 1);
        }
    }
}

} // verus!
