//! The identifier generator: one shard's clock-driven sequence counter.
use vstd::prelude::*;
use crate::clock::now_millis;
use crate::layout::{compose, elapsed, pack};

verus! {

/// The epoch used when none is configured, in milliseconds since the Unix
/// epoch (4 November 2010, 01:42:54.657 UTC).
pub const DEFAULT_EPOCH: u64 = 1288834974657;

/// A generator of unique, time-sortable identifiers for one shard.
///
/// Generation takes `&mut self`, so a generator is used by one caller at a
/// time: callers that share one must put it behind a lock, and concurrent
/// producers each hold their own generator with a distinct shard number.
///
/// A call opens a new slot only when the clock reads at least two
/// milliseconds past the slot's timestamp; a reading one millisecond past it
/// keeps counting in the current slot, and so does a reading from a clock
/// that went back, which is not detected. The counter is not bounded: past
/// 4095 calls in one slot its low 12 bits, which the identifier holds, wrap.
/// A shard number above 1023 and a reading before the epoch are not
/// rejected: the identifier holds their low bits.
#[derive(Debug, Hash, PartialEq, Eq)]
pub struct IdGenerator {
    /// Reference point of the timestamp field, in milliseconds since the Unix epoch.
    pub epoch: u64,
    /// The shard (machine) number; its low 10 bits go into each identifier.
    pub shard_id: u16,
    /// The counter of the current slot: the sequence number of the next call.
    pub sequence: u16,
    /// The clock reading, in milliseconds, at which the current slot opened.
    pub timestamp: u64,
}

impl IdGenerator {
    /// Whether a call at clock reading `now` opens a new slot.
    pub open spec fn opens_slot(&self, now: u64) -> bool {
        now > self.timestamp + 1
    }

    /// The sequence number that a call at clock reading `now` puts in its identifier.
    pub open spec fn sequence_at(&self, now: u64) -> u16 {
        if self.opens_slot(now) {
            0
        } else {
            self.sequence
        }
    }

    /// The identifier that a call at clock reading `now` returns.
    pub open spec fn id_at(&self, now: u64) -> u64 {
        compose(elapsed(self.epoch, now), self.shard_id as int, self.sequence_at(now) as int) as u64
    }

    /// The generator after a call at clock reading `now`.
    pub open spec fn after(&self, now: u64) -> IdGenerator {
        IdGenerator {
            epoch: self.epoch,
            shard_id: self.shard_id,
            sequence: ((self.sequence_at(now) + 1) % 0x1_0000) as u16,
            timestamp: if self.opens_slot(now) {
                now
            } else {
                self.timestamp
            },
        }
    }

    /// A generator for `shard_id` with the default epoch, whose first slot
    /// opens at the current time.
    pub fn new(shard_id: u16) -> (g: Self)
        ensures
            g.epoch == DEFAULT_EPOCH,
            g.shard_id == shard_id,
            g.sequence == 0,
    {
        let now = now_millis();
        IdGenerator { epoch: DEFAULT_EPOCH, shard_id, sequence: 0, timestamp: now as u64 }
    }

    /// The same generator with `epoch` in place of its epoch. It is not
    /// checked: an epoch after the clock readings wraps the timestamp field.
    pub fn with_epoch(self, epoch: u64) -> (g: Self)
        ensures
            g == (IdGenerator { epoch, ..self }),
    {
        let mut g = self;
        g.epoch = epoch;
        g
    }

    /// Issues the identifier for a call at clock reading `now` (milliseconds
    /// since the Unix epoch) and advances the generator.
    pub fn generate_id_at(&mut self, now: u64) -> (id: u64)
        ensures
            id == old(self).id_at(now),
            *final(self) == old(self).after(now),
    {
        if now > self.timestamp && now - self.timestamp > 1 {
            self.timestamp = now;
            self.sequence = 0;
        }
        let id = pack(now.wrapping_sub(self.epoch), self.shard_id, self.sequence);
        self.sequence = self.sequence.wrapping_add(1);
        proof {
            crate::layout::lemma_fields_of_compose(
                elapsed(old(self).epoch, now),
                old(self).shard_id as int,
                old(self).sequence_at(now) as int,
            );
        }
        id
    }

    /// Issues an identifier for the current time and advances the generator.
    pub fn generate_id(&mut self) -> (id: u64)
        ensures
            exists|now: u64| id == old(self).id_at(now) && *final(self) == old(self).after(now),
    {
        let now = now_millis();
        self.generate_id_at(now as u64)
    }
}

} // verus!
