//! Counts the ticks of the last second.

use vstd::prelude::*;
use std::collections::VecDeque;
use std::time::Duration;
use std::time::Instant;
use crate::clock::{instant_now, time_between, whole_nanos};

verus! {

/// The length of the window in which ticks are counted, in nanoseconds.
pub const WINDOW_NANOS: u128 = 1_000_000_000;

/// Whether a tick that was recorded at `stamp` is more than a second old at
/// `now`.
pub open spec fn stale(stamp: u128, now: u128) -> bool {
    now - stamp > WINDOW_NANOS
}

/// What is left of the recorded ticks, oldest first, when the stale ones at
/// the front are dropped: the list from its first tick on that is not stale.
pub open spec fn expire(stamps: Seq<u128>, now: u128) -> Seq<u128>
    decreases stamps.len(),
{
    if stamps.len() > 0 && stale(stamps[0], now) {
        expire(stamps.subrange(1, stamps.len() as int), now)
    } else {
        stamps
    }
}

/// The recorded ticks after a tick at `now`.
pub open spec fn ticked(stamps: Seq<u128>, now: u128) -> Seq<u128> {
    expire(stamps.push(now), now)
}

/// What `expire` keeps is the end of the list; every tick before it is stale,
/// and the first that is kept is not.
pub proof fn lemma_expire(stamps: Seq<u128>, now: u128)
    ensures
        expire(stamps, now).len() <= stamps.len(),
        expire(stamps, now) == stamps.subrange(
            stamps.len() - expire(stamps, now).len(),
            stamps.len() as int,
        ),
        forall|k: int|
            0 <= k < stamps.len() - expire(stamps, now).len() ==> stale(#[trigger] stamps[k], now),
        expire(stamps, now).len() > 0 ==> !stale(expire(stamps, now)[0], now),
    decreases stamps.len(),
{
    if stamps.len() > 0 && stale(stamps[0], now) {
        let rest = stamps.subrange(1, stamps.len() as int);
        lemma_expire(rest, now);
        let kept = expire(rest, now);
        assert(kept =~= stamps.subrange(stamps.len() - kept.len(), stamps.len() as int));
        assert forall|k: int|
            0 <= k < stamps.len() - kept.len() implies stale(#[trigger] stamps[k], now) by {
            if k > 0 {
                assert(stamps[k] == rest[k - 1]);
            }
        }
    } else {
        assert(stamps =~= stamps.subrange(0, stamps.len() as int));
    }
}

/// Whether the ticks were recorded in the order of time.
pub open spec fn in_order(stamps: Seq<u128>) -> bool {
    forall|i: int, j: int| 0 <= i <= j < stamps.len() ==> stamps[i] <= stamps[j]
}

/// Of ticks that were recorded in the order of time, `expire` keeps those of
/// the last second and no others: no tick that it keeps is stale.
pub proof fn lemma_expire_in_order(stamps: Seq<u128>, now: u128)
    requires
        in_order(stamps),
    ensures
        in_order(expire(stamps, now)),
        forall|k: int| 0 <= k < expire(stamps, now).len() ==> !stale(#[trigger] expire(stamps, now)[k], now),
{
    lemma_expire(stamps, now);
    let kept = expire(stamps, now);
    let dropped = stamps.len() - kept.len();
    assert forall|k: int| 0 <= k < kept.len() implies !stale(#[trigger] kept[k], now) by {
        assert(kept[k] == stamps[dropped + k]);
        assert(kept[0] == stamps[dropped + 0]);
    }
    assert forall|i: int, j: int| 0 <= i <= j < kept.len() implies kept[i] <= kept[j] by {
        assert(kept[i] == stamps[dropped + i]);
        assert(kept[j] == stamps[dropped + j]);
    }
}

/// The times of the ticks of the last second.
pub struct TickCounter {
    origin: Instant,
    timestamps: VecDeque<u128>,
}

impl View for TickCounter {
    type V = Seq<u128>;

    /// The recorded ticks, oldest first, in nanoseconds since the counter was
    /// made.
    closed spec fn view(&self) -> Seq<u128> {
        self.timestamps@
    }
}

impl TickCounter {
    /// A counter without ticks, whose time begins at the present moment.
    pub fn new() -> (counter: Self)
        ensures
            counter@ == Seq::<u128>::empty(),
    {
        TickCounter { origin: instant_now(), timestamps: VecDeque::new() }
    }

    /// Records a tick at the present moment and drops the ticks that are more
    /// than a second old.
    pub fn tick(&mut self)
        ensures
            exists|now: u128| final(self)@ == ticked(old(self)@, now),
    {
        let now: Instant = instant_now();
        let age: Duration = time_between(&now, &self.origin);
        self.tick_at(whole_nanos(&age));
    }

    /// Records a tick at `now`, in nanoseconds since the counter was made, and
    /// drops the ticks that are more than a second old.
    pub fn tick_at(&mut self, now: u128)
        ensures
            final(self)@ == ticked(old(self)@, now),
    {
        self.timestamps.push_back(now);
        self.cleanup(now);
    }

    /// The number of recorded ticks.
    pub fn count_last_second(&self) -> (count: usize)
        ensures
            count == self@.len(),
    {
        self.timestamps.len()
    }

    /// Drops, from the oldest on, the ticks that are more than a second old at
    /// `now`, up to the first that is not.
    pub fn cleanup(&mut self, now: u128)
        ensures
            final(self)@ == expire(old(self)@, now),
    {
        while self.timestamps.len() > 0 && now > self.timestamps[0] && now - self.timestamps[0]
            > WINDOW_NANOS
            invariant
                expire(self@, now) == expire(old(self)@, now),
            decreases self.timestamps.len(),
        {
            proof {
                assert(self@.subrange(1, self@.len() as int) =~= self@.drop_first());
            }
            self.timestamps.pop_front();
        }
    }
}

} // verus!
