//! Per-lap timing records: start/finish timestamps and per-checkpoint
//! split timestamps, with the lap-completion rule.
//!
//! Timestamps ("tops") are integer ticks since session start.  The value
//! `TOP_MAX` is a sentinel meaning "not recorded yet".

use vstd::prelude::*;
use std::collections::HashMap;

verus! {

broadcast use vstd::std_specs::hash::group_hash_axioms;

/// Sentinel timestamp: this instant was never recorded.
pub const TOP_MAX: u64 = u64::MAX;

/// Timing record for one lap: when it started, when each intermediate
/// checkpoint was crossed, and when it finished.
pub struct LapStat {
    top_start: u64,
    checkpoint_to_tops: HashMap<u8, u64>,
    top_finish: u64,
}

impl LapStat {
    /// Timestamp at which the lap started, `TOP_MAX` if it has not.
    pub closed spec fn start(&self) -> u64 {
        self.top_start
    }

    /// Timestamp at which the lap finished, `TOP_MAX` if it has not.
    pub closed spec fn finish(&self) -> u64 {
        self.top_finish
    }

    /// The recorded checkpoint crossings: checkpoint index to timestamp.
    pub closed spec fn tops(&self) -> Map<u8, u64> {
        self.checkpoint_to_tops@
    }

    /// A record is valid when both ends were recorded, in order.
    pub open spec fn valid(&self) -> bool {
        &&& self.start() != TOP_MAX
        &&& self.finish() != TOP_MAX
        &&& self.start() <= self.finish()
    }

    /// A lap that was never started.
    pub fn invalid() -> (r: Self)
        ensures
            r.start() == TOP_MAX,
            r.finish() == TOP_MAX,
            r.tops() == Map::<u8, u64>::empty(),
    {
        Self { top_start: TOP_MAX, checkpoint_to_tops: HashMap::new(), top_finish: TOP_MAX }
    }

    /// A lap started at `top`, with nothing else recorded yet.
    pub fn from(top: u64) -> (r: Self)
        ensures
            r.start() == top,
            r.finish() == TOP_MAX,
            r.tops() == Map::<u8, u64>::empty(),
    {
        Self { top_start: top, checkpoint_to_tops: HashMap::new(), top_finish: TOP_MAX }
    }

    /// An identical copy of the record.
    pub fn duplicate(&self) -> (r: Self)
        ensures
            r.start() == self.start(),
            r.finish() == self.finish(),
            r.tops() == self.tops(),
    {
        Self {
            top_start: self.top_start,
            checkpoint_to_tops: self.checkpoint_to_tops.clone(),
            top_finish: self.top_finish,
        }
    }

    /// Records `top` as the latest instant at which the lap was observed.
    pub fn update(&mut self, top: u64)
        ensures
            final(self).start() == old(self).start(),
            final(self).tops() == old(self).tops(),
            final(self).finish() == top,
    {
        self.top_finish = top;
    }

    /// All intermediate checkpoints `1..checkpoint_count` have a recorded crossing.
    pub open spec fn crossed_all(&self, checkpoint_count: u8) -> bool {
        forall|k: u8| 1 <= k < checkpoint_count ==> self.tops().contains_key(k)
    }

    /// Feeds one checkpoint crossing to the record and reports whether it
    /// completes the lap.
    ///
    /// Crossing the start gate, which carries checkpoint index zero,
    /// begins the lap when none is running; once a lap runs, a further
    /// gate crossing completes it exactly when every intermediate
    /// checkpoint was crossed.  Crossing any other checkpoint records
    /// its timestamp and never completes the lap.
    pub fn completed_lap(&mut self, checkpoint: u8, checkpoint_count: u8, top: u64) -> (r: bool)
        ensures
            checkpoint == 0 && old(self).start() == TOP_MAX ==> {
                &&& final(self).start() == top
                &&& final(self).finish() == old(self).finish()
                &&& final(self).tops() == old(self).tops()
                &&& r == false
            },
            checkpoint == 0 && old(self).start() != TOP_MAX ==> {
                &&& *final(self) == *old(self)
                &&& r == old(self).crossed_all(checkpoint_count)
            },
            checkpoint != 0 ==> {
                &&& final(self).start() == old(self).start()
                &&& final(self).finish() == old(self).finish()
                &&& final(self).tops() == old(self).tops().insert(checkpoint, top)
                &&& r == false
            },
    {
        if checkpoint == 0 {
            if self.top_start == TOP_MAX {
                self.top_start = top;
                false
            } else {
                let mut crossed_all = true;
                let mut kk: u8 = 1;
                while kk < checkpoint_count
                    invariant
                        *self == *old(self),
                        1 <= kk,
                        checkpoint_count > 1 ==> kk <= checkpoint_count,
                        checkpoint_count <= 1 ==> kk == 1,
                        crossed_all == forall|j: u8| 1 <= j < kk ==> self.tops().contains_key(j),
                    decreases checkpoint_count - kk,
                {
                    let ghost was_all = crossed_all;
                    let has_kk = self.checkpoint_to_tops.contains_key(&kk);
                    crossed_all = crossed_all && has_kk;
                    proof {
                        if was_all && has_kk {
                            assert forall|j: u8| 1 <= j < kk + 1 implies self.tops().contains_key(
                                j,
                            ) by {
                                if j < kk {
                                    assert(self.tops().contains_key(j));
                                }
                            }
                        } else {
                            if !was_all {
                                let j = choose|j: u8|
                                    1 <= j < kk && !self.tops().contains_key(j);
                                assert(1 <= j < kk + 1 && !self.tops().contains_key(j));
                            } else {
                                assert(1 <= kk < kk + 1 && !self.tops().contains_key(kk));
                            }
                        }
                    }
                    kk = kk + 1;
                }
                proof {
                    if crossed_all {
                        assert forall|k: u8| 1 <= k < checkpoint_count implies
                            self.tops().contains_key(k) by {
                            assert(k < kk && self.tops().contains_key(k));
                        }
                        assert(self.crossed_all(checkpoint_count));
                    } else {
                        let j = choose|j: u8| 1 <= j < kk && !self.tops().contains_key(j);
                        assert(1 <= j < checkpoint_count && !self.tops().contains_key(j));
                        assert(!self.crossed_all(checkpoint_count));
                    }
                }
                crossed_all
            }
        } else {
            self.checkpoint_to_tops.insert(checkpoint, top);
            false
        }
    }

    /// The timestamp the lap started at, `TOP_MAX` when it has not
    /// started; lets a host check a clock against the record.
    pub fn start_top(&self) -> (r: u64)
        ensures
            r == self.start(),
    {
        self.top_start
    }

    /// Whether the record describes a finished, well-ordered lap.
    pub fn is_valid(&self) -> (r: bool)
        ensures
            r == self.valid(),
    {
        if self.top_start == TOP_MAX {
            return false;
        }
        if self.top_finish == TOP_MAX {
            return false;
        }
        if self.top_start > self.top_finish {
            return false;
        }
        true
    }

    /// Duration of the lap, finish minus start.
    pub fn lap_duration(&self) -> (r: u64)
        requires
            self.valid(),
        ensures
            r == self.finish() - self.start(),
    {
        self.top_finish - self.top_start
    }

    /// Time from the lap's start to the crossing of checkpoint `kk`,
    /// `None` when the lap has not started or `kk` was not crossed.
    pub fn checkpoint_duration(&self, kk: u8) -> (r: Option<u64>)
        requires
            self.start() == TOP_MAX ==> self.tops() == Map::<u8, u64>::empty(),
            self.tops().contains_key(kk) ==> self.tops()[kk] >= self.start(),
        ensures
            r == if self.start() == TOP_MAX {
                Option::<u64>::None
            } else if self.tops().contains_key(kk) {
                Option::<u64>::Some((self.tops()[kk] - self.start()) as u64)
            } else {
                Option::<u64>::None
            },
    {
        if self.top_start == TOP_MAX {
            return None;
        }
        match self.checkpoint_to_tops.get(&kk) {
            Some(checkpoint_top) => Some(*checkpoint_top - self.top_start),
            None => None,
        }
    }
}

} // verus!
