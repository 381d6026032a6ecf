//! Per-vehicle state: identity, double-buffered position, heading,
//! current layer, and the lap timing records.

use vstd::prelude::*;
use crate::geom::Vec2i;
use crate::lap::{LapStat, TOP_MAX};

verus! {

/// Which player a vehicle belongs to.
#[derive(Clone, Copy, PartialEq, Eq, Structural, Debug)]
pub enum Player {
    One,
    Two,
    Three,
}

/// A vehicle's state: previous/current position (the integrator's double
/// buffer), heading, layer, and timing records.  The heading is kept as
/// a scaled direction vector.
pub struct BoatData {
    pub player: Player,
    pub position_initial: Vec2i,
    pub position_previous: Vec2i,
    pub position_current: Vec2i,
    pub forward_initial: Vec2i,
    pub forward_current: Vec2i,
    pub layer: u8,
    pub current_stat: LapStat,
    pub last_stat: LapStat,
    pub best_stat: LapStat,
    pub lap_count: u32,
}

/// A lap record that was never started: nothing recorded.
pub open spec fn stat_unstarted(s: LapStat) -> bool {
    &&& s.start() == TOP_MAX
    &&& s.finish() == TOP_MAX
    &&& s.tops() == Map::<u8, u64>::empty()
}

impl BoatData {
    /// A freshly spawned vehicle at the given pose.
    pub fn from_player_position_and_forward(player: Player, pos: Vec2i, fwd: Vec2i) -> (r: Self)
        ensures
            r.player == player,
            r.position_initial == pos,
            r.position_previous == pos,
            r.position_current == pos,
            r.forward_initial == fwd,
            r.forward_current == fwd,
            r.layer == 0,
            stat_unstarted(r.current_stat),
            stat_unstarted(r.last_stat),
            stat_unstarted(r.best_stat),
            r.lap_count == 0,
    {
        BoatData {
            player,
            position_initial: pos,
            position_previous: pos,
            position_current: pos,
            forward_initial: fwd,
            forward_current: fwd,
            layer: 0,
            current_stat: LapStat::invalid(),
            last_stat: LapStat::invalid(),
            best_stat: LapStat::invalid(),
            lap_count: 0,
        }
    }

    /// Returns the vehicle to its spawn pose and clears the in-progress
    /// record and the lap counter; the last and best records survive.
    pub fn reset(&mut self)
        ensures
            final(self).player == old(self).player,
            final(self).position_initial == old(self).position_initial,
            final(self).forward_initial == old(self).forward_initial,
            final(self).position_previous == old(self).position_initial,
            final(self).position_current == old(self).position_initial,
            final(self).forward_current == old(self).forward_initial,
            final(self).layer == 0,
            stat_unstarted(final(self).current_stat),
            final(self).last_stat == old(self).last_stat,
            final(self).best_stat == old(self).best_stat,
            final(self).lap_count == 0,
    {
        self.position_previous = self.position_initial;
        self.position_current = self.position_initial;
        self.forward_current = self.forward_initial;
        self.layer = 0;
        self.current_stat = LapStat::invalid();
        self.lap_count = 0;
    }
}

} // verus!
