//! Per-frame collision resolution: bouncing vehicles off track
//! boundaries, resolving checkpoint crossings with lap bookkeeping, and
//! switching layers at transition gates.
//!
//! The passes run in a fixed order over all vehicles: boundary bounce
//! first, so a reflected position cannot spuriously cross a gate it only
//! touched while out of bounds.

use vstd::prelude::*;
use vstd::pervasive::unreached;
use crate::builder::{Track, track_wf};
use crate::data::BoatData;
use crate::geom::{Segment, TAG_QUERY, Vec2i, lemma_clips_nondegenerate, mirror_spec};
use crate::index::seg_sqdist;
use crate::lap::{LapStat, TOP_MAX};

verus! {

/// The transient query segment of a vehicle: current position to
/// previous position.
pub open spec fn query_of(b: BoatData) -> Segment {
    Segment { aa: b.position_current, bb: b.position_previous, ii: TAG_QUERY }
}

/// `s` is an indexed segment at minimal key distance from the query.
pub open spec fn is_nearest(segs: Seq<Segment>, s: Segment, q: Segment) -> bool {
    &&& exists|j: int| 0 <= j < segs.len() && segs[j] == s
    &&& forall|j: int| 0 <= j < segs.len() ==> seg_sqdist(s, q) <= seg_sqdist(#[trigger] segs[j], q)
}

/// A vehicle the resolution passes accept: a valid layer and positions
/// within the supported coordinate range.
pub open spec fn boat_ok(b: BoatData) -> bool {
    &&& b.layer < 4
    &&& b.position_previous.in_range()
    &&& b.position_current.in_range()
}

/// The boat with both buffered positions replaced.
pub open spec fn with_positions(b: BoatData, prev: Vec2i, cur: Vec2i) -> BoatData {
    BoatData { position_previous: prev, position_current: cur, ..b }
}

/// One vehicle's boundary bounce: a nearest boundary segment is found;
/// if the vehicle strayed to its left side, both buffered positions are
/// reflected across it (kept unchanged if the reflection would leave the
/// supported coordinate range); otherwise nothing changes.
pub open spec fn bounce_rel(b0: BoatData, b1: BoatData, segs: Seq<Segment>) -> bool {
    let q = query_of(b0);
    exists|s: Segment|
        {
            &&& #[trigger] is_nearest(segs, s, q)
            &&& if s.clips_spec(q) && mirror_spec(s, b0.position_previous).in_range()
                && mirror_spec(s, b0.position_current).in_range() {
                b1 == with_positions(
                    b0,
                    mirror_spec(s, b0.position_previous),
                    mirror_spec(s, b0.position_current),
                )
            } else {
                b1 == b0
            }
        }
}

/// `s1` is `s0` with the latest observation stamped to `top`.
pub open spec fn stat_is_update_of(s1: LapStat, s0: LapStat, top: u64) -> bool {
    &&& s1.start() == s0.start()
    &&& s1.tops() == s0.tops()
    &&& s1.finish() == top
}

/// Crossing gate 0 completes the lap exactly when the lap was started
/// and every intermediate checkpoint was crossed.
pub open spec fn completes_lap(s: LapStat, tag: u8, count: u8) -> bool {
    tag == 0 && s.start() != TOP_MAX && s.crossed_all(count)
}

/// One vehicle's checkpoint step against the nearest checkpoint segment
/// `s`: the in-progress record is stamped with `top`; if the query
/// properly crosses `s`, the crossing is fed to the lap rule; on lap
/// completion the record is promoted to last lap, the best lap is
/// replaced exactly when the new lap is strictly faster (or no valid
/// best existed), the lap counter increments, and a fresh record starts
/// at `top`.
pub open spec fn checkpoint_step_rel(
    b0: BoatData,
    b1: BoatData,
    s: Segment,
    count: u8,
    top: u64,
) -> bool {
    let q = query_of(b0);
    let hit = s.intersects_spec(q);
    let fin = hit && completes_lap(b0.current_stat, s.ii, count);
    &&& b1.player == b0.player
    &&& b1.position_previous == b0.position_previous
    &&& b1.position_current == b0.position_current
    &&& b1.forward_current == b0.forward_current
    &&& b1.position_initial == b0.position_initial
    &&& b1.forward_initial == b0.forward_initial
    &&& b1.layer == b0.layer
    &&& if fin {
        &&& stat_is_update_of(b1.last_stat, b0.current_stat, top)
        &&& b1.lap_count == b0.lap_count + 1
        &&& b1.current_stat.start() == top
        &&& b1.current_stat.finish() == TOP_MAX
        &&& b1.current_stat.tops() == Map::<u8, u64>::empty()
        &&& if b0.best_stat.valid() && b0.best_stat.finish() - b0.best_stat.start() <= top
            - b0.current_stat.start() {
            b1.best_stat == b0.best_stat
        } else {
            stat_is_update_of(b1.best_stat, b0.current_stat, top)
        }
    } else {
        &&& b1.last_stat == b0.last_stat
        &&& b1.best_stat == b0.best_stat
        &&& b1.lap_count == b0.lap_count
        &&& b1.current_stat.finish() == top
        &&& b1.current_stat.start() == (if hit && s.ii == 0 && b0.current_stat.start() == TOP_MAX {
            top
        } else {
            b0.current_stat.start()
        })
        &&& b1.current_stat.tops() == (if hit && s.ii != 0 {
            b0.current_stat.tops().insert(s.ii, top)
        } else {
            b0.current_stat.tops()
        })
    }
}

/// One vehicle's checkpoint resolution: skipped entirely when the layer
/// has no checkpoint segments, otherwise a checkpoint step against a
/// nearest segment.
pub open spec fn checkpoint_rel(
    b0: BoatData,
    b1: BoatData,
    segs: Seq<Segment>,
    count: u8,
    top: u64,
) -> bool {
    if segs.len() == 0 {
        b1 == b0
    } else {
        exists|s: Segment|
            #[trigger] is_nearest(segs, s, query_of(b0)) && checkpoint_step_rel(
                b0,
                b1,
                s,
                count,
                top,
            )
    }
}

/// One vehicle's layer transition: skipped when the layer has no
/// transition segments; otherwise, if the query properly crosses a
/// nearest transition segment, the vehicle moves to the paired layer the
/// segment is tagged with.
pub open spec fn transition_rel(b0: BoatData, b1: BoatData, segs: Seq<Segment>) -> bool {
    if segs.len() == 0 {
        b1 == b0
    } else {
        exists|s: Segment|
            {
                &&& #[trigger] is_nearest(segs, s, query_of(b0))
                &&& if s.intersects_spec(query_of(b0)) {
                    b1 == (BoatData { layer: s.ii, ..b0 })
                } else {
                    b1 == b0
                }
            }
    }
}

/// The boundary segments of the layer a vehicle is on.
pub open spec fn boundary_segs_of(t: Track, b: BoatData) -> Seq<Segment> {
    t.layer_to_collisions@[b.layer as int].track_kdtree.segs()
}

/// The checkpoint segments of the layer a vehicle is on.
pub open spec fn checkpoint_segs_of(t: Track, b: BoatData) -> Seq<Segment> {
    t.layer_to_collisions@[b.layer as int].checkpoint_kdtree.segs()
}

/// The transition segments of the layer a vehicle is on.
pub open spec fn transition_segs_of(t: Track, b: BoatData) -> Seq<Segment> {
    t.layer_to_collisions@[b.layer as int].transition_kdtree.segs()
}

/// Bounces every vehicle off its layer's track boundary.
pub fn bounce_track_boundary(boats: &mut Vec<BoatData>, track: &Track)
    requires
        track_wf(*track),
        forall|i: int| 0 <= i < old(boats)@.len() ==> boat_ok(#[trigger] old(boats)@[i]),
        forall|i: int| 0 <= i < old(boats)@.len() ==> boundary_segs_of(
            *track,
            #[trigger] old(boats)@[i],
        ).len() > 0,
    ensures
        final(boats)@.len() == old(boats)@.len(),
        forall|i: int| 0 <= i < old(boats)@.len() ==> bounce_rel(
            #[trigger] old(boats)@[i],
            final(boats)@[i],
            boundary_segs_of(*track, old(boats)@[i]),
        ),
        forall|i: int| 0 <= i < old(boats)@.len() ==> boat_ok(#[trigger] final(boats)@[i]),
{
    let n = boats.len();
    let mut i: usize = 0;
    while i < n
        invariant
            track_wf(*track),
            n == boats@.len(),
            n == old(boats)@.len(),
            i <= n,
            forall|j: int| 0 <= j < n ==> boat_ok(#[trigger] old(boats)@[j]),
            forall|j: int| 0 <= j < n ==> boundary_segs_of(
                *track,
                #[trigger] old(boats)@[j],
            ).len() > 0,
            forall|j: int| i <= j < n ==> boats@[j] == old(boats)@[j],
            forall|j: int| 0 <= j < i ==> bounce_rel(
                #[trigger] old(boats)@[j],
                boats@[j],
                boundary_segs_of(*track, old(boats)@[j]),
            ),
            forall|j: int| 0 <= j < i ==> boat_ok(#[trigger] boats@[j]),
        decreases n - i,
    {
        let layer = boats[i].layer;
        let prev = boats[i].position_previous;
        let cur = boats[i].position_current;
        let q = Segment::from_endpoints(cur, prev);
        let coll = &track.layer_to_collisions[layer as usize];
        let ns: Segment = match coll.track_kdtree.nearest(&q) {
            Some(s) => s,
            None => unreached(),
        };
        proof {
            assert(is_nearest(boundary_segs_of(*track, old(boats)@[i as int]), ns, q));
        }
        if ns.clips(&q) {
            proof {
                lemma_clips_nondegenerate(ns, q);
            }
            let mp = ns.mirror(prev);
            let mc = ns.mirror(cur);
            if mp.is_in_range() && mc.is_in_range() {
                let boat = &mut boats[i];
                boat.position_previous = mp;
                boat.position_current = mc;
            }
        }
        proof {
            let b0 = old(boats)@[i as int];
            let segs = boundary_segs_of(*track, b0);
            assert(bounce_rel(b0, boats@[i as int], segs)) by {
                assert(is_nearest(segs, ns, query_of(b0)));
            }
        }
        i = i + 1;
    }
}

/// Stamps one vehicle's in-progress record and feeds the crossing of the
/// nearest checkpoint segment to the lap rule; on completion, promotes
/// the record and updates the best lap and the lap counter.
fn resolve_checkpoint_for_boat(boat: &mut BoatData, seg: &Segment, count: u8, top_now: u64)
    requires
        boat_ok(*old(boat)),
        seg.in_range(),
        top_now != TOP_MAX,
        old(boat).current_stat.start() != TOP_MAX ==> old(boat).current_stat.start() <= top_now,
        old(boat).lap_count < u32::MAX,
    ensures
        checkpoint_step_rel(*old(boat), *final(boat), *seg, count, top_now),
{
    boat.current_stat.update(top_now);
    let q = Segment::from_endpoints(boat.position_current, boat.position_previous);
    if seg.intersects(&q) && boat.current_stat.completed_lap(seg.ii, count, top_now) {
        boat.last_stat = boat.current_stat.duplicate();
        if !boat.best_stat.is_valid() {
            boat.best_stat = boat.current_stat.duplicate();
        } else if boat.current_stat.lap_duration() < boat.best_stat.lap_duration() {
            boat.best_stat = boat.current_stat.duplicate();
        }
        boat.lap_count = boat.lap_count + 1;
        boat.current_stat = LapStat::from(top_now);
    }
}

/// Resolves checkpoint crossings for every vehicle, maintaining each
/// vehicle's lap records against its layer's checkpoint segments.
pub fn resolve_checkpoints(boats: &mut Vec<BoatData>, track: &Track, top_now: u64)
    requires
        track_wf(*track),
        top_now != TOP_MAX,
        forall|i: int| 0 <= i < old(boats)@.len() ==> boat_ok(#[trigger] old(boats)@[i]),
        forall|i: int| 0 <= i < old(boats)@.len() ==> (#[trigger] old(
            boats,
        )@[i]).current_stat.start() != TOP_MAX ==> old(boats)@[i].current_stat.start() <= top_now,
        forall|i: int| 0 <= i < old(boats)@.len() ==> (#[trigger] old(boats)@[i]).lap_count
            < u32::MAX,
    ensures
        final(boats)@.len() == old(boats)@.len(),
        forall|i: int| 0 <= i < old(boats)@.len() ==> checkpoint_rel(
            #[trigger] old(boats)@[i],
            final(boats)@[i],
            checkpoint_segs_of(*track, old(boats)@[i]),
            track.checkpoint_count,
            top_now,
        ),
        forall|i: int| 0 <= i < old(boats)@.len() ==> boat_ok(#[trigger] final(boats)@[i]),
{
    let n = boats.len();
    let mut i: usize = 0;
    while i < n
        invariant
            track_wf(*track),
            top_now != TOP_MAX,
            n == boats@.len(),
            n == old(boats)@.len(),
            i <= n,
            forall|j: int| 0 <= j < n ==> boat_ok(#[trigger] old(boats)@[j]),
            forall|j: int| 0 <= j < n ==> (#[trigger] old(boats)@[j]).current_stat.start()
                != TOP_MAX ==> old(boats)@[j].current_stat.start() <= top_now,
            forall|j: int| 0 <= j < n ==> (#[trigger] old(boats)@[j]).lap_count < u32::MAX,
            forall|j: int| i <= j < n ==> boats@[j] == old(boats)@[j],
            forall|j: int| 0 <= j < i ==> checkpoint_rel(
                #[trigger] old(boats)@[j],
                boats@[j],
                checkpoint_segs_of(*track, old(boats)@[j]),
                track.checkpoint_count,
                top_now,
            ),
            forall|j: int| 0 <= j < i ==> boat_ok(#[trigger] boats@[j]),
        decreases n - i,
    {
        let layer = boats[i].layer;
        let prev = boats[i].position_previous;
        let cur = boats[i].position_current;
        let coll = &track.layer_to_collisions[layer as usize];
        if !coll.checkpoint_kdtree.is_empty() {
            let q = Segment::from_endpoints(cur, prev);
            let ns: Segment = match coll.checkpoint_kdtree.nearest(&q) {
                Some(s) => s,
                None => unreached(),
            };
            let boat = &mut boats[i];
            resolve_checkpoint_for_boat(boat, &ns, track.checkpoint_count, top_now);
            proof {
                let b0 = old(boats)@[i as int];
                let segs = checkpoint_segs_of(*track, b0);
                assert(checkpoint_rel(b0, boats@[i as int], segs, track.checkpoint_count, top_now))
                    by {
                    assert(is_nearest(segs, ns, query_of(b0)));
                }
            }
        }
        i = i + 1;
    }
}

/// Switches every vehicle that properly crosses a nearest transition
/// segment to that segment's paired layer.
pub fn resolve_layer_transitions(boats: &mut Vec<BoatData>, track: &Track)
    requires
        track_wf(*track),
        forall|i: int| 0 <= i < old(boats)@.len() ==> boat_ok(#[trigger] old(boats)@[i]),
    ensures
        final(boats)@.len() == old(boats)@.len(),
        forall|i: int| 0 <= i < old(boats)@.len() ==> transition_rel(
            #[trigger] old(boats)@[i],
            final(boats)@[i],
            transition_segs_of(*track, old(boats)@[i]),
        ),
        forall|i: int| 0 <= i < old(boats)@.len() ==> boat_ok(#[trigger] final(boats)@[i]),
{
    let n = boats.len();
    let mut i: usize = 0;
    while i < n
        invariant
            track_wf(*track),
            n == boats@.len(),
            n == old(boats)@.len(),
            i <= n,
            forall|j: int| 0 <= j < n ==> boat_ok(#[trigger] old(boats)@[j]),
            forall|j: int| i <= j < n ==> boats@[j] == old(boats)@[j],
            forall|j: int| 0 <= j < i ==> transition_rel(
                #[trigger] old(boats)@[j],
                boats@[j],
                transition_segs_of(*track, old(boats)@[j]),
            ),
            forall|j: int| 0 <= j < i ==> boat_ok(#[trigger] boats@[j]),
        decreases n - i,
    {
        let layer = boats[i].layer;
        let prev = boats[i].position_previous;
        let cur = boats[i].position_current;
        let coll = &track.layer_to_collisions[layer as usize];
        if !coll.transition_kdtree.is_empty() {
            let q = Segment::from_endpoints(cur, prev);
            let ns: Segment = match coll.transition_kdtree.nearest(&q) {
                Some(s) => s,
                None => unreached(),
            };
            if ns.intersects(&q) {
                let boat = &mut boats[i];
                boat.layer = ns.ii;
            }
            proof {
                let b0 = old(boats)@[i as int];
                let segs = transition_segs_of(*track, b0);
                assert(transition_rel(b0, boats@[i as int], segs)) by {
                    assert(is_nearest(segs, ns, query_of(b0)));
                }
            }
        }
        i = i + 1;
    }
}

/// Runs the three per-frame passes over all vehicles in their fixed
/// order: boundary bounce, then checkpoint resolution, then layer
/// transitions.
pub fn bounce_and_resolve_checkpoints(boats: &mut Vec<BoatData>, track: &Track, top_now: u64)
    requires
        track_wf(*track),
        track.is_looping,
        top_now != TOP_MAX,
        forall|i: int| 0 <= i < old(boats)@.len() ==> boat_ok(#[trigger] old(boats)@[i]),
        forall|i: int| 0 <= i < old(boats)@.len() ==> boundary_segs_of(
            *track,
            #[trigger] old(boats)@[i],
        ).len() > 0,
        forall|i: int| 0 <= i < old(boats)@.len() ==> (#[trigger] old(
            boats,
        )@[i]).current_stat.start() != TOP_MAX ==> old(boats)@[i].current_stat.start() <= top_now,
        forall|i: int| 0 <= i < old(boats)@.len() ==> (#[trigger] old(boats)@[i]).lap_count
            < u32::MAX,
    ensures
        final(boats)@.len() == old(boats)@.len(),
        forall|i: int| 0 <= i < old(boats)@.len() ==> boat_ok(#[trigger] final(boats)@[i]),
        exists|m1: Seq<BoatData>, m2: Seq<BoatData>|
            {
                &&& #[trigger] m1.len() == old(boats)@.len()
                &&& #[trigger] m2.len() == old(boats)@.len()
                &&& forall|i: int| 0 <= i < old(boats)@.len() ==> bounce_rel(
                    #[trigger] old(boats)@[i],
                    m1[i],
                    boundary_segs_of(*track, old(boats)@[i]),
                )
                &&& forall|i: int| 0 <= i < m1.len() ==> checkpoint_rel(
                    #[trigger] m1[i],
                    m2[i],
                    checkpoint_segs_of(*track, m1[i]),
                    track.checkpoint_count,
                    top_now,
                )
                &&& forall|i: int| 0 <= i < m2.len() ==> transition_rel(
                    #[trigger] m2[i],
                    final(boats)@[i],
                    transition_segs_of(*track, m2[i]),
                )
            },
{
    bounce_track_boundary(boats, track);
    proof {
        assert forall|i: int| 0 <= i < boats@.len() implies (
        #[trigger] boats@[i]).current_stat.start() != TOP_MAX ==> boats@[i].current_stat.start()
            <= top_now by {
            assert(bounce_rel(old(boats)@[i], boats@[i], boundary_segs_of(*track, old(boats)@[i])));
            assert(boats@[i].current_stat == old(boats)@[i].current_stat);
        }
        assert forall|i: int| 0 <= i < boats@.len() implies (#[trigger] boats@[i]).lap_count
            < u32::MAX by {
            assert(bounce_rel(old(boats)@[i], boats@[i], boundary_segs_of(*track, old(boats)@[i])));
            assert(boats@[i].lap_count == old(boats)@[i].lap_count);
        }
    }
    let ghost m1 = boats@;
    resolve_checkpoints(boats, track, top_now);
    let ghost m2 = boats@;
    resolve_layer_transitions(boats, track);
}

} // verus!
