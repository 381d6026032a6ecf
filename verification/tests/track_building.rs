use aquatrack::builder::{mix_bound, prepare_track, TrackError};
use aquatrack::geom::Vec2i;
use aquatrack::num::DIR_ONE;
use aquatrack::piece::{CornerData, StraightData, TrackData, TrackPiece, POS_MAX, UNIT};

fn straight_track() -> TrackData {
    TrackData {
        pieces: vec![
            TrackPiece::Start,
            TrackPiece::Straight(StraightData::from_length(10 * UNIT)),
            TrackPiece::Finish,
        ],
        initial_position: Vec2i::new(0, 0),
        initial_forward: Vec2i::new(DIR_ONE, 0),
        initial_left: -UNIT,
        initial_right: UNIT,
        num_segments: 4,
    }
}

fn circle_track() -> TrackData {
    TrackData {
        pieces: vec![
            TrackPiece::Start,
            TrackPiece::Corner(CornerData::right_turn()),
            TrackPiece::Corner(CornerData::right_turn()),
            TrackPiece::Corner(CornerData::right_turn()),
            TrackPiece::Corner(CornerData::right_turn()),
            TrackPiece::Finish,
        ],
        initial_position: Vec2i::new(0, 0),
        initial_forward: Vec2i::new(DIR_ONE, 0),
        initial_left: -UNIT,
        initial_right: UNIT,
        num_segments: 4,
    }
}

#[test]
fn straight_constructor_quads() {
    let s = StraightData::from_length(10 * UNIT);
    assert_eq!(s.num_quads, 40);
    assert_eq!(s.length, 10 * UNIT);
    let tiny = StraightData::from_length(UNIT / 4);
    assert_eq!(tiny.num_quads, 1);
    let d = StraightData::default();
    assert_eq!((d.left, d.right, d.length, d.num_quads), (-UNIT, UNIT, 2 * UNIT, 8));
}

#[test]
fn corner_constructors_mirror_each_other() {
    let r = CornerData::right_turn();
    let l = CornerData::left_turn();
    assert_eq!(r.radius, -l.radius);
    assert_eq!(r.angle, l.angle);
    assert_eq!(r.num_quads, 32);
}

#[test]
fn straight_track_counts_and_length() {
    let t = prepare_track(&straight_track()).unwrap();
    // 1 section from Start plus one per quad of the straight.
    assert_eq!(t.track.positions.len(), 41 * 5);
    assert_eq!(t.track.uvs.len(), 41 * 5);
    assert_eq!(t.track.pqs.len(), 41 * 5);
    assert_eq!(t.track.triangles.len(), 40 * 4 * 6);
    assert_eq!(t.track.triangles.len() % 3, 0);
    assert_eq!(t.total_length, 10 * UNIT);
    assert_eq!(t.checkpoint_count, 1);
    // The end pose sits ten units past the start, far outside the
    // closure tolerance, so the track does not loop.
    assert!(!t.is_looping);
}

#[test]
fn checkpoint_piece_emits_gate_and_index() {
    let mut d = straight_track();
    d.pieces.insert(2, TrackPiece::Checkpoint);
    let t = prepare_track(&d).unwrap();
    assert_eq!(t.checkpoint_count, 2);
    assert_eq!(t.checkpoint.positions.len(), 4);
    assert_eq!(t.checkpoint.triangles.len(), 6);
    assert_eq!(t.checkpoint.triangles.len() % 3, 0);
}

#[test]
fn closed_circle_loops() {
    let t = prepare_track(&circle_track()).unwrap();
    assert!(t.is_looping);
    // Four quarter turns of radius two units.
    assert_eq!(t.total_length, 4 * ((2 * UNIT) * 1_570_796 / 1_000_000));
}

#[test]
fn circle_with_extra_straight_does_not_loop() {
    let mut d = circle_track();
    // An extra hundredth of a unit, well past the closure tolerance.
    d.pieces.insert(5, TrackPiece::Straight(StraightData::from_length(UNIT / 100)));
    let t = prepare_track(&d).unwrap();
    assert!(!t.is_looping);
}

#[test]
fn rejects_track_without_leading_start() {
    let mut d = straight_track();
    d.pieces.remove(0);
    assert!(matches!(prepare_track(&d), Err(TrackError::BadData)));
}

#[test]
fn rejects_short_piece_list() {
    let mut d = straight_track();
    d.pieces = vec![TrackPiece::Start];
    assert!(matches!(prepare_track(&d), Err(TrackError::BadData)));
}

#[test]
fn rejects_inverted_bounds() {
    let mut d = straight_track();
    d.initial_left = UNIT;
    d.initial_right = -UNIT;
    assert!(matches!(prepare_track(&d), Err(TrackError::BadData)));
}

#[test]
fn rejects_non_unit_forward() {
    let mut d = straight_track();
    d.initial_forward = Vec2i::new(DIR_ONE / 2, 0);
    assert!(matches!(prepare_track(&d), Err(TrackError::BadData)));
}

#[test]
fn refuses_geometry_leaving_the_supported_range() {
    let mut d = straight_track();
    d.initial_position = Vec2i::new(POS_MAX, 0);
    assert!(matches!(prepare_track(&d), Err(TrackError::OutOfRange)));
}

#[test]
fn unchanged_bounds_blend_exactly() {
    for k in 1..=8u32 {
        assert_eq!(mix_bound(5_000, 5_000, k, 8), 5_000);
        assert_eq!(mix_bound(-777, -777, k, 8), -777);
    }
    // Smoothstep midpoint blends halfway, endpoints land exactly.
    assert_eq!(mix_bound(0, 1_000, 4, 8), 500);
    assert_eq!(mix_bound(0, 1_000, 8, 8), 1_000);
}

#[test]
fn uv_channel_carries_cumulative_length() {
    let t = prepare_track(&straight_track()).unwrap();
    // Last cross-section's uv y coordinate is the total length.
    assert_eq!(t.track.uvs.last().unwrap().y, 10 * UNIT);
    assert_eq!(t.track.uvs[0].y, 0);
    // The uv x coordinate blends the lateral bounds: the first sample of
    // a section sits at the left bound, the last at the right bound.
    assert_eq!(t.track.uvs[0].x, -UNIT);
    assert_eq!(t.track.uvs[4].x, UNIT);
}

#[test]
fn pq_channel_projects_into_the_initial_frame() {
    let t = prepare_track(&straight_track()).unwrap();
    // With the stock eastward pose the projection swaps the axes: pq x
    // is the lateral offset, pq y the distance along the track.
    assert_eq!(t.track.pqs[0], Vec2i::new(-UNIT, 0));
    let last = *t.track.pqs.last().unwrap();
    assert_eq!(last, Vec2i::new(UNIT, 10 * UNIT));
}
