use aquatrack::builder::prepare_track;
use aquatrack::collision::{
    bounce_and_resolve_checkpoints, bounce_track_boundary, resolve_checkpoints,
    resolve_layer_transitions,
};
use aquatrack::data::{BoatData, Player};
use aquatrack::geom::Vec2i;
use aquatrack::lap::LapStat;
use aquatrack::num::DIR_ONE;
use aquatrack::piece::{CornerData, StraightData, TrackData, TrackPiece, UNIT};

const SEC: u64 = 1_000_000;

fn straight_track() -> TrackData {
    TrackData {
        pieces: vec![
            TrackPiece::Start,
            TrackPiece::Straight(StraightData::from_length(10 * UNIT)),
            TrackPiece::Finish,
        ],
        initial_position: Vec2i::new(0, 0),
        initial_forward: Vec2i::new(DIR_ONE, 0),
        initial_left: -UNIT,
        initial_right: UNIT,
        num_segments: 4,
    }
}

fn boat_at(prev: Vec2i, cur: Vec2i) -> BoatData {
    let mut b = BoatData::from_player_position_and_forward(
        Player::One,
        Vec2i::new(0, 0),
        Vec2i::new(DIR_ONE, 0),
    );
    b.position_previous = prev;
    b.position_current = cur;
    b
}

#[test]
fn boat_inside_track_is_not_bounced() {
    let t = prepare_track(&straight_track()).unwrap();
    let mut boats = vec![boat_at(Vec2i::new(4_900_000, 0), Vec2i::new(5_000_000, 0))];
    bounce_track_boundary(&mut boats, &t);
    assert_eq!(boats[0].position_current, Vec2i::new(5_000_000, 0));
    assert_eq!(boats[0].position_previous, Vec2i::new(4_900_000, 0));
}

#[test]
fn boat_past_left_edge_is_reflected_back() {
    let t = prepare_track(&straight_track()).unwrap();
    // The left boundary runs along y == -UNIT; the boat strayed half a
    // unit past it.
    let mut boats = vec![
        boat_at(Vec2i::new(4_900_000, -1_500_000), Vec2i::new(5_000_000, -1_500_000)),
    ];
    bounce_track_boundary(&mut boats, &t);
    assert_eq!(boats[0].position_current, Vec2i::new(5_000_000, -500_000));
    assert_eq!(boats[0].position_previous, Vec2i::new(4_900_000, -500_000));
}

#[test]
fn gate_crossings_drive_lap_records() {
    let t = prepare_track(&straight_track()).unwrap();
    // Give the boat an existing best lap of ten seconds.
    let mut boat = boat_at(Vec2i::new(-100_000, 0), Vec2i::new(100_000, 0));
    let mut best = LapStat::from(0);
    best.update(10 * SEC);
    boat.best_stat = best;
    let mut boats = vec![boat];

    // First gate crossing starts the lap.
    resolve_checkpoints(&mut boats, &t, 0);
    assert_eq!(boats[0].lap_count, 0);

    // Second crossing after nine and a half seconds completes it, and
    // beats the ten second best.
    boats[0].position_previous = Vec2i::new(100_000, 0);
    boats[0].position_current = Vec2i::new(-100_000, 0);
    resolve_checkpoints(&mut boats, &t, 9_500_000);
    assert_eq!(boats[0].lap_count, 1);
    assert!(boats[0].last_stat.is_valid());
    assert_eq!(boats[0].last_stat.lap_duration(), 9_500_000);
    assert_eq!(boats[0].best_stat.lap_duration(), 9_500_000);

    // A slower lap keeps the best.
    boats[0].position_previous = Vec2i::new(-100_000, 0);
    boats[0].position_current = Vec2i::new(100_000, 0);
    resolve_checkpoints(&mut boats, &t, 20 * SEC);
    assert_eq!(boats[0].lap_count, 2);
    assert_eq!(boats[0].last_stat.lap_duration(), 10_500_000);
    assert_eq!(boats[0].best_stat.lap_duration(), 9_500_000);

    // An exactly equal lap also keeps the existing best.
    boats[0].position_previous = Vec2i::new(100_000, 0);
    boats[0].position_current = Vec2i::new(-100_000, 0);
    resolve_checkpoints(&mut boats, &t, 29_500_000);
    assert_eq!(boats[0].lap_count, 3);
    assert_eq!(boats[0].last_stat.lap_duration(), 9_500_000);
    assert_eq!(boats[0].best_stat.lap_duration(), 9_500_000);
}

#[test]
fn boat_not_crossing_the_gate_keeps_its_records() {
    let t = prepare_track(&straight_track()).unwrap();
    let mut boats = vec![boat_at(Vec2i::new(4_000_000, 0), Vec2i::new(4_100_000, 0))];
    resolve_checkpoints(&mut boats, &t, 5 * SEC);
    assert_eq!(boats[0].lap_count, 0);
    assert!(!boats[0].current_stat.is_valid());
}

fn layered_track() -> TrackData {
    TrackData {
        pieces: vec![
            TrackPiece::Start,
            TrackPiece::Straight(StraightData::from_length(5 * UNIT)),
            TrackPiece::Layer(1),
            TrackPiece::Straight(StraightData::from_length(5 * UNIT)),
            TrackPiece::Finish,
        ],
        initial_position: Vec2i::new(0, 0),
        initial_forward: Vec2i::new(DIR_ONE, 0),
        initial_left: -UNIT,
        initial_right: UNIT,
        num_segments: 4,
    }
}

#[test]
fn crossing_a_transition_switches_the_layer() {
    let t = prepare_track(&layered_track()).unwrap();
    let mut boats = vec![boat_at(Vec2i::new(4_900_000, 0), Vec2i::new(5_100_000, 0))];
    assert_eq!(boats[0].layer, 0);
    resolve_layer_transitions(&mut boats, &t);
    assert_eq!(boats[0].layer, 1);
    // Crossing back returns to the source layer.
    boats[0].position_previous = Vec2i::new(5_100_000, 0);
    boats[0].position_current = Vec2i::new(4_900_000, 0);
    resolve_layer_transitions(&mut boats, &t);
    assert_eq!(boats[0].layer, 0);
}

#[test]
fn missing_the_transition_keeps_the_layer() {
    let t = prepare_track(&layered_track()).unwrap();
    let mut boats = vec![boat_at(Vec2i::new(1_000_000, 0), Vec2i::new(1_200_000, 0))];
    resolve_layer_transitions(&mut boats, &t);
    assert_eq!(boats[0].layer, 0);
}

#[test]
fn full_frame_on_a_looping_track() {
    let d = TrackData {
        pieces: vec![
            TrackPiece::Start,
            TrackPiece::Corner(CornerData::right_turn()),
            TrackPiece::Corner(CornerData::right_turn()),
            TrackPiece::Corner(CornerData::right_turn()),
            TrackPiece::Corner(CornerData::right_turn()),
            TrackPiece::Finish,
        ],
        initial_position: Vec2i::new(0, 0),
        initial_forward: Vec2i::new(DIR_ONE, 0),
        initial_left: -UNIT,
        initial_right: UNIT,
        num_segments: 4,
    };
    let t = prepare_track(&d).unwrap();
    assert!(t.is_looping);
    let mut boats = vec![boat_at(Vec2i::new(-100_000, 0), Vec2i::new(100_000, 0))];
    bounce_and_resolve_checkpoints(&mut boats, &t, SEC);
    // The crossing started the lap; nothing completed yet.
    assert_eq!(boats[0].lap_count, 0);
    assert_eq!(boats[0].layer, 0);
}

#[test]
fn reset_restores_spawn_pose_and_clears_lap_state() {
    let mut b = BoatData::from_player_position_and_forward(
        Player::Two,
        Vec2i::new(7, 8),
        Vec2i::new(0, DIR_ONE),
    );
    b.position_current = Vec2i::new(100, 100);
    b.layer = 2;
    b.lap_count = 5;
    let mut last = LapStat::from(0);
    last.update(SEC);
    b.last_stat = last;
    b.reset();
    assert_eq!(b.position_current, Vec2i::new(7, 8));
    assert_eq!(b.position_previous, Vec2i::new(7, 8));
    assert_eq!(b.forward_current, Vec2i::new(0, DIR_ONE));
    assert_eq!(b.layer, 0);
    assert_eq!(b.lap_count, 0);
    assert!(!b.current_stat.is_valid());
    assert!(b.last_stat.is_valid());
}
