//! Authored track pieces and the static validity rules the builder
//! enforces before interpreting them.
//!
//! Lengths, radii and lateral bounds are fixed-point coordinates (one
//! authoring unit is `UNIT`); angles are radians scaled by `ANGLE_ONE`;
//! a corner additionally carries the unit rotation of one subdivision
//! step as a `DIR_ONE`-scaled cosine/sine pair.

use vstd::prelude::*;
use crate::geom::Vec2i;
use crate::num::{ANGLE_ONE, COORD_MAX, DIR_ONE};

verus! {

/// One authoring unit in fixed-point coordinates.
pub const UNIT: i64 = 1_000_000;

/// Largest lateral bound magnitude a piece may author.
pub const BOUND_MAX: i64 = 50_000_000;

/// Largest centerline position magnitude the builder keeps; leaves room
/// for lateral offsets within `COORD_MAX`.
pub const POS_MAX: i64 = 400_000_000;

/// Largest forward-vector component the builder tolerates (rounding may
/// push a rotated unit vector slightly past `DIR_ONE`).
pub const FWD_MAX: i64 = 2_000_000;

/// Largest subdivision count of one piece.
pub const QUADS_MAX: u32 = 4096;

/// Largest lateral sample count of a cross-section.
pub const LAT_MAX: u32 = 256;

/// Largest piece count of a track.
pub const PIECES_MAX: usize = 1024;

/// Largest sweep angle of a corner, scaled by `ANGLE_ONE`.
pub const ANGLE_MAX: i64 = 10_000_000;

/// Largest cumulative path length a single piece can add.
pub const PIECE_LEN_MAX: i64 = 5_000_000_000;

/// Largest cumulative path length of a track.
pub const LEN_MAX: i64 = 5_120_000_000_000;

/// Tolerance on the squared norm of the initial forward vector, around
/// `DIR_ONE` squared.
pub const UNIT_NORM_EPS: i64 = 40_000_000_000;

/// Loop-closure tolerance on position coordinates.
pub const LOOP_EPS_POS: i64 = 1_000;

/// Loop-closure tolerance on forward-vector components.
pub const LOOP_EPS_DIR: i64 = 1_000;

/// Loop-closure tolerance on lateral bounds.
pub const LOOP_EPS_BOUND: i64 = 1_000;

/// A straight run: target lateral bounds, length, subdivision count.
#[derive(Clone, Copy, PartialEq, Eq, Structural, Debug)]
pub struct StraightData {
    pub left: i64,
    pub right: i64,
    pub length: i64,
    pub num_quads: u32,
}

impl StraightData {
    /// The stock straight: bounds one unit each side, two units long.
    pub fn default() -> (r: Self)
        ensures
            r.left == -UNIT,
            r.right == UNIT,
            r.length == 2 * UNIT,
            r.num_quads == 8,
    {
        StraightData { left: -UNIT, right: UNIT, length: 2 * UNIT, num_quads: 8 }
    }

    /// A straight of the given length with stock bounds; four quads per
    /// unit of length, at least one.
    pub fn from_length(length: i64) -> (r: Self)
        requires
            0 <= length <= COORD_MAX,
        ensures
            r.left == -UNIT,
            r.right == UNIT,
            r.length == length,
            r.num_quads == StraightData::quads_for(length),
    {
        StraightData {
            left: -UNIT,
            right: UNIT,
            length,
            num_quads: Self::quad_count(length),
        }
    }

    /// The subdivision count for a straight of the given length.
    pub open spec fn quads_for(length: i64) -> u32 {
        if 2 * length < UNIT {
            1u32
        } else {
            ((4 * length) / (UNIT as int)) as u32
        }
    }

    fn quad_count(length: i64) -> (r: u32)
        requires
            0 <= length <= COORD_MAX,
        ensures
            r == Self::quads_for(length),
    {
        if 2 * length < UNIT {
            1
        } else {
            ((4 * length) / UNIT) as u32
        }
    }

    /// A stock-size straight with the given target bounds.
    pub fn from_left_right(left: i64, right: i64) -> (r: Self)
        ensures
            r.left == left,
            r.right == right,
            r.length == 2 * UNIT,
            r.num_quads == 8,
    {
        StraightData { left, right, length: 2 * UNIT, num_quads: 8 }
    }

    /// A straight with the given target bounds and length.
    pub fn from_left_right_length(left: i64, right: i64, length: i64) -> (r: Self)
        requires
            0 <= length <= COORD_MAX,
        ensures
            r.left == left,
            r.right == right,
            r.length == length,
            r.num_quads == StraightData::quads_for(length),
    {
        StraightData { left, right, length, num_quads: Self::quad_count(length) }
    }
}

/// A circular arc: signed radius (positive turns right), sweep angle,
/// subdivision count, and the unit rotation of one subdivision step.
#[derive(Clone, Copy, PartialEq, Eq, Structural, Debug)]
pub struct CornerData {
    pub radius: i64,
    pub angle: i64,
    pub num_quads: u32,
    pub cos_step: i64,
    pub sin_step: i64,
}

/// Cosine of a 32nd of a quarter turn, scaled by `DIR_ONE`.
pub const COS_QUARTER_32: i64 = 998_795;

/// Sine of a 32nd of a quarter turn, scaled by `DIR_ONE`.
pub const SIN_QUARTER_32: i64 = 49_068;

/// A quarter turn, scaled by `ANGLE_ONE`.
pub const QUARTER_TURN: i64 = 1_570_796;

impl CornerData {
    /// The stock right turn: radius two units, a quarter turn, 32 quads.
    pub fn right_turn() -> (r: Self)
        ensures
            r.radius == 2 * UNIT,
            r.angle == QUARTER_TURN,
            r.num_quads == 32,
            r.cos_step == COS_QUARTER_32,
            r.sin_step == SIN_QUARTER_32,
    {
        CornerData {
            radius: 2 * UNIT,
            angle: QUARTER_TURN,
            num_quads: 32,
            cos_step: COS_QUARTER_32,
            sin_step: SIN_QUARTER_32,
        }
    }

    /// The stock left turn: negative radius, otherwise as `right_turn`.
    pub fn left_turn() -> (r: Self)
        ensures
            r.radius == -2 * UNIT,
            r.angle == QUARTER_TURN,
            r.num_quads == 32,
            r.cos_step == COS_QUARTER_32,
            r.sin_step == SIN_QUARTER_32,
    {
        CornerData {
            radius: -2 * UNIT,
            angle: QUARTER_TURN,
            num_quads: 32,
            cos_step: COS_QUARTER_32,
            sin_step: SIN_QUARTER_32,
        }
    }
}

/// One authored piece of track.
#[derive(Clone, Copy, PartialEq, Eq, Structural, Debug)]
pub enum TrackPiece {
    Start,
    Straight(StraightData),
    Corner(CornerData),
    Checkpoint,
    Layer(u8),
    Finish,
}

/// The authored input of one track: its pieces and the initial pose.
pub struct TrackData {
    pub pieces: Vec<TrackPiece>,
    pub initial_position: Vec2i,
    pub initial_forward: Vec2i,
    pub initial_left: i64,
    pub initial_right: i64,
    pub num_segments: u32,
}

/// The layer the cursor is on after the first `i` pieces: `Layer` pieces
/// switch it, everything else keeps it.
pub open spec fn layer_after(pieces: Seq<TrackPiece>, i: int) -> int
    decreases i,
{
    if i <= 0 {
        0
    } else {
        match pieces[i - 1] {
            TrackPiece::Layer(l) => l as int,
            _ => layer_after(pieces, i - 1),
        }
    }
}

/// Static validity of one piece, given the layer the cursor is on when
/// the piece is reached.
pub open spec fn piece_ok(p: TrackPiece, layer_before: int, i: int) -> bool {
    match p {
        TrackPiece::Start => i == 0,
        TrackPiece::Straight(s) => {
            &&& 0 < s.num_quads <= QUADS_MAX
            &&& 0 < s.length <= COORD_MAX
            &&& -BOUND_MAX <= s.left < s.right <= BOUND_MAX
        },
        TrackPiece::Corner(c) => {
            &&& 0 < c.num_quads <= QUADS_MAX
            &&& -COORD_MAX <= c.radius <= COORD_MAX
            &&& 0 < c.angle <= ANGLE_MAX
            &&& -DIR_ONE <= c.cos_step <= DIR_ONE
            &&& -DIR_ONE <= c.sin_step <= DIR_ONE
        },
        TrackPiece::Checkpoint => true,
        TrackPiece::Layer(l) => l < 4 && l != layer_before,
        TrackPiece::Finish => true,
    }
}

/// Cross-sections one piece emits.
pub open spec fn piece_sections(p: TrackPiece) -> int {
    match p {
        TrackPiece::Start => 1,
        TrackPiece::Straight(s) => s.num_quads as int,
        TrackPiece::Corner(c) => c.num_quads as int,
        _ => 0,
    }
}

/// Cross-sections the first `i` pieces emit.
pub open spec fn sections_up_to(pieces: Seq<TrackPiece>, i: int) -> int
    decreases i,
{
    if i <= 0 {
        0
    } else {
        sections_up_to(pieces, i - 1) + piece_sections(pieces[i - 1])
    }
}

/// Indexed checkpoint segments one piece emits (`Start` takes index 0).
pub open spec fn piece_checkpoints(p: TrackPiece) -> int {
    match p {
        TrackPiece::Start => 1,
        TrackPiece::Checkpoint => 1,
        _ => 0,
    }
}

/// Indexed checkpoint segments the first `i` pieces emit.
pub open spec fn checkpoints_up_to(pieces: Seq<TrackPiece>, i: int) -> int
    decreases i,
{
    if i <= 0 {
        0
    } else {
        checkpoints_up_to(pieces, i - 1) + piece_checkpoints(pieces[i - 1])
    }
}

/// Checkpoint gate quads the first `i` pieces emit (one per explicit
/// `Checkpoint` piece).
pub open spec fn gates_up_to(pieces: Seq<TrackPiece>, i: int) -> int
    decreases i,
{
    if i <= 0 {
        0
    } else {
        gates_up_to(pieces, i - 1) + match pieces[i - 1] {
            TrackPiece::Checkpoint => 1int,
            _ => 0int,
        }
    }
}

/// Static validity of a whole authored track.
pub open spec fn track_data_ok(d: TrackData) -> bool {
    &&& 2 <= d.pieces@.len() <= PIECES_MAX
    &&& d.pieces@[0] is Start
    &&& d.pieces@[d.pieces@.len() - 1] is Finish
    &&& forall|i: int| 0 <= i < d.pieces@.len() ==> piece_ok(
        #[trigger] d.pieces@[i],
        layer_after(d.pieces@, i),
        i,
    )
    &&& checkpoints_up_to(d.pieces@, d.pieces@.len() as int) <= 255
    &&& 0 < d.num_segments <= LAT_MAX
    &&& -POS_MAX <= d.initial_position.x <= POS_MAX
    &&& -POS_MAX <= d.initial_position.y <= POS_MAX
    &&& unit_norm_ok(d.initial_forward)
    &&& -BOUND_MAX <= d.initial_left < d.initial_right <= BOUND_MAX
}

/// The vector's squared norm is `DIR_ONE` squared within tolerance: the
/// fixed-point rendering of "unit length within epsilon".
pub open spec fn unit_norm_ok(f: Vec2i) -> bool {
    &&& -DIR_ONE <= f.x <= DIR_ONE
    &&& -DIR_ONE <= f.y <= DIR_ONE
    &&& DIR_ONE * DIR_ONE - UNIT_NORM_EPS <= f.x * f.x + f.y * f.y <= DIR_ONE * DIR_ONE
        + UNIT_NORM_EPS
}

} // verus!
