//! The track builder: interprets the authored piece sequence into a
//! renderable mesh, per-layer collision segment sets, total path length
//! and a loop-closure flag.
//!
//! The mathematical model is the `Cursor` recurrence below: every
//! coordinate the builder computes is a fixed-point formula over the
//! cursor, and `prepare_track`'s contract ties the built track to it.

use vstd::prelude::*;
use vstd::math::abs;
use crate::geom::{Segment, Vec2i};
use crate::index::{SegTree, sq};
use crate::num::{
    ANGLE_ONE, COORD_MAX, DIR_ONE, lemma_mul_bound, lemma_tdiv_bound, lemma_tdiv_exact, tdiv,
    tdiv128,
};
use crate::piece::{
    ANGLE_MAX, BOUND_MAX, CornerData, FWD_MAX, LAT_MAX, LEN_MAX, LOOP_EPS_BOUND, LOOP_EPS_DIR,
    LOOP_EPS_POS, PIECE_LEN_MAX, PIECES_MAX, POS_MAX, QUADS_MAX, StraightData, TrackData,
    TrackPiece, checkpoints_up_to, gates_up_to, layer_after, piece_ok, piece_sections,
    sections_up_to, track_data_ok, UNIT_NORM_EPS, unit_norm_ok,
};

verus! {

/// `DIR_ONE` squared: the divisor that scales a product of two
/// direction-scaled factors back down.
pub const DIR_SQ: i64 = 1_000_000_000_000;

/// The builder's running cursor: centerline position, forward direction,
/// lateral bounds, accumulated length, current layer.
pub struct Cursor {
    pub px: int,
    pub py: int,
    pub fx: int,
    pub fy: int,
    pub left: int,
    pub right: int,
    pub length: int,
    pub layer: int,
}

/// The cursor a build starts from.
pub open spec fn start_cursor(d: TrackData) -> Cursor {
    Cursor {
        px: d.initial_position.x as int,
        py: d.initial_position.y as int,
        fx: d.initial_forward.x as int,
        fy: d.initial_forward.y as int,
        left: d.initial_left as int,
        right: d.initial_right as int,
        length: 0,
        layer: 0,
    }
}

/// Cosine part of the accumulated subdivision rotation of a corner after
/// `k` steps, scaled by `DIR_ONE`.
pub open spec fn rot_c(c: CornerData, k: int) -> int
    decreases k,
{
    if k <= 0 {
        DIR_ONE as int
    } else {
        tdiv(rot_c(c, k - 1) * c.cos_step - rot_s(c, k - 1) * c.sin_step, DIR_ONE as int)
    }
}

/// Sine part of the accumulated subdivision rotation; see `rot_c`.
pub open spec fn rot_s(c: CornerData, k: int) -> int
    decreases k,
{
    if k <= 0 {
        0
    } else {
        tdiv(rot_c(c, k - 1) * c.sin_step + rot_s(c, k - 1) * c.cos_step, DIR_ONE as int)
    }
}

/// x coordinate on a corner's arc: center plus the rotated radial offset.
pub open spec fn cpos_x(px: int, fx: int, fy: int, radius: int, ck: int, sk: int) -> int {
    px + tdiv(-fy * radius, DIR_ONE as int) + tdiv(fx * abs(radius) * sk, DIR_SQ as int) - tdiv(
        -fy * radius * ck,
        DIR_SQ as int,
    )
}

/// y coordinate on a corner's arc; see `cpos_x`.
pub open spec fn cpos_y(py: int, fx: int, fy: int, radius: int, ck: int, sk: int) -> int {
    py + tdiv(fx * radius, DIR_ONE as int) + tdiv(fy * abs(radius) * sk, DIR_SQ as int) - tdiv(
        fx * radius * ck,
        DIR_SQ as int,
    )
}

/// Which way a corner's sweep rotates the forward vector.
pub open spec fn corner_sign(radius: int) -> int {
    if radius < 0 {
        1
    } else {
        -1
    }
}

/// x component of the forward vector rotated by the accumulated sweep.
pub open spec fn cfwd_x(fx: int, fy: int, sign: int, ck: int, sk: int) -> int {
    tdiv(fx * ck + sign * (fy * sk), DIR_ONE as int)
}

/// y component of the rotated forward vector; see `cfwd_x`.
pub open spec fn cfwd_y(fx: int, fy: int, sign: int, ck: int, sk: int) -> int {
    tdiv(-sign * (fx * sk) + fy * ck, DIR_ONE as int)
}

/// Path length a corner adds: radius magnitude times sweep angle.
pub open spec fn corner_length(c: CornerData) -> int {
    tdiv(abs(c.radius as int) * c.angle, ANGLE_ONE as int)
}

/// The cursor after interpreting one piece.
pub open spec fn piece_step(cur: Cursor, p: TrackPiece) -> Cursor {
    match p {
        TrackPiece::Start => cur,
        TrackPiece::Checkpoint => cur,
        TrackPiece::Finish => cur,
        TrackPiece::Layer(l) => Cursor { layer: l as int, ..cur },
        TrackPiece::Straight(s) => Cursor {
            px: cur.px + tdiv(cur.fx * s.length, DIR_ONE as int),
            py: cur.py + tdiv(cur.fy * s.length, DIR_ONE as int),
            left: s.left as int,
            right: s.right as int,
            length: cur.length + s.length,
            ..cur
        },
        TrackPiece::Corner(c) => {
            let n = c.num_quads as int;
            Cursor {
                px: cpos_x(cur.px, cur.fx, cur.fy, c.radius as int, rot_c(c, n), rot_s(c, n)),
                py: cpos_y(cur.py, cur.fx, cur.fy, c.radius as int, rot_c(c, n), rot_s(c, n)),
                fx: cfwd_x(cur.fx, cur.fy, corner_sign(c.radius as int), rot_c(c, n), rot_s(c, n)),
                fy: cfwd_y(cur.fx, cur.fy, corner_sign(c.radius as int), rot_c(c, n), rot_s(c, n)),
                length: cur.length + corner_length(c),
                ..cur
            }
        },
    }
}

/// The cursor after the first `i` pieces.
pub open spec fn cursor_after(d: TrackData, i: int) -> Cursor
    decreases i,
{
    if i <= 0 {
        start_cursor(d)
    } else {
        piece_step(cursor_after(d, i - 1), d.pieces@[i - 1])
    }
}

/// Loop closure as evaluated at a `Finish` piece: the cursor pose is
/// within tolerance of the start pose, some length was accumulated, and
/// the cursor is back on layer 0.
pub open spec fn finish_closed(d: TrackData, cur: Cursor) -> bool {
    let c0 = start_cursor(d);
    &&& sq(cur.px - c0.px) + sq(cur.py - c0.py) < LOOP_EPS_POS * LOOP_EPS_POS
    &&& sq(cur.fx - c0.fx) + sq(cur.fy - c0.fy) < LOOP_EPS_DIR * LOOP_EPS_DIR
    &&& abs(cur.left - c0.left) < LOOP_EPS_BOUND
    &&& abs(cur.right - c0.right) < LOOP_EPS_BOUND
    &&& cur.length > 0
    &&& cur.layer == 0
}

/// The loop flag after the first `i` pieces: each `Finish` piece
/// re-evaluates it against the cursor it was reached with.
pub open spec fn looping_after(d: TrackData, i: int) -> bool
    decreases i,
{
    if i <= 0 {
        false
    } else {
        match d.pieces@[i - 1] {
            TrackPiece::Finish => finish_closed(d, cursor_after(d, i - 1)),
            _ => looping_after(d, i - 1),
        }
    }
}

/// Loop closure of the whole track: the flag after the final piece.
pub open spec fn loop_closed(d: TrackData) -> bool {
    looping_after(d, d.pieces@.len() as int)
}

/// Step `k` of a straight keeps the advanced position within the
/// position range.
pub open spec fn straight_step_ok(cur: Cursor, s: StraightData, k: int) -> bool {
    let lk = tdiv(k * s.length, s.num_quads as int);
    let nx = cur.px + tdiv(cur.fx * lk, DIR_ONE as int);
    let ny = cur.py + tdiv(cur.fy * lk, DIR_ONE as int);
    &&& -POS_MAX <= nx <= POS_MAX
    &&& -POS_MAX <= ny <= POS_MAX
}

/// Step `k` of a corner keeps the accumulated rotation within unit
/// scale, the arc position within the position range, and the rotated
/// forward vector within the forward range.
pub open spec fn corner_step_ok(cur: Cursor, c: CornerData, k: int) -> bool {
    let ck = rot_c(c, k);
    let sk = rot_s(c, k);
    let sign = corner_sign(c.radius as int);
    &&& -DIR_ONE <= ck <= DIR_ONE
    &&& -DIR_ONE <= sk <= DIR_ONE
    &&& -POS_MAX <= cpos_x(cur.px, cur.fx, cur.fy, c.radius as int, ck, sk) <= POS_MAX
    &&& -POS_MAX <= cpos_y(cur.py, cur.fx, cur.fy, c.radius as int, ck, sk) <= POS_MAX
    &&& -FWD_MAX <= cfwd_x(cur.fx, cur.fy, sign, ck, sk) <= FWD_MAX
    &&& -FWD_MAX <= cfwd_y(cur.fx, cur.fy, sign, ck, sk) <= FWD_MAX
}

/// Every subdivision step of one piece stays within the supported
/// ranges, starting from the given cursor.
pub open spec fn piece_range_ok(cur: Cursor, p: TrackPiece) -> bool {
    match p {
        TrackPiece::Straight(s) => forall|k: int| 1 <= k <= s.num_quads ==> #[trigger]
            straight_step_ok(cur, s, k),
        TrackPiece::Corner(c) => forall|k: int| 1 <= k <= c.num_quads ==> #[trigger] corner_step_ok(
            cur,
            c,
            k,
        ),
        _ => true,
    }
}

/// The whole build's geometry stays within the supported coordinate
/// ranges.
pub open spec fn range_ok(d: TrackData) -> bool {
    forall|i: int| 0 <= i < d.pieces@.len() ==> #[trigger] piece_range_ok(
        cursor_after(d, i),
        d.pieces@[i],
    )
}

/// A point offset laterally from the centerline: position plus the
/// forward direction's right-hand perpendicular scaled by `off`.
fn lat_point(pos: Vec2i, fwd: Vec2i, off: i64) -> (r: Vec2i)
    requires
        -POS_MAX <= pos.x <= POS_MAX,
        -POS_MAX <= pos.y <= POS_MAX,
        -FWD_MAX <= fwd.x <= FWD_MAX,
        -FWD_MAX <= fwd.y <= FWD_MAX,
        -BOUND_MAX <= off <= BOUND_MAX,
    ensures
        r.x == pos.x + tdiv(-fwd.y * off, DIR_ONE as int),
        r.y == pos.y + tdiv(fwd.x * off, DIR_ONE as int),
        r.in_range(),
{
    proof {
        lemma_mul_bound(-fwd.y as int, off as int, FWD_MAX as int, BOUND_MAX as int);
        lemma_mul_bound(fwd.x as int, off as int, FWD_MAX as int, BOUND_MAX as int);
    }
    let nx: i128 = -(fwd.y as i128) * (off as i128);
    let ny: i128 = (fwd.x as i128) * (off as i128);
    proof {
        lemma_tdiv_bound(nx as int, DIR_ONE as int, 2 * BOUND_MAX);
        lemma_tdiv_bound(ny as int, DIR_ONE as int, 2 * BOUND_MAX);
    }
    let qx = tdiv128(nx, DIR_ONE as i128);
    let qy = tdiv128(ny, DIR_ONE as i128);
    Vec2i { x: pos.x + qx as i64, y: pos.y + qy as i64 }
}

/// Smoothstep numerator at step `k` of `n`: `3 k^2 n - 2 k^3`, the blend
/// factor scaled by `n^3`.
pub open spec fn blend_num(k: int, n: int) -> int {
    3 * (k * k * n) - 2 * (k * k * k)
}

/// The smoothstep blend at step `k` mixes `cur` toward `target`:
/// `(cur * (n^3 - b) + target * b) / n^3` with `b = blend_num(k, n)`.
pub open spec fn mix_spec(cur: int, target: int, k: int, n: int) -> int {
    tdiv(cur * (n * n * n - blend_num(k, n)) + target * blend_num(k, n), n * n * n)
}

/// The smoothstep numerator stays within `[0, n^3]`, and is positive from
/// the first step on.
proof fn lemma_blend_range(k: int, n: int)
    requires
        1 <= k <= n,
    ensures
        0 < blend_num(k, n) <= n * n * n,
{
    assert(blend_num(k, n) == k * k * (3 * n - 2 * k)) by (nonlinear_arith);
    assert(k * k * (3 * n - 2 * k) > 0) by (nonlinear_arith)
        requires
            1 <= k <= n,
    ;
    assert(n * n * n - blend_num(k, n) == (n - k) * (n - k) * (n + 2 * k)) by (nonlinear_arith);
    assert((n - k) * (n - k) * (n + 2 * k) >= 0) by (nonlinear_arith)
        requires
            1 <= k <= n,
    ;
}

/// Blends one lateral bound toward its target with the smoothstep factor.
/// With an unchanged target the result is exactly the current bound.
pub fn mix_bound(cur: i64, target: i64, k: u32, n: u32) -> (r: i64)
    requires
        1 <= k <= n,
        n <= QUADS_MAX,
        -BOUND_MAX <= cur <= BOUND_MAX,
        -BOUND_MAX <= target <= BOUND_MAX,
    ensures
        r == mix_spec(cur as int, target as int, k as int, n as int),
        -BOUND_MAX <= r <= BOUND_MAX,
        cur == target ==> r == cur,
{
    let ki: i128 = k as i128;
    let ni: i128 = n as i128;
    proof {
        lemma_mul_bound(ni as int, ni as int, QUADS_MAX as int, QUADS_MAX as int);
        lemma_mul_bound(
            (ni * ni) as int,
            ni as int,
            QUADS_MAX as int * QUADS_MAX as int,
            QUADS_MAX as int,
        );
        lemma_mul_bound(ki as int, ki as int, QUADS_MAX as int, QUADS_MAX as int);
        lemma_mul_bound(
            (ki * ki) as int,
            ni as int,
            QUADS_MAX as int * QUADS_MAX as int,
            QUADS_MAX as int,
        );
        lemma_mul_bound(
            (ki * ki) as int,
            ki as int,
            QUADS_MAX as int * QUADS_MAX as int,
            QUADS_MAX as int,
        );
    }
    let n3: i128 = ni * ni * ni;
    let b: i128 = 3 * (ki * ki * ni) - 2 * (ki * ki * ki);
    proof {
        assert(b as int == blend_num(k as int, n as int));
        lemma_blend_range(k as int, n as int);
        lemma_mul_bound(cur as int, (n3 - b) as int, BOUND_MAX as int, (n3 - b) as int);
        lemma_mul_bound(target as int, b as int, BOUND_MAX as int, b as int);
    }
    let num: i128 = (cur as i128) * (n3 - b) + (target as i128) * b;
    proof {
        lemma_tdiv_bound(num as int, n3 as int, BOUND_MAX as int);
        if cur == target {
            assert(num as int == cur as int * (n3 as int)) by (nonlinear_arith)
                requires
                    num as int == cur as int * (n3 as int - b as int) + cur as int * (b as int),
            ;
            lemma_tdiv_exact(cur as int, n3 as int);
        }
    }
    let q = tdiv128(num, n3);
    q as i64
}

/// Advances a point along a direction by a distance, refusing a result
/// outside the position range.
fn advance_point(pos: Vec2i, fwd: Vec2i, dist: i64) -> (r: Option<Vec2i>)
    requires
        -POS_MAX <= pos.x <= POS_MAX,
        -POS_MAX <= pos.y <= POS_MAX,
        -FWD_MAX <= fwd.x <= FWD_MAX,
        -FWD_MAX <= fwd.y <= FWD_MAX,
        0 <= dist <= COORD_MAX,
    ensures
        ({
            let nx = pos.x + tdiv(fwd.x * dist, DIR_ONE as int);
            let ny = pos.y + tdiv(fwd.y * dist, DIR_ONE as int);
            &&& r is Some <==> (-POS_MAX <= nx <= POS_MAX && -POS_MAX <= ny <= POS_MAX)
            &&& r matches Some(p) ==> p.x == nx && p.y == ny
        }),
{
    proof {
        lemma_mul_bound(fwd.x as int, dist as int, FWD_MAX as int, COORD_MAX as int);
        lemma_mul_bound(fwd.y as int, dist as int, FWD_MAX as int, COORD_MAX as int);
    }
    let mx: i128 = (fwd.x as i128) * (dist as i128);
    let my: i128 = (fwd.y as i128) * (dist as i128);
    proof {
        lemma_tdiv_bound(mx as int, DIR_ONE as int, 2 * COORD_MAX);
        lemma_tdiv_bound(my as int, DIR_ONE as int, 2 * COORD_MAX);
    }
    let nx: i64 = pos.x + tdiv128(mx, DIR_ONE as i128) as i64;
    let ny: i64 = pos.y + tdiv128(my, DIR_ONE as i128) as i64;
    if -POS_MAX <= nx && nx <= POS_MAX && -POS_MAX <= ny && ny <= POS_MAX {
        Some(Vec2i { x: nx, y: ny })
    } else {
        None
    }
}

/// Applies one subdivision rotation step, refusing a result outside the
/// unit-scale range.
fn rot_step(cp: i64, sp: i64, cs: i64, ss: i64) -> (r: Option<(i64, i64)>)
    requires
        -DIR_ONE <= cp <= DIR_ONE,
        -DIR_ONE <= sp <= DIR_ONE,
        -DIR_ONE <= cs <= DIR_ONE,
        -DIR_ONE <= ss <= DIR_ONE,
    ensures
        ({
            let nc = tdiv(cp * cs - sp * ss, DIR_ONE as int);
            let ns = tdiv(cp * ss + sp * cs, DIR_ONE as int);
            &&& r is Some <==> (-DIR_ONE <= nc <= DIR_ONE && -DIR_ONE <= ns <= DIR_ONE)
            &&& r matches Some(v) ==> v.0 == nc && v.1 == ns
        }),
{
    proof {
        lemma_mul_bound(cp as int, cs as int, DIR_ONE as int, DIR_ONE as int);
        lemma_mul_bound(sp as int, ss as int, DIR_ONE as int, DIR_ONE as int);
        lemma_mul_bound(cp as int, ss as int, DIR_ONE as int, DIR_ONE as int);
        lemma_mul_bound(sp as int, cs as int, DIR_ONE as int, DIR_ONE as int);
    }
    let numc: i128 = (cp as i128) * (cs as i128) - (sp as i128) * (ss as i128);
    let nums: i128 = (cp as i128) * (ss as i128) + (sp as i128) * (cs as i128);
    proof {
        lemma_tdiv_bound(numc as int, DIR_ONE as int, 2 * DIR_ONE);
        lemma_tdiv_bound(nums as int, DIR_ONE as int, 2 * DIR_ONE);
    }
    let nc = tdiv128(numc, DIR_ONE as i128) as i64;
    let ns = tdiv128(nums, DIR_ONE as i128) as i64;
    if -DIR_ONE <= nc && nc <= DIR_ONE && -DIR_ONE <= ns && ns <= DIR_ONE {
        Some((nc, ns))
    } else {
        None
    }
}

/// Position on a corner's arc for the accumulated rotation `(ck, sk)`,
/// refusing a result outside the position range.
fn corner_point(pos: Vec2i, fwd: Vec2i, radius: i64, ck: i64, sk: i64) -> (r: Option<Vec2i>)
    requires
        -POS_MAX <= pos.x <= POS_MAX,
        -POS_MAX <= pos.y <= POS_MAX,
        -FWD_MAX <= fwd.x <= FWD_MAX,
        -FWD_MAX <= fwd.y <= FWD_MAX,
        -COORD_MAX <= radius <= COORD_MAX,
        -DIR_ONE <= ck <= DIR_ONE,
        -DIR_ONE <= sk <= DIR_ONE,
    ensures
        ({
            let nx = cpos_x(pos.x as int, fwd.x as int, fwd.y as int, radius as int, ck as int,
                sk as int);
            let ny = cpos_y(pos.y as int, fwd.x as int, fwd.y as int, radius as int, ck as int,
                sk as int);
            &&& r is Some <==> (-POS_MAX <= nx <= POS_MAX && -POS_MAX <= ny <= POS_MAX)
            &&& r matches Some(p) ==> p.x == nx && p.y == ny
        }),
{
    let ar: i64 = if radius < 0 {
        -radius
    } else {
        radius
    };
    proof {
        lemma_mul_bound(-fwd.y as int, radius as int, FWD_MAX as int, COORD_MAX as int);
        lemma_mul_bound(fwd.x as int, radius as int, FWD_MAX as int, COORD_MAX as int);
    }
    let cenx_num: i128 = -(fwd.y as i128) * (radius as i128);
    let ceny_num: i128 = (fwd.x as i128) * (radius as i128);
    proof {
        lemma_tdiv_bound(cenx_num as int, DIR_ONE as int, 2 * COORD_MAX);
        lemma_tdiv_bound(ceny_num as int, DIR_ONE as int, 2 * COORD_MAX);
    }
    let cen_x: i64 = pos.x + tdiv128(cenx_num, DIR_ONE as i128) as i64;
    let cen_y: i64 = pos.y + tdiv128(ceny_num, DIR_ONE as i128) as i64;
    proof {
        lemma_mul_bound(fwd.x as int, ar as int, FWD_MAX as int, COORD_MAX as int);
        lemma_mul_bound(fwd.y as int, ar as int, FWD_MAX as int, COORD_MAX as int);
        lemma_mul_bound(
            (fwd.x as int) * (ar as int),
            sk as int,
            FWD_MAX as int * COORD_MAX as int,
            DIR_ONE as int,
        );
        lemma_mul_bound(
            (fwd.y as int) * (ar as int),
            sk as int,
            FWD_MAX as int * COORD_MAX as int,
            DIR_ONE as int,
        );
        lemma_mul_bound(-fwd.y as int, radius as int, FWD_MAX as int, COORD_MAX as int);
        lemma_mul_bound(
            (-fwd.y as int) * (radius as int),
            ck as int,
            FWD_MAX as int * COORD_MAX as int,
            DIR_ONE as int,
        );
        lemma_mul_bound(
            (fwd.x as int) * (radius as int),
            ck as int,
            FWD_MAX as int * COORD_MAX as int,
            DIR_ONE as int,
        );
    }
    let tx1: i128 = (fwd.x as i128) * (ar as i128) * (sk as i128);
    let ty1: i128 = (fwd.y as i128) * (ar as i128) * (sk as i128);
    let tx2: i128 = -(fwd.y as i128) * (radius as i128) * (ck as i128);
    let ty2: i128 = (fwd.x as i128) * (radius as i128) * (ck as i128);
    proof {
        lemma_tdiv_bound(tx1 as int, DIR_SQ as int, 2 * COORD_MAX);
        lemma_tdiv_bound(ty1 as int, DIR_SQ as int, 2 * COORD_MAX);
        lemma_tdiv_bound(tx2 as int, DIR_SQ as int, 2 * COORD_MAX);
        lemma_tdiv_bound(ty2 as int, DIR_SQ as int, 2 * COORD_MAX);
    }
    let nx: i64 = cen_x + tdiv128(tx1, DIR_SQ as i128) as i64 - tdiv128(tx2, DIR_SQ as i128) as i64;
    let ny: i64 = cen_y + tdiv128(ty1, DIR_SQ as i128) as i64 - tdiv128(ty2, DIR_SQ as i128) as i64;
    if -POS_MAX <= nx && nx <= POS_MAX && -POS_MAX <= ny && ny <= POS_MAX {
        Some(Vec2i { x: nx, y: ny })
    } else {
        None
    }
}

/// The forward vector rotated by a corner's accumulated sweep, refusing a
/// result outside the forward range.
fn corner_fwd(fwd: Vec2i, radius: i64, ck: i64, sk: i64) -> (r: Option<Vec2i>)
    requires
        -FWD_MAX <= fwd.x <= FWD_MAX,
        -FWD_MAX <= fwd.y <= FWD_MAX,
        -DIR_ONE <= ck <= DIR_ONE,
        -DIR_ONE <= sk <= DIR_ONE,
    ensures
        ({
            let sign = corner_sign(radius as int);
            let nx = cfwd_x(fwd.x as int, fwd.y as int, sign, ck as int, sk as int);
            let ny = cfwd_y(fwd.x as int, fwd.y as int, sign, ck as int, sk as int);
            &&& r is Some <==> (-FWD_MAX <= nx <= FWD_MAX && -FWD_MAX <= ny <= FWD_MAX)
            &&& r matches Some(p) ==> p.x == nx && p.y == ny
        }),
{
    proof {
        lemma_mul_bound(fwd.x as int, ck as int, FWD_MAX as int, DIR_ONE as int);
        lemma_mul_bound(fwd.y as int, sk as int, FWD_MAX as int, DIR_ONE as int);
        lemma_mul_bound(fwd.x as int, sk as int, FWD_MAX as int, DIR_ONE as int);
        lemma_mul_bound(fwd.y as int, ck as int, FWD_MAX as int, DIR_ONE as int);
    }
    let fxc: i128 = (fwd.x as i128) * (ck as i128);
    let fyc: i128 = (fwd.y as i128) * (ck as i128);
    let fxs: i128 = (fwd.x as i128) * (sk as i128);
    let fys: i128 = (fwd.y as i128) * (sk as i128);
    let numx: i128 = if radius < 0 {
        fxc + fys
    } else {
        fxc - fys
    };
    let numy: i128 = if radius < 0 {
        -fxs + fyc
    } else {
        fxs + fyc
    };
    proof {
        let sign = corner_sign(radius as int);
        let fy_sk = (fwd.y as int) * (sk as int);
        let fx_sk = (fwd.x as int) * (sk as int);
        if radius < 0 {
            assert(sign == 1);
            assert(sign * fy_sk == fy_sk) by (nonlinear_arith)
                requires
                    sign == 1,
            ;
            assert(-sign * fx_sk == -fx_sk) by (nonlinear_arith)
                requires
                    sign == 1,
            ;
        } else {
            assert(sign == -1);
            assert(sign * fy_sk == -fy_sk) by (nonlinear_arith)
                requires
                    sign == -1,
            ;
            assert(-sign * fx_sk == fx_sk) by (nonlinear_arith)
                requires
                    sign == -1,
            ;
        }
        assert(numx as int == (fwd.x as int) * (ck as int) + sign * ((fwd.y as int) * (sk as int)));
        assert(numy as int == -sign * ((fwd.x as int) * (sk as int)) + (fwd.y as int) * (
        ck as int));
        lemma_tdiv_bound(numx as int, DIR_ONE as int, 4 * FWD_MAX);
        lemma_tdiv_bound(numy as int, DIR_ONE as int, 4 * FWD_MAX);
    }
    let nx = tdiv128(numx, DIR_ONE as i128) as i64;
    let ny = tdiv128(numy, DIR_ONE as i128) as i64;
    if -FWD_MAX <= nx && nx <= FWD_MAX && -FWD_MAX <= ny && ny <= FWD_MAX {
        Some(Vec2i { x: nx, y: ny })
    } else {
        None
    }
}

/// Most cross-sections a build can emit.
pub const SECTIONS_CAP: u32 = 4_194_304;

/// A boundary segment: endpoints in range, tag 0 (left) or 1 (right).
pub open spec fn boundary_seg_ok(s: Segment) -> bool {
    s.in_range() && (s.ii == 0 || s.ii == 1)
}

/// A checkpoint segment: endpoints in range, tag below the total count.
pub open spec fn checkpoint_seg_ok(s: Segment, count: int) -> bool {
    s.in_range() && (s.ii as int) < count
}

/// A transition segment held by layer `l`: endpoints in range, tagged
/// with the valid id of the paired layer on the edge's other side.
pub open spec fn transition_seg_ok(s: Segment, l: int) -> bool {
    s.in_range() && s.ii < 4 && s.ii != l
}

pub open spec fn all_boundary_ok(s: Seq<Segment>) -> bool {
    forall|j: int| 0 <= j < s.len() ==> boundary_seg_ok(#[trigger] s[j])
}

pub open spec fn all_checkpoint_ok(s: Seq<Segment>, count: int) -> bool {
    forall|j: int| 0 <= j < s.len() ==> checkpoint_seg_ok(#[trigger] s[j], count)
}

pub open spec fn all_transition_ok(s: Seq<Segment>, l: int) -> bool {
    forall|j: int| 0 <= j < s.len() ==> transition_seg_ok(#[trigger] s[j], l)
}

/// The renderable track mesh: positions in the ground plane, a UV pair
/// (blended lateral bound, cumulative length), the position projected
/// into the initial pose's frame, and triangle indices.  The constant
/// track-up normal is the host's concern.
pub struct TrackMesh {
    pub positions: Vec<Vec2i>,
    pub uvs: Vec<Vec2i>,
    pub pqs: Vec<Vec2i>,
    pub triangles: Vec<u32>,
}

/// The checkpoint-gate visualization mesh.
pub struct GateMesh {
    pub positions: Vec<Vec2i>,
    pub triangles: Vec<u32>,
}

/// Per-layer spatial indices: boundary, checkpoint and transition
/// segments, each in its own tree.
pub struct Collision {
    pub track_kdtree: SegTree,
    pub checkpoint_kdtree: SegTree,
    pub transition_kdtree: SegTree,
}

/// The per-layer indices are well formed and their tags obey each
/// category's rule.
pub open spec fn collision_wf(c: Collision, count: int, l: int) -> bool {
    &&& c.track_kdtree.wf()
    &&& c.checkpoint_kdtree.wf()
    &&& c.transition_kdtree.wf()
    &&& all_boundary_ok(c.track_kdtree.segs())
    &&& all_checkpoint_ok(c.checkpoint_kdtree.segs(), count)
    &&& all_transition_ok(c.transition_kdtree.segs(), l)
}

/// A built track: meshes, metadata, and one `Collision` per layer.
pub struct Track {
    pub track: TrackMesh,
    pub checkpoint: GateMesh,
    pub total_length: i64,
    pub is_looping: bool,
    pub layer_to_collisions: Vec<Collision>,
    pub checkpoint_count: u8,
    pub initial_position: Vec2i,
    pub initial_forward: Vec2i,
    pub initial_left: i64,
    pub initial_right: i64,
}

/// A track is well formed when it holds one well-formed `Collision` per
/// layer id.
pub open spec fn track_wf(t: Track) -> bool {
    &&& t.layer_to_collisions@.len() == 4
    &&& forall|l: int| 0 <= l < 4 ==> collision_wf(
        #[trigger] t.layer_to_collisions@[l],
        t.checkpoint_count as int,
        l,
    )
}

/// Why a build was refused: statically malformed authoring data, or
/// geometry that left the supported coordinate range.
#[derive(Clone, Copy, PartialEq, Eq, Structural, Debug)]
pub enum TrackError {
    BadData,
    OutOfRange,
}

/// The builder's accumulating output: mesh buffers, gate buffers, and
/// per-layer segment lists.
struct Builder {
    positions: Vec<Vec2i>,
    uvs: Vec<Vec2i>,
    pqs: Vec<Vec2i>,
    triangles: Vec<u32>,
    gate_positions: Vec<Vec2i>,
    gate_triangles: Vec<u32>,
    boundary0: Vec<Segment>,
    boundary1: Vec<Segment>,
    boundary2: Vec<Segment>,
    boundary3: Vec<Segment>,
    cps0: Vec<Segment>,
    cps1: Vec<Segment>,
    cps2: Vec<Segment>,
    cps3: Vec<Segment>,
    trans0: Vec<Segment>,
    trans1: Vec<Segment>,
    trans2: Vec<Segment>,
    trans3: Vec<Segment>,
    sections: u32,
    gates: u32,
    cp_count: u8,
    nseg: u32,
    p0: Vec2i,
    f0: Vec2i,
}

impl Builder {
    spec fn boundary_of(&self, l: int) -> Seq<Segment> {
        if l == 0 {
            self.boundary0@
        } else if l == 1 {
            self.boundary1@
        } else if l == 2 {
            self.boundary2@
        } else {
            self.boundary3@
        }
    }

    spec fn cps_of(&self, l: int) -> Seq<Segment> {
        if l == 0 {
            self.cps0@
        } else if l == 1 {
            self.cps1@
        } else if l == 2 {
            self.cps2@
        } else {
            self.cps3@
        }
    }

    spec fn trans_of(&self, l: int) -> Seq<Segment> {
        if l == 0 {
            self.trans0@
        } else if l == 1 {
            self.trans1@
        } else if l == 2 {
            self.trans2@
        } else {
            self.trans3@
        }
    }

    spec fn inv(&self) -> bool {
        &&& 0 < self.nseg <= LAT_MAX
        &&& -POS_MAX <= self.p0.x <= POS_MAX
        &&& -POS_MAX <= self.p0.y <= POS_MAX
        &&& unit_norm_ok(self.f0)
        &&& self.sections <= SECTIONS_CAP
        &&& self.gates <= PIECES_MAX as u32
        &&& self.positions@.len() == self.sections * (self.nseg + 1)
        &&& self.uvs@.len() == self.positions@.len()
        &&& self.pqs@.len() == self.positions@.len()
        &&& self.triangles@.len() == (if self.sections == 0 {
            0int
        } else {
            (self.sections - 1) * self.nseg * 6
        })
        &&& forall|j: int| 0 <= j < self.positions@.len() ==> (
        #[trigger] self.positions@[j]).in_range()
        &&& self.gate_positions@.len() == self.gates * 4
        &&& self.gate_triangles@.len() == self.gates * 6
        &&& forall|l: int| 0 <= l < 4 ==> all_boundary_ok(#[trigger] self.boundary_of(l))
        &&& forall|l: int| 0 <= l < 4 ==> all_checkpoint_ok(
            #[trigger] self.cps_of(l),
            self.cp_count as int,
        )
        &&& forall|l: int| 0 <= l < 4 ==> all_transition_ok(#[trigger] self.trans_of(l), l)
    }

    fn new(nseg: u32, p0: Vec2i, f0: Vec2i) -> (r: Self)
        requires
            0 < nseg <= LAT_MAX,
            -POS_MAX <= p0.x <= POS_MAX,
            -POS_MAX <= p0.y <= POS_MAX,
            unit_norm_ok(f0),
        ensures
            r.inv(),
            r.sections == 0,
            r.gates == 0,
            r.cp_count == 0,
            r.nseg == nseg,
            r.p0 == p0,
            r.f0 == f0,
    {
        Builder {
            positions: Vec::new(),
            uvs: Vec::new(),
            pqs: Vec::new(),
            triangles: Vec::new(),
            gate_positions: Vec::new(),
            gate_triangles: Vec::new(),
            boundary0: Vec::new(),
            boundary1: Vec::new(),
            boundary2: Vec::new(),
            boundary3: Vec::new(),
            cps0: Vec::new(),
            cps1: Vec::new(),
            cps2: Vec::new(),
            cps3: Vec::new(),
            trans0: Vec::new(),
            trans1: Vec::new(),
            trans2: Vec::new(),
            trans3: Vec::new(),
            sections: 0,
            gates: 0,
            cp_count: 0,
            nseg,
            p0,
            f0,
        }
    }
}

impl Builder {
    /// Emits one cross-section at the given pose: `nseg + 1` lateral
    /// samples with UV and frame-projection attributes, two triangles per
    /// lateral quad against the previous section, and the strip's left
    /// and right boundary segments.
    fn push_track_section(&mut self, pos: Vec2i, fwd: Vec2i, left: i64, right: i64, len_v: i64, layer: u8)
        requires
            old(self).inv(),
            old(self).sections < SECTIONS_CAP,
            -POS_MAX <= pos.x <= POS_MAX,
            -POS_MAX <= pos.y <= POS_MAX,
            -FWD_MAX <= fwd.x <= FWD_MAX,
            -FWD_MAX <= fwd.y <= FWD_MAX,
            -BOUND_MAX <= left <= BOUND_MAX,
            -BOUND_MAX <= right <= BOUND_MAX,
            -LEN_MAX <= len_v <= LEN_MAX,
            layer < 4,
        ensures
            final(self).inv(),
            final(self).sections == old(self).sections + 1,
            final(self).gates == old(self).gates,
            final(self).cp_count == old(self).cp_count,
            final(self).nseg == old(self).nseg,
            final(self).p0 == old(self).p0,
            final(self).f0 == old(self).f0,
    {
        let nseg: usize = self.nseg as usize;
        let next_vertex: usize = self.positions.len();
        let left_pos = lat_point(pos, fwd, left);
        let right_pos = lat_point(pos, fwd, right);

        let mut sec_pos: Vec<Vec2i> = Vec::new();
        let mut sec_uv: Vec<Vec2i> = Vec::new();
        let mut sec_pq: Vec<Vec2i> = Vec::new();
        let mut kk: usize = 0;
        while kk <= nseg
            invariant
                nseg == self.nseg,
                0 < nseg <= LAT_MAX,
                kk <= nseg + 1,
                sec_pos@.len() == kk,
                sec_uv@.len() == kk,
                sec_pq@.len() == kk,
                forall|j: int| 0 <= j < kk ==> (#[trigger] sec_pos@[j]).in_range(),
                left_pos.in_range(),
                right_pos.in_range(),
                -BOUND_MAX <= left <= BOUND_MAX,
                -BOUND_MAX <= right <= BOUND_MAX,
                -LEN_MAX <= len_v <= LEN_MAX,
                *self == *old(self),
                old(self).inv(),
            decreases nseg + 1 - kk,
        {
            let ki: i128 = kk as i128;
            let ri: i128 = (nseg - kk) as i128;
            let ni: i128 = nseg as i128;
            proof {
                lemma_mul_bound(right_pos.x as int, ki as int, COORD_MAX as int, ki as int);
                lemma_mul_bound(right_pos.y as int, ki as int, COORD_MAX as int, ki as int);
                lemma_mul_bound(left_pos.x as int, ri as int, COORD_MAX as int, ri as int);
                lemma_mul_bound(left_pos.y as int, ri as int, COORD_MAX as int, ri as int);
                lemma_mul_bound(right as int, ki as int, BOUND_MAX as int, ki as int);
                lemma_mul_bound(left as int, ri as int, BOUND_MAX as int, ri as int);
            }
            let sx_num: i128 = (right_pos.x as i128) * ki + (left_pos.x as i128) * ri;
            let sy_num: i128 = (right_pos.y as i128) * ki + (left_pos.y as i128) * ri;
            let uv_num: i128 = (right as i128) * ki + (left as i128) * ri;
            proof {
                lemma_tdiv_bound(sx_num as int, ni as int, COORD_MAX as int);
                lemma_tdiv_bound(sy_num as int, ni as int, COORD_MAX as int);
                lemma_tdiv_bound(uv_num as int, ni as int, BOUND_MAX as int);
            }
            let sx = tdiv128(sx_num, ni) as i64;
            let sy = tdiv128(sy_num, ni) as i64;
            let ux = tdiv128(uv_num, ni) as i64;
            let sample = Vec2i { x: sx, y: sy };

            let dx: i64 = sx - self.p0.x;
            let dy: i64 = sy - self.p0.y;
            proof {
                lemma_mul_bound(-self.f0.y as int, dx as int, DIR_ONE as int, 2 * COORD_MAX);
                lemma_mul_bound(self.f0.x as int, dy as int, DIR_ONE as int, 2 * COORD_MAX);
                lemma_mul_bound(self.f0.x as int, dx as int, DIR_ONE as int, 2 * COORD_MAX);
                lemma_mul_bound(self.f0.y as int, dy as int, DIR_ONE as int, 2 * COORD_MAX);
            }
            let pq_x_num: i128 = -(self.f0.y as i128) * (dx as i128) + (self.f0.x as i128) * (
            dy as i128);
            let pq_y_num: i128 = (self.f0.x as i128) * (dx as i128) + (self.f0.y as i128) * (
            dy as i128);
            proof {
                lemma_tdiv_bound(pq_x_num as int, DIR_ONE as int, 4 * COORD_MAX);
                lemma_tdiv_bound(pq_y_num as int, DIR_ONE as int, 4 * COORD_MAX);
            }
            let pqx = tdiv128(pq_x_num, DIR_ONE as i128) as i64;
            let pqy = tdiv128(pq_y_num, DIR_ONE as i128) as i64;

            sec_pos.push(sample);
            sec_uv.push(Vec2i { x: ux, y: len_v });
            sec_pq.push(Vec2i { x: pqx, y: pqy });
            kk = kk + 1;
        }

        let mut tri: Vec<u32> = Vec::new();
        if next_vertex != 0 {
            proof {
                if self.sections == 0 {
                    assert(self.sections * (nseg + 1) == 0) by (nonlinear_arith)
                        requires
                            self.sections == 0,
                    ;
                }
                assert(self.sections >= 1);
                assert(self.sections * (nseg + 1) >= 1 * (nseg + 1)) by (nonlinear_arith)
                    requires
                        self.sections >= 1,
                        nseg >= 0,
                ;
                assert(self.sections * (nseg + 1) <= SECTIONS_CAP * (LAT_MAX + 1))
                    by (nonlinear_arith)
                    requires
                        self.sections <= SECTIONS_CAP,
                        0 < nseg <= LAT_MAX,
                ;
            }
            let base: u32 = next_vertex as u32;
            let nseg32: u32 = self.nseg;
            let mut t: u32 = 0;
            while t < nseg32
                invariant
                    *self == *old(self),
                    tri@.len() == 6 * t,
                    t <= nseg32,
                    nseg32 <= LAT_MAX,
                    nseg32 + 1 <= base <= SECTIONS_CAP * (LAT_MAX + 1),
                decreases nseg32 - t,
            {
                tri.push(base + t - nseg32 - 1);
                tri.push(base + t - nseg32);
                tri.push(base + t);
                tri.push(base + t - nseg32);
                tri.push(base + t + 1);
                tri.push(base + t);
                t = t + 1;
            }

            let prev_left = self.positions[next_vertex - nseg - 1];
            let prev_right = self.positions[next_vertex - 1];
            let seg_left = Segment { aa: prev_left, bb: left_pos, ii: 0 };
            let seg_right = Segment { aa: right_pos, bb: prev_right, ii: 1 };
            self.push_boundary(seg_left, layer);
            self.push_boundary(seg_right, layer);
        }

        proof {
            let osec = old(self).sections as int;
            let width = nseg as int + 1;
            if self.sections == 0 {
                assert(osec * width == 0) by (nonlinear_arith)
                    requires
                        osec == 0,
                ;
                assert(next_vertex == 0);
            } else {
                assert(osec * width >= 1 * width) by (nonlinear_arith)
                    requires
                        osec >= 1,
                        width >= 1,
                ;
                assert(next_vertex != 0);
            }
        }
        let ghost mid = *self;
        let ghost sec_pos_snap = sec_pos@;
        let ghost tri_snap = tri@;
        self.triangles.append(&mut tri);
        self.positions.append(&mut sec_pos);
        self.uvs.append(&mut sec_uv);
        self.pqs.append(&mut sec_pq);
        self.sections = self.sections + 1;
        proof {
            assert(mid.inv());
            assert(self.positions@.len() == self.sections * (nseg + 1)) by (nonlinear_arith)
                requires
                    self.positions@.len() == (self.sections - 1) * (nseg + 1) + (nseg + 1),
            ;
            if mid.sections == 0 {
                assert(tri_snap.len() == 0);
                assert(self.triangles@.len() == 0);
                assert((self.sections - 1) * nseg * 6 == 0) by (nonlinear_arith)
                    requires
                        self.sections == 1,
                ;
            } else {
                assert(tri_snap.len() == 6 * nseg);
                assert(self.triangles@.len() == (self.sections - 1) * nseg * 6)
                    by (nonlinear_arith)
                    requires
                        self.triangles@.len() == (self.sections - 2) * nseg * 6 + 6 * nseg,
                ;
            }
            assert forall|l: int| 0 <= l < 4 implies all_boundary_ok(
                #[trigger] self.boundary_of(l),
            ) by {
                assert(all_boundary_ok(mid.boundary_of(l)));
                assert(self.boundary_of(l) == mid.boundary_of(l));
            }
            assert forall|l: int| 0 <= l < 4 implies all_checkpoint_ok(
                #[trigger] self.cps_of(l),
                self.cp_count as int,
            ) by {
                assert(all_checkpoint_ok(mid.cps_of(l), mid.cp_count as int));
                assert(self.cps_of(l) == mid.cps_of(l));
            }
            assert forall|l: int| 0 <= l < 4 implies all_transition_ok(
                #[trigger] self.trans_of(l),
                l,
            ) by {
                assert(all_transition_ok(mid.trans_of(l), l));
                assert(self.trans_of(l) == mid.trans_of(l));
            }
            assert forall|j: int| 0 <= j < self.positions@.len() implies (
            #[trigger] self.positions@[j]).in_range() by {
                if j < mid.positions@.len() {
                    assert(mid.positions@[j].in_range());
                } else {
                    assert(self.positions@[j] == sec_pos_snap[j - mid.positions@.len()]);
                }
            }
        }
    }

    /// Appends a boundary segment to the given layer's list.
    fn push_boundary(&mut self, seg: Segment, layer: u8)
        requires
            old(self).inv(),
            boundary_seg_ok(seg),
            layer < 4,
        ensures
            final(self).inv(),
            *final(self) == (Builder {
                boundary0: final(self).boundary0,
                boundary1: final(self).boundary1,
                boundary2: final(self).boundary2,
                boundary3: final(self).boundary3,
                ..*old(self)
            }),
    {
        match layer {
            0 => self.boundary0.push(seg),
            1 => self.boundary1.push(seg),
            2 => self.boundary2.push(seg),
            _ => self.boundary3.push(seg),
        }
        proof {
            assert forall|l: int| 0 <= l < 4 implies all_boundary_ok(
                #[trigger] self.boundary_of(l),
            ) by {
                assert(all_boundary_ok(old(self).boundary_of(l)));
                if self.boundary_of(l) != old(self).boundary_of(l) {
                    assert(self.boundary_of(l) == old(self).boundary_of(l).push(seg));
                }
            }
            assert forall|l: int| 0 <= l < 4 implies all_checkpoint_ok(
                #[trigger] self.cps_of(l),
                self.cp_count as int,
            ) by {
                assert(all_checkpoint_ok(old(self).cps_of(l), old(self).cp_count as int));
                assert(self.cps_of(l) == old(self).cps_of(l));
            }
            assert forall|l: int| 0 <= l < 4 implies all_transition_ok(
                #[trigger] self.trans_of(l),
                l,
            ) by {
                assert(all_transition_ok(old(self).trans_of(l), l));
                assert(self.trans_of(l) == old(self).trans_of(l));
            }
        }
    }

    /// Emits the small gate quad that visualizes a checkpoint.
    fn push_checkpoint_gate(&mut self, pos: Vec2i, fwd: Vec2i, left: i64, right: i64)
        requires
            old(self).inv(),
            old(self).gates < PIECES_MAX as u32,
            -POS_MAX <= pos.x <= POS_MAX,
            -POS_MAX <= pos.y <= POS_MAX,
            -FWD_MAX <= fwd.x <= FWD_MAX,
            -FWD_MAX <= fwd.y <= FWD_MAX,
            -BOUND_MAX <= left <= BOUND_MAX,
            -BOUND_MAX <= right <= BOUND_MAX,
        ensures
            final(self).inv(),
            final(self).gates == old(self).gates + 1,
            final(self).sections == old(self).sections,
            final(self).cp_count == old(self).cp_count,
            final(self).nseg == old(self).nseg,
            final(self).p0 == old(self).p0,
            final(self).f0 == old(self).f0,
            final(self).positions == old(self).positions,
            final(self).uvs == old(self).uvs,
            final(self).pqs == old(self).pqs,
            final(self).triangles == old(self).triangles,
            final(self).boundary0 == old(self).boundary0,
            final(self).boundary1 == old(self).boundary1,
            final(self).boundary2 == old(self).boundary2,
            final(self).boundary3 == old(self).boundary3,
            final(self).cps0 == old(self).cps0,
            final(self).cps1 == old(self).cps1,
            final(self).cps2 == old(self).cps2,
            final(self).cps3 == old(self).cps3,
            final(self).trans0 == old(self).trans0,
            final(self).trans1 == old(self).trans1,
            final(self).trans2 == old(self).trans2,
            final(self).trans3 == old(self).trans3,
    {
        let la = lat_point(pos, fwd, left);
        let rb = lat_point(pos, fwd, right);
        proof {
            lemma_mul_bound(fwd.x as int, GATE_WIDTH as int, FWD_MAX as int, GATE_WIDTH as int);
            lemma_mul_bound(fwd.y as int, GATE_WIDTH as int, FWD_MAX as int, GATE_WIDTH as int);
        }
        let wx_num: i128 = (fwd.x as i128) * (GATE_WIDTH as i128);
        let wy_num: i128 = (fwd.y as i128) * (GATE_WIDTH as i128);
        proof {
            lemma_tdiv_bound(wx_num as int, DIR_ONE as int, 2 * GATE_WIDTH);
            lemma_tdiv_bound(wy_num as int, DIR_ONE as int, 2 * GATE_WIDTH);
        }
        let wx: i64 = tdiv128(wx_num, DIR_ONE as i128) as i64;
        let wy: i64 = tdiv128(wy_num, DIR_ONE as i128) as i64;
        let hx: i64 = wx / 2;
        let hy: i64 = wy / 2;
        proof {
            lemma_tdiv_bound(wx as int, 2, GATE_WIDTH as int);
            lemma_tdiv_bound(wy as int, 2, GATE_WIDTH as int);
            assert(hx as int == wx as int / 2 || hx as int == -((-(wx as int)) / 2));
        }
        let aa = Vec2i { x: la.x - hx, y: la.y - hy };
        let bb = Vec2i { x: rb.x - hx, y: rb.y - hy };
        let cc = Vec2i { x: aa.x + wx, y: aa.y + wy };
        let dd = Vec2i { x: bb.x + wx, y: bb.y + wy };
        let base: u32 = self.gates * 4;
        self.gate_positions.push(aa);
        self.gate_positions.push(bb);
        self.gate_positions.push(cc);
        self.gate_positions.push(dd);
        self.gate_triangles.push(base);
        self.gate_triangles.push(base + 1);
        self.gate_triangles.push(base + 2);
        self.gate_triangles.push(base + 2);
        self.gate_triangles.push(base + 1);
        self.gate_triangles.push(base + 3);
        self.gates = self.gates + 1;
        proof {
            assert forall|l: int| 0 <= l < 4 implies all_boundary_ok(
                #[trigger] self.boundary_of(l),
            ) by {
                assert(all_boundary_ok(old(self).boundary_of(l)));
                assert(self.boundary_of(l) == old(self).boundary_of(l));
            }
            assert forall|l: int| 0 <= l < 4 implies all_checkpoint_ok(
                #[trigger] self.cps_of(l),
                self.cp_count as int,
            ) by {
                assert(all_checkpoint_ok(old(self).cps_of(l), old(self).cp_count as int));
                assert(self.cps_of(l) == old(self).cps_of(l));
            }
            assert forall|l: int| 0 <= l < 4 implies all_transition_ok(
                #[trigger] self.trans_of(l),
                l,
            ) by {
                assert(all_transition_ok(old(self).trans_of(l), l));
                assert(self.trans_of(l) == old(self).trans_of(l));
            }
        }
    }

    /// Appends an indexed checkpoint segment to the given layer's list
    /// and returns its index.
    fn push_checkpoint_segment(&mut self, pos: Vec2i, fwd: Vec2i, left: i64, right: i64, layer: u8) -> (idx: u8)
        requires
            old(self).inv(),
            old(self).cp_count < 255,
            -POS_MAX <= pos.x <= POS_MAX,
            -POS_MAX <= pos.y <= POS_MAX,
            -FWD_MAX <= fwd.x <= FWD_MAX,
            -FWD_MAX <= fwd.y <= FWD_MAX,
            -BOUND_MAX <= left <= BOUND_MAX,
            -BOUND_MAX <= right <= BOUND_MAX,
            layer < 4,
        ensures
            final(self).inv(),
            idx == old(self).cp_count,
            final(self).cp_count == old(self).cp_count + 1,
            final(self).sections == old(self).sections,
            final(self).gates == old(self).gates,
            final(self).nseg == old(self).nseg,
            final(self).p0 == old(self).p0,
            final(self).f0 == old(self).f0,
    {
        let aa = lat_point(pos, fwd, left);
        let bb = lat_point(pos, fwd, right);
        let idx = self.cp_count;
        let seg = Segment { aa, bb, ii: idx };
        match layer {
            0 => self.cps0.push(seg),
            1 => self.cps1.push(seg),
            2 => self.cps2.push(seg),
            _ => self.cps3.push(seg),
        }
        self.cp_count = self.cp_count + 1;
        proof {
            assert forall|l: int| 0 <= l < 4 implies all_boundary_ok(
                #[trigger] self.boundary_of(l),
            ) by {
                assert(all_boundary_ok(old(self).boundary_of(l)));
                assert(self.boundary_of(l) == old(self).boundary_of(l));
            }
            assert forall|l: int| 0 <= l < 4 implies all_transition_ok(
                #[trigger] self.trans_of(l),
                l,
            ) by {
                assert(all_transition_ok(old(self).trans_of(l), l));
                assert(self.trans_of(l) == old(self).trans_of(l));
            }
            assert forall|l: int| 0 <= l < 4 implies all_checkpoint_ok(
                #[trigger] self.cps_of(l),
                self.cp_count as int,
            ) by {
                assert(all_checkpoint_ok(old(self).cps_of(l), old(self).cp_count as int));
                assert forall|j: int| 0 <= j < self.cps_of(l).len() implies checkpoint_seg_ok(
                    #[trigger] self.cps_of(l)[j],
                    self.cp_count as int,
                ) by {
                    if self.cps_of(l) != old(self).cps_of(l) {
                        assert(self.cps_of(l) == old(self).cps_of(l).push(seg));
                        if j < old(self).cps_of(l).len() {
                            assert(checkpoint_seg_ok(
                                old(self).cps_of(l)[j],
                                old(self).cp_count as int,
                            ));
                        }
                    } else {
                        assert(checkpoint_seg_ok(
                            old(self).cps_of(l)[j],
                            old(self).cp_count as int,
                        ));
                    }
                }
            }
        }
        idx
    }

    /// Appends a transition segment to both touched layers' lists: in the
    /// source layer tagged with the target, and conversely.
    fn push_transition_segment(&mut self, pos: Vec2i, fwd: Vec2i, left: i64, right: i64, from_layer: u8, to_layer: u8)
        requires
            old(self).inv(),
            from_layer < 4,
            to_layer < 4,
            from_layer != to_layer,
            -POS_MAX <= pos.x <= POS_MAX,
            -POS_MAX <= pos.y <= POS_MAX,
            -FWD_MAX <= fwd.x <= FWD_MAX,
            -FWD_MAX <= fwd.y <= FWD_MAX,
            -BOUND_MAX <= left <= BOUND_MAX,
            -BOUND_MAX <= right <= BOUND_MAX,
        ensures
            final(self).inv(),
            final(self).sections == old(self).sections,
            final(self).gates == old(self).gates,
            final(self).cp_count == old(self).cp_count,
            final(self).nseg == old(self).nseg,
            final(self).p0 == old(self).p0,
            final(self).f0 == old(self).f0,
    {
        let aa = lat_point(pos, fwd, left);
        let bb = lat_point(pos, fwd, right);
        let seg_out = Segment { aa, bb, ii: to_layer };
        let seg_in = Segment { aa, bb, ii: from_layer };
        self.push_transition(seg_out, from_layer);
        self.push_transition(seg_in, to_layer);
    }

    /// Appends one transition segment to the given layer's list.
    fn push_transition(&mut self, seg: Segment, layer: u8)
        requires
            old(self).inv(),
            transition_seg_ok(seg, layer as int),
            layer < 4,
        ensures
            final(self).inv(),
            *final(self) == (Builder {
                trans0: final(self).trans0,
                trans1: final(self).trans1,
                trans2: final(self).trans2,
                trans3: final(self).trans3,
                ..*old(self)
            }),
    {
        match layer {
            0 => self.trans0.push(seg),
            1 => self.trans1.push(seg),
            2 => self.trans2.push(seg),
            _ => self.trans3.push(seg),
        }
        proof {
            assert forall|l: int| 0 <= l < 4 implies all_transition_ok(
                #[trigger] self.trans_of(l),
                l,
            ) by {
                assert(all_transition_ok(old(self).trans_of(l), l));
                if self.trans_of(l) != old(self).trans_of(l) {
                    assert(self.trans_of(l) == old(self).trans_of(l).push(seg));
                }
            }
            assert forall|l: int| 0 <= l < 4 implies all_boundary_ok(
                #[trigger] self.boundary_of(l),
            ) by {
                assert(all_boundary_ok(old(self).boundary_of(l)));
                assert(self.boundary_of(l) == old(self).boundary_of(l));
            }
            assert forall|l: int| 0 <= l < 4 implies all_checkpoint_ok(
                #[trigger] self.cps_of(l),
                self.cp_count as int,
            ) by {
                assert(all_checkpoint_ok(old(self).cps_of(l), old(self).cp_count as int));
                assert(self.cps_of(l) == old(self).cps_of(l));
            }
        }
    }
}

/// Width of the checkpoint gate quad along the track direction.
pub const GATE_WIDTH: i64 = 200_000;

/// The three running counts are monotone in the piece prefix.
proof fn lemma_counts_mono(pieces: Seq<TrackPiece>, i: int, j: int)
    requires
        0 <= i <= j,
    ensures
        sections_up_to(pieces, i) <= sections_up_to(pieces, j),
        checkpoints_up_to(pieces, i) <= checkpoints_up_to(pieces, j),
        gates_up_to(pieces, i) <= gates_up_to(pieces, j),
    decreases j - i,
{
    if i < j {
        lemma_counts_mono(pieces, i, j - 1);
    }
}

/// Bounds the running counts by the prefix length, under the per-piece
/// static rules.
proof fn lemma_counts_cap(pieces: Seq<TrackPiece>, j: int)
    requires
        0 <= j,
        forall|i: int| 0 <= i < j ==> piece_ok(#[trigger] pieces[i], layer_after(pieces, i), i),
    ensures
        0 <= sections_up_to(pieces, j) <= j * (QUADS_MAX as int),
        0 <= checkpoints_up_to(pieces, j) <= j,
        0 <= gates_up_to(pieces, j) <= j,
    decreases j,
{
    if j > 0 {
        lemma_counts_cap(pieces, j - 1);
        assert(piece_ok(pieces[j - 1], layer_after(pieces, j - 1), j - 1));
        assert(piece_sections(pieces[j - 1]) <= QUADS_MAX as int);
    }
}

/// The cursor's layer always equals the statically folded layer.
proof fn lemma_cursor_layer(d: TrackData, i: int)
    requires
        0 <= i,
    ensures
        cursor_after(d, i).layer == layer_after(d.pieces@, i),
    decreases i,
{
    if i > 0 {
        lemma_cursor_layer(d, i - 1);
    }
}

/// Derives the plain in-range requirement of the index from each
/// category's segment rule.
proof fn lemma_boundary_in_range(s: Seq<Segment>)
    requires
        all_boundary_ok(s),
    ensures
        forall|j: int| 0 <= j < s.len() ==> (#[trigger] s[j]).in_range(),
{
    assert forall|j: int| 0 <= j < s.len() implies (#[trigger] s[j]).in_range() by {
        assert(boundary_seg_ok(s[j]));
    }
}

proof fn lemma_checkpoint_in_range(s: Seq<Segment>, count: int)
    requires
        all_checkpoint_ok(s, count),
    ensures
        forall|j: int| 0 <= j < s.len() ==> (#[trigger] s[j]).in_range(),
{
    assert forall|j: int| 0 <= j < s.len() implies (#[trigger] s[j]).in_range() by {
        assert(checkpoint_seg_ok(s[j], count));
    }
}

proof fn lemma_transition_in_range(s: Seq<Segment>, l: int)
    requires
        all_transition_ok(s, l),
    ensures
        forall|j: int| 0 <= j < s.len() ==> (#[trigger] s[j]).in_range(),
{
    assert forall|j: int| 0 <= j < s.len() implies (#[trigger] s[j]).in_range() by {
        assert(transition_seg_ok(s[j], l));
    }
}

/// Checks the static validity of the authored data.
fn check_track_data(d: &TrackData) -> (r: bool)
    ensures
        r == track_data_ok(*d),
{
    let n = d.pieces.len();
    if !(2 <= n && n <= PIECES_MAX) {
        return false;
    }
    match d.pieces[0] {
        TrackPiece::Start => {},
        _ => {
            return false;
        },
    }
    match d.pieces[n - 1] {
        TrackPiece::Finish => {},
        _ => {
            return false;
        },
    }
    if !(0 < d.num_segments && d.num_segments <= LAT_MAX) {
        return false;
    }
    if !(-POS_MAX <= d.initial_position.x && d.initial_position.x <= POS_MAX
        && -POS_MAX <= d.initial_position.y && d.initial_position.y <= POS_MAX) {
        return false;
    }
    let fx = d.initial_forward.x;
    let fy = d.initial_forward.y;
    if !(-DIR_ONE <= fx && fx <= DIR_ONE && -DIR_ONE <= fy && fy <= DIR_ONE) {
        return false;
    }
    proof {
        lemma_mul_bound(fx as int, fx as int, DIR_ONE as int, DIR_ONE as int);
        lemma_mul_bound(fy as int, fy as int, DIR_ONE as int, DIR_ONE as int);
    }
    let norm2: i128 = (fx as i128) * (fx as i128) + (fy as i128) * (fy as i128);
    if !((DIR_SQ - UNIT_NORM_EPS) as i128 <= norm2 && norm2 <= (DIR_SQ + UNIT_NORM_EPS) as i128) {
        return false;
    }
    if !(-BOUND_MAX <= d.initial_left && d.initial_left < d.initial_right && d.initial_right
        <= BOUND_MAX) {
        return false;
    }
    let mut layer: u8 = 0;
    let mut cp: u32 = 0;
    let mut i: usize = 0;
    while i < n
        invariant
            n == d.pieces@.len(),
            2 <= n <= PIECES_MAX,
            i <= n,
            layer as int == layer_after(d.pieces@, i as int),
            cp as int == checkpoints_up_to(d.pieces@, i as int),
            cp <= i,
            forall|j: int| 0 <= j < i ==> piece_ok(
                #[trigger] d.pieces@[j],
                layer_after(d.pieces@, j),
                j,
            ),
        decreases n - i,
    {
        let pc = d.pieces[i];
        match pc {
            TrackPiece::Start => {
                if i != 0 {
                    return false;
                }
                cp = cp + 1;
            },
            TrackPiece::Straight(s) => {
                if !(0 < s.num_quads && s.num_quads <= QUADS_MAX) {
                    return false;
                }
                if !(0 < s.length && s.length <= COORD_MAX) {
                    return false;
                }
                if !(-BOUND_MAX <= s.left && s.left < s.right && s.right <= BOUND_MAX) {
                    return false;
                }
            },
            TrackPiece::Corner(c) => {
                if !(0 < c.num_quads && c.num_quads <= QUADS_MAX) {
                    return false;
                }
                if !(-COORD_MAX <= c.radius && c.radius <= COORD_MAX) {
                    return false;
                }
                if !(0 < c.angle && c.angle <= ANGLE_MAX) {
                    return false;
                }
                if !(-DIR_ONE <= c.cos_step && c.cos_step <= DIR_ONE) {
                    return false;
                }
                if !(-DIR_ONE <= c.sin_step && c.sin_step <= DIR_ONE) {
                    return false;
                }
            },
            TrackPiece::Checkpoint => {
                cp = cp + 1;
            },
            TrackPiece::Layer(l) => {
                if !(l < 4 && l != layer) {
                    return false;
                }
                layer = l;
            },
            TrackPiece::Finish => {},
        }
        i = i + 1;
    }
    if cp > 255 {
        return false;
    }
    true
}

/// Interprets the piece sequence into a full `Track`.
///
/// Statically malformed data is refused as `BadData`, exactly when
/// `track_data_ok` fails.  Geometry that leaves the supported coordinate
/// range is refused as `OutOfRange`.  A built track's meshes, counts,
/// total length and loop flag follow the `Cursor` recurrence exactly.
#[verifier::rlimit(60)]
pub fn prepare_track(d: &TrackData) -> (r: Result<Track, TrackError>)
    ensures
        r == Err::<Track, TrackError>(TrackError::BadData) <==> !track_data_ok(*d),
        track_data_ok(*d) ==> (r is Ok <==> range_ok(*d)),
        r matches Ok(t) ==> {
            let pieces = d.pieces@;
            let n = pieces.len() as int;
            &&& track_wf(t)
            &&& t.track.positions@.len() == sections_up_to(pieces, n) * (d.num_segments + 1)
            &&& t.track.uvs@.len() == t.track.positions@.len()
            &&& t.track.pqs@.len() == t.track.positions@.len()
            &&& t.track.triangles@.len() == (sections_up_to(pieces, n) - 1) * d.num_segments * 6
            &&& t.track.triangles@.len() % 3 == 0
            &&& t.checkpoint.positions@.len() == gates_up_to(pieces, n) * 4
            &&& t.checkpoint.triangles@.len() == gates_up_to(pieces, n) * 6
            &&& t.checkpoint.triangles@.len() % 3 == 0
            &&& t.total_length == cursor_after(*d, n).length
            &&& t.is_looping == loop_closed(*d)
            &&& t.checkpoint_count == checkpoints_up_to(pieces, n)
            &&& t.initial_position == d.initial_position
            &&& t.initial_forward == d.initial_forward
            &&& t.initial_left == d.initial_left
            &&& t.initial_right == d.initial_right
        },
{
    if !check_track_data(d) {
        return Err(TrackError::BadData);
    }
    let n = d.pieces.len();
    let ghost pieces = d.pieces@;
    let mut b = Builder::new(d.num_segments, d.initial_position, d.initial_forward);
    let mut pos_c: Vec2i = d.initial_position;
    let mut fwd_c: Vec2i = d.initial_forward;
    let mut left_c: i64 = d.initial_left;
    let mut right_c: i64 = d.initial_right;
    let mut len_c: i64 = 0;
    let mut layer_c: u8 = 0;
    let mut looping: bool = false;
    let mut i: usize = 0;
    while i < n
        invariant
            track_data_ok(*d),
            n == pieces.len(),
            pieces == d.pieces@,
            i <= n,
            b.inv(),
            b.nseg == d.num_segments,
            b.p0 == d.initial_position,
            b.f0 == d.initial_forward,
            b.sections as int == sections_up_to(pieces, i as int),
            b.gates as int == gates_up_to(pieces, i as int),
            b.cp_count as int == checkpoints_up_to(pieces, i as int),
            pos_c.x as int == cursor_after(*d, i as int).px,
            pos_c.y as int == cursor_after(*d, i as int).py,
            fwd_c.x as int == cursor_after(*d, i as int).fx,
            fwd_c.y as int == cursor_after(*d, i as int).fy,
            left_c as int == cursor_after(*d, i as int).left,
            right_c as int == cursor_after(*d, i as int).right,
            len_c as int == cursor_after(*d, i as int).length,
            layer_c as int == cursor_after(*d, i as int).layer,
            looping == looping_after(*d, i as int),
            forall|j: int| 0 <= j < i ==> #[trigger] piece_range_ok(
                cursor_after(*d, j),
                pieces[j],
            ),
            -POS_MAX <= pos_c.x <= POS_MAX,
            -POS_MAX <= pos_c.y <= POS_MAX,
            -FWD_MAX <= fwd_c.x <= FWD_MAX,
            -FWD_MAX <= fwd_c.y <= FWD_MAX,
            -BOUND_MAX <= left_c <= BOUND_MAX,
            -BOUND_MAX <= right_c <= BOUND_MAX,
            0 <= len_c <= i * PIECE_LEN_MAX,
            layer_c < 4,
        decreases n - i,
    {
        let pc = d.pieces[i];
        proof {
            assert(piece_ok(pc, layer_after(pieces, i as int), i as int));
            assert(cursor_after(*d, i as int + 1) == piece_step(cursor_after(*d, i as int), pc));
            lemma_counts_cap(pieces, n as int);
            lemma_counts_mono(pieces, i as int + 1, n as int);
            assert(sections_up_to(pieces, i as int + 1) == sections_up_to(pieces, i as int)
                + piece_sections(pc));
            assert(checkpoints_up_to(pieces, i as int + 1) == checkpoints_up_to(pieces, i as int)
                + crate::piece::piece_checkpoints(pc));
            assert(n * (QUADS_MAX as int) <= PIECES_MAX * (QUADS_MAX as int)) by (nonlinear_arith)
                requires
                    n <= PIECES_MAX,
            ;
        }
        match pc {
            TrackPiece::Start => {
                b.push_track_section(pos_c, fwd_c, left_c, right_c, len_c, layer_c);
                let _idx = b.push_checkpoint_segment(pos_c, fwd_c, left_c, right_c, layer_c);
            },
            TrackPiece::Straight(sd) => {
                let nq = sd.num_quads;
                let mut pos_last: Vec2i = pos_c;
                let mut k: u32 = 1;
                while k <= nq
                    invariant
                        track_data_ok(*d),
                        n == pieces.len(),
                        pieces == d.pieces@,
                        i < n,
                        pieces[i as int] == pc,
                        pc == TrackPiece::Straight(sd),
                        piece_ok(pc, layer_after(pieces, i as int), i as int),
                        1 <= k <= nq + 1,
                        nq == sd.num_quads,
                        b.inv(),
                        b.nseg == d.num_segments,
                        b.p0 == d.initial_position,
                        b.f0 == d.initial_forward,
                        b.sections as int == sections_up_to(pieces, i as int) + k - 1,
                        b.gates as int == gates_up_to(pieces, i as int),
                        b.cp_count as int == checkpoints_up_to(pieces, i as int),
                        sections_up_to(pieces, i as int) + nq == sections_up_to(
                            pieces,
                            i as int + 1,
                        ),
                        sections_up_to(pieces, i as int + 1) <= sections_up_to(pieces, n as int),
                        sections_up_to(pieces, n as int) <= SECTIONS_CAP,
                        -POS_MAX <= pos_c.x <= POS_MAX,
                        -POS_MAX <= pos_c.y <= POS_MAX,
                        -FWD_MAX <= fwd_c.x <= FWD_MAX,
                        -FWD_MAX <= fwd_c.y <= FWD_MAX,
                        -BOUND_MAX <= left_c <= BOUND_MAX,
                        -BOUND_MAX <= right_c <= BOUND_MAX,
                        0 <= len_c <= i * PIECE_LEN_MAX,
                        i * PIECE_LEN_MAX + PIECE_LEN_MAX <= LEN_MAX,
                        layer_c < 4,
                        pos_c.x as int == cursor_after(*d, i as int).px,
                        pos_c.y as int == cursor_after(*d, i as int).py,
                        fwd_c.x as int == cursor_after(*d, i as int).fx,
                        fwd_c.y as int == cursor_after(*d, i as int).fy,
                        forall|j: int| 1 <= j < k ==> #[trigger] straight_step_ok(
                            cursor_after(*d, i as int),
                            sd,
                            j,
                        ),
                        k >= 2 ==> {
                            &&& pos_last.x as int == pos_c.x + tdiv(
                                fwd_c.x as int * tdiv((k - 1) * sd.length, nq as int),
                                DIR_ONE as int,
                            )
                            &&& pos_last.y as int == pos_c.y + tdiv(
                                fwd_c.y as int * tdiv((k - 1) * sd.length, nq as int),
                                DIR_ONE as int,
                            )
                            &&& -POS_MAX <= pos_last.x <= POS_MAX
                            &&& -POS_MAX <= pos_last.y <= POS_MAX
                        },
                        k == 1 ==> pos_last == pos_c,
                    decreases nq + 1 - k,
                {
                    proof {
                        assert((k as int) * (sd.length as int) >= 0) by (nonlinear_arith)
                            requires
                                k >= 0,
                                sd.length >= 0,
                        ;
                        assert((k as int) * (sd.length as int) <= (nq as int) * (sd.length as int))
                            by (nonlinear_arith)
                            requires
                                k <= nq,
                                sd.length >= 0,
                        ;
                        vstd::arithmetic::div_mod::lemma_div_pos_is_pos(
                            (k as int) * (sd.length as int),
                            nq as int,
                        );
                        vstd::arithmetic::div_mod::lemma_div_is_ordered(
                            (k as int) * (sd.length as int),
                            (nq as int) * (sd.length as int),
                            nq as int,
                        );
                        vstd::arithmetic::div_mod::lemma_div_multiples_vanish(
                            sd.length as int,
                            nq as int,
                        );
                    }
                    proof {
                        lemma_mul_bound(
                            k as int,
                            sd.length as int,
                            QUADS_MAX as int,
                            COORD_MAX as int,
                        );
                    }
                    let len_k: i64 = ((k as i64) * sd.length) / (nq as i64);
                    proof {
                        assert(len_k as int == tdiv(k * sd.length, nq as int));
                    }
                    let pk = match advance_point(pos_c, fwd_c, len_k) {
                        Some(p) => p,
                        None => {
                            proof {
                                assert(!straight_step_ok(cursor_after(*d, i as int), sd, k as int));
                                assert(!piece_range_ok(cursor_after(*d, i as int), pc));
                                assert(!range_ok(*d));
                            }
                            return Err(TrackError::OutOfRange);
                        },
                    };
                    proof {
                        assert(straight_step_ok(cursor_after(*d, i as int), sd, k as int));
                    }
                    let lk = mix_bound(left_c, sd.left, k, nq);
                    let rk = mix_bound(right_c, sd.right, k, nq);
                    b.push_track_section(pk, fwd_c, lk, rk, len_c + len_k, layer_c);
                    pos_last = pk;
                    k = k + 1;
                }
                proof {
                    assert((nq as int) * (sd.length as int) == (sd.length as int) * (nq as int))
                        by (nonlinear_arith);
                    lemma_tdiv_exact(sd.length as int, nq as int);
                    assert(tdiv((nq as int) * (sd.length as int), nq as int) == sd.length as int);
                    assert(piece_range_ok(cursor_after(*d, i as int), pc));
                }
                pos_c = pos_last;
                left_c = sd.left;
                right_c = sd.right;
                len_c = len_c + sd.length;
            },
            TrackPiece::Corner(cd) => {
                let nq = cd.num_quads;
                let ar: i64 = if cd.radius < 0 {
                    -cd.radius
                } else {
                    cd.radius
                };
                let mut rc: i64 = DIR_ONE;
                let mut rs: i64 = 0;
                let mut pos_last: Vec2i = pos_c;
                let mut fwd_last: Vec2i = fwd_c;
                let mut k: u32 = 1;
                proof {
                    assert(rc as int == rot_c(cd, 0));
                    assert(rs as int == rot_s(cd, 0));
                }
                while k <= nq
                    invariant
                        track_data_ok(*d),
                        n == pieces.len(),
                        pieces == d.pieces@,
                        i < n,
                        pieces[i as int] == pc,
                        pc == TrackPiece::Corner(cd),
                        piece_ok(pc, layer_after(pieces, i as int), i as int),
                        1 <= k <= nq + 1,
                        nq == cd.num_quads,
                        ar as int == abs(cd.radius as int),
                        0 <= ar <= COORD_MAX,
                        b.inv(),
                        b.nseg == d.num_segments,
                        b.p0 == d.initial_position,
                        b.f0 == d.initial_forward,
                        b.sections as int == sections_up_to(pieces, i as int) + k - 1,
                        b.gates as int == gates_up_to(pieces, i as int),
                        b.cp_count as int == checkpoints_up_to(pieces, i as int),
                        sections_up_to(pieces, i as int) + nq == sections_up_to(
                            pieces,
                            i as int + 1,
                        ),
                        sections_up_to(pieces, i as int + 1) <= sections_up_to(pieces, n as int),
                        sections_up_to(pieces, n as int) <= SECTIONS_CAP,
                        -POS_MAX <= pos_c.x <= POS_MAX,
                        -POS_MAX <= pos_c.y <= POS_MAX,
                        -FWD_MAX <= fwd_c.x <= FWD_MAX,
                        -FWD_MAX <= fwd_c.y <= FWD_MAX,
                        -BOUND_MAX <= left_c <= BOUND_MAX,
                        -BOUND_MAX <= right_c <= BOUND_MAX,
                        0 <= len_c <= i * PIECE_LEN_MAX,
                        i * PIECE_LEN_MAX + PIECE_LEN_MAX <= LEN_MAX,
                        layer_c < 4,
                        rc as int == rot_c(cd, k - 1),
                        rs as int == rot_s(cd, k - 1),
                        -DIR_ONE <= rc <= DIR_ONE,
                        -DIR_ONE <= rs <= DIR_ONE,
                        pos_c.x as int == cursor_after(*d, i as int).px,
                        pos_c.y as int == cursor_after(*d, i as int).py,
                        fwd_c.x as int == cursor_after(*d, i as int).fx,
                        fwd_c.y as int == cursor_after(*d, i as int).fy,
                        forall|j: int| 1 <= j < k ==> #[trigger] corner_step_ok(
                            cursor_after(*d, i as int),
                            cd,
                            j,
                        ),
                        k >= 2 ==> {
                            &&& pos_last.x as int == cpos_x(
                                pos_c.x as int,
                                fwd_c.x as int,
                                fwd_c.y as int,
                                cd.radius as int,
                                rot_c(cd, k - 1),
                                rot_s(cd, k - 1),
                            )
                            &&& pos_last.y as int == cpos_y(
                                pos_c.y as int,
                                fwd_c.x as int,
                                fwd_c.y as int,
                                cd.radius as int,
                                rot_c(cd, k - 1),
                                rot_s(cd, k - 1),
                            )
                            &&& fwd_last.x as int == cfwd_x(
                                fwd_c.x as int,
                                fwd_c.y as int,
                                corner_sign(cd.radius as int),
                                rot_c(cd, k - 1),
                                rot_s(cd, k - 1),
                            )
                            &&& fwd_last.y as int == cfwd_y(
                                fwd_c.x as int,
                                fwd_c.y as int,
                                corner_sign(cd.radius as int),
                                rot_c(cd, k - 1),
                                rot_s(cd, k - 1),
                            )
                            &&& -POS_MAX <= pos_last.x <= POS_MAX
                            &&& -POS_MAX <= pos_last.y <= POS_MAX
                            &&& -FWD_MAX <= fwd_last.x <= FWD_MAX
                            &&& -FWD_MAX <= fwd_last.y <= FWD_MAX
                        },
                        k == 1 ==> pos_last == pos_c && fwd_last == fwd_c,
                    decreases nq + 1 - k,
                {
                    let (nc, ns) = match rot_step(rc, rs, cd.cos_step, cd.sin_step) {
                        Some(v) => v,
                        None => {
                            proof {
                                assert(!corner_step_ok(cursor_after(*d, i as int), cd, k as int));
                                assert(!piece_range_ok(cursor_after(*d, i as int), pc));
                                assert(!range_ok(*d));
                            }
                            return Err(TrackError::OutOfRange);
                        },
                    };
                    proof {
                        assert(nc as int == rot_c(cd, k as int));
                        assert(ns as int == rot_s(cd, k as int));
                    }
                    rc = nc;
                    rs = ns;
                    let pk = match corner_point(pos_c, fwd_c, cd.radius, rc, rs) {
                        Some(p) => p,
                        None => {
                            proof {
                                assert(!corner_step_ok(cursor_after(*d, i as int), cd, k as int));
                                assert(!piece_range_ok(cursor_after(*d, i as int), pc));
                                assert(!range_ok(*d));
                            }
                            return Err(TrackError::OutOfRange);
                        },
                    };
                    let fk = match corner_fwd(fwd_c, cd.radius, rc, rs) {
                        Some(f) => f,
                        None => {
                            proof {
                                assert(!corner_step_ok(cursor_after(*d, i as int), cd, k as int));
                                assert(!piece_range_ok(cursor_after(*d, i as int), pc));
                                assert(!range_ok(*d));
                            }
                            return Err(TrackError::OutOfRange);
                        },
                    };
                    proof {
                        assert(corner_step_ok(cursor_after(*d, i as int), cd, k as int));
                    }
                    proof {
                        assert((k as int) * (cd.angle as int) >= 0) by (nonlinear_arith)
                            requires
                                k >= 0,
                                cd.angle >= 0,
                        ;
                        assert((k as int) * (cd.angle as int) <= (nq as int) * (cd.angle as int))
                            by (nonlinear_arith)
                            requires
                                k <= nq,
                                cd.angle >= 0,
                        ;
                        vstd::arithmetic::div_mod::lemma_div_pos_is_pos(
                            (k as int) * (cd.angle as int),
                            nq as int,
                        );
                        vstd::arithmetic::div_mod::lemma_div_is_ordered(
                            (k as int) * (cd.angle as int),
                            (nq as int) * (cd.angle as int),
                            nq as int,
                        );
                        vstd::arithmetic::div_mod::lemma_div_multiples_vanish(
                            cd.angle as int,
                            nq as int,
                        );
                    }
                    proof {
                        lemma_mul_bound(
                            k as int,
                            cd.angle as int,
                            QUADS_MAX as int,
                            ANGLE_MAX as int,
                        );
                    }
                    let ang_k: i64 = ((k as i64) * cd.angle) / (nq as i64);
                    proof {
                        lemma_mul_bound(ar as int, ang_k as int, COORD_MAX as int, ANGLE_MAX as int);
                        vstd::arithmetic::div_mod::lemma_div_pos_is_pos(
                            (ar as int) * (ang_k as int),
                            ANGLE_ONE as int,
                        );
                        vstd::arithmetic::div_mod::lemma_div_is_ordered(
                            (ar as int) * (ang_k as int),
                            COORD_MAX as int * ANGLE_MAX as int,
                            ANGLE_ONE as int,
                        );
                    }
                    let dlen: i64 = (ar * ang_k) / ANGLE_ONE;
                    b.push_track_section(pk, fk, left_c, right_c, len_c + dlen, layer_c);
                    pos_last = pk;
                    fwd_last = fk;
                    k = k + 1;
                }
                pos_c = pos_last;
                fwd_c = fwd_last;
                proof {
                    assert(piece_range_ok(cursor_after(*d, i as int), pc));
                    lemma_mul_bound(ar as int, cd.angle as int, COORD_MAX as int, ANGLE_MAX as int);
                    vstd::arithmetic::div_mod::lemma_div_pos_is_pos(
                        (ar as int) * (cd.angle as int),
                        ANGLE_ONE as int,
                    );
                    vstd::arithmetic::div_mod::lemma_div_is_ordered(
                        (ar as int) * (cd.angle as int),
                        COORD_MAX as int * ANGLE_MAX as int,
                        ANGLE_ONE as int,
                    );
                }
                let dlen_total: i64 = (ar * cd.angle) / ANGLE_ONE;
                len_c = len_c + dlen_total;
            },
            TrackPiece::Checkpoint => {
                proof {
                    lemma_counts_cap(pieces, i as int);
                }
                b.push_checkpoint_gate(pos_c, fwd_c, left_c, right_c);
                let _idx = b.push_checkpoint_segment(pos_c, fwd_c, left_c, right_c, layer_c);
            },
            TrackPiece::Layer(l) => {
                proof {
                    lemma_cursor_layer(*d, i as int);
                }
                b.push_transition_segment(pos_c, fwd_c, left_c, right_c, layer_c, l);
                layer_c = l;
            },
            TrackPiece::Finish => {
                let dpx: i64 = pos_c.x - d.initial_position.x;
                let dpy: i64 = pos_c.y - d.initial_position.y;
                let dfx: i64 = fwd_c.x - d.initial_forward.x;
                let dfy: i64 = fwd_c.y - d.initial_forward.y;
                let dl: i64 = left_c - d.initial_left;
                let dr: i64 = right_c - d.initial_right;
                proof {
                    lemma_mul_bound(dpx as int, dpx as int, 2 * POS_MAX, 2 * POS_MAX);
                    lemma_mul_bound(dpy as int, dpy as int, 2 * POS_MAX, 2 * POS_MAX);
                    lemma_mul_bound(dfx as int, dfx as int, 2 * FWD_MAX, 2 * FWD_MAX);
                    lemma_mul_bound(dfy as int, dfy as int, 2 * FWD_MAX, 2 * FWD_MAX);
                }
                let pos_err: i128 = (dpx as i128) * (dpx as i128) + (dpy as i128) * (dpy as i128);
                let dir_err: i128 = (dfx as i128) * (dfx as i128) + (dfy as i128) * (dfy as i128);
                let left_err: i64 = if dl < 0 {
                    -dl
                } else {
                    dl
                };
                let right_err: i64 = if dr < 0 {
                    -dr
                } else {
                    dr
                };
                looping = pos_err < (LOOP_EPS_POS as i128) * (LOOP_EPS_POS as i128) && dir_err < (
                LOOP_EPS_DIR as i128) * (LOOP_EPS_DIR as i128) && left_err < LOOP_EPS_BOUND
                    && right_err < LOOP_EPS_BOUND && len_c > 0 && layer_c == 0;
                proof {
                    assert(looping == finish_closed(*d, cursor_after(*d, i as int)));
                }
            },
        }
        proof {
            assert(piece_range_ok(cursor_after(*d, i as int), pc));
        }
        i = i + 1;
    }
    proof {
        assert(loop_closed(*d) == looping_after(*d, n as int));
        assert(range_ok(*d));
    }
    let cp_total = b.cp_count;
    let total_length = len_c;
    proof {
        lemma_counts_mono(pieces, 1, n as int);
        assert(sections_up_to(pieces, 0) == 0);
        assert(sections_up_to(pieces, 1) == piece_sections(pieces[0]));
        assert(pieces[0] is Start);
        assert(sections_up_to(pieces, n as int) >= 1);
        lemma_boundary_in_range(b.boundary_of(0));
        lemma_boundary_in_range(b.boundary_of(1));
        lemma_boundary_in_range(b.boundary_of(2));
        lemma_boundary_in_range(b.boundary_of(3));
        lemma_checkpoint_in_range(b.cps_of(0), b.cp_count as int);
        lemma_checkpoint_in_range(b.cps_of(1), b.cp_count as int);
        lemma_checkpoint_in_range(b.cps_of(2), b.cp_count as int);
        lemma_checkpoint_in_range(b.cps_of(3), b.cp_count as int);
        lemma_transition_in_range(b.trans_of(0), 0);
        lemma_transition_in_range(b.trans_of(1), 1);
        lemma_transition_in_range(b.trans_of(2), 2);
        lemma_transition_in_range(b.trans_of(3), 3);
    }
    let ghost bs = b;
    let Builder {
        positions,
        uvs,
        pqs,
        triangles,
        gate_positions,
        gate_triangles,
        boundary0,
        boundary1,
        boundary2,
        boundary3,
        cps0,
        cps1,
        cps2,
        cps3,
        trans0,
        trans1,
        trans2,
        trans3,
        sections,
        gates,
        cp_count: _,
        nseg: _,
        p0: _,
        f0: _,
    } = b;
    let ghost sections_g = sections;
    let ghost gates_g = gates;
    let c0 = Collision {
        track_kdtree: SegTree::build(boundary0),
        checkpoint_kdtree: SegTree::build(cps0),
        transition_kdtree: SegTree::build(trans0),
    };
    let c1 = Collision {
        track_kdtree: SegTree::build(boundary1),
        checkpoint_kdtree: SegTree::build(cps1),
        transition_kdtree: SegTree::build(trans1),
    };
    let c2 = Collision {
        track_kdtree: SegTree::build(boundary2),
        checkpoint_kdtree: SegTree::build(cps2),
        transition_kdtree: SegTree::build(trans2),
    };
    let c3 = Collision {
        track_kdtree: SegTree::build(boundary3),
        checkpoint_kdtree: SegTree::build(cps3),
        transition_kdtree: SegTree::build(trans3),
    };
    let mut collisions: Vec<Collision> = Vec::new();
    collisions.push(c0);
    collisions.push(c1);
    collisions.push(c2);
    collisions.push(c3);
    let track = Track {
        track: TrackMesh { positions, uvs, pqs, triangles },
        checkpoint: GateMesh { positions: gate_positions, triangles: gate_triangles },
        total_length,
        is_looping: looping,
        layer_to_collisions: collisions,
        checkpoint_count: cp_total,
        initial_position: d.initial_position,
        initial_forward: d.initial_forward,
        initial_left: d.initial_left,
        initial_right: d.initial_right,
    };
    proof {
        let nseg = d.num_segments as int;
        let s = sections_up_to(pieces, n as int);
        assert(s >= 1);
        assert(track.track.triangles@.len() == ((s - 1) * nseg * 2) * 3) by (nonlinear_arith)
            requires
                track.track.triangles@.len() == (s - 1) * nseg * 6,
        ;
        vstd::arithmetic::div_mod::lemma_mod_multiples_basic((s - 1) * nseg * 2, 3);
        assert(track.checkpoint.triangles@.len() == (gates_up_to(pieces, n as int) * 2) * 3)
            by (nonlinear_arith)
            requires
                track.checkpoint.triangles@.len() == gates_up_to(pieces, n as int) * 6,
        ;
        vstd::arithmetic::div_mod::lemma_mod_multiples_basic(
            gates_up_to(pieces, n as int) * 2,
            3,
        );
    }
    Ok(track)
}

} // verus!
