//! Oriented segments in the ground plane: the alignment (orientation)
//! predicate, proper segment intersection, the side test used for
//! boundary clipping, and reflection across a segment's line.
//!
//! Coordinates are exact integers, so the orientation predicate is exact:
//! a triplet is collinear exactly when its cross product is zero.

use vstd::prelude::*;
use crate::num::{
    COORD_MAX, lemma_mul_bound, lemma_tdiv_bound, lemma_two_mul_le_squares, tdiv, tdiv128,
};

verus! {

/// Tag carried by transient query segments, never by indexed ones.
pub const TAG_QUERY: u8 = 255;

/// A point or vector in the ground plane.
#[derive(Clone, Copy, PartialEq, Eq, Structural, Debug)]
pub struct Vec2i {
    pub x: i64,
    pub y: i64,
}

impl Vec2i {
    /// Both coordinates are within the bound the geometry accepts.
    pub open spec fn in_range(self) -> bool {
        &&& -COORD_MAX <= self.x <= COORD_MAX
        &&& -COORD_MAX <= self.y <= COORD_MAX
    }

    pub fn new(x: i64, y: i64) -> (r: Self)
        ensures
            r == (Vec2i { x, y }),
    {
        Vec2i { x, y }
    }

    /// Whether both coordinates are within the supported bound.
    pub fn is_in_range(&self) -> (r: bool)
        ensures
            r == self.in_range(),
    {
        -COORD_MAX <= self.x && self.x <= COORD_MAX && -COORD_MAX <= self.y && self.y <= COORD_MAX
    }
}

/// Which side of the directed line through two points a third point lies on.
#[derive(Clone, Copy, PartialEq, Eq, Structural, Debug)]
pub enum Align {
    Left,
    Collinear,
    Right,
}

/// Cross product of (b - a) and (c - a).
pub open spec fn cross(a: Vec2i, b: Vec2i, c: Vec2i) -> int {
    (b.x - a.x) * (c.y - a.y) - (b.y - a.y) * (c.x - a.x)
}

/// Alignment of c relative to the directed line a -> b, by the sign of the
/// cross product.
pub open spec fn align_spec(a: Vec2i, b: Vec2i, c: Vec2i) -> Align {
    if cross(a, b, c) > 0 {
        Align::Right
    } else if cross(a, b, c) < 0 {
        Align::Left
    } else {
        Align::Collinear
    }
}

impl Align {
    /// Computes the alignment of `zz` relative to the line `xx` -> `yy`.
    pub fn from_triplet(xx: &Vec2i, yy: &Vec2i, zz: &Vec2i) -> (r: Align)
        requires
            xx.in_range(),
            yy.in_range(),
            zz.in_range(),
        ensures
            r == align_spec(*xx, *yy, *zz),
    {
        let xy_x: i128 = yy.x as i128 - xx.x as i128;
        let xy_y: i128 = yy.y as i128 - xx.y as i128;
        let xz_x: i128 = zz.x as i128 - xx.x as i128;
        let xz_y: i128 = zz.y as i128 - xx.y as i128;
        proof {
            lemma_mul_bound(xy_x as int, xz_y as int, 2 * COORD_MAX, 2 * COORD_MAX);
            lemma_mul_bound(xy_y as int, xz_x as int, 2 * COORD_MAX, 2 * COORD_MAX);
        }
        let cc: i128 = xy_x * xz_y - xy_y * xz_x;
        if cc > 0 {
            Align::Right
        } else if cc < 0 {
            Align::Left
        } else {
            Align::Collinear
        }
    }
}

/// An oriented segment with a small tag: 0/1 for the left/right boundary
/// side, a checkpoint index, or a transition's target layer; `TAG_QUERY`
/// marks a transient query segment.
#[derive(Clone, Copy, PartialEq, Eq, Structural, Debug)]
pub struct Segment {
    pub aa: Vec2i,
    pub bb: Vec2i,
    pub ii: u8,
}

impl Default for Segment {
    /// The zero segment with the query tag.
    fn default() -> (r: Self)
        ensures
            r.aa == (Vec2i { x: 0, y: 0 }),
            r.bb == (Vec2i { x: 0, y: 0 }),
            r.ii == TAG_QUERY,
    {
        Segment { aa: Vec2i { x: 0, y: 0 }, bb: Vec2i { x: 0, y: 0 }, ii: TAG_QUERY }
    }
}

/// Squared length of the segment's direction: the denominator of the exact
/// reflection across its line.
pub open spec fn mir_den(s: Segment) -> int {
    let dx = s.bb.x - s.aa.x;
    let dy = s.bb.y - s.aa.y;
    dx * dx + dy * dy
}

/// Numerator of the x displacement of the reflection of p across s's line.
pub open spec fn mir_num_x(s: Segment, p: Vec2i) -> int {
    let dx = s.bb.x - s.aa.x;
    let dy = s.bb.y - s.aa.y;
    (dx * dx - dy * dy) * (p.x - s.aa.x) + 2 * (dx * dy) * (p.y - s.aa.y)
}

/// Numerator of the y displacement of the reflection of p across s's line.
pub open spec fn mir_num_y(s: Segment, p: Vec2i) -> int {
    let dx = s.bb.x - s.aa.x;
    let dy = s.bb.y - s.aa.y;
    2 * (dx * dy) * (p.x - s.aa.x) + (dy * dy - dx * dx) * (p.y - s.aa.y)
}

/// x coordinate, scaled by `scale * mir_den(s)`, of the exact reflection
/// across s's line of the point whose coordinates are (px, py) scaled by
/// `scale`.
pub open spec fn refl_x(s: Segment, px: int, py: int, scale: int) -> int {
    let dx = s.bb.x - s.aa.x;
    let dy = s.bb.y - s.aa.y;
    (dx * dx - dy * dy) * (px - scale * s.aa.x) + 2 * (dx * dy) * (py - scale * s.aa.y) + scale * (dx
        * dx + dy * dy) * s.aa.x
}

/// y coordinate of the exact scaled reflection; see `refl_x`.
pub open spec fn refl_y(s: Segment, px: int, py: int, scale: int) -> int {
    let dx = s.bb.x - s.aa.x;
    let dy = s.bb.y - s.aa.y;
    2 * (dx * dy) * (px - scale * s.aa.x) + (dy * dy - dx * dx) * (py - scale * s.aa.y) + scale * (dx
        * dx + dy * dy) * s.aa.y
}

/// The reflection of `p` across `s`'s line, with each coordinate's exact
/// rational value rounded toward zero.
pub open spec fn mirror_spec(s: Segment, p: Vec2i) -> Vec2i {
    Vec2i {
        x: (s.aa.x + tdiv(mir_num_x(s, p), mir_den(s))) as i64,
        y: (s.aa.y + tdiv(mir_num_y(s, p), mir_den(s))) as i64,
    }
}

impl Segment {
    /// Both endpoints are within the coordinate bound.
    pub open spec fn in_range(self) -> bool {
        self.aa.in_range() && self.bb.in_range()
    }

    /// The endpoints differ, so the segment spans a unique line.
    pub open spec fn nondegenerate(self) -> bool {
        self.aa != self.bb
    }

    /// A transient query segment between two points.
    pub fn from_endpoints(aa: Vec2i, bb: Vec2i) -> (r: Self)
        ensures
            r == (Segment { aa, bb, ii: TAG_QUERY }),
    {
        Segment { aa, bb, ii: TAG_QUERY }
    }

    /// Proper intersection: each segment's endpoints lie on different
    /// sides of the other's line.  Collinear overlap is not distinguished
    /// from non-intersection.
    pub open spec fn intersects_spec(self, qq: Segment) -> bool {
        &&& align_spec(self.aa, self.bb, qq.aa) != align_spec(self.aa, self.bb, qq.bb)
        &&& align_spec(qq.aa, qq.bb, self.aa) != align_spec(qq.aa, qq.bb, self.bb)
    }

    /// Whether the two segments properly intersect.
    pub fn intersects(&self, qq: &Segment) -> (r: bool)
        requires
            self.in_range(),
            qq.in_range(),
        ensures
            r == self.intersects_spec(*qq),
    {
        let qa = Align::from_triplet(&self.aa, &self.bb, &qq.aa);
        let qb = Align::from_triplet(&self.aa, &self.bb, &qq.bb);
        let pa = Align::from_triplet(&qq.aa, &qq.bb, &self.aa);
        let pb = Align::from_triplet(&qq.aa, &qq.bb, &self.bb);
        qa != qb && pa != pb
    }

    /// Either endpoint of `qq` lies strictly to the left of this segment's
    /// directed line.
    pub open spec fn clips_spec(self, qq: Segment) -> bool {
        align_spec(self.aa, self.bb, qq.aa) == Align::Left || align_spec(self.aa, self.bb, qq.bb)
            == Align::Left
    }

    /// Whether `qq` strays to the left of this segment's directed line.
    pub fn clips(&self, qq: &Segment) -> (r: bool)
        requires
            self.in_range(),
            qq.in_range(),
        ensures
            r == self.clips_spec(*qq),
    {
        let qa = Align::from_triplet(&self.aa, &self.bb, &qq.aa);
        let qb = Align::from_triplet(&self.aa, &self.bb, &qq.bb);
        qa == Align::Left || qb == Align::Left
    }

    /// Reflects `xx` across the infinite line through this segment's
    /// endpoints, rounding each coordinate toward zero.
    pub fn mirror(&self, xx: Vec2i) -> (r: Vec2i)
        requires
            self.in_range(),
            xx.in_range(),
            self.nondegenerate(),
        ensures
            r.x == self.aa.x + tdiv(mir_num_x(*self, xx), mir_den(*self)),
            r.y == self.aa.y + tdiv(mir_num_y(*self, xx), mir_den(*self)),
            r == mirror_spec(*self, xx),
            -5 * COORD_MAX <= r.x <= 5 * COORD_MAX,
            -5 * COORD_MAX <= r.y <= 5 * COORD_MAX,
    {
        let ax: i128 = self.aa.x as i128;
        let ay: i128 = self.aa.y as i128;
        let dx: i128 = self.bb.x as i128 - ax;
        let dy: i128 = self.bb.y as i128 - ay;
        proof {
            lemma_mul_bound(dx as int, dx as int, 2 * COORD_MAX, 2 * COORD_MAX);
            lemma_mul_bound(dy as int, dy as int, 2 * COORD_MAX, 2 * COORD_MAX);
            if dx != 0 {
                assert(dx * dx > 0) by (nonlinear_arith)
                    requires
                        dx != 0,
                ;
                assert(dy * dy >= 0) by (nonlinear_arith);
            } else {
                assert(dy != 0);
                assert(dy * dy > 0) by (nonlinear_arith)
                    requires
                        dy != 0,
                ;
                assert(dx * dx >= 0) by (nonlinear_arith);
            }
        }
        let den: i128 = dx * dx + dy * dy;
        let mxx: i128 = dx * dx - dy * dy;
        proof {
            lemma_mul_bound(dx as int, dy as int, 2 * COORD_MAX, 2 * COORD_MAX);
            lemma_two_mul_le_squares(dx as int, dy as int);
        }
        let mxy: i128 = 2 * (dx * dy);
        let rx: i128 = xx.x as i128 - ax;
        let ry: i128 = xx.y as i128 - ay;
        proof {
            lemma_mul_bound(mxx as int, rx as int, den as int, 2 * COORD_MAX);
            lemma_mul_bound(mxy as int, ry as int, den as int, 2 * COORD_MAX);
            lemma_mul_bound(mxy as int, rx as int, den as int, 2 * COORD_MAX);
            lemma_mul_bound(-mxx as int, ry as int, den as int, 2 * COORD_MAX);
            lemma_mul_bound(
                mxx as int,
                rx as int,
                8 * COORD_MAX * COORD_MAX,
                2 * COORD_MAX,
            );
            lemma_mul_bound(
                mxy as int,
                ry as int,
                8 * COORD_MAX * COORD_MAX,
                2 * COORD_MAX,
            );
            lemma_mul_bound(
                mxy as int,
                rx as int,
                8 * COORD_MAX * COORD_MAX,
                2 * COORD_MAX,
            );
            lemma_mul_bound(
                -mxx as int,
                ry as int,
                8 * COORD_MAX * COORD_MAX,
                2 * COORD_MAX,
            );
        }
        let num_x: i128 = mxx * rx + mxy * ry;
        let num_y: i128 = mxy * rx + (-mxx) * ry;
        proof {
            lemma_tdiv_bound(num_x as int, den as int, 4 * COORD_MAX);
            lemma_tdiv_bound(num_y as int, den as int, 4 * COORD_MAX);
        }
        let qx: i128 = tdiv128(num_x, den);
        let qy: i128 = tdiv128(num_y, den);
        Vec2i { x: self.aa.x + qx as i64, y: self.aa.y + qy as i64 }
    }
}

/// A segment that clips anything spans a real line: a degenerate
/// segment's alignment tests are all collinear.
pub proof fn lemma_clips_nondegenerate(s: Segment, q: Segment)
    requires
        s.clips_spec(q),
    ensures
        s.nondegenerate(),
{
    if s.aa == s.bb {
        let u: int = q.aa.y - s.aa.y;
        let v: int = q.aa.x - s.aa.x;
        let w: int = q.bb.y - s.aa.y;
        let z: int = q.bb.x - s.aa.x;
        assert(0 * u == 0 && 0 * v == 0 && 0 * w == 0 && 0 * z == 0) by (nonlinear_arith);
        assert(cross(s.aa, s.bb, q.aa) == 0 * u - 0 * v);
        assert(cross(s.aa, s.bb, q.bb) == 0 * w - 0 * z);
    }
}

/// Law: proper intersection is symmetric.
pub proof fn lemma_intersects_symmetric(pp: Segment, qq: Segment)
    ensures
        pp.intersects_spec(qq) == qq.intersects_spec(pp),
{
}

/// Law: reflection across a segment's line is an involution.  Reflecting a
/// point gives coordinates scaled by `mir_den`; reflecting that scaled
/// image again yields the original point scaled by `mir_den` squared,
/// exactly.
pub proof fn lemma_mirror_involution(s: Segment, px: int, py: int)
    requires
        s.nondegenerate(),
    ensures
        refl_x(s, refl_x(s, px, py, 1), refl_y(s, px, py, 1), mir_den(s)) == mir_den(s) * mir_den(
            s,
        ) * px,
        refl_y(s, refl_x(s, px, py, 1), refl_y(s, px, py, 1), mir_den(s)) == mir_den(s) * mir_den(
            s,
        ) * py,
{
    let dx = s.bb.x - s.aa.x;
    let dy = s.bb.y - s.aa.y;
    let den = mir_den(s);
    let mxx = dx * dx - dy * dy;
    let mxy = 2 * (dx * dy);
    let ux = px - s.aa.x;
    let uy = py - s.aa.y;
    let x1 = refl_x(s, px, py, 1);
    let y1 = refl_y(s, px, py, 1);
    assert(x1 - den * s.aa.x == mxx * ux + mxy * uy) by (nonlinear_arith)
        requires
            x1 == mxx * (px - s.aa.x) + mxy * (py - s.aa.y) + den * s.aa.x,
            den == dx * dx + dy * dy,
            mxx == dx * dx - dy * dy,
            mxy == 2 * (dx * dy),
            ux == px - s.aa.x,
            uy == py - s.aa.y,
    ;
    assert(y1 - den * s.aa.y == mxy * ux + (-mxx) * uy) by (nonlinear_arith)
        requires
            y1 == mxy * (px - s.aa.x) + (-mxx) * (py - s.aa.y) + den * s.aa.y,
            mxy == 2 * (dx * dy),
            ux == px - s.aa.x,
            uy == py - s.aa.y,
    ;
    assert(mxx * mxx + mxy * mxy == den * den) by (nonlinear_arith)
        requires
            mxx == dx * dx - dy * dy,
            mxy == 2 * (dx * dy),
            den == dx * dx + dy * dy,
    ;
    assert(mxx * (x1 - den * s.aa.x) + mxy * (y1 - den * s.aa.y) == den * den * ux)
        by (nonlinear_arith)
        requires
            x1 - den * s.aa.x == mxx * ux + mxy * uy,
            y1 - den * s.aa.y == mxy * ux + (-mxx) * uy,
            mxx * mxx + mxy * mxy == den * den,
    ;
    assert(mxy * (x1 - den * s.aa.x) + (-mxx) * (y1 - den * s.aa.y) == den * den * uy)
        by (nonlinear_arith)
        requires
            x1 - den * s.aa.x == mxx * ux + mxy * uy,
            y1 - den * s.aa.y == mxy * ux + (-mxx) * uy,
            mxx * mxx + mxy * mxy == den * den,
    ;
    assert(refl_x(s, x1, y1, den) == mxx * (x1 - den * s.aa.x) + mxy * (y1 - den * s.aa.y) + den
        * den * s.aa.x);
    assert(refl_y(s, x1, y1, den) == mxy * (x1 - den * s.aa.x) + (-mxx) * (y1 - den * s.aa.y) + den
        * den * s.aa.y);
    assert(den * den * ux + den * den * s.aa.x == den * den * px) by (nonlinear_arith)
        requires
            ux == px - s.aa.x,
    ;
    assert(den * den * uy + den * den * s.aa.y == den * den * py) by (nonlinear_arith)
        requires
            uy == py - s.aa.y,
    ;
}

} // verus!
