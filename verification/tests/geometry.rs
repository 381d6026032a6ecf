use aquatrack::geom::{Align, Segment, Vec2i, TAG_QUERY};

fn seg(ax: i64, ay: i64, bx: i64, by: i64) -> Segment {
    Segment { aa: Vec2i { x: ax, y: ay }, bb: Vec2i { x: bx, y: by }, ii: 0 }
}

#[test]
fn from_endpoints_carries_query_tag() {
    let q = Segment::from_endpoints(Vec2i::new(1, 2), Vec2i::new(3, 4));
    assert_eq!(q.ii, TAG_QUERY);
    assert_eq!(q.aa.x, 1);
    assert_eq!(q.bb.y, 4);
}

#[test]
fn align_signs() {
    let a = Vec2i::new(0, 0);
    let b = Vec2i::new(10, 0);
    assert_eq!(Align::from_triplet(&a, &b, &Vec2i::new(5, 7)), Align::Right);
    assert_eq!(Align::from_triplet(&a, &b, &Vec2i::new(5, -7)), Align::Left);
    assert_eq!(Align::from_triplet(&a, &b, &Vec2i::new(25, 0)), Align::Collinear);
}

#[test]
fn intersects_proper_crossing() {
    let s = seg(0, -10, 0, 10);
    let q = seg(-5, 0, 5, 0);
    assert!(s.intersects(&q));
    let miss = seg(-5, 20, 5, 20);
    assert!(!s.intersects(&miss));
}

#[test]
fn intersects_is_symmetric_on_samples() {
    let cases = [
        (seg(0, -10, 0, 10), seg(-5, 0, 5, 0)),
        (seg(0, -10, 0, 10), seg(1, 1, 9, 9)),
        (seg(-3, -3, 3, 3), seg(-3, 3, 3, -3)),
        (seg(0, 0, 10, 0), seg(20, 0, 30, 0)),
    ];
    for (a, b) in cases {
        assert_eq!(a.intersects(&b), b.intersects(&a));
    }
}

#[test]
fn collinear_overlap_is_not_an_intersection() {
    // The documented boundary case: collinear overlapping segments are
    // treated as non-intersecting.
    let a = seg(0, 0, 10, 0);
    let b = seg(5, 0, 15, 0);
    assert!(!a.intersects(&b));
}

#[test]
fn clips_detects_left_side_points() {
    let s = seg(0, 0, 10, 0);
    let left = seg(3, -1, 4, -2);
    let right = seg(3, 1, 4, 2);
    assert!(s.clips(&left));
    assert!(!s.clips(&right));
}

#[test]
fn mirror_reflects_across_axis() {
    let s = seg(0, 0, 10, 0);
    let p = Vec2i::new(3, 4);
    let m = s.mirror(p);
    assert_eq!(m, Vec2i::new(3, -4));
}

#[test]
fn mirror_twice_returns_original_point() {
    let s = seg(0, 0, 10, 0);
    let p = Vec2i::new(3, 4);
    assert_eq!(s.mirror(s.mirror(p)), p);
    let v = seg(7, -5, 7, 20);
    let p2 = Vec2i::new(1, 2);
    assert_eq!(v.mirror(v.mirror(p2)), p2);
}

#[test]
fn default_segment_is_zero_query() {
    let d = Segment::default();
    assert_eq!(d.aa, Vec2i::new(0, 0));
    assert_eq!(d.bb, Vec2i::new(0, 0));
    assert_eq!(d.ii, TAG_QUERY);
}
