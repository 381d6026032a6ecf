use aquatrack::geom::{Segment, Vec2i};
use aquatrack::index::SegTree;

fn seg(ax: i64, ay: i64, bx: i64, by: i64, ii: u8) -> Segment {
    Segment { aa: Vec2i { x: ax, y: ay }, bb: Vec2i { x: bx, y: by }, ii }
}

#[test]
fn empty_index_has_no_nearest() {
    let tree = SegTree::build(Vec::new());
    assert!(tree.is_empty());
    let q = Segment::from_endpoints(Vec2i::new(0, 0), Vec2i::new(1, 1));
    assert!(tree.nearest(&q).is_none());
}

#[test]
fn nearest_picks_the_closest_segment() {
    let near = seg(10, 10, 20, 10, 0);
    let far = seg(1_000_000, 1_000_000, 1_000_100, 1_000_000, 1);
    let tree = SegTree::build(vec![far, near]);
    assert!(!tree.is_empty());
    let q = Segment::from_endpoints(Vec2i::new(12, 11), Vec2i::new(18, 11));
    let found = tree.nearest(&q).unwrap();
    assert_eq!(found.ii, 0);
    assert_eq!(found.aa, near.aa);
    let q2 = Segment::from_endpoints(Vec2i::new(999_990, 1_000_000), Vec2i::new(1_000_050, 999_990));
    assert_eq!(tree.nearest(&q2).unwrap().ii, 1);
}

#[test]
fn nearest_searches_many_segments() {
    let mut segs = Vec::new();
    for k in 0..50i64 {
        segs.push(seg(k * 1_000, 0, k * 1_000 + 500, 0, (k % 4) as u8));
    }
    let tree = SegTree::build(segs);
    let q = Segment::from_endpoints(Vec2i::new(37_100, 5), Vec2i::new(37_600, 5));
    let found = tree.nearest(&q).unwrap();
    assert_eq!(found.aa.x, 37_000);
}
