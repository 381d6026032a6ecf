//! Nearest-segment index: a 4-dimensional k-d tree over the two endpoint
//! coordinate pairs of each indexed segment, backed by the `kd_tree`
//! crate behind trusted wrappers.
//!
//! The tree's items are `([i64; 4], u64)` pairs: the 4-dimensional key of
//! a segment and its index into the owning `SegTree`'s segment list.

use vstd::prelude::*;
use vstd::multiset::Multiset;
use crate::geom::Segment;
use crate::num::COORD_MAX;

verus! {

broadcast use vstd::seq_lib::group_to_multiset_ensures, vstd::array::group_array_axioms;

/// Holds the `kd_tree` crate's tree of `([i64; 4], u64)` items behind an
/// opaque field: Verus refuses the crate's own type (its generics carry a
/// `typenum` trait bound), so this struct hides it and the trusted
/// wrappers below are the only access.
#[verifier::external_body]
pub struct SegKd {
    tree: kd_tree::KdTreeN<([i64; 4], u64), typenum::U4>,
}

/// The multiset of items a tree holds.
pub uninterp spec fn kd_contents(t: SegKd) -> Multiset<([i64; 4], u64)>;

/// There is a tree item for index `j` whose key matches segment `s`.
pub open spec fn tree_has_seg(t: SegKd, s: Segment, j: int) -> bool {
    exists|k: [i64; 4]| #[trigger] kd_contents(t).contains((k, j as u64)) && key_matches(s, k)
}

/// The key lists, in order: both endpoints' x, then both endpoints' y.
pub open spec fn key_matches(s: Segment, k: [i64; 4]) -> bool {
    &&& k@[0] == s.aa.x
    &&& k@[1] == s.bb.x
    &&& k@[2] == s.aa.y
    &&& k@[3] == s.bb.y
}

/// All four key coordinates are within the geometry's coordinate bound.
pub open spec fn key_in_range(k: [i64; 4]) -> bool {
    forall|i: int| 0 <= i < 4 ==> -COORD_MAX <= #[trigger] k@[i] <= COORD_MAX
}

pub open spec fn sq(v: int) -> int {
    v * v
}

/// Squared Euclidean distance between two 4-dimensional keys.
pub open spec fn sqdist4(a: [i64; 4], b: [i64; 4]) -> int {
    sq(a@[0] - b@[0]) + sq(a@[1] - b@[1]) + sq(a@[2] - b@[2]) + sq(a@[3] - b@[3])
}

/// Squared distance between two segments' keys: the tree's notion of
/// proximity between segments.
pub open spec fn seg_sqdist(s: Segment, q: Segment) -> int {
    sq(s.aa.x - q.aa.x) + sq(s.bb.x - q.bb.x) + sq(s.aa.y - q.aa.y) + sq(s.bb.y - q.bb.y)
}

/// Relies on kd_tree::KdTreeN::build: sorts the given items in place
/// into the crate's median-partitioned k-d order and returns a tree
/// holding exactly those items.  The item type's keys are `i64`, whose
/// total order `build` requires.
#[verifier::external_body]
fn kd_build(items: Vec<([i64; 4], u64)>) -> (t: SegKd)
    ensures
        kd_contents(t) == items@.to_multiset(),
{
    SegKd { tree: kd_tree::KdTreeN::build(items) }
}

/// Relies on kd_tree::KdSliceN::nearest: returns an item of the tree at
/// minimal squared Euclidean key distance from the query, `None` exactly
/// when the tree is empty.  Every tree reaching this call was made by
/// `kd_build`, whose sort establishes the order the search's pruning
/// assumes.  The coordinate bounds keep the crate's `i64` distance
/// arithmetic from overflowing.
#[verifier::external_body]
fn kd_nearest(t: &SegKd, query: &[i64; 4]) -> (r: Option<([i64; 4], u64)>)
    requires
        forall|it: ([i64; 4], u64)| kd_contents(*t).contains(it) ==> key_in_range(it.0),
        key_in_range(*query),
    ensures
        r is Some <==> kd_contents(*t).len() > 0,
        r matches Some(it) ==> kd_contents(*t).contains(it) && forall|o: ([i64; 4], u64)|
            kd_contents(*t).contains(o) ==> sqdist4(it.0, *query) <= sqdist4(o.0, *query),
{
    t.tree.nearest(query).map(|found| *found.item)
}

/// An immutable nearest-neighbor index over a list of segments.
pub struct SegTree {
    tree: SegKd,
    segs: Vec<Segment>,
}

impl SegTree {
    /// The indexed segments, in insertion order.
    pub closed spec fn segs(&self) -> Seq<Segment> {
        self.segs@
    }

    /// The tree holds exactly one item per segment, keyed by its
    /// endpoints, and every indexed segment is within coordinate range.
    pub closed spec fn wf(&self) -> bool {
        &&& forall|j: int| 0 <= j < self.segs@.len() ==> (#[trigger] self.segs@[j]).in_range()
        &&& kd_contents(self.tree).len() == self.segs@.len()
        &&& forall|j: int| 0 <= j < self.segs@.len() ==> #[trigger] tree_has_seg(
            self.tree,
            self.segs@[j],
            j,
        )
        &&& forall|it: ([i64; 4], u64)|
            #[trigger] kd_contents(self.tree).contains(it) ==> 0 <= it.1 < self.segs@.len()
                && key_matches(self.segs@[it.1 as int], it.0)
    }

    /// Builds the index over the given segments.
    pub fn build(segs: Vec<Segment>) -> (r: Self)
        requires
            forall|j: int| 0 <= j < segs@.len() ==> (#[trigger] segs@[j]).in_range(),
        ensures
            r.wf(),
            r.segs() == segs@,
    {
        let mut items: Vec<([i64; 4], u64)> = Vec::new();
        let mut i: usize = 0;
        while i < segs.len()
            invariant
                i <= segs.len(),
                segs@.len() <= u64::MAX,
                items@.len() == i,
                forall|j: int| 0 <= j < i ==> (#[trigger] items@[j]).1 == j as u64 && key_matches(
                    segs@[j],
                    items@[j].0,
                ),
            decreases segs.len() - i,
        {
            let ss = &segs[i];
            let key: [i64; 4] = [ss.aa.x, ss.bb.x, ss.aa.y, ss.bb.y];
            items.push((key, i as u64));
            i = i + 1;
        }
        let tree = kd_build(items);
        proof {
            assert forall|j: int| 0 <= j < segs@.len() implies #[trigger] tree_has_seg(
                tree,
                segs@[j],
                j,
            ) by {
                assert(items@[j] == (items@[j].0, j as u64));
                assert(items@.contains(items@[j]));
                assert(kd_contents(tree).count(items@[j]) > 0);
                assert(kd_contents(tree).contains((items@[j].0, j as u64)) && key_matches(
                    segs@[j],
                    items@[j].0,
                ));
            }
            assert forall|it: ([i64; 4], u64)| #[trigger]
                kd_contents(tree).contains(it) implies 0 <= it.1 < segs@.len() && key_matches(
                segs@[it.1 as int],
                it.0,
            ) by {
                assert(kd_contents(tree).count(it) > 0);
                assert(items@.contains(it));
                let j = choose|j: int| 0 <= j < items@.len() && items@[j] == it;
                assert(it.1 == j as u64);
            }
        }
        SegTree { tree, segs }
    }

    /// Whether the index holds no segment at all.
    pub fn is_empty(&self) -> (r: bool)
        ensures
            r == (self.segs().len() == 0),
    {
        self.segs.len() == 0
    }

    /// Returns an indexed segment whose key is at minimal squared distance
    /// from the query segment's key, `None` exactly when the index is
    /// empty.
    pub fn nearest(&self, qq: &Segment) -> (r: Option<Segment>)
        requires
            self.wf(),
            qq.in_range(),
        ensures
            r is Some <==> self.segs().len() > 0,
            r matches Some(s) ==> (exists|j: int|
                0 <= j < self.segs().len() && self.segs()[j] == s) && forall|j: int|
                0 <= j < self.segs().len() ==> seg_sqdist(s, *qq) <= seg_sqdist(
                    #[trigger] self.segs()[j],
                    *qq,
                ),
    {
        let query: [i64; 4] = [qq.aa.x, qq.bb.x, qq.aa.y, qq.bb.y];
        proof {
            assert(key_matches(*qq, query));
            assert forall|it: ([i64; 4], u64)|
                kd_contents(self.tree).contains(it) implies key_in_range(it.0) by {
                assert(self.segs@[it.1 as int].in_range());
            }
        }
        match kd_nearest(&self.tree, &query) {
            None => None,
            Some(found) => {
                proof {
                    assert(kd_contents(self.tree).contains(found));
                    assert(0 <= found.1 < self.segs@.len());
                }
                let seg_count = self.segs.len();
                proof {
                    assert(found.1 < seg_count);
                }
                let idx = found.1 as usize;
                let ss = self.segs[idx];
                proof {
                    assert(ss == self.segs@[found.1 as int]);
                    assert(key_matches(ss, found.0));
                    assert(exists|j: int| 0 <= j < self.segs().len() && self.segs()[j] == ss) by {
                        assert(self.segs()[found.1 as int] == ss);
                    }
                    assert(seg_sqdist(ss, *qq) == sqdist4(found.0, query));
                    assert forall|j: int| 0 <= j < self.segs().len() implies seg_sqdist(
                        ss,
                        *qq,
                    ) <= seg_sqdist(#[trigger] self.segs()[j], *qq) by {
                        assert(tree_has_seg(self.tree, self.segs@[j], j));
                        let k = choose|k: [i64; 4]|
                            #[trigger] kd_contents(self.tree).contains((k, j as u64))
                                && key_matches(self.segs@[j], k);
                        assert(sqdist4(found.0, query) <= sqdist4(k, query));
                        assert(seg_sqdist(self.segs@[j], *qq) == sqdist4(k, query));
                    }
                }
                Some(ss)
            },
        }
    }
}

} // verus!
