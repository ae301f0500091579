//! The bounding-volume hierarchy: a binary tree over the objects of a scene,
//! built by sorting along an axis and splitting at the median.
use vstd::prelude::*;
use crate::aabb::{surrounding, surrounding_box, AABB};
use crate::rtweekend::random_below;
use crate::sort::{is_stable_sort, keyed, lemma_stable_sort_permutes, sort_by_key, sorted_by};

verus! {

/// Why a hierarchy could not be built.
#[derive(Clone, Copy, Debug)]
pub enum BvhError {
    /// The object at `index` has no bounding box.
    NoBoundingBox { index: usize },
    /// The minimum corner of the bounding box of the object at `index` holds a
    /// NaN, so the object cannot be ordered along every axis.
    NanCoordinate { index: usize },
}

/// One side of a node: an object of the scene, by its index, or a subtree.
#[derive(Debug)]
pub enum BvhChild {
    Object(usize),
    Node(Box<BvhNode>),
}

/// A node of the hierarchy. Its box bounds both sides.
#[derive(Debug)]
pub struct BvhNode {
    pub left: BvhChild,
    pub right: BvhChild,
    pub abox: AABB,
}

/// The number by which an object is ordered along an axis: the rank of the
/// minimum corner of its box.
pub open spec fn key_on(b: AABB, axis: int) -> int {
    b.minimum.coord(axis).rank()
}

impl BvhChild {
    /// The box of this side: the object's own, or the subtree's.
    pub open spec fn bound(self, boxes: Seq<Option<AABB>>) -> AABB {
        match self {
            BvhChild::Object(i) => boxes[i as int]->0,
            BvhChild::Node(n) => n.abox,
        }
    }

    /// The objects below this side.
    pub open spec fn objects(self) -> Set<usize>
        decreases self,
    {
        match self {
            BvhChild::Object(i) => set![i],
            BvhChild::Node(n) => n.objects(),
        }
    }

    /// Every object below has a box, and every node below bounds its sides
    /// exactly.
    pub open spec fn wf(self, boxes: Seq<Option<AABB>>) -> bool
        decreases self,
    {
        match self {
            BvhChild::Object(i) => i < boxes.len() && boxes[i as int] is Some,
            BvhChild::Node(n) => n.wf(boxes),
        }
    }

    /// The number of objects this side was built over.
    pub open spec fn span(self) -> nat
        decreases self,
    {
        match self {
            BvhChild::Object(_) => 1,
            BvhChild::Node(n) => n.span(),
        }
    }

    /// Every node below was split at the median along some axis.
    pub open spec fn median_split(self, boxes: Seq<Option<AABB>>) -> bool
        decreases self,
    {
        match self {
            BvhChild::Object(_) => true,
            BvhChild::Node(n) => n.median_split(boxes),
        }
    }
}

impl BvhNode {
    /// The objects below this node.
    pub open spec fn objects(self) -> Set<usize>
        decreases self,
    {
        self.left.objects().union(self.right.objects())
    }

    /// The invariant of the tree: every object below has a box, and the box of
    /// every node is the union of the boxes of its two sides.
    pub open spec fn wf(self, boxes: Seq<Option<AABB>>) -> bool
        decreases self,
    {
        &&& self.left.wf(boxes)
        &&& self.right.wf(boxes)
        &&& self.abox == surrounding(self.left.bound(boxes), self.right.bound(boxes))
    }

    /// The number of objects this node was built over. A node over a single
    /// object holds it on both sides.
    pub open spec fn span(self) -> nat
        decreases self,
    {
        match (self.left, self.right) {
            (BvhChild::Object(i), BvhChild::Object(j)) => if i == j {
                1
            } else {
                2
            },
            _ => self.left.span() + self.right.span(),
        }
    }

    /// Along `axis`, no object on the left lies behind one on the right.
    pub open spec fn split_on(self, boxes: Seq<Option<AABB>>, axis: int) -> bool {
        forall|i: usize, j: usize|
            self.left.objects().contains(i) && self.right.objects().contains(j) ==> key_on(
                (#[trigger] boxes[i as int])->0,
                axis,
            ) <= key_on((#[trigger] boxes[j as int])->0, axis)
    }

    /// The shape that the construction gives: at every node the objects are
    /// divided along one of the three axes, and where the node stands over
    /// more than two objects, both sides are subtrees and the left one holds
    /// half of the objects, rounded down.
    pub open spec fn median_split(self, boxes: Seq<Option<AABB>>) -> bool
        decreases self,
    {
        &&& self.left.median_split(boxes)
        &&& self.right.median_split(boxes)
        &&& exists|axis: int| 0 <= axis < 3 && #[trigger] self.split_on(boxes, axis)
        &&& match (self.left, self.right) {
            (BvhChild::Object(_), BvhChild::Object(_)) => true,
            (BvhChild::Node(l), BvhChild::Node(r)) => l.span() == (l.span() + r.span()) / 2,
            _ => false,
        }
    }
}

/// The objects of a span can be ordered: each has a box, none twice, and
/// `kx`, `ky` and `kz` hold their keys along the three axes.
pub open spec fn span_ready(
    boxes: Seq<Option<AABB>>,
    kx: Seq<i64>,
    ky: Seq<i64>,
    kz: Seq<i64>,
    span: Seq<usize>,
) -> bool {
    &&& kx.len() == boxes.len()
    &&& ky.len() == boxes.len()
    &&& kz.len() == boxes.len()
    &&& span.no_duplicates()
    &&& forall|k: int|
        0 <= k < span.len() ==> {
            let i = #[trigger] span[k];
            &&& i < boxes.len()
            &&& boxes[i as int] is Some
            &&& kx[i as int] == key_on(boxes[i as int]->0, 0)
            &&& ky[i as int] == key_on(boxes[i as int]->0, 1)
            &&& kz[i as int] == key_on(boxes[i as int]->0, 2)
        }
}

/// A part of a span that can be ordered can be ordered.
proof fn lemma_span_ready_part(
    boxes: Seq<Option<AABB>>,
    kx: Seq<i64>,
    ky: Seq<i64>,
    kz: Seq<i64>,
    span: Seq<usize>,
    a: int,
    b: int,
)
    requires
        span_ready(boxes, kx, ky, kz, span),
        0 <= a <= b <= span.len(),
    ensures
        span_ready(boxes, kx, ky, kz, span.subrange(a, b)),
{
    let part = span.subrange(a, b);
    assert forall|k: int| 0 <= k < part.len() implies {
        let i = #[trigger] part[k];
        &&& i < boxes.len()
        &&& boxes[i as int] is Some
        &&& kx[i as int] == key_on(boxes[i as int]->0, 0)
        &&& ky[i as int] == key_on(boxes[i as int]->0, 1)
        &&& kz[i as int] == key_on(boxes[i as int]->0, 2)
    } by {
        assert(part[k] == span[a + k]);
    }
}

/// A span that can be ordered can still be ordered when its objects stand in
/// another order.
proof fn lemma_span_ready_arranged(
    boxes: Seq<Option<AABB>>,
    kx: Seq<i64>,
    ky: Seq<i64>,
    kz: Seq<i64>,
    span: Seq<usize>,
    after: Seq<usize>,
)
    requires
        span_ready(boxes, kx, ky, kz, span),
        after.len() == span.len(),
        after.to_set() == span.to_set(),
        after.no_duplicates(),
    ensures
        span_ready(boxes, kx, ky, kz, after),
{
    assert forall|k: int| 0 <= k < after.len() implies {
        let i = #[trigger] after[k];
        &&& i < boxes.len()
        &&& boxes[i as int] is Some
        &&& kx[i as int] == key_on(boxes[i as int]->0, 0)
        &&& ky[i as int] == key_on(boxes[i as int]->0, 1)
        &&& kz[i as int] == key_on(boxes[i as int]->0, 2)
    } by {
        assert(after.to_set().contains(after[k]));
        assert(span.to_set().contains(after[k]));
        let m = choose|m: int| 0 <= m < span.len() && span[m] == after[k];
        assert(span[m] == after[k]);
    }
}

/// A span as it stands after it was arranged along an axis, given the keys
/// of the objects on that axis. Two objects stand in the order of their keys,
/// the second first unless the first has the smaller key. More are sorted by
/// their keys, equal keys in their old order.
pub open spec fn arranged(span: Seq<usize>, after: Seq<usize>, keys: Seq<i64>) -> bool {
    if span.len() == 2 {
        after == if keys[span[0] as int] < keys[span[1] as int] {
            span
        } else {
            seq![span[1], span[0]]
        }
    } else {
        is_stable_sort(span, after, keys)
    }
}

/// An arranged span holds the objects it held, in the order of their keys.
pub proof fn lemma_arranged(span: Seq<usize>, after: Seq<usize>, keys: Seq<i64>)
    requires
        arranged(span, after, keys),
    ensures
        after.len() == span.len(),
        sorted_by(after, keys),
        after.to_set() == span.to_set(),
        span.no_duplicates() ==> after.no_duplicates(),
        span.len() == 1 ==> after == span,
{
    if span.len() == 2 {
        assert(after.to_set() =~= span.to_set()) by {
            assert forall|x: usize| after.to_set().contains(x) implies span.to_set().contains(x) by {
                let k = choose|k: int| 0 <= k < after.len() && after[k] == x;
                assert(span[0] == x || span[1] == x);
                assert(span.contains(span[0]) && span.contains(span[1]));
            }
            assert forall|x: usize| span.to_set().contains(x) implies after.to_set().contains(x) by {
                let k = choose|k: int| 0 <= k < span.len() && span[k] == x;
                assert(after[0] == x || after[1] == x);
                assert(after.contains(after[0]) && after.contains(after[1]));
            }
        }
    } else {
        lemma_stable_sort_permutes(span, after, keys);
        assert(after.to_set() =~= span.to_set());
        if span.len() == 1 {
            assert(after.contains(after[0]));
            assert(span.contains(after[0]));
            assert(after =~= span);
        }
    }
}

impl BvhNode {
    /// Arranges the objects `order[lo..hi]` along an axis, given the keys of
    /// all objects on that axis, and returns where the span is divided
    /// between the two sides of a node: at its middle, rounded down.
    ///
    /// This is the step that the construction takes at each node, once the
    /// axis is drawn.
    pub fn divide(order: &mut Vec<usize>, lo: usize, hi: usize, keys: &Vec<i64>) -> (mid: usize)
        requires
            lo < hi <= old(order).len(),
            keyed(old(order)@.subrange(lo as int, hi as int), keys@),
        ensures
            final(order).len() == old(order).len(),
            forall|k: int|
                0 <= k < lo || hi <= k < old(order).len() ==> final(order)[k] == old(order)[k],
            arranged(
                old(order)@.subrange(lo as int, hi as int),
                final(order)@.subrange(lo as int, hi as int),
                keys@,
            ),
            mid == lo + (hi - lo) / 2,
    {
        let ghost span = order@.subrange(lo as int, hi as int);
        let n: usize = hi - lo;
        if n == 2 {
            let i: usize = order[lo];
            let j: usize = order[lo + 1];
            assert(i == span[0] && j == span[1]);
            if !(keys[i] < keys[j]) {
                order.set(lo, j);
                order.set(lo + 1, i);
                assert(order@.subrange(lo as int, hi as int) =~= seq![span[1], span[0]]);
            } else {
                assert(order@.subrange(lo as int, hi as int) =~= span);
            }
        } else {
            sort_by_key(order, lo, hi, keys);
        }
        lo + n / 2
    }

    /// Builds the subtree over `order[lo..hi]`, reordering that part of
    /// `order` on the way.
    fn build(
        boxes: &Vec<Option<AABB>>,
        kx: &Vec<i64>,
        ky: &Vec<i64>,
        kz: &Vec<i64>,
        order: &mut Vec<usize>,
        lo: usize,
        hi: usize,
    ) -> (node: BvhNode)
        requires
            lo < hi <= old(order).len(),
            span_ready(boxes@, kx@, ky@, kz@, old(order)@.subrange(lo as int, hi as int)),
        ensures
            final(order).len() == old(order).len(),
            forall|k: int|
                0 <= k < lo || hi <= k < old(order).len() ==> final(order)[k] == old(order)[k],
            node.wf(boxes@),
            node.median_split(boxes@),
            node.objects() == old(order)@.subrange(lo as int, hi as int).to_set(),
            node.span() == hi - lo,
        decreases hi - lo,
    {
        let ghost before = order@;
        let ghost span = before.subrange(lo as int, hi as int);
        let n: usize = hi - lo;
        let axis: usize = random_below(3);
        let keys: &Vec<i64> = if axis == 0 {
            kx
        } else if axis == 1 {
            ky
        } else {
            kz
        };
        proof {
            assert(keyed(span, keys@));
        }
        let mid: usize = BvhNode::divide(order, lo, hi, keys);
        let ghost sorted_order = order@;
        let ghost sorted = sorted_order.subrange(lo as int, hi as int);
        proof {
            lemma_arranged(span, sorted, keys@);
            lemma_span_ready_arranged(boxes@, kx@, ky@, kz@, span, sorted);
        }
        if n == 1 {
            let i: usize = order[lo];
            assert(i == sorted[0]);
            let b: AABB = boxes[i].unwrap();
            let node = BvhNode {
                left: BvhChild::Object(i),
                right: BvhChild::Object(i),
                abox: surrounding_box(&b, &b),
            };
            proof {
                assert(node.split_on(boxes@, 0));
                assert(node.objects() =~= sorted.to_set()) by {
                    assert forall|x: usize| sorted.to_set().contains(x) implies x == i by {
                        let k = choose|k: int| 0 <= k < sorted.len() && sorted[k] == x;
                    }
                    assert(sorted.contains(sorted[0]));
                }
            }
            node
        } else if n == 2 {
            let i: usize = order[lo];
            let j: usize = order[lo + 1];
            assert(i == sorted[0] && j == sorted[1]);
            let bi: AABB = boxes[i].unwrap();
            let bj: AABB = boxes[j].unwrap();
            let node = BvhNode {
                left: BvhChild::Object(i),
                right: BvhChild::Object(j),
                abox: surrounding_box(&bi, &bj),
            };
            proof {
                assert(keys@[sorted[0] as int] <= keys@[sorted[1] as int]);
                assert(node.split_on(boxes@, axis as int));
                assert(i != j);
                assert(node.objects() =~= sorted.to_set()) by {
                    assert forall|x: usize| sorted.to_set().contains(x) implies x == i || x == j by {
                        let k = choose|k: int| 0 <= k < sorted.len() && sorted[k] == x;
                    }
                    assert(sorted.contains(sorted[0]));
                    assert(sorted.contains(sorted[1]));
                }
            }
            node
        } else {
            proof {
                lemma_span_ready_part(boxes@, kx@, ky@, kz@, sorted, 0, mid - lo);
                lemma_span_ready_part(boxes@, kx@, ky@, kz@, sorted, mid - lo, hi - lo);
                assert(sorted.subrange(0, mid - lo) =~= sorted_order.subrange(lo as int, mid as int));
                assert(sorted.subrange(mid - lo, hi - lo) =~= sorted_order.subrange(
                    mid as int,
                    hi as int,
                ));
            }
            let left = BvhNode::build(boxes, kx, ky, kz, order, lo, mid);
            proof {
                assert(order@.subrange(mid as int, hi as int) =~= sorted_order.subrange(
                    mid as int,
                    hi as int,
                ));
            }
            let right = BvhNode::build(boxes, kx, ky, kz, order, mid, hi);
            let abox: AABB = surrounding_box(&left.abox, &right.abox);
            let ghost left_span = left.span();
            let ghost right_span = right.span();
            let node = BvhNode {
                left: BvhChild::Node(Box::new(left)),
                right: BvhChild::Node(Box::new(right)),
                abox,
            };
            proof {
                let low = sorted.subrange(0, mid - lo);
                let high = sorted.subrange(mid - lo, hi - lo);
                assert(node.left.objects() == low.to_set());
                assert(node.right.objects() == high.to_set());
                assert(node.split_on(boxes@, axis as int)) by {
                    assert forall|i: usize, j: usize|
                        node.left.objects().contains(i) && node.right.objects().contains(
                            j,
                        ) implies key_on((#[trigger] boxes@[i as int])->0, axis as int) <= key_on(
                        (#[trigger] boxes@[j as int])->0,
                        axis as int,
                    ) by {
                        let p = choose|p: int| 0 <= p < low.len() && low[p] == i;
                        let q = choose|q: int| 0 <= q < high.len() && high[q] == j;
                        assert(sorted[p] == i);
                        assert(sorted[mid - lo + q] == j);
                        assert(keys@[sorted[p] as int] <= keys@[sorted[mid - lo + q] as int]);
                    }
                }
                assert(node.objects() =~= sorted.to_set()) by {
                    assert forall|x: usize| sorted.to_set().contains(x) <==> low.to_set().contains(x)
                        || high.to_set().contains(x) by {
                        if low.to_set().contains(x) {
                            let p = choose|p: int| 0 <= p < low.len() && low[p] == x;
                            assert(sorted[p] == x);
                        }
                        if high.to_set().contains(x) {
                            let q = choose|q: int| 0 <= q < high.len() && high[q] == x;
                            assert(sorted[mid - lo + q] == x);
                        }
                        if sorted.to_set().contains(x) {
                            let k = choose|k: int| 0 <= k < sorted.len() && sorted[k] == x;
                            if k < mid - lo {
                                assert(low[k] == x);
                            } else {
                                assert(high[k - (mid - lo)] == x);
                            }
                        }
                    }
                }
                assert(node.span() == left_span + right_span);
            }
            node
        }
    }

    /// Builds the hierarchy over the objects `start..end` of a scene, given
    /// the bounding box that each object reports (`None` for an object
    /// without one).
    ///
    /// A node over one object holds it on both sides. A node over two holds
    /// them in the order of their keys along an axis drawn at random. A node
    /// over more sorts its objects along an axis drawn at random, equal keys
    /// keeping their order, and hands the lower half, rounded down, to the left
    /// subtree and the rest to the right. The box of every node is the union of
    /// the boxes of its sides.
    ///
    /// Fails on the first object of the span that has no box; if each has one,
    /// on the first whose minimum corner holds a NaN. Which axes are drawn
    /// decides the shape of the tree only: whatever is drawn, the tree stands
    /// over exactly the objects of the span and satisfies both invariants.
    pub fn new(boxes: &Vec<Option<AABB>>, start: usize, end: usize) -> (res: Result<
        BvhNode,
        BvhError,
    >)
        requires
            start < end <= boxes.len(),
        ensures
            match res {
                Ok(node) => {
                    &&& forall|i: int|
                        start <= i < end ==> (#[trigger] boxes[i]) is Some
                            && boxes[i]->0.minimum.numeric()
                    &&& node.wf(boxes@)
                    &&& node.median_split(boxes@)
                    &&& node.objects() == Set::new(|i: usize| start <= i < end)
                    &&& node.span() == end - start
                },
                Err(BvhError::NoBoundingBox { index }) => {
                    &&& start <= index < end
                    &&& boxes[index as int] is None
                    &&& forall|i: int| start <= i < index ==> (#[trigger] boxes[i]) is Some
                },
                Err(BvhError::NanCoordinate { index }) => {
                    &&& start <= index < end
                    &&& forall|i: int| start <= i < end ==> (#[trigger] boxes[i]) is Some
                    &&& !boxes[index as int]->0.minimum.numeric()
                    &&& forall|i: int|
                        start <= i < index ==> (#[trigger] boxes[i])->0.minimum.numeric()
                },
            },
    {
        let mut i: usize = start;
        while i < end
            invariant
                start <= i <= end <= boxes.len(),
                forall|k: int| start <= k < i ==> (#[trigger] boxes[k]) is Some,
            decreases end - i,
        {
            if boxes[i].is_none() {
                return Err(BvhError::NoBoundingBox { index: i });
            }
            i = i + 1;
        }
        let zero: i64 = 0;
        let mut kx: Vec<i64> = Vec::new();
        let mut ky: Vec<i64> = Vec::new();
        let mut kz: Vec<i64> = Vec::new();
        let mut order: Vec<usize> = Vec::new();
        i = 0;
        while i < boxes.len()
            invariant
                start < end <= boxes.len(),
                i <= boxes.len(),
                kx.len() == i,
                ky.len() == i,
                kz.len() == i,
                forall|k: int| start <= k < end ==> (#[trigger] boxes[k]) is Some,
                forall|k: int|
                    start <= k < i && k < end ==> {
                        &&& (#[trigger] boxes[k])->0.minimum.numeric()
                        &&& kx[k] == key_on(boxes[k]->0, 0)
                        &&& ky[k] == key_on(boxes[k]->0, 1)
                        &&& kz[k] == key_on(boxes[k]->0, 2)
                    },
                order.len() == if i <= start {
                    0
                } else if i <= end {
                    i - start
                } else {
                    end - start
                },
                forall|k: int| 0 <= k < order.len() ==> order[k] == start + k,
            decreases boxes.len() - i,
        {
            if start <= i && i < end {
                let b: AABB = boxes[i].unwrap();
                let m = b.minimum;
                if m.0.is_nan() || m.1.is_nan() || m.2.is_nan() {
                    return Err(BvhError::NanCoordinate { index: i });
                }
                kx.push(m.0.key());
                ky.push(m.1.key());
                kz.push(m.2.key());
                order.push(i);
            } else {
                kx.push(zero);
                ky.push(zero);
                kz.push(zero);
            }
            i = i + 1;
        }
        let ghost span = order@.subrange(0, order.len() as int);
        proof {
            assert(span =~= order@);
            assert(span_ready(boxes@, kx@, ky@, kz@, span));
        }
        let node = BvhNode::build(boxes, &kx, &ky, &kz, &mut order, 0, end - start);
        proof {
            assert(span.to_set() =~= Set::new(|i: usize| start <= i < end)) by {
                assert forall|x: usize| start <= x < end implies span.to_set().contains(x) by {
                    assert(span[x - start] == x);
                }
            }
        }
        Ok(node)
    }
}

impl BvhNode {
    /// The bounding box of the node.
    pub fn bounding_box(&self) -> (b: AABB)
        ensures
            b == self.abox,
    {
        self.abox
    }
}

/// The corners of the box are numbers.
pub open spec fn numeric_box(b: AABB) -> bool {
    b.minimum.numeric() && b.maximum.numeric()
}

/// In a well-formed hierarchy the box of a side encloses the box of every
/// object below it, where the corners of the objects' boxes are numbers.
pub proof fn lemma_side_encloses(child: BvhChild, boxes: Seq<Option<AABB>>, i: usize)
    requires
        child.wf(boxes),
        child.objects().contains(i),
        forall|k: usize| #[trigger]
            child.objects().contains(k) ==> k < boxes.len() && numeric_box(boxes[k as int]->0),
    ensures
        numeric_box(child.bound(boxes)),
        child.bound(boxes).encloses(boxes[i as int]->0),
    decreases child, 0nat,
{
    match child {
        BvhChild::Object(j) => {
            assert(child.objects().contains(j));
        },
        BvhChild::Node(n) => {
            assert(child.objects() == n.objects());
            lemma_node_encloses(*n, boxes, i);
        },
    }
}

/// In a well-formed hierarchy the box of a node encloses the box of every
/// object below it, where the corners of the objects' boxes are numbers.
pub proof fn lemma_node_encloses(node: BvhNode, boxes: Seq<Option<AABB>>, i: usize)
    requires
        node.wf(boxes),
        node.objects().contains(i),
        forall|k: usize| #[trigger]
            node.objects().contains(k) ==> k < boxes.len() && numeric_box(boxes[k as int]->0),
    ensures
        numeric_box(node.abox),
        node.abox.encloses(boxes[i as int]->0),
    decreases node, 1nat,
{
    assert forall|k: usize| #[trigger] node.left.objects().contains(k) implies k < boxes.len()
        && numeric_box(boxes[k as int]->0) by {
        assert(node.objects().contains(k));
    }
    assert forall|k: usize| #[trigger] node.right.objects().contains(k) implies k < boxes.len()
        && numeric_box(boxes[k as int]->0) by {
        assert(node.objects().contains(k));
    }
    lemma_side_inhabited(node.left);
    lemma_side_inhabited(node.right);
    let l = choose|k: usize| node.left.objects().contains(k);
    let r = choose|k: usize| node.right.objects().contains(k);
    lemma_side_encloses(node.left, boxes, l);
    lemma_side_encloses(node.right, boxes, r);
    if node.left.objects().contains(i) {
        lemma_side_encloses(node.left, boxes, i);
    } else {
        lemma_side_encloses(node.right, boxes, i);
    }
}

/// Every side stands over at least one object.
pub proof fn lemma_side_inhabited(child: BvhChild)
    ensures
        exists|k: usize| child.objects().contains(k),
    decreases child,
{
    match child {
        BvhChild::Object(j) => {
            assert(child.objects().contains(j));
        },
        BvhChild::Node(n) => {
            lemma_side_inhabited(n.left);
            let k = choose|k: usize| n.left.objects().contains(k);
            assert(child.objects().contains(k));
        },
    }
}

} // verus!
