//! The search of a hierarchy for the nearest hit of a ray.
//!
//! Whether a ray crosses a box and where it hits an object is arithmetic, and
//! the caller's. The order of the questions, the range of each, and what
//! becomes of the answers is decided here, one answer at a time.
use vstd::prelude::*;
use crate::aabb::{lemma_slabs_grow, reaches, slabs_overlap, Crossing, AABB};
use crate::bvh_node::{lemma_node_encloses, numeric_box, BvhChild, BvhNode};
use crate::hittable::{fits, in_range, Answer, Ask, HitRecord, Nearest};
use crate::hittable_list::{
    lemma_nearest_unique, lemma_offer_extends, lemma_scan_is_nearest, nearest_of, scanned, steady,
    Reports,
};
use crate::scalar::Scalar;

verus! {

/// Where one ray crosses the slabs of a box: for each box, the crossings along
/// x, y and z.
pub type Slabs = spec_fn(AABB) -> (Crossing, Crossing, Crossing);

/// Whether the ray passes through the box for some parameter in
/// `(t_min, t_max)`.
pub open spec fn passes(slabs: Slabs, b: AABB, t_min: Scalar, t_max: Scalar) -> bool {
    let c = slabs(b);
    slabs_overlap(c.0, c.1, c.2, t_min, t_max)
}

impl BvhChild {
    /// The search goes down this side: an object is asked over the range that
    /// is left, a subtree is searched.
    pub open spec fn descend(self, hits: Reports, slabs: Slabs, near: Nearest) -> Nearest
        decreases self,
    {
        match self {
            BvhChild::Object(i) => near.offered(hits(i, near.t_min, near.closest_so_far)),
            BvhChild::Node(n) => n.descend(hits, slabs, near),
        }
    }

    /// Below this side, every box is crossed by the ray wherever an object
    /// under it reports a hit.
    pub open spec fn sound(self, hits: Reports, slabs: Slabs, t_min: Scalar, t_max: Scalar) -> bool
        decreases self,
    {
        match self {
            BvhChild::Object(_) => true,
            BvhChild::Node(n) => n.sound(hits, slabs, t_min, t_max),
        }
    }

    /// The number of questions that this side can still raise.
    pub open spec fn work(self) -> nat
        decreases self,
    {
        match self {
            BvhChild::Object(_) => 1,
            BvhChild::Node(n) => n.work(),
        }
    }
}

impl BvhNode {
    /// The search of a subtree. Where the ray misses the node's box over the
    /// range that is left, nothing below is asked. Otherwise the left side is
    /// searched, then the right side over the range that the left has left.
    pub open spec fn descend(self, hits: Reports, slabs: Slabs, near: Nearest) -> Nearest
        decreases self,
    {
        if passes(slabs, self.abox, near.t_min, near.closest_so_far) {
            self.right.descend(hits, slabs, self.left.descend(hits, slabs, near))
        } else {
            near
        }
    }

    /// The boxes bound what they stand for, as far as the ray can tell: where
    /// an object below this node reports a hit over `(t_min, b]`, the ray
    /// passes through the node's box over that range; and so for every node
    /// below.
    pub open spec fn sound(self, hits: Reports, slabs: Slabs, t_min: Scalar, t_max: Scalar) -> bool
        decreases self,
    {
        &&& self.left.sound(hits, slabs, t_min, t_max)
        &&& self.right.sound(hits, slabs, t_min, t_max)
        &&& forall|i: usize, b: Scalar|
            self.objects().contains(i) && b.at_most(t_max) && (#[trigger] hits(i, t_min, b))
                is Some ==> passes(slabs, self.abox, t_min, b)
    }

    /// The number of questions that the subtree can still raise: one for each
    /// node and one for each side that is an object.
    pub open spec fn work(self) -> nat
        decreases self,
    {
        1 + self.left.work() + self.right.work()
    }
}

/// A side of a node that a query has still to visit.
#[derive(Clone, Copy, Debug)]
pub enum Pending<'a> {
    Object(usize),
    Node(&'a BvhNode),
}

impl<'a> Pending<'a> {
    /// The side of a node, as something to visit.
    pub open spec fn of(child: BvhChild) -> Pending<'a> {
        match child {
            BvhChild::Object(i) => Pending::Object(i),
            BvhChild::Node(n) => Pending::Node(&*n),
        }
    }

    /// The search goes down what is pending.
    pub open spec fn descend(self, hits: Reports, slabs: Slabs, near: Nearest) -> Nearest {
        match self {
            Pending::Object(i) => near.offered(hits(i, near.t_min, near.closest_so_far)),
            Pending::Node(n) => n.descend(hits, slabs, near),
        }
    }

    /// The number of questions that it can still raise.
    pub open spec fn work(self) -> nat {
        match self {
            Pending::Object(_) => 1,
            Pending::Node(n) => n.work(),
        }
    }

    /// The side of a node, as something to visit.
    fn side(child: &'a BvhChild) -> (p: Pending<'a>)
        ensures
            p == Pending::of(*child),
    {
        match child {
            BvhChild::Object(i) => Pending::Object(*i),
            BvhChild::Node(n) => Pending::Node(&**n),
        }
    }
}

/// What is left to visit, the last entry next, and the nearest hit so far.
pub open spec fn asked(pending: Seq<Pending>, near: Nearest) -> Ask {
    if pending.len() == 0 {
        Ask::Finished(near.rec)
    } else {
        match pending.last() {
            Pending::Object(i) => Ask::Hit {
                object: i,
                t_min: near.t_min,
                t_max: near.closest_so_far,
            },
            Pending::Node(n) => Ask::Crossings(n.abox),
        }
    }
}

/// The state of a query after an answer. An answer to another question than
/// the one asked changes nothing. The report of an object is offered to the
/// nearest hit so far. The crossings of a node's box decide whether its two
/// sides are visited, the left one first, or the node is passed over.
pub open spec fn answered<'a>(pending: Seq<Pending<'a>>, near: Nearest, answer: Answer) -> (
    Seq<Pending<'a>>,
    Nearest,
) {
    if !fits(asked(pending, near), answer) {
        (pending, near)
    } else {
        match (pending.last(), answer) {
            (Pending::Object(_), Answer::Hit(report)) => (
                pending.drop_last(),
                near.offered(report),
            ),
            (Pending::Node(n), Answer::Crossings(x, y, z)) => if slabs_overlap(
                x,
                y,
                z,
                near.t_min,
                near.closest_so_far,
            ) {
                (pending.drop_last().push(Pending::of(n.right)).push(Pending::of(n.left)), near)
            } else {
                (pending.drop_last(), near)
            },
            _ => (pending, near),
        }
    }
}

/// Whether the answer is what the scene gives to the question.
pub open spec fn truthful(ask: Ask, answer: Answer, hits: Reports, slabs: Slabs) -> bool {
    match (ask, answer) {
        (Ask::Crossings(b), Answer::Crossings(x, y, z)) => slabs(b) == (x, y, z),
        (Ask::Hit { object, t_min, t_max }, Answer::Hit(report)) => report == hits(
            object,
            t_min,
            t_max,
        ),
        _ => false,
    }
}

/// Where a query ends if every answer to come is what the scene gives: what is
/// pending is searched from the last entry to the first.
pub open spec fn settled(pending: Seq<Pending>, hits: Reports, slabs: Slabs, near: Nearest) -> Nearest
    decreases pending.len(),
{
    if pending.len() == 0 {
        near
    } else {
        settled(pending.drop_last(), hits, slabs, pending.last().descend(hits, slabs, near))
    }
}

/// The number of questions that a query can still raise.
pub open spec fn remaining(pending: Seq<Pending>) -> nat
    decreases pending.len(),
{
    if pending.len() == 0 {
        0
    } else {
        remaining(pending.drop_last()) + pending.last().work()
    }
}

/// A search for the nearest hit of one ray in a hierarchy, answer by answer.
///
/// The hierarchy decides which box and which object to test and over which
/// range; the caller computes the crossings and the hits. [`BvhQuery::ask`]
/// says what is needed next, [`BvhQuery::answer`] takes it.
#[derive(Debug)]
pub struct BvhQuery<'a> {
    /// What is left to visit; the last entry is next.
    pub pending: Vec<Pending<'a>>,
    /// The nearest hit so far.
    pub near: Nearest,
}

impl BvhNode {
    /// Begins the search for the nearest hit in `(t_min, t_max]` below this
    /// node.
    pub fn hit<'a>(&'a self, t_min: Scalar, t_max: Scalar) -> (q: BvhQuery<'a>)
        ensures
            q.pending@ == seq![Pending::Node(self)],
            q.near == Nearest::start(t_min, t_max),
            forall|hits: Reports, slabs: Slabs| #[trigger]
                settled(q.pending@, hits, slabs, q.near) == self.descend(
                    hits,
                    slabs,
                    Nearest::start(t_min, t_max),
                ),
            remaining(q.pending@) == self.work(),
    {
        let mut pending: Vec<Pending<'a>> = Vec::new();
        pending.push(Pending::Node(self));
        let q = BvhQuery { pending, near: Nearest::new(t_min, t_max) };
        proof {
            let one = q.pending@;
            assert(one.drop_last() =~= Seq::<Pending<'a>>::empty());
            assert(remaining(one.drop_last()) == 0);
            assert forall|hits: Reports, slabs: Slabs| #[trigger]
                settled(one, hits, slabs, q.near) == self.descend(
                    hits,
                    slabs,
                    Nearest::start(t_min, t_max),
                ) by {
                let next = one.last().descend(hits, slabs, q.near);
                assert(settled(one.drop_last(), hits, slabs, next) == next);
            }
        }
        q
    }
}

impl<'a> BvhQuery<'a> {
    /// What the query needs to know next: the crossings of the ray with a
    /// node's box, or the hit of the ray on an object over the range that is
    /// left, or nothing more.
    pub fn ask(&self) -> (a: Ask)
        ensures
            a == asked(self.pending@, self.near),
            a is Finished <==> self.pending.len() == 0,
    {
        let n: usize = self.pending.len();
        if n == 0 {
            Ask::Finished(self.near.rec)
        } else {
            match self.pending[n - 1] {
                Pending::Object(i) => Ask::Hit {
                    object: i,
                    t_min: self.near.t_min,
                    t_max: self.near.closest_so_far,
                },
                Pending::Node(node) => Ask::Crossings(node.abox),
            }
        }
    }

    /// Takes the answer to the question that [`BvhQuery::ask`] returns, and
    /// says whether it was an answer to that question. One that was not
    /// changes nothing. One that was brings the query nearer to its end.
    pub fn answer(&mut self, answer: Answer) -> (taken: bool)
        ensures
            taken == fits(asked(old(self).pending@, old(self).near), answer),
            (final(self).pending@, final(self).near) == answered(
                old(self).pending@,
                old(self).near,
                answer,
            ),
            taken ==> remaining(final(self).pending@) < remaining(old(self).pending@),
    {
        let n: usize = self.pending.len();
        if n == 0 {
            return false;
        }
        let ghost before = self.pending@;
        let top: Pending<'a> = self.pending[n - 1];
        match (top, answer) {
            (Pending::Object(_), Answer::Hit(report)) => {
                self.pending.pop();
                self.near.offer(report);
                assert(self.pending@ =~= before.drop_last());
                assert(remaining(before) == remaining(before.drop_last()) + before.last().work());
                true
            },
            (Pending::Node(node), Answer::Crossings(x, y, z)) => {
                self.pending.pop();
                assert(self.pending@ =~= before.drop_last());
                assert(remaining(before) == remaining(before.drop_last()) + before.last().work());
                if AABB::hit(x, y, z, self.near.t_min, self.near.closest_so_far) {
                    self.pending.push(Pending::side(&node.right));
                    self.pending.push(Pending::side(&node.left));
                    proof {
                        let one = before.drop_last().push(Pending::of(node.right));
                        let two = one.push(Pending::of(node.left));
                        assert(self.pending@ =~= two);
                        assert(two.drop_last() =~= one);
                        assert(one.drop_last() =~= before.drop_last());
                        lemma_side_work(node.left);
                        lemma_side_work(node.right);
                        assert(remaining(two) == remaining(one) + two.last().work());
                        assert(remaining(one) == remaining(before.drop_last()) + one.last().work());
                    }
                }
                true
            },
            _ => false,
        }
    }
}

/// A side raises as many questions pending as it does as a side.
proof fn lemma_side_work(child: BvhChild)
    ensures
        Pending::of(child).work() == child.work(),
{
}

/// The search goes down a pending side as it goes down the side.
proof fn lemma_side_descend(child: BvhChild, hits: Reports, slabs: Slabs, near: Nearest)
    ensures
        Pending::of(child).descend(hits, slabs, near) == child.descend(hits, slabs, near),
{
}

/// A truthful answer does not change where the query ends.
pub proof fn lemma_answer_keeps_outcome(
    pending: Seq<Pending>,
    near: Nearest,
    answer: Answer,
    hits: Reports,
    slabs: Slabs,
)
    requires
        truthful(asked(pending, near), answer, hits, slabs),
    ensures
        settled(answered(pending, near, answer).0, hits, slabs, answered(pending, near, answer).1)
            == settled(pending, hits, slabs, near),
{
    let rest = pending.drop_last();
    match (pending.last(), answer) {
        (Pending::Node(n), Answer::Crossings(x, y, z)) => {
            if slabs_overlap(x, y, z, near.t_min, near.closest_so_far) {
                let one = rest.push(Pending::of(n.right));
                let two = one.push(Pending::of(n.left));
                assert(two.drop_last() =~= one);
                assert(one.drop_last() =~= rest);
                lemma_side_descend(n.left, hits, slabs, near);
                lemma_side_descend(n.right, hits, slabs, n.left.descend(hits, slabs, near));
                let after_left = two.last().descend(hits, slabs, near);
                assert(settled(two, hits, slabs, near) == settled(one, hits, slabs, after_left));
                let after_right = one.last().descend(hits, slabs, after_left);
                assert(settled(one, hits, slabs, after_left) == settled(
                    rest,
                    hits,
                    slabs,
                    after_right,
                ));
            }
        },
        _ => {},
    }
}

/// A query that has nothing pending has ended where it was to end, and the
/// hit it holds is the outcome.
pub proof fn lemma_finished_outcome(pending: Seq<Pending>, near: Nearest, hits: Reports, slabs: Slabs)
    requires
        asked(pending, near) is Finished,
    ensures
        settled(pending, hits, slabs, near) == near,
        asked(pending, near) == Ask::Finished(near.rec),
{
}

/// The search of a side extends a search among the objects seen before to a
/// search among them and the objects below that side.
pub proof fn lemma_side_extends(
    child: BvhChild,
    hits: Reports,
    slabs: Slabs,
    seen: Set<usize>,
    t_min: Scalar,
    t_max: Scalar,
    near: Nearest,
)
    requires
        !t_max.nan(),
        forall|i: usize| #[trigger] child.objects().contains(i) ==> steady(hits, i, t_min, t_max),
        child.sound(hits, slabs, t_min, t_max),
        nearest_of(hits, seen, t_min, t_max, near),
        near.rec is Some ==> in_range(near.closest_so_far, t_min, t_max),
    ensures
        nearest_of(
            hits,
            seen.union(child.objects()),
            t_min,
            t_max,
            child.descend(hits, slabs, near),
        ),
        child.descend(hits, slabs, near).rec is Some ==> in_range(
            child.descend(hits, slabs, near).closest_so_far,
            t_min,
            t_max,
        ),
    decreases child, 0nat,
{
    match child {
        BvhChild::Object(i) => {
            assert(child.objects().contains(i));
            lemma_offer_extends(hits, seen, i, t_min, t_max, near);
            assert(seen.insert(i) =~= seen.union(child.objects()));
        },
        BvhChild::Node(n) => {
            assert(child.objects() == n.objects());
            lemma_node_extends(*n, hits, slabs, seen, t_min, t_max, near);
        },
    }
}

/// The search of a subtree extends a search among the objects seen before to
/// a search among them and the objects of the subtree.
pub proof fn lemma_node_extends(
    node: BvhNode,
    hits: Reports,
    slabs: Slabs,
    seen: Set<usize>,
    t_min: Scalar,
    t_max: Scalar,
    near: Nearest,
)
    requires
        !t_max.nan(),
        forall|i: usize| #[trigger] node.objects().contains(i) ==> steady(hits, i, t_min, t_max),
        node.sound(hits, slabs, t_min, t_max),
        nearest_of(hits, seen, t_min, t_max, near),
        near.rec is Some ==> in_range(near.closest_so_far, t_min, t_max),
    ensures
        nearest_of(hits, seen.union(node.objects()), t_min, t_max, node.descend(hits, slabs, near)),
        node.descend(hits, slabs, near).rec is Some ==> in_range(
            node.descend(hits, slabs, near).closest_so_far,
            t_min,
            t_max,
        ),
    decreases node, 1nat,
{
    let all = seen.union(node.objects());
    if passes(slabs, node.abox, near.t_min, near.closest_so_far) {
        assert forall|i: usize| #[trigger] node.left.objects().contains(i) implies steady(
            hits,
            i,
            t_min,
            t_max,
        ) by {
            assert(node.objects().contains(i));
        }
        assert forall|i: usize| #[trigger] node.right.objects().contains(i) implies steady(
            hits,
            i,
            t_min,
            t_max,
        ) by {
            assert(node.objects().contains(i));
        }
        lemma_side_extends(node.left, hits, slabs, seen, t_min, t_max, near);
        let mid = node.left.descend(hits, slabs, near);
        lemma_side_extends(
            node.right,
            hits,
            slabs,
            seen.union(node.left.objects()),
            t_min,
            t_max,
            mid,
        );
        assert(seen.union(node.left.objects()).union(node.right.objects()) =~= all);
    } else {
        assert(near.closest_so_far.at_most(t_max));
        assert forall|j: usize| node.objects().contains(j) && (#[trigger] hits(j, t_min, t_max))
            is Some implies !hits(j, t_min, t_max)->0.t.at_most(near.closest_so_far) by {
            let full = hits(j, t_min, t_max);
            assert(steady(hits, j, t_min, t_max));
            let narrow = hits(j, t_min, near.closest_so_far);
            if full->0.t.at_most(near.closest_so_far) {
                assert(narrow == full);
                assert(passes(slabs, node.abox, t_min, near.closest_so_far));
            }
        }
        match near.rec {
            None => {
                assert forall|i: usize| all.contains(i) implies (#[trigger] hits(i, t_min, t_max))
                    is None by {
                    if node.objects().contains(i) && hits(i, t_min, t_max) is Some {
                        assert(steady(hits, i, t_min, t_max));
                    }
                }
            },
            Some(h) => {
                let w = choose|i: usize| seen.contains(i) && #[trigger] hits(i, t_min, t_max) == Some(h);
                assert(all.contains(w));
                assert forall|i: usize| all.contains(i) && (#[trigger] hits(i, t_min, t_max))
                    is Some implies h.t.at_most(hits(i, t_min, t_max)->0.t) by {
                    if node.objects().contains(i) {
                        assert(steady(hits, i, t_min, t_max));
                    }
                }
            },
        }
    }
}

/// The search of a hierarchy finds a nearest hit among its objects: a hit
/// that one of them reports over the whole range and that no other undercuts,
/// or none where none of them reports one.
pub proof fn lemma_descend_is_nearest(
    node: BvhNode,
    hits: Reports,
    slabs: Slabs,
    t_min: Scalar,
    t_max: Scalar,
)
    requires
        !t_max.nan(),
        forall|i: usize| #[trigger] node.objects().contains(i) ==> steady(hits, i, t_min, t_max),
        node.sound(hits, slabs, t_min, t_max),
    ensures
        nearest_of(
            hits,
            node.objects(),
            t_min,
            t_max,
            node.descend(hits, slabs, Nearest::start(t_min, t_max)),
        ),
{
    let empty = Set::<usize>::empty();
    lemma_node_extends(node, hits, slabs, empty, t_min, t_max, Nearest::start(t_min, t_max));
    assert(empty.union(node.objects()) =~= node.objects());
}

/// The hierarchy and the linear scan agree. For objects that answer as
/// surfaces do, under boxes that bound them, and with no two hits at the same
/// distance, the search of the hierarchy ends with the very hit that the scan
/// over the same objects ends with, in whatever order the scan takes them.
pub proof fn lemma_descend_equals_scan(
    node: BvhNode,
    hits: Reports,
    slabs: Slabs,
    objects: Seq<usize>,
    t_min: Scalar,
    t_max: Scalar,
)
    requires
        !t_max.nan(),
        objects.to_set() == node.objects(),
        forall|i: usize| #[trigger] node.objects().contains(i) ==> steady(hits, i, t_min, t_max),
        node.sound(hits, slabs, t_min, t_max),
        forall|i: usize, j: usize|
            node.objects().contains(i) && node.objects().contains(j) && i != j && (#[trigger] hits(
                i,
                t_min,
                t_max,
            )) is Some && (#[trigger] hits(j, t_min, t_max)) is Some ==> !hits(
                i,
                t_min,
                t_max,
            )->0.t.same(hits(j, t_min, t_max)->0.t),
    ensures
        node.descend(hits, slabs, Nearest::start(t_min, t_max)) == scanned(
            hits,
            objects,
            Nearest::start(t_min, t_max),
        ),
{
    lemma_descend_is_nearest(node, hits, slabs, t_min, t_max);
    assert forall|k: int| 0 <= k < objects.len() implies steady(
        hits,
        #[trigger] objects[k],
        t_min,
        t_max,
    ) by {
        assert(objects.to_set().contains(objects[k]));
    }
    lemma_scan_is_nearest(hits, objects, t_min, t_max);
    assert forall|i: usize|
        node.objects().contains(i) && (#[trigger] hits(i, t_min, t_max)) is Some implies !hits(
        i,
        t_min,
        t_max,
    )->0.t.nan() by {
        assert(steady(hits, i, t_min, t_max));
    }
    lemma_nearest_unique(
        hits,
        node.objects(),
        t_min,
        t_max,
        node.descend(hits, slabs, Nearest::start(t_min, t_max)),
        scanned(hits, objects, Nearest::start(t_min, t_max)),
    );
}

/// A query that was answered truthfully all along and has nothing left to
/// ask holds what the linear scan ends with, under the conditions on which
/// the hierarchy and the scan agree.
pub proof fn lemma_finished_query_equals_scan(
    node: BvhNode,
    pending: Seq<Pending>,
    near: Nearest,
    hits: Reports,
    slabs: Slabs,
    objects: Seq<usize>,
    t_min: Scalar,
    t_max: Scalar,
)
    requires
        !t_max.nan(),
        objects.to_set() == node.objects(),
        forall|i: usize| #[trigger] node.objects().contains(i) ==> steady(hits, i, t_min, t_max),
        node.sound(hits, slabs, t_min, t_max),
        forall|i: usize, j: usize|
            node.objects().contains(i) && node.objects().contains(j) && i != j && (#[trigger] hits(
                i,
                t_min,
                t_max,
            )) is Some && (#[trigger] hits(j, t_min, t_max)) is Some ==> !hits(
                i,
                t_min,
                t_max,
            )->0.t.same(hits(j, t_min, t_max)->0.t),
        settled(pending, hits, slabs, near) == node.descend(
            hits,
            slabs,
            Nearest::start(t_min, t_max),
        ),
        asked(pending, near) is Finished,
    ensures
        asked(pending, near) == Ask::Finished(
            scanned(hits, objects, Nearest::start(t_min, t_max)).rec,
        ),
{
    lemma_finished_outcome(pending, near, hits, slabs);
    lemma_descend_equals_scan(node, hits, slabs, objects, t_min, t_max);
}

/// The crossings of a ray with a box reach as far as those with every box
/// inside it, as they do where the crossings are quotients of differences by
/// the components of one direction.
pub open spec fn orderly(slabs: Slabs) -> bool {
    forall|inner: AABB, outer: AABB| #[trigger]
        outer.encloses(inner) ==> {
            &&& slabs(inner).0.numeric() ==> slabs(outer).0.numeric() && reaches(
                slabs(outer).0,
                slabs(inner).0,
            )
            &&& slabs(inner).1.numeric() ==> slabs(outer).1.numeric() && reaches(
                slabs(outer).1,
                slabs(inner).1,
            )
            &&& slabs(inner).2.numeric() ==> slabs(outer).2.numeric() && reaches(
                slabs(outer).2,
                slabs(inner).2,
            )
        }
}

/// The boxes of a well-formed hierarchy are sound for a ray as soon as the
/// objects' own boxes are. If the ray passes through the box of every object
/// that reports a hit, with crossings that are numbers, and its crossings
/// with a box reach as far as those with every box inside it, then it passes
/// through the box of every node above an object that reports a hit.
pub proof fn lemma_wf_sound(
    node: BvhNode,
    boxes: Seq<Option<AABB>>,
    hits: Reports,
    slabs: Slabs,
    t_min: Scalar,
    t_max: Scalar,
)
    requires
        node.wf(boxes),
        forall|k: usize| #[trigger]
            node.objects().contains(k) ==> k < boxes.len() && numeric_box(boxes[k as int]->0),
        forall|i: usize, b: Scalar|
            node.objects().contains(i) && b.at_most(t_max) && (#[trigger] hits(i, t_min, b))
                is Some ==> {
                &&& passes(slabs, boxes[i as int]->0, t_min, b)
                &&& slabs(boxes[i as int]->0).0.numeric()
                &&& slabs(boxes[i as int]->0).1.numeric()
                &&& slabs(boxes[i as int]->0).2.numeric()
                &&& !t_min.nan()
            },
        orderly(slabs),
    ensures
        node.sound(hits, slabs, t_min, t_max),
    decreases node,
{
    assert forall|i: usize, b: Scalar|
        node.objects().contains(i) && b.at_most(t_max) && (#[trigger] hits(i, t_min, b))
            is Some implies passes(slabs, node.abox, t_min, b) by {
        lemma_node_encloses(node, boxes, i);
        let inner = boxes[i as int]->0;
        assert(node.abox.encloses(inner));
        assert(passes(slabs, inner, t_min, b));
        let c = slabs(inner);
        let w = slabs(node.abox);
        lemma_slabs_grow(c.0, c.1, c.2, t_min, b, w.0, w.1, w.2, t_min, b);
    }
    match node.left {
        BvhChild::Node(n) => {
            assert(node.left.objects() == n.objects());
            assert forall|k: usize| #[trigger] n.objects().contains(k) implies k < boxes.len()
                && numeric_box(boxes[k as int]->0) by {
                assert(node.objects().contains(k));
            }
            assert forall|i: usize, b: Scalar|
                n.objects().contains(i) && b.at_most(t_max) && (#[trigger] hits(i, t_min, b))
                    is Some implies {
                &&& passes(slabs, boxes[i as int]->0, t_min, b)
                &&& slabs(boxes[i as int]->0).0.numeric()
                &&& slabs(boxes[i as int]->0).1.numeric()
                &&& slabs(boxes[i as int]->0).2.numeric()
                &&& !t_min.nan()
            } by {
                assert(node.objects().contains(i));
            }
            lemma_wf_sound(*n, boxes, hits, slabs, t_min, t_max);
        },
        BvhChild::Object(_) => {},
    }
    match node.right {
        BvhChild::Node(n) => {
            assert(node.right.objects() == n.objects());
            assert forall|k: usize| #[trigger] n.objects().contains(k) implies k < boxes.len()
                && numeric_box(boxes[k as int]->0) by {
                assert(node.objects().contains(k));
            }
            assert forall|i: usize, b: Scalar|
                n.objects().contains(i) && b.at_most(t_max) && (#[trigger] hits(i, t_min, b))
                    is Some implies {
                &&& passes(slabs, boxes[i as int]->0, t_min, b)
                &&& slabs(boxes[i as int]->0).0.numeric()
                &&& slabs(boxes[i as int]->0).1.numeric()
                &&& slabs(boxes[i as int]->0).2.numeric()
                &&& !t_min.nan()
            } by {
                assert(node.objects().contains(i));
            }
            lemma_wf_sound(*n, boxes, hits, slabs, t_min, t_max);
        },
        BvhChild::Object(_) => {},
    }
}

} // verus!
