//! An unordered collection of objects: its bounding box, the linear scan for
//! the nearest hit, and the choice of one member at random.
use vstd::prelude::*;
use crate::aabb::{surrounding, surrounding_box, AABB};
use crate::hittable::{fits, in_range, Answer, Ask, HitRecord, Nearest};
use crate::rtweekend::random_below;
use crate::scalar::Scalar;

verus! {

/// The union of the boxes in the order in which they stand, or `None` where
/// the sequence is empty or one of its members has no box.
pub open spec fn union_of(boxes: Seq<Option<AABB>>) -> Option<AABB>
    decreases boxes.len(),
{
    if boxes.len() == 0 {
        None
    } else if boxes.len() == 1 {
        boxes[0]
    } else {
        match (union_of(boxes.drop_last()), boxes.last()) {
            (Some(a), Some(b)) => Some(surrounding(a, b)),
            _ => None,
        }
    }
}

/// The bounding box of a collection, from the boxes that its members report:
/// the union of them all. A collection without members has none, and neither
/// has one with a member that has none.
pub fn bounding_box(boxes: &Vec<Option<AABB>>) -> (b: Option<AABB>)
    ensures
        b == union_of(boxes@),
        b is Some <==> boxes.len() > 0 && forall|i: int|
            0 <= i < boxes.len() ==> (#[trigger] boxes[i]) is Some,
{
    if boxes.len() == 0 {
        return None;
    }
    let mut output: AABB = match boxes[0] {
        Some(b) => b,
        None => {
            proof {
                lemma_union_missing(boxes@, 0);
            }
            return None;
        },
    };
    let mut i: usize = 1;
    assert(boxes@.take(1) =~= seq![boxes[0]]);
    while i < boxes.len()
        invariant
            1 <= i <= boxes.len(),
            union_of(boxes@.take(i as int)) == Some(output),
            forall|k: int| 0 <= k < i ==> (#[trigger] boxes[k]) is Some,
        decreases boxes.len() - i,
    {
        assert(boxes@.take(i + 1).drop_last() =~= boxes@.take(i as int));
        match boxes[i] {
            Some(b) => {
                output = surrounding_box(&output, &b);
            },
            None => {
                proof {
                    lemma_union_missing(boxes@, i as int);
                }
                return None;
            },
        }
        i = i + 1;
    }
    assert(boxes@.take(i as int) =~= boxes@);
    Some(output)
}

/// A sequence with a member that has no box has no union.
pub proof fn lemma_union_missing(boxes: Seq<Option<AABB>>, i: int)
    requires
        0 <= i < boxes.len(),
        boxes[i] is None,
    ensures
        union_of(boxes) is None,
    decreases boxes.len(),
{
    if boxes.len() > 1 && i < boxes.len() - 1 {
        lemma_union_missing(boxes.drop_last(), i);
    }
}

/// The union of a collection encloses the box of each member, where the
/// corners are numbers.
pub proof fn lemma_union_encloses(boxes: Seq<Option<AABB>>, i: int)
    requires
        0 <= i < boxes.len(),
        union_of(boxes) is Some,
        forall|k: int|
            0 <= k < boxes.len() && (#[trigger] boxes[k]) is Some ==> boxes[k]->0.minimum.numeric()
                && boxes[k]->0.maximum.numeric(),
    ensures
        boxes[i] is Some,
        union_of(boxes)->0.encloses(boxes[i]->0),
        union_of(boxes)->0.minimum.numeric(),
        union_of(boxes)->0.maximum.numeric(),
    decreases boxes.len(),
{
    if boxes.len() > 1 {
        let rest = boxes.drop_last();
        lemma_union_encloses(rest, 0);
        if i < boxes.len() - 1 {
            lemma_union_encloses(rest, i);
        }
    }
}

/// The index of one member of a collection of `len` members, drawn at random,
/// or `None` where there is none to draw.
pub fn random(len: usize) -> (pick: Option<usize>)
    ensures
        len == 0 ==> pick is None,
        len > 0 ==> pick is Some && pick->0 < len,
{
    if len == 0 {
        None
    } else {
        Some(random_below(len))
    }
}

/// What the objects of a scene report to one ray: for an object and a range
/// `(t_min, t_max]`, its nearest hit in that range, if it has one.
pub type Reports = spec_fn(usize, Scalar, Scalar) -> Option<HitRecord>;

/// The linear scan: the objects are asked one after the other, each over the
/// range that the hits before it have left.
pub open spec fn scanned(hits: Reports, objects: Seq<usize>, near: Nearest) -> Nearest
    decreases objects.len(),
{
    if objects.len() == 0 {
        near
    } else {
        let before = scanned(hits, objects.drop_last(), near);
        before.offered(hits(objects.last(), before.t_min, before.closest_so_far))
    }
}

/// The object answers as a surface does. What it reports over `(t_min, t_max]`
/// lies in that range; and over a shorter range `(t_min, b]` it reports the
/// same hit where that hit still lies in the range, and none otherwise, as the
/// hit was its nearest.
pub open spec fn steady(hits: Reports, object: usize, t_min: Scalar, t_max: Scalar) -> bool {
    let full = hits(object, t_min, t_max);
    &&& full is Some ==> in_range(full->0.t, t_min, t_max)
    &&& forall|b: Scalar|
        b.at_most(t_max) ==> #[trigger] hits(object, t_min, b) == if full is Some
            && full->0.t.at_most(b) {
            full
        } else {
            None
        }
}

/// `near` is the outcome of a search among `objects` over `(t_min, t_max]`:
/// it holds no hit where none of the objects reports one, and otherwise a
/// hit that one of them reports and that none of the others undercuts.
pub open spec fn nearest_of(
    hits: Reports,
    objects: Set<usize>,
    t_min: Scalar,
    t_max: Scalar,
    near: Nearest,
) -> bool {
    &&& near.t_min == t_min
    &&& match near.rec {
        None => near.closest_so_far == t_max && forall|i: usize|
            objects.contains(i) ==> (#[trigger] hits(i, t_min, t_max)) is None,
        Some(h) => {
            &&& near.closest_so_far == h.t
            &&& exists|i: usize| objects.contains(i) && #[trigger] hits(i, t_min, t_max) == Some(h)
            &&& forall|i: usize|
                objects.contains(i) && (#[trigger] hits(i, t_min, t_max)) is Some ==> h.t.at_most(
                    hits(i, t_min, t_max)->0.t,
                )
        },
    }
}

/// One more object asked: the search among `objects` becomes the search among
/// `objects` and `object`.
pub proof fn lemma_offer_extends(
    hits: Reports,
    objects: Set<usize>,
    object: usize,
    t_min: Scalar,
    t_max: Scalar,
    near: Nearest,
)
    requires
        !t_max.nan(),
        steady(hits, object, t_min, t_max),
        nearest_of(hits, objects, t_min, t_max, near),
        near.rec is Some ==> in_range(near.closest_so_far, t_min, t_max),
    ensures
        nearest_of(
            hits,
            objects.insert(object),
            t_min,
            t_max,
            near.offered(hits(object, t_min, near.closest_so_far)),
        ),
        near.offered(hits(object, t_min, near.closest_so_far)).rec is Some ==> in_range(
            near.offered(hits(object, t_min, near.closest_so_far)).closest_so_far,
            t_min,
            t_max,
        ),
{
    let full = hits(object, t_min, t_max);
    let narrow = hits(object, t_min, near.closest_so_far);
    let after = near.offered(narrow);
    assert(near.closest_so_far.at_most(t_max));
    assert(narrow == if full is Some && full->0.t.at_most(near.closest_so_far) {
        full
    } else {
        None
    });
    if near.takes(narrow) {
        assert(after.rec == full);
        assert(objects.insert(object).contains(object));
    } else {
        if near.rec is Some {
            let w = choose|i: usize|
                objects.contains(i) && #[trigger] hits(i, t_min, t_max) == Some(near.rec->0);
            assert(objects.insert(object).contains(w));
        }
    }
}

/// The linear scan finds a nearest hit: whatever the order of the objects,
/// its outcome is a hit that one object reports over the whole range and that
/// no other object undercuts, or no hit where no object reports one.
pub proof fn lemma_scan_is_nearest(hits: Reports, objects: Seq<usize>, t_min: Scalar, t_max: Scalar)
    requires
        !t_max.nan(),
        forall|k: int| 0 <= k < objects.len() ==> steady(hits, #[trigger] objects[k], t_min, t_max),
    ensures
        nearest_of(
            hits,
            objects.to_set(),
            t_min,
            t_max,
            scanned(hits, objects, Nearest::start(t_min, t_max)),
        ),
        scanned(hits, objects, Nearest::start(t_min, t_max)).rec is Some ==> in_range(
            scanned(hits, objects, Nearest::start(t_min, t_max)).closest_so_far,
            t_min,
            t_max,
        ),
    decreases objects.len(),
{
    if objects.len() == 0 {
        assert(objects.to_set() =~= Set::<usize>::empty());
    } else {
        let rest = objects.drop_last();
        lemma_scan_is_nearest(hits, rest, t_min, t_max);
        let before = scanned(hits, rest, Nearest::start(t_min, t_max));
        lemma_offer_extends(hits, rest.to_set(), objects.last(), t_min, t_max, before);
        assert(rest.to_set().insert(objects.last()) =~= objects.to_set()) by {
            assert forall|x: usize| objects.to_set().contains(x) implies rest.to_set().insert(
                objects.last(),
            ).contains(x) by {
                let k = choose|k: int| 0 <= k < objects.len() && objects[k] == x;
                if k < objects.len() - 1 {
                    assert(rest[k] == x);
                }
            }
            assert forall|x: usize| rest.to_set().contains(x) implies objects.to_set().contains(
                x,
            ) by {
                let k = choose|k: int| 0 <= k < rest.len() && rest[k] == x;
                assert(objects[k] == x);
            }
            assert(objects[objects.len() - 1] == objects.last());
        }
    }
}

/// What a search holds of a hit, held to a shorter range: the hit where it
/// lies in `(t_min, b]`, and none otherwise.
pub open spec fn held_to(rec: Option<HitRecord>, b: Scalar) -> Option<HitRecord> {
    match rec {
        Some(h) => if h.t.at_most(b) {
            Some(h)
        } else {
            None
        },
        None => None,
    }
}

/// A list answers as a surface does. Over a shorter range the linear scan
/// ends with the same hit where that hit still lies in the range, and with
/// none otherwise: a list of objects can stand where one object does.
pub proof fn lemma_scan_steady(
    hits: Reports,
    objects: Seq<usize>,
    t_min: Scalar,
    t_max: Scalar,
    b: Scalar,
)
    requires
        b.at_most(t_max),
        forall|k: int| 0 <= k < objects.len() ==> steady(hits, #[trigger] objects[k], t_min, t_max),
    ensures
        scanned(hits, objects, Nearest::start(t_min, b)).rec == held_to(
            scanned(hits, objects, Nearest::start(t_min, t_max)).rec,
            b,
        ),
        scanned(hits, objects, Nearest::start(t_min, t_max)).rec is Some ==> in_range(
            scanned(hits, objects, Nearest::start(t_min, t_max)).rec->0.t,
            t_min,
            t_max,
        ),
{
    lemma_scan_steady_step(hits, objects, t_min, t_max, b);
}

proof fn lemma_scan_steady_step(
    hits: Reports,
    objects: Seq<usize>,
    t_min: Scalar,
    t_max: Scalar,
    b: Scalar,
)
    requires
        b.at_most(t_max),
        forall|k: int| 0 <= k < objects.len() ==> steady(hits, #[trigger] objects[k], t_min, t_max),
    ensures
        scanned(hits, objects, Nearest::start(t_min, b)).rec == held_to(
            scanned(hits, objects, Nearest::start(t_min, t_max)).rec,
            b,
        ),
        scanned(hits, objects, Nearest::start(t_min, t_max)).rec is Some ==> in_range(
            scanned(hits, objects, Nearest::start(t_min, t_max)).rec->0.t,
            t_min,
            t_max,
        ),
        scanned(hits, objects, Nearest::start(t_min, t_max)).wf(),
        scanned(hits, objects, Nearest::start(t_min, b)).wf(),
        scanned(hits, objects, Nearest::start(t_min, t_max)).t_min == t_min,
        scanned(hits, objects, Nearest::start(t_min, b)).t_min == t_min,
        scanned(hits, objects, Nearest::start(t_min, t_max)).rec is None ==> scanned(
            hits,
            objects,
            Nearest::start(t_min, t_max),
        ).closest_so_far == t_max,
        scanned(hits, objects, Nearest::start(t_min, b)).rec is None ==> scanned(
            hits,
            objects,
            Nearest::start(t_min, b),
        ).closest_so_far == b,
    decreases objects.len(),
{
    if objects.len() > 0 {
        let rest = objects.drop_last();
        lemma_scan_steady_step(hits, rest, t_min, t_max, b);
        let wide = scanned(hits, rest, Nearest::start(t_min, t_max));
        let narrow = scanned(hits, rest, Nearest::start(t_min, b));
        let o = objects.last();
        assert(steady(hits, o, t_min, t_max));
        let full = hits(o, t_min, t_max);
        assert(wide.closest_so_far.at_most(t_max));
        assert(narrow.closest_so_far.at_most(t_max));
        assert(hits(o, t_min, wide.closest_so_far) == if full is Some && full->0.t.at_most(
            wide.closest_so_far,
        ) {
            full
        } else {
            None
        });
        assert(hits(o, t_min, narrow.closest_so_far) == if full is Some && full->0.t.at_most(
            narrow.closest_so_far,
        ) {
            full
        } else {
            None
        });
    }
}

/// Where no two objects report hits at the same distance, two searches among
/// the same objects have the same outcome.
pub proof fn lemma_nearest_unique(
    hits: Reports,
    objects: Set<usize>,
    t_min: Scalar,
    t_max: Scalar,
    a: Nearest,
    b: Nearest,
)
    requires
        nearest_of(hits, objects, t_min, t_max, a),
        nearest_of(hits, objects, t_min, t_max, b),
        forall|i: usize|
            objects.contains(i) && (#[trigger] hits(i, t_min, t_max)) is Some ==> !hits(
                i,
                t_min,
                t_max,
            )->0.t.nan(),
        forall|i: usize, j: usize|
            objects.contains(i) && objects.contains(j) && i != j && (#[trigger] hits(
                i,
                t_min,
                t_max,
            )) is Some && (#[trigger] hits(j, t_min, t_max)) is Some ==> !hits(
                i,
                t_min,
                t_max,
            )->0.t.same(hits(j, t_min, t_max)->0.t),
    ensures
        a == b,
{
    if a.rec is Some {
        let i = choose|i: usize| objects.contains(i) && #[trigger] hits(i, t_min, t_max) == a.rec;
        if b.rec is Some {
            let j = choose|j: usize|
                objects.contains(j) && #[trigger] hits(j, t_min, t_max) == b.rec;
            assert(a.rec->0.t.at_most(b.rec->0.t));
            assert(b.rec->0.t.at_most(a.rec->0.t));
        }
    } else if b.rec is Some {
        let j = choose|j: usize| objects.contains(j) && #[trigger] hits(j, t_min, t_max) == b.rec;
    }
}

/// An unordered collection of objects of a scene, each by its index.
#[derive(Debug)]
pub struct HittableList {
    pub objects: Vec<usize>,
}

/// A search for the nearest hit of one ray among the objects of a list, answer
/// by answer: the objects are asked in the order of the list, each over the
/// range that the hits before it have left.
#[derive(Debug)]
pub struct ListQuery<'a> {
    /// The objects to ask.
    pub objects: &'a Vec<usize>,
    /// How many of them have answered.
    pub asked: usize,
    /// The nearest hit so far.
    pub near: Nearest,
}

impl HittableList {
    /// The list without objects.
    pub fn new() -> (list: HittableList)
        ensures
            list.objects@ == Seq::<usize>::empty(),
    {
        HittableList { objects: Vec::new() }
    }

    /// Removes every object.
    pub fn clear(&mut self)
        ensures
            final(self).objects@ == Seq::<usize>::empty(),
    {
        self.objects.clear()
    }

    /// Adds an object at the end.
    pub fn add(&mut self, object: usize)
        ensures
            final(self).objects@ == old(self).objects@.push(object),
    {
        self.objects.push(object)
    }

    /// The box around the list, from the boxes of all objects of the scene:
    /// the union of the boxes of the members. A list without members has
    /// none, and neither has a list with a member that has none or that the
    /// scene does not hold.
    pub fn bounding_box(&self, boxes: &Vec<Option<AABB>>) -> (b: Option<AABB>)
        ensures
            b == union_of(self.boxes_of(boxes@)),
    {
        let mut own: Vec<Option<AABB>> = Vec::new();
        let mut i: usize = 0;
        while i < self.objects.len()
            invariant
                i <= self.objects.len(),
                own@ == self.boxes_of(boxes@).take(i as int),
            decreases self.objects.len() - i,
        {
            let object: usize = self.objects[i];
            let b: Option<AABB> = if object < boxes.len() {
                boxes[object]
            } else {
                None
            };
            own.push(b);
            assert(own@ =~= self.boxes_of(boxes@).take(i + 1));
            i = i + 1;
        }
        assert(own@ =~= self.boxes_of(boxes@));
        bounding_box(&own)
    }

    /// The boxes of the members, in the order of the list.
    pub open spec fn boxes_of(self, boxes: Seq<Option<AABB>>) -> Seq<Option<AABB>> {
        Seq::new(
            self.objects@.len(),
            |i: int|
                if self.objects@[i] < boxes.len() {
                    boxes[self.objects@[i] as int]
                } else {
                    None
                },
        )
    }

    /// One member of the list, drawn at random, or `None` where the list has
    /// none.
    pub fn random(&self) -> (object: Option<usize>)
        ensures
            self.objects.len() == 0 ==> object is None,
            self.objects.len() > 0 ==> object is Some && self.objects@.contains(object->0),
    {
        match random(self.objects.len()) {
            Some(i) => Some(self.objects[i]),
            None => None,
        }
    }

    /// Begins the search for the nearest hit in `(t_min, t_max]` among the
    /// objects of the list.
    pub fn hit<'a>(&'a self, t_min: Scalar, t_max: Scalar) -> (q: ListQuery<'a>)
        ensures
            q.objects@ == self.objects@,
            q.asked == 0,
            q.near == Nearest::start(t_min, t_max),
    {
        ListQuery { objects: &self.objects, asked: 0, near: Nearest::new(t_min, t_max) }
    }
}

impl<'a> ListQuery<'a> {
    /// What the query needs to know next: the hit of the ray on the next
    /// object over the range that is left, or nothing more.
    pub open spec fn asks(self) -> Ask {
        if self.asked < self.objects@.len() {
            Ask::Hit {
                object: self.objects@[self.asked as int],
                t_min: self.near.t_min,
                t_max: self.near.closest_so_far,
            }
        } else {
            Ask::Finished(self.near.rec)
        }
    }

    /// What the query needs to know next.
    pub fn ask(&self) -> (a: Ask)
        ensures
            a == self.asks(),
    {
        if self.asked < self.objects.len() {
            Ask::Hit {
                object: self.objects[self.asked],
                t_min: self.near.t_min,
                t_max: self.near.closest_so_far,
            }
        } else {
            Ask::Finished(self.near.rec)
        }
    }

    /// Takes the report of the object asked about, and says whether it was
    /// one. Any other answer, or an answer to a query that has finished,
    /// changes nothing. A report is offered to the nearest hit so far, and the
    /// query goes on to the next object.
    pub fn answer(&mut self, answer: Answer) -> (taken: bool)
        ensures
            taken == fits(old(self).asks(), answer),
            final(self).objects == old(self).objects,
            taken ==> final(self).asked == old(self).asked + 1 && final(self).near == old(
                self,
            ).near.offered(answer->Hit_0),
            !taken ==> final(self).asked == old(self).asked && final(self).near == old(self).near,
    {
        if self.asked >= self.objects.len() {
            return false;
        }
        match answer {
            Answer::Hit(report) => {
                self.near.offer(report);
                self.asked = self.asked + 1;
                true
            },
            Answer::Crossings(_, _, _) => false,
        }
    }
}

/// A query fed with what the scene reports is the linear scan: after each
/// answer it holds what the scan holds after as many objects.
pub proof fn lemma_list_answer(
    hits: Reports,
    objects: Seq<usize>,
    asked: int,
    t_min: Scalar,
    t_max: Scalar,
)
    requires
        0 <= asked < objects.len(),
    ensures
        ({
            let before = scanned(hits, objects.take(asked), Nearest::start(t_min, t_max));
            scanned(hits, objects.take(asked + 1), Nearest::start(t_min, t_max)) == before.offered(
                hits(objects[asked], before.t_min, before.closest_so_far),
            )
        }),
{
    assert(objects.take(asked + 1).drop_last() =~= objects.take(asked));
}

} // verus!
