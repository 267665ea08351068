//! Parameter ranges along a ray, and the nearest hit among many candidates.

use crate::scalar::Scalar;
use crate::sphere::{lemma_hit_under_closer_bound, Roots};
use vstd::prelude::*;

verus! {

/// A range of ray parameters: from `start`, up to but without `end`.
#[derive(Clone, Copy, Debug, PartialEq, Eq, Structural)]
pub struct Interval {
    pub start: Scalar,
    pub end: Scalar,
}

impl Interval {
    /// The parameter lies in the range. Nothing lies in a range with a bound
    /// that is not a number, and what is not a number lies in no range.
    pub open spec fn spec_contains(self, t: Scalar) -> bool {
        self.start.spec_le(t) && t.spec_lt(self.end)
    }

    /// The range from `start` up to `end`.
    pub fn new(start: Scalar, end: Scalar) -> (r: Interval)
        ensures
            r.start == start,
            r.end == end,
    {
        Interval { start, end }
    }

    /// Whether the parameter lies in the range.
    pub fn contains(&self, t: Scalar) -> (r: bool)
        ensures
            r == self.spec_contains(t),
    {
        self.start.le(t) && t.lt(self.end)
    }

    /// The same range, cut off at `end`.
    pub fn until(&self, end: Scalar) -> (r: Interval)
        ensures
            r == self.spec_until(end),
    {
        Interval { start: self.start, end }
    }

    /// The same range, cut off at `end`.
    pub open spec fn spec_until(self, end: Scalar) -> Interval {
        Interval { start: self.start, end }
    }
}

/// Where a ray meets the scene: the candidate that is met, by its place in
/// the list, and the ray parameter of the meeting.
#[derive(Clone, Copy, Debug, PartialEq, Eq, Structural)]
pub struct HitRecord {
    pub t: Scalar,
    pub index: usize,
}

impl HitRecord {
    /// The record of candidate `index` met at parameter `t`.
    pub fn new(t: Scalar, index: usize) -> (r: HitRecord)
        ensures
            r.t == t,
            r.index == index,
    {
        HitRecord { t, index }
    }
}

/// The bound under which the next candidate has to stay: the closest hit so
/// far, or the end of the range while there is none.
pub open spec fn bound_after(closest: Option<HitRecord>, range: Interval) -> Scalar {
    match closest {
        Some(hit) => hit.t,
        None => range.end,
    }
}

/// The hit that a walk through the candidates ends with.
///
/// The candidates are asked in order. Each is asked for a hit in the range
/// cut off at the closest hit so far, and a candidate that has one becomes
/// the closest.
pub open spec fn nearest(items: Seq<Roots>, range: Interval) -> Option<HitRecord>
    decreases items.len(),
{
    if items.len() == 0 {
        None
    } else {
        let before = nearest(items.drop_last(), range);
        let window = range.spec_until(bound_after(before, range));
        match items.last().spec_hit(window) {
            Some(t) => Some(HitRecord { t, index: (items.len() - 1) as usize }),
            None => before,
        }
    }
}

/// The candidates of one ray, in the order of the scene.
pub struct HitableList {
    items: Vec<Roots>,
}

impl View for HitableList {
    type V = Seq<Roots>;

    closed spec fn view(&self) -> Seq<Roots> {
        self.items@
    }
}

impl HitableList {
    /// A list without candidates.
    pub fn new() -> (list: HitableList)
        ensures
            list@ == Seq::<Roots>::empty(),
    {
        HitableList { items: Vec::new() }
    }

    /// Adds a candidate behind the others.
    pub fn push(&mut self, hitable: Roots)
        ensures
            final(self)@ == old(self)@.push(hitable),
    {
        self.items.push(hitable);
    }

    /// The number of candidates.
    pub fn len(&self) -> (n: usize)
        ensures
            n == self@.len(),
    {
        self.items.len()
    }

    /// The nearest hit of the ray within the range, if it has any.
    pub fn hit(&self, t_range: &Interval) -> (r: Option<HitRecord>)
        ensures
            r == nearest(self@, *t_range),
            r matches Some(hit) ==> hit.index < self@.len() && t_range.spec_contains(hit.t),
    {
        let n: usize = self.items.len();
        proof {
            lemma_nearest_in_range(self@, *t_range);
        }
        let mut closest_hit: Option<HitRecord> = None;
        let mut closest_so_far = t_range.end;
        let mut i: usize = 0;
        while i < n
            invariant
                n == self.items.len(),
                i <= n,
                closest_hit == nearest(self@.take(i as int), *t_range),
                closest_so_far == bound_after(closest_hit, *t_range),
            decreases n - i,
        {
            let window = t_range.until(closest_so_far);
            proof {
                assert(self@.take(i + 1).drop_last() == self@.take(i as int));
            }
            if let Some(t) = self.items[i].hit(&window) {
                closest_so_far = t;
                closest_hit = Some(HitRecord { t, index: i });
            }
            i += 1;
        }
        proof {
            assert(self@.take(i as int) == self@);
        }
        closest_hit
    }
}

/// The nearer of two hits, the first where they are equally near.
pub open spec fn closer(first: Option<Scalar>, second: Option<Scalar>) -> Option<HitRecord> {
    match (first, second) {
        (None, None) => None,
        (Some(t), None) => Some(HitRecord { t, index: 0 }),
        (None, Some(t)) => Some(HitRecord { t, index: 1 }),
        (Some(t0), Some(t1)) => if t1.spec_lt(t0) {
            Some(HitRecord { t: t1, index: 1 })
        } else {
            Some(HitRecord { t: t0, index: 0 })
        },
    }
}

/// Every candidate has ordered crossings.
pub open spec fn all_ordered(items: Seq<Roots>) -> bool {
    forall|i: int| 0 <= i < items.len() ==> (#[trigger] items[i]).ordered()
}

/// The nearest hit belongs to a candidate of the list and lies in the range.
pub proof fn lemma_nearest_in_range(items: Seq<Roots>, range: Interval)
    requires
        items.len() <= usize::MAX,
    ensures
        nearest(items, range) matches Some(hit) ==> hit.index < items.len() && range.spec_contains(
            hit.t,
        ),
    decreases items.len(),
{
    if items.len() > 0 {
        lemma_nearest_in_range(items.drop_last(), range);
    }
}

/// The nearest hit is the closest of the hits that the candidates have on
/// their own within the whole range, and of equally close ones the first.
///
/// There is no nearest hit exactly where no candidate has a hit of its own.
/// Where there is one, it is the own hit of the candidate it names, no other
/// candidate's hit is closer, and every earlier candidate's hit is farther.
pub proof fn lemma_nearest_is_closest(items: Seq<Roots>, range: Interval)
    requires
        items.len() <= usize::MAX,
        all_ordered(items),
    ensures
        match nearest(items, range) {
            None => forall|i: int|
                0 <= i < items.len() ==> (#[trigger] items[i]).spec_hit(range) is None,
            Some(hit) => {
                &&& hit.index < items.len()
                &&& items[hit.index as int].spec_hit(range) == Some(hit.t)
                &&& forall|i: int|
                    0 <= i < items.len() ==> match (#[trigger] items[i]).spec_hit(range) {
                        Some(t) => hit.t.spec_le(t) && (i < hit.index ==> hit.t.spec_lt(t)),
                        None => true,
                    }
            },
        },
    decreases items.len(),
{
    if items.len() > 0 {
        let front = items.drop_last();
        let last = items.last();
        let before = nearest(front, range);
        let bound = bound_after(before, range);
        assert(all_ordered(front)) by {
            assert forall|i: int| 0 <= i < front.len() implies (#[trigger] front[i]).ordered() by {
                assert(front[i] == items[i]);
            }
        }
        lemma_nearest_is_closest(front, range);
        assert(forall|i: int| 0 <= i < front.len() ==> front[i] == items[i]);
        assert(last.ordered());
        match before {
            None => {
                assert(range.spec_until(bound) == range);
            },
            Some(hit) => {
                assert(range.spec_contains(hit.t));
                lemma_hit_under_closer_bound(last, range, bound);
            },
        }
    }
}

/// The distance of the nearest hit does not depend on the order of the
/// candidates, nor on how often each occurs: two lists of the same
/// candidates both have no hit, or have hits at the same distance.
pub proof fn lemma_nearest_ignores_order(a: Seq<Roots>, b: Seq<Roots>, range: Interval)
    requires
        a.len() <= usize::MAX,
        b.len() <= usize::MAX,
        all_ordered(a),
        all_ordered(b),
        forall|r: Roots| a.contains(r) <==> b.contains(r),
    ensures
        match (nearest(a, range), nearest(b, range)) {
            (None, None) => true,
            (Some(x), Some(y)) => x.t.units() == y.t.units(),
            _ => false,
        },
{
    lemma_nearest_is_closest(a, range);
    lemma_nearest_is_closest(b, range);
    if let Some(x) = nearest(a, range) {
        let r = a[x.index as int];
        assert(a.contains(r));
        assert(b.contains(r));
        let j = choose|j: int| 0 <= j < b.len() && b[j] == r;
        assert(b[j].spec_hit(range) == Some(x.t));
    }
    if let Some(y) = nearest(b, range) {
        let r = b[y.index as int];
        assert(b.contains(r));
        assert(a.contains(r));
        let i = choose|i: int| 0 <= i < a.len() && a[i] == r;
        assert(a[i].spec_hit(range) == Some(y.t));
    }
}

/// Of two candidates, the nearest hit is the nearer of the hits that each
/// has on its own, and the first candidate's where the two are equally near.
pub proof fn lemma_nearest_of_two(first: Roots, second: Roots, range: Interval)
    requires
        second.ordered(),
    ensures
        nearest(seq![first, second], range) == closer(
            first.spec_hit(range),
            second.spec_hit(range),
        ),
{
    let both = seq![first, second];
    let one = both.drop_last();
    assert(one.len() == 1 && one[0] == first);
    assert(one.drop_last().len() == 0);
    assert(nearest(one.drop_last(), range) is None);
    assert(range.spec_until(range.end) == range);
    assert(nearest(one, range) == match first.spec_hit(range) {
        Some(t) => Some(HitRecord { t, index: 0 }),
        None => None,
    });
    match first.spec_hit(range) {
        Some(t) => {
            lemma_hit_under_closer_bound(second, range, t);
        },
        None => {},
    }
}

} // verus!
