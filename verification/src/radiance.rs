//! The bounce budget of a path, and what a path ends in.

use vstd::prelude::*;

verus! {

/// What became of one segment of a path.
#[derive(Clone, Copy, Debug, PartialEq, Eq, Structural)]
pub enum Segment {
    /// The ray left the scene without a hit.
    Miss,
    /// The ray hit a surface that swallows it.
    Absorbed,
    /// The ray hit a surface that sends it on.
    Scattered,
}

/// The light at the end of a path, before the bounces take their share.
#[derive(Clone, Copy, Debug, PartialEq, Eq, Structural)]
pub enum Radiance {
    /// No light.
    Black,
    /// The light of the background in the direction of the last segment.
    Background,
}

/// What the tracer of a path does next.
#[derive(Clone, Copy, Debug, PartialEq, Eq, Structural)]
pub enum Step {
    /// Trace the next segment: ask the scene for a hit.
    Trace,
    /// Ask the material of the surface that was hit what it does with the
    /// ray.
    Scatter,
    /// Stop with this light.
    Finish(Radiance),
}

/// What a finished path amounts to: the light at its end, and the number of
/// bounces whose attenuations it is multiplied by.
#[derive(Clone, Copy, Debug, PartialEq, Eq, Structural)]
pub struct Estimate {
    pub radiance: Radiance,
    pub bounces: usize,
}

/// What a path amounts to that has `bounces` bounces behind it, may have
/// `max_bounces` in all, and whose further segments fare as `segments` say.
///
/// A miss ends the path in the background, whatever is left of its budget.
/// A hit ends it in black where the budget is used up, before the material
/// is asked. With budget left, an absorption ends it in black, and a
/// scattering leaves the rest to the path with one bounce more. There is no
/// result where the segments run out before the path ends.
pub open spec fn estimate(segments: Seq<Segment>, bounces: nat, max_bounces: nat) -> Option<
    (Radiance, nat),
>
    decreases segments.len(),
{
    if segments.len() == 0 {
        None
    } else {
        match segments[0] {
            Segment::Miss => Some((Radiance::Background, bounces)),
            Segment::Absorbed => Some((Radiance::Black, bounces)),
            Segment::Scattered => if bounces >= max_bounces {
                Some((Radiance::Black, bounces))
            } else {
                estimate(segments.drop_first(), bounces + 1, max_bounces)
            },
        }
    }
}

/// The progress of one path: the bounces behind it, and its budget.
#[derive(Clone, Copy, Debug)]
pub struct Path {
    bounces: usize,
    max_bounces: usize,
}

impl Path {
    /// The number of bounces behind the path.
    pub closed spec fn spec_bounces(self) -> nat {
        self.bounces as nat
    }

    /// The number of bounces that the path may have in all.
    pub closed spec fn spec_max_bounces(self) -> nat {
        self.max_bounces as nat
    }

    /// The path never has more bounces behind it than it may have.
    #[verifier::type_invariant]
    closed spec fn within_budget(self) -> bool {
        self.bounces <= self.max_bounces
    }

    /// The budget is used up.
    pub open spec fn spec_exhausted(self) -> bool {
        self.spec_bounces() >= self.spec_max_bounces()
    }

    /// What the path does once the scene has been asked for a hit: a miss
    /// stops it in the background, a hit stops it in black where the budget
    /// is used up, and any other hit is for the material to deal with.
    pub open spec fn spec_traced(self, hit: bool) -> Step {
        if !hit {
            Step::Finish(Radiance::Background)
        } else if self.spec_exhausted() {
            Step::Finish(Radiance::Black)
        } else {
            Step::Scatter
        }
    }

    /// What the path does once the material has been asked: it stops in
    /// black where the ray was swallowed or the budget is used up, and
    /// traces the ray that was sent on otherwise.
    pub open spec fn spec_scattered(self, sent_on: bool) -> Step {
        if sent_on && !self.spec_exhausted() {
            Step::Trace
        } else {
            Step::Finish(Radiance::Black)
        }
    }

    /// What the path does once it is known what became of a segment.
    pub open spec fn spec_advance(self, segment: Segment) -> Step {
        match segment {
            Segment::Miss => self.spec_traced(false),
            Segment::Absorbed => Step::Finish(Radiance::Black),
            Segment::Scattered => self.spec_scattered(true),
        }
    }

    /// A path with no bounce behind it.
    pub fn new(max_bounces: usize) -> (path: Path)
        ensures
            path.spec_bounces() == 0,
            path.spec_max_bounces() == max_bounces,
    {
        Path { bounces: 0, max_bounces }
    }

    /// The number of bounces behind the path.
    pub fn bounces(&self) -> (n: usize)
        ensures
            n == self.spec_bounces(),
            n <= self.spec_max_bounces(),
    {
        proof {
            use_type_invariant(self);
        }
        self.bounces
    }

    /// The number of bounces that the path may have in all.
    pub fn max_bounces(&self) -> (n: usize)
        ensures
            n == self.spec_max_bounces(),
    {
        self.max_bounces
    }

    /// Whether the budget is used up.
    pub fn exhausted(&self) -> (r: bool)
        ensures
            r == self.spec_exhausted(),
    {
        self.bounces >= self.max_bounces
    }

    /// Takes in whether the scene gave a hit for the segment just traced,
    /// and says what to do next: stop, or ask the material.
    pub fn traced(&self, hit: bool) -> (step: Step)
        ensures
            step == self.spec_traced(hit),
    {
        if !hit {
            Step::Finish(Radiance::Background)
        } else if self.bounces >= self.max_bounces {
            Step::Finish(Radiance::Black)
        } else {
            Step::Scatter
        }
    }

    /// Takes in whether the material sent the ray on, and says what to do
    /// next: stop in black, or trace the new ray. A ray that is traced on
    /// is one bounce more.
    pub fn scattered(&mut self, sent_on: bool) -> (step: Step)
        ensures
            step == old(self).spec_scattered(sent_on),
            final(self).spec_max_bounces() == old(self).spec_max_bounces(),
            final(self).spec_bounces() == old(self).spec_bounces() + if step == Step::Trace {
                1nat
            } else {
                0nat
            },
    {
        if sent_on && self.bounces < self.max_bounces {
            self.bounces = self.bounces + 1;
            Step::Trace
        } else {
            Step::Finish(Radiance::Black)
        }
    }

    /// Takes in what became of the segment just traced, and says what to do
    /// next: stop, or trace another segment.
    ///
    /// The material counts as asked only where the budget allowed it: a hit
    /// on a used-up budget stops the path in black, whatever the material
    /// would have done.
    pub fn advance(&mut self, segment: Segment) -> (step: Step)
        ensures
            step == old(self).spec_advance(segment),
            step != Step::Scatter,
            final(self).spec_max_bounces() == old(self).spec_max_bounces(),
            final(self).spec_bounces() == old(self).spec_bounces() + if step == Step::Trace {
                1nat
            } else {
                0nat
            },
    {
        let (hit, sent_on) = match segment {
            Segment::Miss => (false, false),
            Segment::Absorbed => (true, false),
            Segment::Scattered => (true, true),
        };
        match self.traced(hit) {
            Step::Scatter => self.scattered(sent_on),
            step => step,
        }
    }
}

/// What a fresh path with the given budget amounts to when its segments fare
/// as `segments` say, or nothing where they run out before the path ends.
pub fn compute_color(segments: &Vec<Segment>, max_bounces: usize) -> (r: Option<Estimate>)
    ensures
        match r {
            Some(e) => estimate(segments@, 0, max_bounces as nat) == Some(
                (e.radiance, e.bounces as nat),
            ),
            None => estimate(segments@, 0, max_bounces as nat) is None,
        },
{
    let mut path = Path::new(max_bounces);
    let mut i: usize = 0;
    proof {
        assert(segments@.skip(0) == segments@);
    }
    while i < segments.len()
        invariant
            path.spec_max_bounces() == max_bounces,
            i <= segments.len(),
            estimate(segments@, 0, max_bounces as nat) == estimate(
                segments@.skip(i as int),
                path.spec_bounces(),
                max_bounces as nat,
            ),
        decreases segments.len() - i,
    {
        proof {
            let rest = segments@.skip(i as int);
            assert(rest[0] == segments@[i as int]);
            assert(rest.drop_first() == segments@.skip(i + 1));
        }
        match path.advance(segments[i]) {
            Step::Finish(radiance) => {
                return Some(Estimate { radiance, bounces: path.bounces() });
            },
            _ => {},
        }
        i += 1;
    }
    None
}

/// A path whose next segment misses ends in the background with the bounces
/// it has behind it, whatever is left of its budget and whatever else the
/// scene holds. A fresh path with no budget at all is among them.
pub proof fn lemma_miss_is_background(segments: Seq<Segment>, bounces: nat, max_bounces: nat)
    requires
        segments.len() > 0,
        segments[0] == Segment::Miss,
    ensures
        estimate(segments, bounces, max_bounces) == Some((Radiance::Background, bounces)),
{
}

/// A path whose budget is used up ends in black at the next hit, whatever
/// the material would do with the ray. A fresh path with no budget at all
/// is among them.
pub proof fn lemma_hit_without_budget_is_black(
    segments: Seq<Segment>,
    bounces: nat,
    max_bounces: nat,
)
    requires
        bounces >= max_bounces,
        segments.len() > 0,
        segments[0] != Segment::Miss,
    ensures
        estimate(segments, bounces, max_bounces) == Some((Radiance::Black, bounces)),
{
}

/// A path whose next segment is swallowed ends in black.
pub proof fn lemma_absorbed_is_black(segments: Seq<Segment>, bounces: nat, max_bounces: nat)
    requires
        segments.len() > 0,
        segments[0] == Segment::Absorbed,
    ensures
        estimate(segments, bounces, max_bounces) == Some((Radiance::Black, bounces)),
{
}

/// Where a path ends. Every segment before its last was a scattering, and
/// it never has more bounces than its budget. It ends in the background
/// exactly at a miss, and in black at a hit that it meets with the whole
/// budget used or that swallows the ray. It has no end only where every
/// segment was a scattering that the budget allowed.
pub proof fn lemma_bounces_within_budget(segments: Seq<Segment>, bounces: nat, max_bounces: nat)
    requires
        bounces <= max_bounces,
    ensures
        match estimate(segments, bounces, max_bounces) {
            Some((radiance, n)) => {
                &&& bounces <= n <= max_bounces
                &&& n - bounces < segments.len()
                &&& forall|i: int| 0 <= i < n - bounces ==> segments[i] == Segment::Scattered
                &&& radiance == Radiance::Background <==> segments[n - bounces] == Segment::Miss
                &&& radiance == Radiance::Black ==> n == max_bounces || segments[n - bounces]
                    == Segment::Absorbed
            },
            None => {
                &&& bounces + segments.len() <= max_bounces
                &&& forall|i: int| 0 <= i < segments.len() ==> segments[i] == Segment::Scattered
            },
        },
    decreases segments.len(),
{
    if segments.len() > 0 && segments[0] == Segment::Scattered && bounces < max_bounces {
        let rest = segments.drop_first();
        lemma_bounces_within_budget(rest, bounces + 1, max_bounces);
        match estimate(segments, bounces, max_bounces) {
            Some((radiance, n)) => {
                assert(rest[n - (bounces + 1)] == segments[n - bounces]);
                assert forall|i: int| 0 <= i < n - bounces implies segments[i]
                    == Segment::Scattered by {
                    if i > 0 {
                        assert(rest[i - 1] == segments[i]);
                    }
                }
            },
            None => {
                assert forall|i: int| 0 <= i < segments.len() implies segments[i]
                    == Segment::Scattered by {
                    if i > 0 {
                        assert(rest[i - 1] == segments[i]);
                    }
                }
            },
        }
    }
}

} // verus!
