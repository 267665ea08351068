use pathtracer::hitable::{HitableList, Interval};
use pathtracer::radiance::{compute_color, Estimate, Path, Radiance, Segment, Step};
use pathtracer::scalar::Scalar;
use pathtracer::sphere::Roots;

fn s(v: f32) -> Scalar {
    Scalar::from_bits(v.to_bits())
}

fn black(bounces: usize) -> Option<Estimate> {
    Some(Estimate { radiance: Radiance::Black, bounces })
}

fn background(bounces: usize) -> Option<Estimate> {
    Some(Estimate { radiance: Radiance::Background, bounces })
}

#[test]
fn no_budget_gives_black_for_a_hit() {
    assert_eq!(compute_color(&vec![Segment::Scattered], 0), black(0));
    assert_eq!(compute_color(&vec![Segment::Absorbed], 0), black(0));
    assert_eq!(compute_color(&vec![Segment::Scattered, Segment::Miss], 0), black(0));
}

#[test]
fn no_budget_gives_the_background_for_a_miss() {
    assert_eq!(compute_color(&vec![Segment::Miss], 0), background(0));
    assert_eq!(compute_color(&vec![Segment::Miss, Segment::Scattered], 0), background(0));
    let path = Path::new(0);
    assert!(path.exhausted());
    assert_eq!(path.traced(false), Step::Finish(Radiance::Background));
    assert_eq!(path.traced(true), Step::Finish(Radiance::Black));
}

#[test]
fn miss_gives_the_background() {
    for max_bounces in [0usize, 1, 2, 5, 64] {
        assert_eq!(compute_color(&vec![Segment::Miss], max_bounces), background(0));
        assert_eq!(
            compute_color(&vec![Segment::Miss, Segment::Scattered, Segment::Absorbed], max_bounces),
            background(0)
        );
    }
}

#[test]
fn ray_that_misses_every_sphere_gives_the_background() {
    let mut world = HitableList::new();
    world.push(Roots::new(s(-3.0), s(f32::NAN), s(f32::NAN)));
    world.push(Roots::new(s(4.0), s(-9.0), s(-5.0)));
    world.push(Roots::new(s(1.0), s(150.0), s(152.0)));
    let hit = world.hit(&Interval::new(s(0.001), s(100.0)));
    assert_eq!(hit, None);
    for max_bounces in [0usize, 1, 5] {
        let path = Path::new(max_bounces);
        assert_eq!(path.traced(hit.is_some()), Step::Finish(Radiance::Background));
    }

    let empty = HitableList::new();
    assert_eq!(empty.hit(&Interval::new(s(0.001), s(100.0))), None);
}

#[test]
fn absorption_gives_black() {
    assert_eq!(compute_color(&vec![Segment::Absorbed], 5), black(0));
    assert_eq!(compute_color(&vec![Segment::Scattered, Segment::Absorbed, Segment::Miss], 5), black(1));
}

#[test]
fn bounces_are_counted_up_to_the_miss() {
    let segments = vec![Segment::Scattered, Segment::Scattered, Segment::Miss];
    assert_eq!(compute_color(&segments, 5), background(2));
    assert_eq!(compute_color(&segments, 3), background(2));
    assert_eq!(compute_color(&segments, 2), background(2));
}

#[test]
fn budget_cuts_the_path_off_at_the_next_hit() {
    let segments = vec![Segment::Scattered, Segment::Scattered, Segment::Miss];
    assert_eq!(compute_color(&segments, 1), black(1));
    assert_eq!(compute_color(&segments, 0), black(0));
    let many = vec![Segment::Scattered; 9];
    assert_eq!(compute_color(&many, 5), black(5));
    let swallowed = vec![Segment::Scattered, Segment::Scattered, Segment::Absorbed];
    assert_eq!(compute_color(&swallowed, 2), black(2));
}

#[test]
fn segments_that_run_out_give_nothing() {
    assert_eq!(compute_color(&vec![], 5), None);
    assert_eq!(compute_color(&vec![], 0), None);
    assert_eq!(compute_color(&vec![Segment::Scattered, Segment::Scattered], 5), None);
    assert_eq!(compute_color(&vec![Segment::Scattered; 5], 5), None);
    assert_eq!(compute_color(&vec![Segment::Scattered; 6], 5), black(5));
}

#[test]
fn path_asks_the_material_only_with_budget_left() {
    let mut path = Path::new(2);
    assert_eq!(path.max_bounces(), 2);
    assert_eq!(path.traced(true), Step::Scatter);
    assert_eq!(path.scattered(true), Step::Trace);
    assert_eq!(path.bounces(), 1);
    assert_eq!(path.traced(true), Step::Scatter);
    assert_eq!(path.scattered(true), Step::Trace);
    assert_eq!(path.bounces(), 2);
    assert!(path.exhausted());
    assert_eq!(path.traced(true), Step::Finish(Radiance::Black));
    assert_eq!(path.traced(false), Step::Finish(Radiance::Background));
    assert_eq!(path.scattered(true), Step::Finish(Radiance::Black));
    assert_eq!(path.bounces(), 2);
}

#[test]
fn swallowed_ray_is_no_bounce() {
    let mut path = Path::new(3);
    assert_eq!(path.traced(true), Step::Scatter);
    assert_eq!(path.scattered(false), Step::Finish(Radiance::Black));
    assert_eq!(path.bounces(), 0);
}

#[test]
fn path_counts_scatterings_only() {
    let mut path = Path::new(3);
    assert_eq!(path.bounces(), 0);
    assert_eq!(path.max_bounces(), 3);
    assert!(!path.exhausted());

    assert_eq!(path.advance(Segment::Scattered), Step::Trace);
    assert_eq!(path.bounces(), 1);
    assert_eq!(path.advance(Segment::Scattered), Step::Trace);
    assert_eq!(path.bounces(), 2);

    let mut missed = path;
    assert_eq!(missed.advance(Segment::Miss), Step::Finish(Radiance::Background));
    assert_eq!(missed.bounces(), 2);

    let mut swallowed = path;
    assert_eq!(swallowed.advance(Segment::Absorbed), Step::Finish(Radiance::Black));
    assert_eq!(swallowed.bounces(), 2);

    assert_eq!(path.advance(Segment::Scattered), Step::Trace);
    assert_eq!(path.bounces(), 3);
    assert!(path.exhausted());

    let mut late = path;
    assert_eq!(late.advance(Segment::Miss), Step::Finish(Radiance::Background));
    assert_eq!(late.bounces(), 3);
    assert_eq!(path.advance(Segment::Scattered), Step::Finish(Radiance::Black));
    assert_eq!(path.bounces(), 3);
}

#[test]
fn path_walked_by_hand_agrees_with_compute_color() {
    let all = [Segment::Miss, Segment::Absorbed, Segment::Scattered];
    for max_bounces in 0usize..4 {
        for a in all {
            for b in all {
                for c in all {
                    let segments = vec![a, b, c];
                    let mut path = Path::new(max_bounces);
                    let mut by_hand = None;
                    for segment in &segments {
                        let step = match path.traced(*segment != Segment::Miss) {
                            Step::Scatter => path.scattered(*segment == Segment::Scattered),
                            step => step,
                        };
                        if let Step::Finish(radiance) = step {
                            by_hand = Some(Estimate { radiance, bounces: path.bounces() });
                            break;
                        }
                    }
                    assert_eq!(compute_color(&segments, max_bounces), by_hand);
                    if let Some(e) = by_hand {
                        assert!(e.bounces <= max_bounces);
                    }
                }
            }
        }
    }
}
