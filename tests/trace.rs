use raytracer::trace::{after_bounce, begin, Bounce, PathEnd, Step};

/// Drives a path over the given bounces; returns how it ended and how many
/// scatterings it went through.
fn run(depth: i32, bounces: &[Bounce]) -> (PathEnd, usize) {
    let mut step = begin(depth);
    let mut scattered = 0;
    let mut next = bounces.iter();
    loop {
        match step {
            Step::Done(end) => return (end, scattered),
            Step::Trace { depth_left } => {
                let b = *next.next().expect("path asked for more bounces than given");
                if b == Bounce::Scattered {
                    scattered += 1;
                }
                step = after_bounce(depth_left, b);
            }
        }
    }
}

#[test]
fn zero_depth_is_black_for_any_ray() {
    assert_eq!(begin(0), Step::Done(PathEnd::Exhausted));
    assert_eq!(begin(-3), Step::Done(PathEnd::Exhausted));
    assert_eq!(run(0, &[]), (PathEnd::Exhausted, 0));
}

#[test]
fn positive_depth_traces() {
    assert_eq!(begin(5), Step::Trace { depth_left: 5 });
    assert_eq!(begin(50), Step::Trace { depth_left: 50 });
}

#[test]
fn after_bounce_decisions() {
    assert_eq!(after_bounce(3, Bounce::Escaped), Step::Done(PathEnd::Sky));
    assert_eq!(after_bounce(3, Bounce::Absorbed), Step::Done(PathEnd::Absorbed));
    assert_eq!(after_bounce(3, Bounce::Scattered), Step::Trace { depth_left: 2 });
    assert_eq!(after_bounce(1, Bounce::Scattered), Step::Done(PathEnd::Exhausted));
    assert_eq!(after_bounce(1, Bounce::Escaped), Step::Done(PathEnd::Sky));
}

#[test]
fn path_ends_at_sky_after_scatterings() {
    let bounces = [Bounce::Scattered, Bounce::Scattered, Bounce::Escaped];
    assert_eq!(run(5, &bounces), (PathEnd::Sky, 2));
}

#[test]
fn path_ends_dark_when_absorbed() {
    let bounces = [Bounce::Scattered, Bounce::Absorbed];
    assert_eq!(run(5, &bounces), (PathEnd::Absorbed, 1));
}

#[test]
fn path_is_cut_at_the_depth_budget() {
    let bounces = [Bounce::Scattered; 10];
    assert_eq!(run(5, &bounces), (PathEnd::Exhausted, 5));
    assert_eq!(run(1, &bounces), (PathEnd::Exhausted, 1));
}

#[test]
fn sky_on_the_last_allowed_bounce() {
    let bounces = [Bounce::Scattered, Bounce::Scattered, Bounce::Escaped];
    assert_eq!(run(3, &bounces), (PathEnd::Sky, 2));
    assert_eq!(run(2, &bounces), (PathEnd::Exhausted, 2));
}
