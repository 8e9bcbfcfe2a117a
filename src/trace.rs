//! Control of the light-transport loop. A path starts with a depth budget; at
//! each bounce the scene and the struck material decide whether the ray
//! escaped to the sky, was absorbed, or scattered into a new ray. The caller
//! does the geometry and keeps the running attenuation product; this module
//! decides when the path ends and how: on `Sky` the path's light is the
//! attenuation product times the sky colour, otherwise it is black.

use vstd::prelude::*;

verus! {

/// What the ray met at one bounce.
#[derive(Clone, Copy, Debug, PartialEq, Eq, Structural)]
pub enum Bounce {
    /// No surface was hit: the ray reached the sky.
    Escaped,
    /// A surface was hit and its material absorbed the ray.
    Absorbed,
    /// A surface was hit and its material scattered the ray, attenuated.
    Scattered,
}

/// How a path ended.
#[derive(Clone, Copy, Debug, PartialEq, Eq, Structural)]
pub enum PathEnd {
    /// The depth budget ran out: black.
    Exhausted,
    /// A material absorbed the ray: black.
    Absorbed,
    /// The ray reached the sky: attenuation times sky colour.
    Sky,
}

/// The next thing to do for a path.
#[derive(Clone, Copy, Debug, PartialEq, Eq, Structural)]
pub enum Step {
    /// Intersect the current ray with the scene; `depth_left` bounces remain.
    Trace { depth_left: u32 },
    /// The path is finished.
    Done(PathEnd),
}

/// Whether a path that ended so contributes black.
pub open spec fn is_dark(e: PathEnd) -> bool {
    e != PathEnd::Sky
}

/// The recursive definition: how a path with budget `depth`, whose successive
/// bounces are `bounces`, ends, and how many scatterings (attenuation factors)
/// it went through; `None` if it needs more bounces than given.
pub open spec fn path_end(depth: int, bounces: Seq<Bounce>) -> Option<(PathEnd, nat)>
    decreases bounces.len(),
{
    if depth <= 0 {
        Some((PathEnd::Exhausted, 0))
    } else if bounces.len() == 0 {
        None
    } else {
        match bounces[0] {
            Bounce::Escaped => Some((PathEnd::Sky, 0)),
            Bounce::Absorbed => Some((PathEnd::Absorbed, 0)),
            Bounce::Scattered => match path_end(depth - 1, bounces.drop_first()) {
                Some((e, k)) => Some((e, k + 1)),
                None => None,
            },
        }
    }
}

/// What `begin` returns.
pub open spec fn begin_spec(depth: int) -> Step {
    if depth <= 0 {
        Step::Done(PathEnd::Exhausted)
    } else {
        Step::Trace { depth_left: depth as u32 }
    }
}

/// What `after_bounce` returns.
pub open spec fn after_bounce_spec(depth_left: u32, bounce: Bounce) -> Step {
    match bounce {
        Bounce::Escaped => Step::Done(PathEnd::Sky),
        Bounce::Absorbed => Step::Done(PathEnd::Absorbed),
        Bounce::Scattered => begin_spec(depth_left - 1),
    }
}

/// The iterative loop: start from `step` and feed it `bounces` one by one,
/// counting scatterings; `None` if it needs more bounces than given.
pub open spec fn drive(step: Step, bounces: Seq<Bounce>) -> Option<(PathEnd, nat)>
    decreases bounces.len(),
{
    match step {
        Step::Done(e) => Some((e, 0)),
        Step::Trace { depth_left } => {
            if bounces.len() == 0 {
                None
            } else {
                match drive(after_bounce_spec(depth_left, bounces[0]), bounces.drop_first()) {
                    Some((e, k)) => Some((e, if bounces[0] == Bounce::Scattered { k + 1 } else { k })),
                    None => None,
                }
            }
        },
    }
}

/// First step of a path with budget `depth`. A budget of zero or less ends
/// the path at once, black, whatever the ray.
pub fn begin(depth: i32) -> (s: Step)
    ensures
        s == begin_spec(depth as int),
        depth <= 0 ==> s == Step::Done(PathEnd::Exhausted),
        depth > 0 ==> s == (Step::Trace { depth_left: depth as u32 }),
{
    if depth <= 0 {
        Step::Done(PathEnd::Exhausted)
    } else {
        Step::Trace { depth_left: depth as u32 }
    }
}

/// The step after a bounce taken with `depth_left` bounces remaining: an
/// escape ends in the sky, an absorption ends dark, and a scattering goes on
/// with one bounce fewer, or ends exhausted when none is left.
pub fn after_bounce(depth_left: u32, bounce: Bounce) -> (s: Step)
    requires
        depth_left > 0,
    ensures
        s == after_bounce_spec(depth_left, bounce),
        bounce == Bounce::Escaped ==> s == Step::Done(PathEnd::Sky),
        bounce == Bounce::Absorbed ==> s == Step::Done(PathEnd::Absorbed),
        bounce == Bounce::Scattered && depth_left == 1 ==> s == Step::Done(PathEnd::Exhausted),
        bounce == Bounce::Scattered && depth_left > 1 ==> s == (Step::Trace { depth_left: (depth_left - 1) as u32 }),
{
    match bounce {
        Bounce::Escaped => Step::Done(PathEnd::Sky),
        Bounce::Absorbed => Step::Done(PathEnd::Absorbed),
        Bounce::Scattered => {
            if depth_left == 1 {
                Step::Done(PathEnd::Exhausted)
            } else {
                Step::Trace { depth_left: depth_left - 1 }
            }
        },
    }
}

proof fn lemma_drive_trace(d: u32, bounces: Seq<Bounce>)
    requires
        d > 0,
    ensures
        drive(Step::Trace { depth_left: d }, bounces) == path_end(d as int, bounces),
    decreases bounces.len(),
{
    if bounces.len() > 0 {
        let rest = bounces.drop_first();
        let next = after_bounce_spec(d, bounces[0]);
        if next is Trace {
            lemma_drive_trace((d - 1) as u32, rest);
        } else {
            // A finished path takes no more bounces.
            assert(drive(next, rest) == Some((next->Done_0, 0nat)));
            assert(path_end(0, rest) == Some((PathEnd::Exhausted, 0nat)));
        }
    }
}

/// The loop driven by `begin` and `after_bounce` ends every path exactly as
/// the recursive definition does, with the same number of scatterings.
pub proof fn lemma_loop_matches_recursion(depth: i32, bounces: Seq<Bounce>)
    ensures
        drive(begin_spec(depth as int), bounces) == path_end(depth as int, bounces),
{
    if depth > 0 {
        lemma_drive_trace(depth as u32, bounces);
    }
}

/// A path never scatters more than its budget allows, never needs more than
/// `depth` bounces to end, and ends with the budget exhausted only after
/// scattering `depth` times (or at once if the budget is not positive).
pub proof fn lemma_path_bounded(depth: int, bounces: Seq<Bounce>)
    ensures
        bounces.len() >= depth ==> path_end(depth, bounces) is Some,
        path_end(depth, bounces) matches Some((e, k)) ==> {
            &&& k <= if depth > 0 { depth } else { 0 }
            &&& k <= bounces.len()
            &&& (e == PathEnd::Exhausted ==> k == if depth > 0 { depth } else { 0 })
            &&& (e != PathEnd::Exhausted ==> k < depth)
        },
    decreases bounces.len(),
{
    if depth > 0 && bounces.len() > 0 {
        lemma_path_bounded(depth - 1, bounces.drop_first());
    }
}

} // verus!
