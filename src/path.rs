use vstd::prelude::*;

verus! {

/// What the scene and the struck surface made of a cast ray.
#[derive(Clone, Copy, Debug, PartialEq, Eq, Structural)]
pub enum SurfaceOutcome {
    /// The ray left the scene: it sees the sky.
    Missed,
    /// The ray struck a surface that absorbed it.
    Absorbed,
    /// The ray struck a surface that sent it on, attenuated.
    Scattered,
}

/// What a finished path contributes before the attenuations of its bounces
/// are applied.
#[derive(Clone, Copy, Debug, PartialEq, Eq, Structural)]
pub enum Ending {
    Black,
    Background,
}

/// The integrator's next move on one path.
#[derive(Clone, Copy, Debug, PartialEq, Eq, Structural)]
pub enum TraceStep {
    /// Query the scene with the current ray; `depth` bounces remain.
    Cast { depth: i32 },
    /// The path is done.
    Finish { ending: Ending },
}

pub open spec fn start_spec(depth: i32) -> TraceStep {
    if depth <= 0 {
        TraceStep::Finish { ending: Ending::Black }
    } else {
        TraceStep::Cast { depth }
    }
}

pub open spec fn next_spec(depth: i32, outcome: SurfaceOutcome) -> TraceStep {
    match outcome {
        SurfaceOutcome::Missed => TraceStep::Finish { ending: Ending::Background },
        SurfaceOutcome::Absorbed => TraceStep::Finish { ending: Ending::Black },
        SurfaceOutcome::Scattered => start_spec((depth - 1) as i32),
    }
}

/// Where a path that is at `step` ends when the scene answers its casts with
/// `outcomes`, in order: the ending and the number of casts made. `None`
/// when the answers run out first.
pub open spec fn follow(step: TraceStep, outcomes: Seq<SurfaceOutcome>) -> Option<(Ending, nat)>
    decreases outcomes.len(),
{
    match step {
        TraceStep::Finish { ending } => Some((ending, 0nat)),
        TraceStep::Cast { depth } => {
            if outcomes.len() == 0 {
                None
            } else {
                match follow(next_spec(depth, outcomes[0]), outcomes.drop_first()) {
                    Some((ending, casts)) => Some((ending, casts + 1)),
                    None => None,
                }
            }
        },
    }
}

/// The first move of a path with a budget of `depth` bounces: none left
/// means black.
pub fn start(depth: i32) -> (s: TraceStep)
    ensures
        s == start_spec(depth),
        s matches TraceStep::Cast { depth: d } ==> d > 0,
{
    if depth <= 0 {
        TraceStep::Finish { ending: Ending::Black }
    } else {
        TraceStep::Cast { depth }
    }
}

/// The move after a cast made with `depth` bounces left: a miss shows the
/// background, an absorption is black, a scatter goes on with one bounce
/// less.
pub fn next(depth: i32, outcome: SurfaceOutcome) -> (s: TraceStep)
    requires
        depth > 0,
    ensures
        s == next_spec(depth, outcome),
        s matches TraceStep::Cast { depth: d } ==> d == depth - 1 && d > 0,
{
    match outcome {
        SurfaceOutcome::Missed => TraceStep::Finish { ending: Ending::Background },
        SurfaceOutcome::Absorbed => TraceStep::Finish { ending: Ending::Black },
        SurfaceOutcome::Scattered => start(depth - 1),
    }
}

/// With no bounces left a path is black, whatever the ray and the scene:
/// it makes no cast at all.
pub proof fn lemma_no_budget_is_black(depth: i32, outcomes: Seq<SurfaceOutcome>)
    requires
        depth <= 0,
    ensures
        follow(start_spec(depth), outcomes) == Some((Ending::Black, 0nat)),
{
}

/// A path with a budget of `depth` bounces makes at most `depth` casts, and
/// it has ended once the scene has answered that many.
pub proof fn lemma_casts_bounded(depth: i32, outcomes: Seq<SurfaceOutcome>)
    ensures
        follow(start_spec(depth), outcomes) matches Some((_, casts)) ==> casts <= if depth > 0 {
            depth as nat
        } else {
            0nat
        },
        outcomes.len() >= depth ==> follow(start_spec(depth), outcomes) is Some,
    decreases outcomes.len(),
{
    if depth > 0 && outcomes.len() > 0 {
        let rest = outcomes.drop_first();
        let after = next_spec(depth, outcomes[0]);
        assert(start_spec(depth) == TraceStep::Cast { depth });
        assert(follow(start_spec(depth), outcomes) == match follow(after, rest) {
            Some((ending, casts)) => Some((ending, casts + 1)),
            None => None,
        });
        match outcomes[0] {
            SurfaceOutcome::Scattered => {
                lemma_casts_bounded((depth - 1) as i32, rest);
            },
            _ => {
                assert(follow(after, rest) is Some);
            },
        }
    }
}

} // verus!
