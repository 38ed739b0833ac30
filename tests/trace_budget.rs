use tracy::path::{next, start, Ending, SurfaceOutcome, TraceStep};

#[test]
fn zero_depth_is_black() {
    assert_eq!(start(0), TraceStep::Finish { ending: Ending::Black });
}

#[test]
fn negative_depth_is_black() {
    assert_eq!(start(-5), TraceStep::Finish { ending: Ending::Black });
}

#[test]
fn positive_depth_casts() {
    assert_eq!(start(50), TraceStep::Cast { depth: 50 });
}

#[test]
fn miss_shows_background() {
    assert_eq!(next(3, SurfaceOutcome::Missed), TraceStep::Finish { ending: Ending::Background });
}

#[test]
fn absorption_is_black() {
    assert_eq!(next(3, SurfaceOutcome::Absorbed), TraceStep::Finish { ending: Ending::Black });
}

#[test]
fn scatter_uses_one_bounce() {
    assert_eq!(next(3, SurfaceOutcome::Scattered), TraceStep::Cast { depth: 2 });
    assert_eq!(next(1, SurfaceOutcome::Scattered), TraceStep::Finish { ending: Ending::Black });
}

#[test]
fn endless_scattering_stops_after_the_budget() {
    let mut step = start(50);
    let mut casts = 0;
    while let TraceStep::Cast { depth } = step {
        casts += 1;
        step = next(depth, SurfaceOutcome::Scattered);
    }
    assert_eq!(casts, 50);
    assert_eq!(step, TraceStep::Finish { ending: Ending::Black });
}
