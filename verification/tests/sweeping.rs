use nova_scotia::field::{FieldParseError, PublicInputError};
use nova_scotia::sweep::{
    decide, points_for_budget, Action, Cursor, Event, Phase, Sweep, SweepError, SweepPoint,
};
use nova_scotia::transcript::{DecodeError, LoadError};

fn point(iteration_count: usize, per_iteration_count: usize) -> SweepPoint {
    SweepPoint { iteration_count, per_iteration_count }
}

/// Runs a sweep in which everything outside succeeds, over a transcript of
/// `events` events, and gives back the rows reported and the last action.
fn drive(points: Vec<SweepPoint>, events: usize) -> (Vec<SweepPoint>, Action) {
    let mut sweep = Sweep::new(points);
    let mut rows = Vec::new();
    let mut event = Event::Go;
    for _ in 0..100_000 {
        let action = sweep.handle(event);
        event = match action {
            Action::Compile { .. } => Event::CompilerExited { success: true },
            Action::Load => Event::TranscriptLoaded { events },
            Action::BuildParams => Event::ParamsBuilt,
            Action::FoldStep { .. } => Event::StepFolded { success: true },
            Action::Verify { iterations } => Event::Verified { iterations, accepted: true },
            Action::Report { point } => {
                rows.push(point);
                Event::Go
            },
            Action::Finish | Action::Abort { .. } | Action::Ignore => return (rows, action),
        };
    }
    panic!("the sweep did not end");
}

#[test]
fn budget_of_three_hundred_events() {
    let points = points_for_budget(300, &vec![10, 20, 50, 100]).unwrap();
    assert_eq!(points, vec![point(30, 10), point(15, 20), point(6, 50), point(3, 100)]);
}

#[test]
fn budget_with_sizes_that_do_not_divide_it() {
    let points = points_for_budget(300, &vec![7, 301, 1]).unwrap();
    assert_eq!(points, vec![point(42, 7), point(0, 301), point(300, 1)]);
    assert_eq!(points_for_budget(0, &vec![5]).unwrap(), vec![point(0, 5)]);
    assert_eq!(points_for_budget(9, &vec![]).unwrap(), vec![]);
}

#[test]
fn budget_has_no_batch_of_size_zero() {
    assert_eq!(points_for_budget(300, &vec![10, 0, 20]), None);
    assert_eq!(points_for_budget(0, &vec![0]), None);
}

#[test]
fn sweep_takes_one_point_step_by_step() {
    let mut sweep = Sweep::new(vec![point(2, 3)]);
    assert_eq!(sweep.cursor(), Cursor { point: 0, phase: Phase::Ready });
    assert_eq!(sweep.handle(Event::Go), Action::Compile { per_iteration_count: 3 });
    assert_eq!(sweep.cursor().phase, Phase::Compiling);
    assert_eq!(sweep.handle(Event::CompilerExited { success: true }), Action::Load);
    assert_eq!(sweep.handle(Event::TranscriptLoaded { events: 6 }), Action::BuildParams);
    assert_eq!(sweep.handle(Event::ParamsBuilt), Action::FoldStep { index: 0 });
    assert_eq!(sweep.cursor().phase, Phase::Folding { done: 0 });
    assert_eq!(sweep.handle(Event::StepFolded { success: true }), Action::FoldStep { index: 1 });
    assert_eq!(sweep.handle(Event::StepFolded { success: true }), Action::Verify { iterations: 2 });
    assert_eq!(
        sweep.handle(Event::Verified { iterations: 2, accepted: true }),
        Action::Report { point: point(2, 3) }
    );
    assert_eq!(sweep.cursor(), Cursor { point: 1, phase: Phase::Ready });
    assert_eq!(sweep.handle(Event::Go), Action::Finish);
    assert_eq!(sweep.cursor(), Cursor { point: 1, phase: Phase::Done });
    assert_eq!(sweep.handle(Event::Go), Action::Ignore);
}

#[test]
fn sweep_over_five_steps_one_event_each() {
    let (rows, last) = drive(vec![point(4, 1)], 4);
    assert_eq!(rows, vec![point(4, 1)]);
    assert_eq!(last, Action::Finish);
}

#[test]
fn sweep_reports_both_points_over_three_hundred_events() {
    let (rows, last) = drive(vec![point(10, 30), point(20, 15)], 300);
    assert_eq!(rows, vec![point(10, 30), point(20, 15)]);
    assert_eq!(last, Action::Finish);
}

#[test]
fn sweep_aborts_at_a_point_the_transcript_is_too_short_for() {
    let (rows, last) = drive(vec![point(10, 30), point(7, 50), point(20, 15)], 300);
    assert_eq!(rows, vec![point(10, 30)]);
    assert_eq!(last, Action::Abort { at: 1, error: SweepError::InsufficientTranscript });
    let (rows, last) = drive(vec![point(usize::MAX, 2)], 300);
    assert_eq!(rows, vec![]);
    assert_eq!(last, Action::Abort { at: 0, error: SweepError::InsufficientTranscript });
}

#[test]
fn sweep_over_no_points_finishes_at_once() {
    let (rows, last) = drive(vec![], 300);
    assert_eq!(rows, vec![]);
    assert_eq!(last, Action::Finish);
}

#[test]
fn sweep_with_no_iteration_goes_straight_to_the_verifier() {
    let mut sweep = Sweep::new(vec![point(0, 5)]);
    sweep.handle(Event::Go);
    sweep.handle(Event::CompilerExited { success: true });
    sweep.handle(Event::TranscriptLoaded { events: 0 });
    assert_eq!(sweep.handle(Event::ParamsBuilt), Action::Verify { iterations: 0 });
}

#[test]
fn sweep_aborts_when_the_compiler_fails() {
    let mut sweep = Sweep::new(vec![point(2, 3), point(1, 6)]);
    sweep.handle(Event::Go);
    assert_eq!(
        sweep.handle(Event::CompilerExited { success: false }),
        Action::Abort { at: 0, error: SweepError::CompilerInvocation }
    );
    assert_eq!(sweep.cursor(), Cursor { point: 0, phase: Phase::Failed });
    assert_eq!(sweep.handle(Event::Go), Action::Ignore);
    assert_eq!(sweep.handle(Event::CompilerExited { success: true }), Action::Ignore);
    assert_eq!(sweep.cursor(), Cursor { point: 0, phase: Phase::Failed });
}

#[test]
fn sweep_aborts_when_the_transcript_is_refused() {
    let refused = [
        LoadError::Decode(DecodeError::MissingPublicInput),
        LoadError::Decode(DecodeError::UnevenField { index: 4 }),
        LoadError::Field(PublicInputError { index: 2, reason: FieldParseError::OutOfRange }),
    ];
    for error in refused {
        let mut sweep = Sweep::new(vec![point(2, 3)]);
        sweep.handle(Event::Go);
        sweep.handle(Event::CompilerExited { success: true });
        assert_eq!(
            sweep.handle(Event::TranscriptRefused { error }),
            Action::Abort { at: 0, error: SweepError::Load(error) }
        );
    }
}

#[test]
fn sweep_names_the_iteration_that_failed() {
    let mut sweep = Sweep::new(vec![point(1, 1), point(5, 2)]);
    sweep.handle(Event::Go);
    sweep.handle(Event::CompilerExited { success: true });
    sweep.handle(Event::TranscriptLoaded { events: 10 });
    assert_eq!(sweep.handle(Event::ParamsBuilt), Action::FoldStep { index: 0 });
    assert_eq!(sweep.handle(Event::StepFolded { success: true }), Action::Verify { iterations: 1 });
    assert_eq!(
        sweep.handle(Event::Verified { iterations: 1, accepted: true }),
        Action::Report { point: point(1, 1) }
    );
    assert_eq!(sweep.handle(Event::Go), Action::Compile { per_iteration_count: 2 });
    assert_eq!(sweep.handle(Event::CompilerExited { success: true }), Action::Load);
    sweep.handle(Event::TranscriptLoaded { events: 10 });
    assert_eq!(sweep.handle(Event::ParamsBuilt), Action::FoldStep { index: 0 });
    assert_eq!(sweep.handle(Event::StepFolded { success: true }), Action::FoldStep { index: 1 });
    assert_eq!(sweep.handle(Event::StepFolded { success: true }), Action::FoldStep { index: 2 });
    assert_eq!(
        sweep.handle(Event::StepFolded { success: false }),
        Action::Abort { at: 1, error: SweepError::FoldStep { index: 2 } }
    );
    assert_eq!(sweep.cursor(), Cursor { point: 1, phase: Phase::Failed });
}

#[test]
fn sweep_takes_a_verdict_only_for_the_iterations_folded() {
    for (iterations, accepted) in [(3, true), (5, true), (0, true), (4, false), (3, false)] {
        let mut sweep = Sweep::new(vec![point(4, 1)]);
        sweep.handle(Event::Go);
        sweep.handle(Event::CompilerExited { success: true });
        sweep.handle(Event::TranscriptLoaded { events: 4 });
        sweep.handle(Event::ParamsBuilt);
        for _ in 0..4 {
            sweep.handle(Event::StepFolded { success: true });
        }
        assert_eq!(sweep.cursor().phase, Phase::Verifying);
        assert_eq!(
            sweep.handle(Event::Verified { iterations, accepted }),
            Action::Abort { at: 0, error: SweepError::Verification }
        );
    }
}

#[test]
fn sweep_ignores_what_it_does_not_wait_for() {
    let mut sweep = Sweep::new(vec![point(2, 3)]);
    assert_eq!(sweep.handle(Event::ParamsBuilt), Action::Ignore);
    assert_eq!(sweep.handle(Event::Verified { iterations: 2, accepted: true }), Action::Ignore);
    assert_eq!(sweep.cursor(), Cursor { point: 0, phase: Phase::Ready });
    sweep.handle(Event::Go);
    assert_eq!(sweep.handle(Event::Go), Action::Ignore);
    assert_eq!(sweep.handle(Event::StepFolded { success: false }), Action::Ignore);
    assert_eq!(sweep.cursor(), Cursor { point: 0, phase: Phase::Compiling });
}

#[test]
fn two_runs_report_the_same_rows() {
    let list = vec![point(30, 10), point(15, 20), point(6, 50), point(3, 100)];
    let (first, _) = drive(list.clone(), 300);
    let (second, _) = drive(list.clone(), 300);
    assert_eq!(first, list);
    assert_eq!(first, second);
    let (longer, _) = drive(list.clone(), 100_000);
    assert_eq!(longer, first);
}

#[test]
fn decide_agrees_with_the_sweep() {
    let points = vec![point(2, 3)];
    let at = Cursor { point: 0, phase: Phase::Loading };
    assert_eq!(
        decide(&points, at, Event::TranscriptLoaded { events: 5 }),
        (
            Cursor { point: 0, phase: Phase::Failed },
            Action::Abort { at: 0, error: SweepError::InsufficientTranscript }
        )
    );
    assert_eq!(
        decide(&points, at, Event::TranscriptLoaded { events: 6 }),
        (Cursor { point: 0, phase: Phase::Building }, Action::BuildParams)
    );
}
