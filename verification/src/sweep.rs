//! The benchmark sweep: which batching configurations are run, in what
//! order, and what follows each outcome of the work done for them.

use crate::shard::sufficient;
use crate::transcript::{LoadError, Transcript};
use vstd::prelude::*;

verus! {

/// One batching configuration: how many fold iterations, and how many events
/// each of them takes.
#[derive(Clone, Copy, Debug, PartialEq, Eq)]
pub struct SweepPoint {
    pub iteration_count: usize,
    pub per_iteration_count: usize,
}

/// The sweep list that spends a budget of events at each of the given batch
/// sizes: for each size, as many iterations as the budget has whole batches
/// of that size. There is none where a batch size is zero.
pub fn points_for_budget(budget: usize, sizes: &Vec<usize>) -> (r: Option<Vec<SweepPoint>>)
    ensures
        r is Some <==> forall|i: int| 0 <= i < sizes@.len() ==> #[trigger] sizes@[i] != 0,
        r matches Some(points) ==> {
            &&& points@.len() == sizes@.len()
            &&& forall|i: int|
                0 <= i < sizes@.len() ==> {
                    &&& (#[trigger] points@[i]).per_iteration_count == sizes@[i]
                    &&& points@[i].iteration_count == budget / sizes@[i]
                    &&& points@[i].iteration_count * points@[i].per_iteration_count <= budget
                }
        },
{
    let mut points: Vec<SweepPoint> = Vec::new();
    let mut i: usize = 0;
    while i < sizes.len()
        invariant
            i <= sizes@.len(),
            points@.len() == i,
            forall|j: int| 0 <= j < i ==> #[trigger] sizes@[j] != 0,
            forall|j: int|
                0 <= j < i ==> {
                    &&& (#[trigger] points@[j]).per_iteration_count == sizes@[j]
                    &&& points@[j].iteration_count == budget / sizes@[j]
                    &&& points@[j].iteration_count * points@[j].per_iteration_count <= budget
                },
        decreases sizes@.len() - i,
    {
        let size = sizes[i];
        if size == 0 {
            return None;
        }
        let count = budget / size;
        assert(count * size <= budget) by (nonlinear_arith)
            requires
                size > 0,
                count == budget / size,
        ;
        points.push(SweepPoint { iteration_count: count, per_iteration_count: size });
        i = i + 1;
    }
    Some(points)
}

/// Why a sweep stopped before its last point.
#[derive(Clone, Copy, Debug, PartialEq, Eq)]
pub enum SweepError {
    /// The circuit compiler did not regenerate the step circuit.
    CompilerInvocation,
    /// The transcript could not be loaded.
    Load(LoadError),
    /// The transcript has fewer events than the point takes.
    InsufficientTranscript,
    /// The folding engine refused the iteration at `index`.
    FoldStep { index: usize },
    /// The proof was not accepted for the iterations that were folded.
    Verification,
}

/// What a sweep is waiting for.
#[derive(Clone, Copy, Debug, PartialEq, Eq)]
pub enum Phase {
    /// Nothing: the next point can be taken up.
    Ready,
    /// The circuit compiler.
    Compiling,
    /// The transcript.
    Loading,
    /// The public parameters.
    Building,
    /// The fold iteration after the `done` that succeeded.
    Folding { done: usize },
    /// The verifier.
    Verifying,
    /// Nothing: every point was reported.
    Done,
    /// Nothing: the sweep was aborted.
    Failed,
}

/// Where a sweep stands: the point it is at, and what it is waiting for.
#[derive(Clone, Copy, Debug, PartialEq, Eq)]
pub struct Cursor {
    pub point: usize,
    pub phase: Phase,
}

/// What happened outside the sweep.
#[derive(Clone, Copy, Debug, PartialEq, Eq)]
pub enum Event {
    /// The sweep may take up its next point.
    Go,
    /// The circuit compiler ended.
    CompilerExited { success: bool },
    /// The transcript was loaded and has `events` events.
    TranscriptLoaded { events: usize },
    /// The transcript could not be loaded.
    TranscriptRefused { error: LoadError },
    /// The public parameters were built.
    ParamsBuilt,
    /// The folding engine ended a fold iteration.
    StepFolded { success: bool },
    /// The verifier, asked about `iterations` fold iterations, ended.
    Verified { iterations: usize, accepted: bool },
}

/// What the sweep asks to be done next.
#[derive(Clone, Copy, Debug, PartialEq, Eq)]
pub enum Action {
    /// Regenerate the step circuit for this many events per iteration.
    Compile { per_iteration_count: usize },
    /// Load the transcript.
    Load,
    /// Build the public parameters of the regenerated circuit.
    BuildParams,
    /// Fold the iteration at `index`.
    FoldStep { index: usize },
    /// Verify the proof for this many iterations.
    Verify { iterations: usize },
    /// Write the report row of this point, then let the sweep go on.
    Report { point: SweepPoint },
    /// End the sweep: every point was reported.
    Finish,
    /// End the sweep: the point at place `at` failed.
    Abort { at: usize, error: SweepError },
    /// Nothing: the sweep was not waiting for this event.
    Ignore,
}

/// Whether a cursor fits a sweep list.
pub open spec fn cursor_ok(points: Seq<SweepPoint>, at: Cursor) -> bool {
    &&& at.point <= points.len() <= usize::MAX
    &&& match at.phase {
        Phase::Ready | Phase::Failed => true,
        Phase::Done => at.point == points.len(),
        Phase::Folding { done } => at.point < points.len() && done
            < points[at.point as int].iteration_count,
        _ => at.point < points.len(),
    }
}

/// The cursor that stays at the same point and waits for something else.
pub open spec fn turn(at: Cursor, phase: Phase) -> Cursor {
    Cursor { point: at.point, phase }
}

/// The cursor and the action for a sweep that fails at its point.
pub open spec fn fail(at: Cursor, error: SweepError) -> (Cursor, Action) {
    (turn(at, Phase::Failed), Action::Abort { at: at.point, error })
}

/// What follows an event: where the sweep stands afterwards, and what it asks
/// for.
///
/// A point is taken through compiling, loading, building, one fold iteration
/// after the other, and verifying; then its row is reported and the next
/// point is taken up. The first failure aborts the sweep. A verdict of the
/// verifier counts only if it was asked about exactly the iterations that
/// were folded.
pub open spec fn next(points: Seq<SweepPoint>, at: Cursor, event: Event) -> (Cursor, Action) {
    let here = points[at.point as int];
    match (at.phase, event) {
        (Phase::Ready, Event::Go) => if at.point < points.len() {
            (
                turn(at, Phase::Compiling),
                Action::Compile { per_iteration_count: here.per_iteration_count },
            )
        } else {
            (turn(at, Phase::Done), Action::Finish)
        },
        (Phase::Compiling, Event::CompilerExited { success }) => if success {
            (turn(at, Phase::Loading), Action::Load)
        } else {
            fail(at, SweepError::CompilerInvocation)
        },
        (Phase::Loading, Event::TranscriptLoaded { events }) => if here.iteration_count
            * here.per_iteration_count <= events {
            (turn(at, Phase::Building), Action::BuildParams)
        } else {
            fail(at, SweepError::InsufficientTranscript)
        },
        (Phase::Loading, Event::TranscriptRefused { error }) => fail(at, SweepError::Load(error)),
        (Phase::Building, Event::ParamsBuilt) => if here.iteration_count == 0 {
            (turn(at, Phase::Verifying), Action::Verify { iterations: 0 })
        } else {
            (turn(at, Phase::Folding { done: 0 }), Action::FoldStep { index: 0 })
        },
        (Phase::Folding { done }, Event::StepFolded { success }) => if !success {
            fail(at, SweepError::FoldStep { index: done })
        } else if done + 1 == here.iteration_count {
            (turn(at, Phase::Verifying), Action::Verify { iterations: here.iteration_count })
        } else {
            (
                turn(at, Phase::Folding { done: (done + 1) as usize }),
                Action::FoldStep { index: (done + 1) as usize },
            )
        },
        (Phase::Verifying, Event::Verified { iterations, accepted }) => if accepted && iterations
            == here.iteration_count {
            (
                Cursor { point: (at.point + 1) as usize, phase: Phase::Ready },
                Action::Report { point: here },
            )
        } else {
            fail(at, SweepError::Verification)
        },
        _ => (at, Action::Ignore),
    }
}

/// Where a sweep stands after a sequence of events, and the actions it asked
/// for, in order.
pub open spec fn run(points: Seq<SweepPoint>, at: Cursor, events: Seq<Event>) -> (
    Cursor,
    Seq<Action>,
)
    decreases events.len(),
{
    if events.len() == 0 {
        (at, Seq::empty())
    } else {
        let (mid, asked) = run(points, at, events.drop_last());
        let (end, action) = next(points, mid, events.last());
        (end, asked.push(action))
    }
}

/// The points whose rows a sequence of actions reports, in order.
pub open spec fn reported(actions: Seq<Action>) -> Seq<SweepPoint>
    decreases actions.len(),
{
    if actions.len() == 0 {
        Seq::empty()
    } else {
        let before = reported(actions.drop_last());
        match actions.last() {
            Action::Report { point } => before.push(point),
            _ => before,
        }
    }
}

/// Where every sweep starts.
pub open spec fn start_cursor() -> Cursor {
    Cursor { point: 0, phase: Phase::Ready }
}

/// An event leaves a fitting cursor fitting. It moves the cursor to the next
/// point exactly when it has that point's row reported, and to no other.
pub proof fn lemma_next_keeps_cursor(points: Seq<SweepPoint>, at: Cursor, event: Event)
    requires
        cursor_ok(points, at),
    ensures
        cursor_ok(points, next(points, at, event).0),
        match next(points, at, event).1 {
            Action::Report { point } => at.point < points.len() && point == points[at.point as int]
                && next(points, at, event).0.point == at.point + 1,
            _ => next(points, at, event).0.point == at.point,
        },
{
}

/// Whatever happens, the rows reported are those of the sweep list from its
/// first point up to the point the sweep stands at, in the list's order.
pub proof fn lemma_rows_follow_sweep_list(points: Seq<SweepPoint>, events: Seq<Event>)
    requires
        points.len() <= usize::MAX,
    ensures
        cursor_ok(points, run(points, start_cursor(), events).0),
        reported(run(points, start_cursor(), events).1) == points.subrange(
            0,
            run(points, start_cursor(), events).0.point as int,
        ),
    decreases events.len(),
{
    if events.len() == 0 {
        assert(reported(Seq::<Action>::empty()) =~= points.subrange(0, 0));
    } else {
        lemma_rows_follow_sweep_list(points, events.drop_last());
        let (mid, asked) = run(points, start_cursor(), events.drop_last());
        let (end, action) = next(points, mid, events.last());
        lemma_next_keeps_cursor(points, mid, events.last());
        assert(asked.push(action).drop_last() =~= asked);
        assert(asked.push(action).last() == action);
        match action {
            Action::Report { point } => {
                assert(points.subrange(0, mid.point as int).push(point) =~= points.subrange(
                    0,
                    end.point as int,
                ));
            },
            _ => {},
        }
    }
}

/// Two runs over one sweep list report the same rows in the same order as
/// far as both get, whatever the timings and outcomes were: the rows of one
/// run are the first rows of the other. Two runs that both finish report the
/// same rows, those of the whole list.
pub proof fn lemma_runs_agree(points: Seq<SweepPoint>, first: Seq<Event>, second: Seq<Event>)
    requires
        points.len() <= usize::MAX,
    ensures
        ({
            let a = reported(run(points, start_cursor(), first).1);
            let b = reported(run(points, start_cursor(), second).1);
            &&& a.len() <= b.len() ==> a == b.subrange(0, a.len() as int)
            &&& b.len() <= a.len() ==> b == a.subrange(0, b.len() as int)
            &&& run(points, start_cursor(), first).0.phase == Phase::Done ==> a == points
            &&& run(points, start_cursor(), first).0.phase == Phase::Done && run(
                points,
                start_cursor(),
                second,
            ).0.phase == Phase::Done ==> a == b
        }),
{
    lemma_rows_follow_sweep_list(points, first);
    lemma_rows_follow_sweep_list(points, second);
    let a = reported(run(points, start_cursor(), first).1);
    let b = reported(run(points, start_cursor(), second).1);
    if a.len() <= b.len() {
        assert(a =~= b.subrange(0, a.len() as int));
    }
    if b.len() <= a.len() {
        assert(b =~= a.subrange(0, b.len() as int));
    }
    if run(points, start_cursor(), first).0.phase == Phase::Done {
        assert(a =~= points);
    }
    if run(points, start_cursor(), second).0.phase == Phase::Done {
        assert(b =~= points);
    }
}

/// A verdict about another number of iterations than were folded never has a
/// row reported: it aborts the sweep with a verification error.
pub proof fn lemma_verdict_for_other_count_fails(
    points: Seq<SweepPoint>,
    at: Cursor,
    iterations: usize,
    accepted: bool,
)
    requires
        cursor_ok(points, at),
        at.phase == Phase::Verifying,
        iterations != points[at.point as int].iteration_count,
    ensures
        next(points, at, Event::Verified { iterations, accepted }) == fail(
            at,
            SweepError::Verification,
        ),
{
}

/// A sweep that waits for the transcript goes on to build the parameters
/// exactly when the transcript suffices for the point it is at, that is when
/// sharding the transcript for that point gives fold inputs; else it aborts,
/// and no row is reported for the point.
pub proof fn lemma_short_transcript_aborts(
    points: Seq<SweepPoint>,
    at: Cursor,
    t: Transcript,
    events: usize,
)
    requires
        cursor_ok(points, at),
        at.phase == Phase::Loading,
        t.wf(),
        events == t.events(),
    ensures
        ({
            let here = points[at.point as int];
            let after = next(points, at, Event::TranscriptLoaded { events });
            if sufficient(t, here.iteration_count as nat, here.per_iteration_count as nat) {
                after == (turn(at, Phase::Building), Action::BuildParams)
            } else {
                after == fail(at, SweepError::InsufficientTranscript)
            }
        }),
{
}

/// Decides what follows an event.
pub fn decide(points: &Vec<SweepPoint>, at: Cursor, event: Event) -> (r: (Cursor, Action))
    requires
        cursor_ok(points@, at),
    ensures
        r == next(points@, at, event),
        cursor_ok(points@, r.0),
{
    proof {
        lemma_next_keeps_cursor(points@, at, event);
    }
    let stay = (at, Action::Ignore);
    match at.phase {
        Phase::Ready => match event {
            Event::Go => if at.point < points.len() {
                (
                    Cursor { point: at.point, phase: Phase::Compiling },
                    Action::Compile { per_iteration_count: points[at.point].per_iteration_count },
                )
            } else {
                (Cursor { point: at.point, phase: Phase::Done }, Action::Finish)
            },
            _ => stay,
        },
        Phase::Compiling => match event {
            Event::CompilerExited { success } => if success {
                (Cursor { point: at.point, phase: Phase::Loading }, Action::Load)
            } else {
                abort(at, SweepError::CompilerInvocation)
            },
            _ => stay,
        },
        Phase::Loading => match event {
            Event::TranscriptLoaded { events } => {
                let here = points[at.point];
                let fits = match here.iteration_count.checked_mul(here.per_iteration_count) {
                    Some(total) => total <= events,
                    None => false,
                };
                if fits {
                    (Cursor { point: at.point, phase: Phase::Building }, Action::BuildParams)
                } else {
                    abort(at, SweepError::InsufficientTranscript)
                }
            },
            Event::TranscriptRefused { error } => abort(at, SweepError::Load(error)),
            _ => stay,
        },
        Phase::Building => match event {
            Event::ParamsBuilt => if points[at.point].iteration_count == 0 {
                (
                    Cursor { point: at.point, phase: Phase::Verifying },
                    Action::Verify { iterations: 0 },
                )
            } else {
                (
                    Cursor { point: at.point, phase: Phase::Folding { done: 0 } },
                    Action::FoldStep { index: 0 },
                )
            },
            _ => stay,
        },
        Phase::Folding { done } => match event {
            Event::StepFolded { success } => {
                let count = points[at.point].iteration_count;
                if !success {
                    abort(at, SweepError::FoldStep { index: done })
                } else if done + 1 == count {
                    (
                        Cursor { point: at.point, phase: Phase::Verifying },
                        Action::Verify { iterations: count },
                    )
                } else {
                    (
                        Cursor { point: at.point, phase: Phase::Folding { done: done + 1 } },
                        Action::FoldStep { index: done + 1 },
                    )
                }
            },
            _ => stay,
        },
        Phase::Verifying => match event {
            Event::Verified { iterations, accepted } => {
                let here = points[at.point];
                if accepted && iterations == here.iteration_count {
                    (
                        Cursor { point: at.point + 1, phase: Phase::Ready },
                        Action::Report { point: here },
                    )
                } else {
                    abort(at, SweepError::Verification)
                }
            },
            _ => stay,
        },
        Phase::Done => stay,
        Phase::Failed => stay,
    }
}

/// The cursor and the action for a sweep that fails at its point.
fn abort(at: Cursor, error: SweepError) -> (r: (Cursor, Action))
    ensures
        r == fail(at, error),
{
    (Cursor { point: at.point, phase: Phase::Failed }, Action::Abort { at: at.point, error })
}

/// A sweep over a list of points.
#[derive(Debug)]
pub struct Sweep {
    points: Vec<SweepPoint>,
    at: Cursor,
}

impl Sweep {
    /// The sweep list.
    pub closed spec fn points(&self) -> Seq<SweepPoint> {
        self.points@
    }

    /// Where the sweep stands.
    pub closed spec fn at(&self) -> Cursor {
        self.at
    }

    #[verifier::type_invariant]
    spec fn inv(self) -> bool {
        cursor_ok(self.points@, self.at)
    }

    /// A sweep over `points` that has not begun.
    pub fn new(points: Vec<SweepPoint>) -> (s: Sweep)
        ensures
            s.points() == points@,
            s.at() == start_cursor(),
    {
        let _ = points.len();
        Sweep { points, at: Cursor { point: 0, phase: Phase::Ready } }
    }

    /// Where the sweep stands.
    pub fn cursor(&self) -> (at: Cursor)
        ensures
            at == self.at(),
            cursor_ok(self.points(), at),
    {
        proof {
            use_type_invariant(self);
        }
        self.at
    }

    /// Takes an event and says what is to be done next.
    pub fn handle(&mut self, event: Event) -> (action: Action)
        ensures
            final(self).points() == old(self).points(),
            (final(self).at(), action) == next(old(self).points(), old(self).at(), event),
    {
        proof {
            use_type_invariant(&*self);
        }
        let (at, action) = decide(&self.points, self.at, event);
        self.at = at;
        action
    }
}

} // verus!
