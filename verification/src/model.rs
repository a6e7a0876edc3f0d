//! The rotation engine as a transition system over the plan of a rotation.

use vstd::prelude::*;
use crate::plan::{
    lemma_plan_kinds, lemma_plan_len, phase_start, plan, reset_start, Action, IOFailure,
};
use crate::sequence::Direction;

verus! {

/// How the pin provider fared with the last action it was given.
#[derive(Clone, Copy, Debug, PartialEq, Eq, Structural)]
pub enum Outcome {
    Succeeded,
    Failed,
}

/// Where a rotation stands.
#[derive(Clone, Copy, Debug, PartialEq, Eq, Structural)]
pub enum Stage {
    /// Nothing has been asked of the pin provider yet.
    Idle,
    /// The chip and the pins are being taken.
    Acquiring,
    /// The acquisition failed; nothing more will be asked.
    Failed,
    /// The phases are being applied.
    Running,
    /// The outputs are being driven low.
    Resetting,
    /// The rotation ended well; nothing more will be asked.
    Done,
}

/// A rotation as the contracts see it.
pub struct RotationView {
    /// Cycles to run.
    pub steps: nat,
    /// Sense of rotation.
    pub direction: Direction,
    /// Numbers of the four pins on the chip, in wiring order.
    pub pins: Seq<u8>,
    /// How many actions of the plan have been handed out.
    pub issued: nat,
    /// Whether every pin asked for so far was had.
    pub pins_ok: bool,
    /// Whether the acquisition has failed.
    pub failed: bool,
}

impl RotationView {
    /// The actions that this rotation hands out if nothing fails.
    pub open spec fn plan(self) -> Seq<Action> {
        plan(self.steps, self.direction, self.pins)
    }

    /// A rotation of which nothing has been handed out yet.
    pub open spec fn idle(steps: nat, direction: Direction, pins: Seq<u8>) -> RotationView {
        RotationView { steps, direction, pins, issued: 0, pins_ok: true, failed: false }
    }

    /// The action handed out last, whose outcome is still to be reported.
    pub open spec fn in_flight(self) -> Option<Action> {
        if 0 < self.issued <= self.plan().len() {
            Some(self.plan()[self.issued - 1])
        } else {
            None
        }
    }

    /// The stage, told by the action in flight.
    pub open spec fn stage(self) -> Stage {
        if self.failed {
            Stage::Failed
        } else {
            match self.in_flight() {
                None => Stage::Idle,
                Some(Action::OpenChip) | Some(Action::GetPin { .. }) | Some(
                    Action::IntoOutput { .. },
                ) => Stage::Acquiring,
                Some(Action::Write { .. }) | Some(Action::Pause { .. }) => Stage::Running,
                Some(Action::SetLow { .. }) => Stage::Resetting,
                Some(Action::Finish { .. }) => Stage::Done,
            }
        }
    }

    /// Whether every pin asked for is still had once `outcome` is known.
    pub open spec fn pins_ok_after(self, outcome: Outcome) -> bool {
        self.pins_ok && !(self.in_flight() matches Some(Action::GetPin { .. }) && outcome
            == Outcome::Failed)
    }

    /// Whether `outcome` ends the acquisition in failure: the chip did not
    /// open, a pin was not had (told once all four were asked for), or a pin
    /// did not become an output.
    pub open spec fn gives_up(self, outcome: Outcome) -> bool {
        match self.in_flight() {
            Some(Action::OpenChip) => outcome == Outcome::Failed,
            Some(Action::GetPin { slot, .. }) => slot == 3 && !self.pins_ok_after(outcome),
            Some(Action::IntoOutput { .. }) => outcome == Outcome::Failed,
            _ => false,
        }
    }

    /// Whether the rotation has ended, well or in failure.
    pub open spec fn finished(self) -> bool {
        self.stage() == Stage::Done || self.stage() == Stage::Failed
    }

    /// The rotation after `outcome` is reported, and the action handed out
    /// in answer. A rotation that has ended stays as it is and repeats its
    /// end; a failure of the acquisition ends it; otherwise the next action
    /// of the plan goes out. Outcomes of writes, pauses and resets are not
    /// looked at.
    pub open spec fn step(self, outcome: Outcome) -> (RotationView, Action) {
        if self.failed {
            (self, Action::Finish { result: Err(IOFailure::GenericError) })
        } else if self.issued >= self.plan().len() {
            (self, Action::Finish { result: Ok(()) })
        } else if self.gives_up(outcome) {
            (
                RotationView { failed: true, pins_ok: self.pins_ok_after(outcome), ..self },
                Action::Finish { result: Err(IOFailure::GenericError) },
            )
        } else {
            (
                RotationView {
                    issued: self.issued + 1,
                    pins_ok: self.pins_ok_after(outcome),
                    ..self
                },
                self.plan()[self.issued as int],
            )
        }
    }
}

impl RotationView {
    /// The rotation after `outcomes` are reported one after another.
    pub open spec fn after(self, outcomes: Seq<Outcome>) -> RotationView
        decreases outcomes.len(),
    {
        if outcomes.len() == 0 {
            self
        } else {
            self.after(outcomes.drop_last()).step(outcomes.last()).0
        }
    }

    /// The actions handed out in answer to `outcomes`, reported one after
    /// another.
    pub open spec fn run(self, outcomes: Seq<Outcome>) -> Seq<Action> {
        Seq::new(
            outcomes.len(),
            |turn: int| self.after(outcomes.take(turn)).step(outcomes[turn]).1,
        )
    }
}

/// A step ends the rotation exactly when it hands out an end: the last
/// action of the plan, the failed end, or the repeated end of a rotation
/// that had ended before.
pub proof fn lemma_step_ends(state: RotationView, outcome: Outcome)
    requires
        state.issued <= state.plan().len(),
    ensures
        state.step(outcome).1 is Finish <==> state.step(outcome).0.finished(),
{
    lemma_plan_len(state.steps, state.direction, state.pins);
    if !state.failed && state.issued < state.plan().len() {
        lemma_plan_kinds(state.steps, state.direction, state.pins, state.issued as int);
    }
    if state.issued == state.plan().len() {
        lemma_plan_kinds(state.steps, state.direction, state.pins, state.issued - 1);
    }
}

/// The end of a rotation whose acquisition failed.
pub open spec fn failure() -> Action {
    Action::Finish { result: Err(IOFailure::GenericError) }
}

/// Whether `action` belongs to the acquisition: it touches no output.
pub open spec fn acquires(action: Action) -> bool {
    action is OpenChip || action is GetPin || action is IntoOutput
}

/// Reporting one outcome more steps the rotation from where the outcomes
/// before it left it.
proof fn lemma_after_next(start: RotationView, outcomes: Seq<Outcome>, turn: int)
    requires
        0 <= turn < outcomes.len(),
    ensures
        start.after(outcomes.take(turn + 1)) == start.after(outcomes.take(turn)).step(
            outcomes[turn],
        ).0,
{
    assert(outcomes.take(turn + 1).drop_last() =~= outcomes.take(turn));
}

/// As long as no failure is reported while the pins are acquired, the
/// actions of the plan go out in order, whatever is reported of writes,
/// pauses and resets.
pub proof fn lemma_run_follows_plan(
    steps: nat,
    direction: Direction,
    pins: Seq<u8>,
    outcomes: Seq<Outcome>,
)
    requires
        outcomes.len() <= plan(steps, direction, pins).len(),
        forall|turn: int|
            1 <= turn <= phase_start(0) && turn < outcomes.len() ==> outcomes[turn]
                == Outcome::Succeeded,
    ensures
        RotationView::idle(steps, direction, pins).run(outcomes) == plan(
            steps,
            direction,
            pins,
        ).take(outcomes.len() as int),
        RotationView::idle(steps, direction, pins).after(outcomes) == (RotationView {
            issued: outcomes.len(),
            ..RotationView::idle(steps, direction, pins)
        }),
{
    let start = RotationView::idle(steps, direction, pins);
    assert forall|turn: int| 0 <= turn < outcomes.len() implies #[trigger] start.run(
        outcomes,
    )[turn] == plan(steps, direction, pins)[turn] by {
        lemma_unfailing_prefix(steps, direction, pins, outcomes, turn + 1);
    }
    lemma_unfailing_prefix(steps, direction, pins, outcomes, outcomes.len() as int);
    assert(outcomes.take(outcomes.len() as int) =~= outcomes);
    assert(start.run(outcomes) =~= plan(steps, direction, pins).take(outcomes.len() as int));
}

proof fn lemma_unfailing_prefix(
    steps: nat,
    direction: Direction,
    pins: Seq<u8>,
    outcomes: Seq<Outcome>,
    turns: int,
)
    requires
        outcomes.len() <= plan(steps, direction, pins).len(),
        forall|turn: int|
            1 <= turn <= phase_start(0) && turn < outcomes.len() ==> outcomes[turn]
                == Outcome::Succeeded,
        0 <= turns <= outcomes.len(),
    ensures
        RotationView::idle(steps, direction, pins).after(outcomes.take(turns)) == (RotationView {
            issued: turns as nat,
            ..RotationView::idle(steps, direction, pins)
        }),
        turns > 0 ==> RotationView::idle(steps, direction, pins).after(
            outcomes.take(turns - 1),
        ).step(outcomes[turns - 1]).1 == plan(steps, direction, pins)[turns - 1],
    decreases turns,
{
    let start = RotationView::idle(steps, direction, pins);
    if turns == 0 {
        assert(outcomes.take(0) =~= Seq::empty());
    } else {
        lemma_unfailing_prefix(steps, direction, pins, outcomes, turns - 1);
        lemma_after_next(start, outcomes, turns - 1);
        lemma_plan_len(steps, direction, pins);
        if turns > 1 {
            lemma_plan_kinds(steps, direction, pins, turns - 2);
        }
    }
}

/// The turn at which a failure reported at `failure_turn` ends the
/// rotation: that same turn, except that a pin that was not had ends it
/// only at the fifth turn, when all four pins have been asked for.
pub open spec fn ending_turn(failure_turn: int) -> int {
    if 2 <= failure_turn < 5 {
        5
    } else {
        failure_turn
    }
}

/// Once a failure is reported while the pins are acquired, the rotation
/// touches no output: every action handed out belongs to the acquisition
/// or is the failed end, and from the ending turn on the failed end is all
/// that goes out.
pub proof fn lemma_run_fails(
    steps: nat,
    direction: Direction,
    pins: Seq<u8>,
    outcomes: Seq<Outcome>,
    failure_turn: int,
)
    requires
        1 <= failure_turn <= phase_start(0),
        failure_turn < outcomes.len(),
        outcomes[failure_turn] == Outcome::Failed,
    ensures
        forall|turn: int|
            0 <= turn < outcomes.len() ==> {
                let action = #[trigger] RotationView::idle(steps, direction, pins).run(
                    outcomes,
                )[turn];
                acquires(action) || action == failure()
            },
        forall|turn: int|
            ending_turn(failure_turn) <= turn < outcomes.len() ==> #[trigger] RotationView::idle(
                steps,
                direction,
                pins,
            ).run(outcomes)[turn] == failure(),
        outcomes.len() > ending_turn(failure_turn) ==> RotationView::idle(
            steps,
            direction,
            pins,
        ).after(outcomes).stage() == Stage::Failed,
{
    let start = RotationView::idle(steps, direction, pins);
    assert forall|turn: int| 0 <= turn < outcomes.len() implies {
        let action = #[trigger] start.run(outcomes)[turn];
        &&& acquires(action) || action == failure()
        &&& ending_turn(failure_turn) <= turn ==> action == failure()
    } by {
        lemma_failing_prefix(steps, direction, pins, outcomes, failure_turn, turn + 1);
    }
    lemma_failing_prefix(steps, direction, pins, outcomes, failure_turn, outcomes.len() as int);
    assert(outcomes.take(outcomes.len() as int) =~= outcomes);
}

/// Where a rotation stands after `turns` reports, one of which tells of a
/// failure during the acquisition.
spec fn failing(
    steps: nat,
    direction: Direction,
    pins: Seq<u8>,
    state: RotationView,
    failure_turn: int,
    turns: int,
) -> bool {
    &&& state.steps == steps
    &&& state.direction == direction
    &&& state.pins == pins
    &&& state.failed || {
        &&& state.issued == turns
        &&& turns <= failure_turn || (2 <= failure_turn <= 4 && turns <= 5 && !state.pins_ok)
    }
}

proof fn lemma_failing_prefix(
    steps: nat,
    direction: Direction,
    pins: Seq<u8>,
    outcomes: Seq<Outcome>,
    failure_turn: int,
    turns: int,
)
    requires
        1 <= failure_turn <= phase_start(0),
        failure_turn < outcomes.len(),
        outcomes[failure_turn] == Outcome::Failed,
        0 <= turns <= outcomes.len(),
    ensures
        failing(
            steps,
            direction,
            pins,
            RotationView::idle(steps, direction, pins).after(outcomes.take(turns)),
            failure_turn,
            turns,
        ),
        turns > 0 ==> {
            let action = RotationView::idle(steps, direction, pins).after(
                outcomes.take(turns - 1),
            ).step(outcomes[turns - 1]).1;
            &&& acquires(action) || action == failure()
            &&& ending_turn(failure_turn) <= turns - 1 ==> action == failure()
        },
        turns > ending_turn(failure_turn) ==> RotationView::idle(steps, direction, pins).after(
            outcomes.take(turns),
        ).failed,
    decreases turns,
{
    let start = RotationView::idle(steps, direction, pins);
    if turns == 0 {
        assert(outcomes.take(0) =~= Seq::empty());
    } else {
        lemma_failing_prefix(steps, direction, pins, outcomes, failure_turn, turns - 1);
        lemma_after_next(start, outcomes, turns - 1);
        lemma_plan_len(steps, direction, pins);
        let before = start.after(outcomes.take(turns - 1));
        if !before.failed {
            lemma_plan_kinds(steps, direction, pins, turns - 1);
            if turns > 1 {
                lemma_plan_kinds(steps, direction, pins, turns - 2);
            }
        }
    }
}

/// However the actions fare, a rotation has ended once as many outcomes
/// are reported as its plan has actions.
pub proof fn lemma_run_ends(
    steps: nat,
    direction: Direction,
    pins: Seq<u8>,
    outcomes: Seq<Outcome>,
)
    requires
        outcomes.len() >= plan(steps, direction, pins).len(),
    ensures
        RotationView::idle(steps, direction, pins).after(outcomes).finished(),
{
    lemma_progress(steps, direction, pins, outcomes, outcomes.len() as int);
    assert(outcomes.take(outcomes.len() as int) =~= outcomes);
    lemma_plan_len(steps, direction, pins);
    lemma_plan_kinds(steps, direction, pins, reset_start(steps) + 4);
}

proof fn lemma_progress(
    steps: nat,
    direction: Direction,
    pins: Seq<u8>,
    outcomes: Seq<Outcome>,
    turns: int,
)
    requires
        0 <= turns <= outcomes.len(),
    ensures
        ({
            let state = RotationView::idle(steps, direction, pins).after(outcomes.take(turns));
            &&& state.steps == steps
            &&& state.direction == direction
            &&& state.pins == pins
            &&& state.failed || state.issued == turns <= plan(steps, direction, pins).len()
                || turns >= state.issued == plan(steps, direction, pins).len()
        }),
    decreases turns,
{
    let start = RotationView::idle(steps, direction, pins);
    if turns == 0 {
        assert(outcomes.take(0) =~= Seq::empty());
    } else {
        lemma_progress(steps, direction, pins, outcomes, turns - 1);
        lemma_after_next(start, outcomes, turns - 1);
    }
}

} // verus!
