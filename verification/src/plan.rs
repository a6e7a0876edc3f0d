//! What a rotation asks of the pin provider, action by action.

use vstd::prelude::*;
use crate::sequence::{
    lemma_backward_retraces_forward, phase_level, row_at, row_levels, rows, Direction, Level,
};

verus! {

/// Pause after each phase, in milliseconds. The motor is rated for 600 Hz at
/// most, so this must not go below 2.
pub const DELAY: u8 = 5;

/// Failure of the pin provider.
#[derive(Clone, Copy, Debug, PartialEq, Eq)]
pub enum IOFailure {
    /// The chip or one of the pins could not be had as an output.
    GenericError,
}

/// One request to the pin provider, or the end of the rotation. `slot`
/// counts the four pins of the motor from zero, in wiring order.
#[derive(Clone, Copy, Debug, PartialEq, Eq)]
pub enum Action {
    /// Open the chip that holds the pins.
    OpenChip,
    /// Take the pin numbered `id` on the chip for the wire `slot`.
    GetPin { slot: u8, id: u8 },
    /// Turn the pin held for `slot` into an output.
    IntoOutput { slot: u8 },
    /// Drive the output of `slot` to `level`.
    Write { slot: u8, level: Level },
    /// Wait for `millis` milliseconds.
    Pause { millis: u8 },
    /// Drive the output of `slot` low.
    SetLow { slot: u8 },
    /// Stop: the rotation ended with `result`.
    Finish { result: Result<(), IOFailure> },
}

/// Opening the chip, taking the four pins, then turning each into an output.
pub open spec fn acquisition(pins: Seq<u8>) -> Seq<Action> {
    seq![Action::OpenChip] + Seq::new(
        4,
        |slot: int| Action::GetPin { slot: slot as u8, id: pins[slot] },
    ) + Seq::new(4, |slot: int| Action::IntoOutput { slot: slot as u8 })
}

/// Applying one table row: a write to each of the four wires in order, then
/// the pause.
pub open spec fn phase(row: int) -> Seq<Action> {
    Seq::new(
        4,
        |wire: int| Action::Write { slot: wire as u8, level: phase_level(row, wire) },
    ).push(Action::Pause { millis: DELAY })
}

/// The first `count` phases of a rotation, each applying the row that its
/// place in the rotation gives it.
pub open spec fn phases(direction: Direction, count: nat) -> Seq<Action>
    decreases count,
{
    if count == 0 {
        Seq::empty()
    } else {
        phases(direction, (count - 1) as nat) + phase(row_at(direction, count - 1))
    }
}

/// Driving each of the four outputs low, in order.
pub open spec fn reset() -> Seq<Action> {
    Seq::new(4, |slot: int| Action::SetLow { slot: slot as u8 })
}

/// Every action of a rotation of `steps` cycles that meets no failure:
/// acquisition, eight phases per cycle, the reset, and the successful end.
pub open spec fn plan(steps: nat, direction: Direction, pins: Seq<u8>) -> Seq<Action> {
    acquisition(pins) + phases(direction, 8 * steps) + reset() + seq![
        Action::Finish { result: Ok(()) },
    ]
}

/// The levels of the outputs once the output of `slot` is driven to `level`.
/// A slot that has no output changes nothing.
pub open spec fn set_level(levels: Seq<Level>, slot: int, level: Level) -> Seq<Level> {
    if 0 <= slot < levels.len() {
        levels.update(slot, level)
    } else {
        levels
    }
}

/// The levels of the outputs once `action` is carried out on outputs that
/// stood at `levels`. Only writes and resets touch an output.
pub open spec fn drive(levels: Seq<Level>, action: Action) -> Seq<Level> {
    match action {
        Action::Write { slot, level } => set_level(levels, slot as int, level),
        Action::SetLow { slot } => set_level(levels, slot as int, Level::Low),
        _ => levels,
    }
}

/// The levels of the outputs once `actions` are carried out in order on
/// outputs that stood at `levels`.
pub open spec fn levels_after(levels: Seq<Level>, actions: Seq<Action>) -> Seq<Level>
    decreases actions.len(),
{
    if actions.len() == 0 {
        levels
    } else {
        drive(levels_after(levels, actions.drop_last()), actions.last())
    }
}

/// Place in a plan of the first action of the phase `index`: nine actions
/// of acquisition and five for each phase stand before it.
pub open spec fn phase_start(index: int) -> int {
    9 + 5 * index
}

/// Place in a plan of the first action of the reset, which follows the last
/// of the eight phases of each cycle.
pub open spec fn reset_start(steps: nat) -> int {
    phase_start(8 * (steps as int))
}

/// `count` phases take five actions each, and the action `offset` of the
/// phase `index` is the one that the phase's row gives.
proof fn lemma_phases_index(direction: Direction, count: nat, index: int, offset: int)
    requires
        0 <= index < count,
        0 <= offset < 5,
    ensures
        phases(direction, count).len() == 5 * count,
        phases(direction, count)[5 * index + offset] == phase(row_at(direction, index))[offset],
    decreases count,
{
    lemma_phases_len(direction, (count - 1) as nat);
    if index < count - 1 {
        lemma_phases_index(direction, (count - 1) as nat, index, offset);
    }
}

/// `count` phases take five actions each.
pub proof fn lemma_phases_len(direction: Direction, count: nat)
    ensures
        phases(direction, count).len() == 5 * count,
    decreases count,
{
    if count > 0 {
        lemma_phases_len(direction, (count - 1) as nat);
    }
}

/// A plan has nine actions of acquisition, forty for each cycle, four of
/// reset and the end.
pub proof fn lemma_plan_len(steps: nat, direction: Direction, pins: Seq<u8>)
    ensures
        plan(steps, direction, pins).len() == reset_start(steps) + 5,
{
    lemma_phases_len(direction, 8 * steps);
}

/// A plan opens with the acquisition: the chip, the four pins in wiring
/// order, then the four conversions to outputs.
pub proof fn lemma_plan_acquisition(steps: nat, direction: Direction, pins: Seq<u8>)
    ensures
        plan(steps, direction, pins)[0] == Action::OpenChip,
        forall|slot: int|
            0 <= slot < 4 ==> #[trigger] plan(steps, direction, pins)[1 + slot]
                == (Action::GetPin { slot: slot as u8, id: pins[slot] }),
        forall|slot: int|
            0 <= slot < 4 ==> #[trigger] plan(steps, direction, pins)[5 + slot]
                == (Action::IntoOutput { slot: slot as u8 }),
{
    lemma_phases_len(direction, 8 * steps);
}

/// The phase `index` of a plan writes the levels of its row to the four
/// wires in order and then pauses.
pub proof fn lemma_plan_phase(steps: nat, direction: Direction, pins: Seq<u8>, index: int)
    requires
        0 <= index < 8 * steps,
    ensures
        forall|wire: int|
            0 <= wire < 4 ==> #[trigger] plan(steps, direction, pins)[phase_start(index) + wire]
                == (Action::Write {
                slot: wire as u8,
                level: phase_level(row_at(direction, index), wire),
            }),
        plan(steps, direction, pins)[phase_start(index) + 4] == (Action::Pause { millis: DELAY }),
{
    let all = plan(steps, direction, pins);
    assert forall|offset: int| 0 <= offset < 5 implies #[trigger] all[phase_start(index) + offset]
        == phase(row_at(direction, index))[offset] by {
        lemma_phases_index(direction, 8 * steps, index, offset);
    }
}

/// A plan closes with the reset of the four outputs in order and the
/// successful end.
pub proof fn lemma_plan_reset(steps: nat, direction: Direction, pins: Seq<u8>)
    ensures
        forall|slot: int|
            0 <= slot < 4 ==> #[trigger] plan(steps, direction, pins)[reset_start(steps) + slot]
                == (Action::SetLow { slot: slot as u8 }),
        plan(steps, direction, pins)[reset_start(steps) + 4] == (Action::Finish {
            result: Ok(()),
        }),
{
    lemma_phases_len(direction, 8 * steps);
}

/// Which kind of action stands at each place of a plan: the acquisition
/// takes the first nine places, writes and pauses all places from there to
/// the reset, the reset four, and the successful end the last.
pub proof fn lemma_plan_kinds(steps: nat, direction: Direction, pins: Seq<u8>, place: int)
    requires
        0 <= place < plan(steps, direction, pins).len(),
    ensures
        place == 0 ==> plan(steps, direction, pins)[place] is OpenChip,
        1 <= place <= 4 ==> (plan(steps, direction, pins)[place] matches Action::GetPin {
            slot,
            ..
        } && slot == place - 1),
        5 <= place <= 8 ==> plan(steps, direction, pins)[place] is IntoOutput,
        phase_start(0) <= place < reset_start(steps) ==> plan(steps, direction, pins)[place] is Write || plan(
            steps,
            direction,
            pins,
        )[place] is Pause,
        reset_start(steps) <= place < reset_start(steps) + 4 ==> plan(
            steps,
            direction,
            pins,
        )[place] is SetLow,
        place == reset_start(steps) + 4 ==> plan(steps, direction, pins)[place] == (Action::Finish {
            result: Ok(()),
        }),
{
    let all = plan(steps, direction, pins);
    lemma_plan_len(steps, direction, pins);
    lemma_plan_acquisition(steps, direction, pins);
    lemma_plan_reset(steps, direction, pins);
    if 1 <= place <= 4 {
        assert(all[1 + (place - 1)] is GetPin);
    } else if 5 <= place <= 8 {
        assert(all[5 + (place - 5)] is IntoOutput);
    } else if 9 <= place < reset_start(steps) {
        let index = (place - 9) / 5;
        let offset = (place - 9) % 5;
        lemma_plan_phase(steps, direction, pins, index);
        if offset < 4 {
            assert(all[phase_start(index) + offset] is Write);
        }
    } else if reset_start(steps) <= place < reset_start(steps) + 4 {
        assert(all[reset_start(steps) + (place - reset_start(steps))] is SetLow);
    }
}

/// A rotation of no cycles acquires the pins and resets them at once: it
/// writes no phase.
pub proof fn lemma_plan_of_no_steps(direction: Direction, pins: Seq<u8>)
    ensures
        plan(0, direction, pins) == acquisition(pins) + reset() + seq![
            Action::Finish { result: Ok(()) },
        ],
{
    assert(phases(direction, 0) =~= Seq::empty());
    assert(acquisition(pins) + phases(direction, 0) =~= acquisition(pins));
}

/// Carrying out actions leaves as many outputs as there were.
pub proof fn lemma_levels_len(levels: Seq<Level>, actions: Seq<Action>)
    ensures
        levels_after(levels, actions).len() == levels.len(),
    decreases actions.len(),
{
    if actions.len() > 0 {
        lemma_levels_len(levels, actions.drop_last());
    }
}

/// Carrying out one action more drives the outputs from where the actions
/// before it left them.
proof fn lemma_levels_next(levels: Seq<Level>, actions: Seq<Action>, count: int)
    requires
        0 <= count < actions.len(),
    ensures
        levels_after(levels, actions.take(count + 1)) == drive(
            levels_after(levels, actions.take(count)),
            actions[count],
        ),
{
    assert(actions.take(count + 1).drop_last() =~= actions.take(count));
}

/// The acquisition leaves the outputs as they stood.
pub proof fn lemma_levels_after_acquisition(
    steps: nat,
    direction: Direction,
    pins: Seq<u8>,
    levels: Seq<Level>,
)
    ensures
        levels_after(levels, plan(steps, direction, pins).take(phase_start(0))) == levels,
{
    let all = plan(steps, direction, pins);
    lemma_plan_len(steps, direction, pins);
    lemma_plan_acquisition(steps, direction, pins);
    assert(all.take(0) =~= Seq::empty());
    assert forall|slot: int| 0 <= slot < 4 implies drive(levels, #[trigger] all[1 + slot])
        == levels && drive(levels, #[trigger] all[5 + slot]) == levels by {}
    lemma_levels_next(levels, all, 0);
    lemma_levels_next(levels, all, 1);
    lemma_levels_next(levels, all, 2);
    lemma_levels_next(levels, all, 3);
    lemma_levels_next(levels, all, 4);
    lemma_levels_next(levels, all, 5);
    lemma_levels_next(levels, all, 6);
    lemma_levels_next(levels, all, 7);
    lemma_levels_next(levels, all, 8);
}

/// Once the phase `index` of a plan is carried out, the four outputs stand
/// at the levels of the row that the phase applies.
pub proof fn lemma_levels_after_phase(
    steps: nat,
    direction: Direction,
    pins: Seq<u8>,
    levels: Seq<Level>,
    index: int,
)
    requires
        levels.len() == 4,
        0 <= index < 8 * steps,
    ensures
        levels_after(levels, plan(steps, direction, pins).take(phase_start(index + 1)))
            == row_levels(row_at(direction, index)),
{
    let all = plan(steps, direction, pins);
    let start = phase_start(index);
    lemma_plan_len(steps, direction, pins);
    lemma_plan_phase(steps, direction, pins, index);
    lemma_levels_len(levels, all.take(start));
    lemma_levels_next(levels, all, start);
    lemma_levels_next(levels, all, start + 1);
    lemma_levels_next(levels, all, start + 2);
    lemma_levels_next(levels, all, start + 3);
    lemma_levels_next(levels, all, start + 4);
    assert(levels_after(levels, all.take(start + 5)) =~= row_levels(row_at(direction, index)));
}

/// Once a plan is carried out to its end, all four outputs are low,
/// however they stood before.
pub proof fn lemma_levels_after_plan(
    steps: nat,
    direction: Direction,
    pins: Seq<u8>,
    levels: Seq<Level>,
)
    requires
        levels.len() == 4,
    ensures
        levels_after(levels, plan(steps, direction, pins)) == seq![
            Level::Low,
            Level::Low,
            Level::Low,
            Level::Low,
        ],
{
    let all = plan(steps, direction, pins);
    let start = reset_start(steps);
    lemma_plan_len(steps, direction, pins);
    lemma_plan_reset(steps, direction, pins);
    lemma_levels_len(levels, all.take(start));
    lemma_levels_next(levels, all, start);
    lemma_levels_next(levels, all, start + 1);
    lemma_levels_next(levels, all, start + 2);
    lemma_levels_next(levels, all, start + 3);
    lemma_levels_next(levels, all, start + 4);
    assert(all.take(start + 5) =~= all);
    assert(levels_after(levels, all) =~= seq![Level::Low, Level::Low, Level::Low, Level::Low]);
}

/// A forward rotation followed by a backward rotation of as many cycles
/// brings the outputs back to where the forward rotation first put them:
/// after the last backward phase they stand as after the first forward
/// phase. Both rotations leave all four outputs low.
pub proof fn lemma_forward_then_backward(steps: nat, pins: Seq<u8>, levels: Seq<Level>)
    requires
        levels.len() == 4,
    ensures
        ({
            let forward = plan(steps, Direction::Forward, pins);
            let backward = plan(steps, Direction::Backward, pins);
            let between = levels_after(levels, forward);
            &&& steps > 0 ==> levels_after(between, backward.take(reset_start(steps)))
                == levels_after(levels, forward.take(phase_start(1)))
            &&& between == seq![Level::Low, Level::Low, Level::Low, Level::Low]
            &&& levels_after(between, backward) == between
        }),
{
    let between = levels_after(levels, plan(steps, Direction::Forward, pins));
    lemma_levels_after_plan(steps, Direction::Forward, pins, levels);
    lemma_levels_after_plan(steps, Direction::Backward, pins, between);
    if steps > 0 {
        lemma_levels_after_phase(steps, Direction::Forward, pins, levels, 0);
        lemma_levels_after_phase(steps, Direction::Backward, pins, between, 8 * steps - 1);
        lemma_backward_retraces_forward(steps);
        assert(rows(Direction::Backward, 8 * steps).last() == row_at(
            Direction::Backward,
            8 * steps - 1,
        ));
        assert(rows(Direction::Forward, 8 * steps).first() == row_at(Direction::Forward, 0));
    }
}

} // verus!
