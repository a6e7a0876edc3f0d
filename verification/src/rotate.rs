//! The rotation engine: a state machine that hands out the actions of a
//! rotation one at a time and reacts to how each one went.

use vstd::prelude::*;
pub use crate::convert::degrees_to_cycles;
pub use crate::plan::IOFailure;
pub use crate::sequence::Direction;
use crate::convert::cycles_for;
use crate::model::{lemma_step_ends, Outcome, RotationView, Stage};
use crate::plan::{
    lemma_plan_acquisition, lemma_plan_len, lemma_plan_phase, lemma_plan_reset, phase_start,
    reset_start, Action, DELAY,
};
use crate::sequence::{level_at, phase_index};

verus! {

/// A rotation in progress.
pub struct Rotation {
    steps: u32,
    direction: Direction,
    pins: [u8; 4],
    stage: Stage,
    /// While running: cycles completed.
    cycle: u32,
    /// While running: phase of the cycle that is being applied.
    sequence_step: u8,
    /// Place of the action in flight within its group: the acquisition, a
    /// phase, or the reset.
    offset: u8,
    /// Whether every pin asked for so far was had.
    pins_ok: bool,
}

impl View for Rotation {
    type V = RotationView;

    closed spec fn view(&self) -> RotationView {
        RotationView {
            steps: self.steps as nat,
            direction: self.direction,
            pins: self.pins@,
            issued: self.issued(),
            pins_ok: self.pins_ok,
            failed: self.stage == Stage::Failed,
        }
    }
}

/// Prepares a rotation of `steps` cycles in the given direction on the pins
/// numbered `io_pins`. Nothing is asked of the pin provider until the
/// rotation is advanced.
pub fn rotate(steps: u32, direction: Direction, io_pins: [u8; 4]) -> (rotation: Rotation)
    ensures
        rotation@ == RotationView::idle(steps as nat, direction, io_pins@),
{
    Rotation {
        steps,
        direction,
        pins: io_pins,
        stage: Stage::Idle,
        cycle: 0,
        sequence_step: 0,
        offset: 0,
        pins_ok: true,
    }
}

/// Prepares a rotation by `degrees`, rounded down to whole cycles.
pub fn rotate_degrees(degrees: u16, direction: Direction, io_pins: [u8; 4]) -> (rotation:
    Rotation)
    ensures
        rotation@ == RotationView::idle(cycles_for(degrees as nat), direction, io_pins@),
{
    rotate(degrees_to_cycles(degrees), direction, io_pins)
}

impl Rotation {
    #[verifier::type_invariant]
    closed spec fn inv(self) -> bool {
        match self.stage {
            Stage::Idle => self.pins_ok,
            Stage::Acquiring => self.offset <= 8 && (self.offset > 4 ==> self.pins_ok),
            Stage::Failed => self.offset <= 8,
            Stage::Running => self.cycle < self.steps && self.sequence_step < 8 && self.offset <= 4
                && self.pins_ok,
            Stage::Resetting => self.offset <= 3 && self.pins_ok,
            Stage::Done => self.pins_ok,
        }
    }

    /// While running: the phase that is being applied, counted over all
    /// cycles.
    closed spec fn phase(self) -> int {
        8 * self.cycle + self.sequence_step
    }

    /// Actions handed out so far, the one in flight included.
    closed spec fn issued(self) -> nat {
        match self.stage {
            Stage::Idle => 0,
            Stage::Acquiring | Stage::Failed => (1 + self.offset) as nat,
            Stage::Running => (phase_start(self.phase()) + self.offset + 1) as nat,
            Stage::Resetting => (reset_start(self.steps as nat) + self.offset + 1) as nat,
            Stage::Done => (reset_start(self.steps as nat) + 5) as nat,
        }
    }

    /// Cycles that the rotation runs.
    pub fn steps(&self) -> (steps: u32)
        ensures
            steps == self@.steps,
    {
        self.steps
    }

    /// Sense of the rotation.
    pub fn direction(&self) -> (direction: Direction)
        ensures
            direction == self@.direction,
    {
        self.direction
    }

    /// Numbers of the four pins on the chip, in wiring order.
    pub fn pins(&self) -> (pins: [u8; 4])
        ensures
            pins@ == self@.pins,
    {
        self.pins
    }

    /// The stage that the rotation is in.
    pub fn stage(&self) -> (stage: Stage)
        ensures
            stage == self@.stage(),
    {
        proof {
            use_type_invariant(self);
            self.lemma_places();
        }
        self.stage
    }

    /// Reports how the action in flight went and takes the next action.
    /// Before the first action there is nothing to report, and `outcome`
    /// is not looked at. The rotation has ended when the action is
    /// `Finish`, and not before.
    pub fn advance(&mut self, outcome: Outcome) -> (action: Action)
        ensures
            (final(self)@, action) == old(self)@.step(outcome),
            action is Finish <==> final(self)@.finished(),
    {
        proof {
            use_type_invariant(&*self);
            self.lemma_places();
            lemma_step_ends(old(self)@, outcome);
        }
        match self.stage {
            Stage::Idle => {
                self.offset = 0;
                self.stage = Stage::Acquiring;
                Action::OpenChip
            },
            Stage::Acquiring => self.get_ports(outcome),
            Stage::Running => self.run_cycle(),
            Stage::Resetting => self.reset_pins(),
            Stage::Done => Action::Finish { result: Ok(()) },
            Stage::Failed => Action::Finish { result: Err(IOFailure::GenericError) },
        }
    }

    /// The step of a rotation that is acquiring its pins.
    fn get_ports(&mut self, outcome: Outcome) -> (action: Action)
        requires
            old(self).stage == Stage::Acquiring,
        ensures
            (final(self)@, action) == old(self)@.step(outcome),
    {
        proof {
            use_type_invariant(&*self);
            self.lemma_places();
        }
        let ok = match outcome {
            Outcome::Succeeded => true,
            Outcome::Failed => false,
        };
        if self.offset == 0 {
            if ok {
                self.offset = 1;
                Action::GetPin { slot: 0, id: self.pins[0] }
            } else {
                self.fail()
            }
        } else if self.offset < 4 {
            self.pins_ok = self.pins_ok && ok;
            self.offset = self.offset + 1;
            let next: u8 = self.offset - 1;
            Action::GetPin { slot: next, id: self.pins[next as usize] }
        } else if self.offset == 4 {
            self.pins_ok = self.pins_ok && ok;
            if self.pins_ok {
                self.offset = 5;
                Action::IntoOutput { slot: 0 }
            } else {
                self.fail()
            }
        } else if !ok {
            self.fail()
        } else if self.offset < 8 {
            self.offset = self.offset + 1;
            Action::IntoOutput { slot: self.offset - 5 }
        } else if self.steps == 0 {
            self.start_reset()
        } else {
            self.start_phase(0, 0)
        }
    }

    /// Ends the acquisition in failure.
    fn fail(&mut self) -> (action: Action)
        requires
            old(self).stage == Stage::Acquiring,
        ensures
            final(self).stage == Stage::Failed,
            final(self).offset == old(self).offset,
            final(self).pins_ok == old(self).pins_ok,
            final(self).steps == old(self).steps,
            final(self).direction == old(self).direction,
            final(self).pins == old(self).pins,
            action == (Action::Finish { result: Err(IOFailure::GenericError) }),
    {
        proof {
            use_type_invariant(&*self);
        }
        self.stage = Stage::Failed;
        Action::Finish { result: Err(IOFailure::GenericError) }
    }

    /// Enters the phase `sequence_step` of the cycle `cycle` with the write
    /// to its first wire.
    fn start_phase(&mut self, cycle: u32, sequence_step: u8) -> (action: Action)
        requires
            cycle < old(self).steps,
            sequence_step < 8,
            old(self).pins_ok,
        ensures
            final(self).stage == Stage::Running,
            final(self).cycle == cycle,
            final(self).sequence_step == sequence_step,
            final(self).offset == 0,
            final(self).pins_ok,
            final(self).steps == old(self).steps,
            final(self).direction == old(self).direction,
            final(self).pins == old(self).pins,
            action == final(self)@.plan()[final(self)@.issued - 1],
    {
        proof {
            use_type_invariant(&*self);
        }
        self.offset = 0;
        self.cycle = cycle;
        self.sequence_step = sequence_step;
        self.stage = Stage::Running;
        self.write()
    }

    /// The write of the phase that is being applied to the wire that
    /// `offset` stands at.
    fn write(&self) -> (action: Action)
        requires
            self.stage == Stage::Running,
            self.offset < 4,
        ensures
            action == self@.plan()[self@.issued - 1],
    {
        proof {
            use_type_invariant(self);
            let index = self.phase();
            lemma_plan_phase(self.steps as nat, self.direction, self.pins@, index);
            assert(index % 8 == self.sequence_step as int);
            assert(self@.issued - 1 == phase_start(index) + self.offset);
        }
        let row = phase_index(self.direction, self.sequence_step);
        Action::Write { slot: self.offset, level: level_at(row, self.offset) }
    }

    /// The step of a rotation that is applying its phases.
    fn run_cycle(&mut self) -> (action: Action)
        requires
            old(self).stage == Stage::Running,
        ensures
            (final(self)@, action) == old(self)@.step(Outcome::Succeeded),
            (final(self)@, action) == old(self)@.step(Outcome::Failed),
    {
        proof {
            use_type_invariant(&*self);
            self.lemma_places();
        }
        if self.offset < 3 {
            self.offset = self.offset + 1;
            self.write()
        } else if self.offset == 3 {
            proof {
                lemma_plan_phase(self.steps as nat, self.direction, self.pins@, self.phase());
            }
            self.offset = 4;
            Action::Pause { millis: DELAY }
        } else if self.sequence_step < 7 {
            let cycle = self.cycle;
            let sequence_step = self.sequence_step + 1;
            self.start_phase(cycle, sequence_step)
        } else if self.cycle + 1 < self.steps {
            let cycle = self.cycle + 1;
            self.start_phase(cycle, 0)
        } else {
            self.start_reset()
        }
    }

    /// Enters the reset with the first output.
    fn start_reset(&mut self) -> (action: Action)
        requires
            old(self).pins_ok,
        ensures
            final(self).stage == Stage::Resetting,
            final(self).offset == 0,
            final(self).pins_ok,
            final(self).steps == old(self).steps,
            final(self).direction == old(self).direction,
            final(self).pins == old(self).pins,
            action == (Action::SetLow { slot: 0 }),
    {
        proof {
            use_type_invariant(&*self);
        }
        self.offset = 0;
        self.stage = Stage::Resetting;
        Action::SetLow { slot: 0 }
    }

    /// The step of a rotation that is resetting its outputs.
    fn reset_pins(&mut self) -> (action: Action)
        requires
            old(self).stage == Stage::Resetting,
        ensures
            (final(self)@, action) == old(self)@.step(Outcome::Succeeded),
            (final(self)@, action) == old(self)@.step(Outcome::Failed),
    {
        proof {
            use_type_invariant(&*self);
            self.lemma_places();
            lemma_plan_reset(self.steps as nat, self.direction, self.pins@);
        }
        if self.offset < 3 {
            self.offset = self.offset + 1;
            Action::SetLow { slot: self.offset }
        } else {
            self.stage = Stage::Done;
            Action::Finish { result: Ok(()) }
        }
    }

    proof fn lemma_places(self)
        requires
            self.inv(),
        ensures
            self@.issued <= self@.plan().len(),
            self@.plan().len() == reset_start(self.steps as nat) + 5,
            self.stage == self@.stage(),
    {
        let steps = self.steps as nat;
        lemma_plan_len(steps, self.direction, self.pins@);
        lemma_plan_acquisition(steps, self.direction, self.pins@);
        lemma_plan_reset(steps, self.direction, self.pins@);
        match self.stage {
            Stage::Running => {
                let index = self.phase();
                lemma_plan_phase(steps, self.direction, self.pins@, index);
                if self.offset < 4 {
                    assert(self@.plan()[phase_start(index) + self.offset] is Write);
                }
            },
            Stage::Acquiring => {
                if self.offset == 0 {
                } else if self.offset <= 4 {
                    assert(self@.plan()[1 + (self.offset - 1)] is GetPin);
                } else {
                    assert(self@.plan()[5 + (self.offset - 5)] is IntoOutput);
                }
            },
            Stage::Resetting => {
                assert(self@.plan()[reset_start(steps) + self.offset] is SetLow);
            },
            _ => {},
        }
    }
}

} // verus!
