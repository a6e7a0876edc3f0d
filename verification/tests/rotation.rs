use rust_gpio::convert::degrees_to_cycles;
use rust_gpio::model::{Outcome, Stage};
use rust_gpio::plan::{Action, IOFailure, DELAY};
use rust_gpio::rotate::{rotate, rotate_degrees, Rotation};
use rust_gpio::sequence::{Direction, Level, SEQUENCE};

const PINS: [u8; 4] = [2, 3, 4, 17];

/// A pin provider that records what it is asked and fails where told to.
struct Bench {
    chip_fails: bool,
    missing_pin: Option<u8>,
    stuck_slot: Option<u8>,
    chip_opened: u32,
    requested: Vec<(u8, u8)>,
    converted: Vec<u8>,
    levels: [Level; 4],
    /// Levels of the four outputs each time a pause began.
    phases: Vec<[Level; 4]>,
    writes: Vec<(u8, Level)>,
    resets: Vec<u8>,
    paused: u64,
}

impl Bench {
    fn new() -> Bench {
        Bench {
            chip_fails: false,
            missing_pin: None,
            stuck_slot: None,
            chip_opened: 0,
            requested: Vec::new(),
            converted: Vec::new(),
            levels: [Level::Low; 4],
            phases: Vec::new(),
            writes: Vec::new(),
            resets: Vec::new(),
            paused: 0,
        }
    }

    fn perform(&mut self, action: Action) -> Option<Outcome> {
        let ok = match action {
            Action::OpenChip => {
                self.chip_opened += 1;
                !self.chip_fails
            }
            Action::GetPin { slot, id } => {
                self.requested.push((slot, id));
                self.missing_pin != Some(id)
            }
            Action::IntoOutput { slot } => {
                self.converted.push(slot);
                self.stuck_slot != Some(slot)
            }
            Action::Write { slot, level } => {
                self.writes.push((slot, level));
                self.levels[usize::from(slot)] = level;
                true
            }
            Action::Pause { millis } => {
                self.paused += u64::from(millis);
                self.phases.push(self.levels);
                true
            }
            Action::SetLow { slot } => {
                self.resets.push(slot);
                self.levels[usize::from(slot)] = Level::Low;
                true
            }
            Action::Finish { .. } => return None,
        };
        Some(if ok { Outcome::Succeeded } else { Outcome::Failed })
    }

    /// Drives `rotation` to its end and returns the result and every action
    /// that went out, the end included.
    fn drive(&mut self, rotation: &mut Rotation) -> (Result<(), IOFailure>, Vec<Action>) {
        let mut trace = Vec::new();
        let mut outcome = Outcome::Succeeded;
        loop {
            let action = rotation.advance(outcome);
            trace.push(action);
            match self.perform(action) {
                Some(next) => outcome = next,
                None => match action {
                    Action::Finish { result } => return (result, trace),
                    _ => unreachable!(),
                },
            }
        }
    }
}

fn pattern(row: usize) -> [Level; 4] {
    let mut levels = [Level::Low; 4];
    for wire in 0..4 {
        if SEQUENCE[row][wire] == 1 {
            levels[wire] = Level::High;
        }
    }
    levels
}

fn rows_of(bench: &Bench) -> Vec<usize> {
    bench
        .phases
        .iter()
        .map(|levels| (0..8).find(|&row| pattern(row) == *levels).expect("a row of the table"))
        .collect()
}

#[test]
fn quarter_turn_forward_end_to_end() {
    let mut bench = Bench::new();
    let mut rotation = rotate(degrees_to_cycles(90), Direction::Forward, PINS);
    let (result, trace) = bench.drive(&mut rotation);
    assert_eq!(result, Ok(()));
    assert_eq!(bench.phases.len(), 1024);
    assert_eq!(bench.writes.len(), 4096);
    for (phase, levels) in bench.phases.iter().enumerate() {
        assert_eq!(*levels, pattern(phase % 8));
    }
    for (count, (slot, _)) in bench.writes.iter().enumerate() {
        assert_eq!(usize::from(*slot), count % 4);
    }
    assert_eq!(bench.resets, vec![0, 1, 2, 3]);
    assert_eq!(bench.levels, [Level::Low; 4]);
    assert_eq!(bench.paused, 1024 * 5);
    assert_eq!(trace.len(), 9 + 1024 * 5 + 4 + 1);
    assert_eq!(&trace[trace.len() - 5..trace.len() - 1], &[
        Action::SetLow { slot: 0 },
        Action::SetLow { slot: 1 },
        Action::SetLow { slot: 2 },
        Action::SetLow { slot: 3 },
    ]);
    assert_eq!(trace[trace.len() - 6], Action::Pause { millis: 5 });
    assert_eq!(rotation.stage(), Stage::Done);
}

#[test]
fn rotate_degrees_converts_then_rotates() {
    let rotation = rotate_degrees(90, Direction::Backward, PINS);
    assert_eq!(rotation.steps(), 128);
    assert_eq!(rotation.direction(), Direction::Backward);
    assert_eq!(rotation.pins(), PINS);
    assert_eq!(rotation.stage(), Stage::Idle);
    let rotation = rotate_degrees(100, Direction::Forward, PINS);
    assert_eq!(rotation.steps(), 142);
    let rotation = rotate_degrees(0, Direction::Forward, PINS);
    assert_eq!(rotation.steps(), 0);
}

#[test]
fn rotate_degrees_runs_as_many_phases_as_the_angle_asks() {
    let mut bench = Bench::new();
    let mut rotation = rotate_degrees(10, Direction::Forward, PINS);
    let (result, _) = bench.drive(&mut rotation);
    assert_eq!(result, Ok(()));
    assert_eq!(bench.phases.len(), 14 * 8);
}

#[test]
fn one_cycle_forward_is_the_exact_plan() {
    let mut bench = Bench::new();
    let mut rotation = rotate(1, Direction::Forward, PINS);
    let (result, trace) = bench.drive(&mut rotation);
    assert_eq!(result, Ok(()));
    let mut expected = vec![
        Action::OpenChip,
        Action::GetPin { slot: 0, id: 2 },
        Action::GetPin { slot: 1, id: 3 },
        Action::GetPin { slot: 2, id: 4 },
        Action::GetPin { slot: 3, id: 17 },
        Action::IntoOutput { slot: 0 },
        Action::IntoOutput { slot: 1 },
        Action::IntoOutput { slot: 2 },
        Action::IntoOutput { slot: 3 },
    ];
    for row in 0..8 {
        let levels = pattern(row);
        for slot in 0..4u8 {
            expected.push(Action::Write { slot, level: levels[usize::from(slot)] });
        }
        expected.push(Action::Pause { millis: DELAY });
    }
    for slot in 0..4u8 {
        expected.push(Action::SetLow { slot });
    }
    expected.push(Action::Finish { result: Ok(()) });
    assert_eq!(trace, expected);
}

#[test]
fn first_phase_forward_drives_only_the_first_wire_high() {
    let mut rotation = rotate(1, Direction::Forward, PINS);
    let mut action = rotation.advance(Outcome::Succeeded);
    for _ in 0..9 {
        action = rotation.advance(Outcome::Succeeded);
    }
    assert_eq!(action, Action::Write { slot: 0, level: Level::High });
    assert_eq!(rotation.advance(Outcome::Succeeded), Action::Write { slot: 1, level: Level::Low });
    assert_eq!(rotation.advance(Outcome::Succeeded), Action::Write { slot: 2, level: Level::Low });
    assert_eq!(rotation.advance(Outcome::Succeeded), Action::Write { slot: 3, level: Level::Low });
    assert_eq!(rotation.advance(Outcome::Succeeded), Action::Pause { millis: 5 });
    assert_eq!(rotation.advance(Outcome::Succeeded), Action::Write { slot: 0, level: Level::High });
    assert_eq!(rotation.advance(Outcome::Succeeded), Action::Write { slot: 1, level: Level::High });
}

#[test]
fn first_phase_backward_applies_the_last_row() {
    let mut rotation = rotate(1, Direction::Backward, PINS);
    let mut action = rotation.advance(Outcome::Succeeded);
    for _ in 0..9 {
        action = rotation.advance(Outcome::Succeeded);
    }
    assert_eq!(action, Action::Write { slot: 0, level: Level::High });
    assert_eq!(rotation.advance(Outcome::Succeeded), Action::Write { slot: 1, level: Level::Low });
    assert_eq!(rotation.advance(Outcome::Succeeded), Action::Write { slot: 2, level: Level::Low });
    assert_eq!(rotation.advance(Outcome::Succeeded), Action::Write { slot: 3, level: Level::High });
    assert_eq!(rotation.advance(Outcome::Succeeded), Action::Pause { millis: 5 });
    assert_eq!(rotation.advance(Outcome::Succeeded), Action::Write { slot: 0, level: Level::Low });
}

#[test]
fn backward_visits_rows_in_descending_order() {
    let mut bench = Bench::new();
    let mut rotation = rotate(3, Direction::Backward, PINS);
    let (result, _) = bench.drive(&mut rotation);
    assert_eq!(result, Ok(()));
    let expected: Vec<usize> = (0..24).map(|phase| 7 - phase % 8).collect();
    assert_eq!(rows_of(&bench), expected);
}

#[test]
fn forward_visits_rows_in_ascending_order() {
    let mut bench = Bench::new();
    let mut rotation = rotate(3, Direction::Forward, PINS);
    let (result, _) = bench.drive(&mut rotation);
    assert_eq!(result, Ok(()));
    let expected: Vec<usize> = (0..24).map(|phase| phase % 8).collect();
    assert_eq!(rows_of(&bench), expected);
}

#[test]
fn no_row_is_skipped_or_repeated_between_cycles() {
    for direction in [Direction::Forward, Direction::Backward] {
        let mut bench = Bench::new();
        let mut rotation = rotate(4, direction, PINS);
        bench.drive(&mut rotation);
        let rows = rows_of(&bench);
        assert_eq!(rows.len(), 32);
        for pair in rows.windows(2) {
            match direction {
                Direction::Forward => assert_eq!(pair[1], (pair[0] + 1) % 8),
                Direction::Backward => assert_eq!(pair[0], (pair[1] + 1) % 8),
            }
        }
    }
}

#[test]
fn backward_retraces_forward() {
    for steps in 1..5 {
        let mut forward = Bench::new();
        let mut rotation = rotate(steps, Direction::Forward, PINS);
        assert_eq!(forward.drive(&mut rotation).0, Ok(()));
        let mut backward = Bench::new();
        let mut rotation = rotate(steps, Direction::Backward, PINS);
        assert_eq!(backward.drive(&mut rotation).0, Ok(()));
        let mut reversed = forward.phases.clone();
        reversed.reverse();
        assert_eq!(backward.phases, reversed);
        assert_eq!(backward.phases.last(), forward.phases.first());
        assert_eq!(forward.levels, [Level::Low; 4]);
        assert_eq!(backward.levels, [Level::Low; 4]);
    }
}

#[test]
fn no_steps_still_acquires_and_resets() {
    for direction in [Direction::Forward, Direction::Backward] {
        let mut bench = Bench::new();
        bench.levels = [Level::High; 4];
        let mut rotation = rotate(0, direction, PINS);
        let (result, trace) = bench.drive(&mut rotation);
        assert_eq!(result, Ok(()));
        assert_eq!(bench.chip_opened, 1);
        assert_eq!(bench.requested, vec![(0, 2), (1, 3), (2, 4), (3, 17)]);
        assert_eq!(bench.converted, vec![0, 1, 2, 3]);
        assert!(bench.writes.is_empty());
        assert_eq!(bench.paused, 0);
        assert_eq!(bench.resets, vec![0, 1, 2, 3]);
        assert_eq!(bench.levels, [Level::Low; 4]);
        assert_eq!(trace.len(), 14);
        assert_eq!(rotation.stage(), Stage::Done);
    }
}

#[test]
fn chip_failure_ends_at_once() {
    let mut bench = Bench::new();
    bench.chip_fails = true;
    let mut rotation = rotate(5, Direction::Forward, PINS);
    let (result, trace) = bench.drive(&mut rotation);
    assert_eq!(result, Err(IOFailure::GenericError));
    assert_eq!(
        trace,
        vec![Action::OpenChip, Action::Finish { result: Err(IOFailure::GenericError) }]
    );
    assert!(bench.requested.is_empty());
    assert!(bench.writes.is_empty());
    assert!(bench.resets.is_empty());
    assert_eq!(rotation.stage(), Stage::Failed);
}

#[test]
fn any_missing_pin_fails_without_a_write() {
    for missing in PINS {
        let mut bench = Bench::new();
        bench.missing_pin = Some(missing);
        let mut rotation = rotate(5, Direction::Backward, PINS);
        let (result, trace) = bench.drive(&mut rotation);
        assert_eq!(result, Err(IOFailure::GenericError));
        assert_eq!(bench.requested, vec![(0, 2), (1, 3), (2, 4), (3, 17)]);
        assert!(bench.converted.is_empty());
        assert!(bench.writes.is_empty());
        assert!(bench.resets.is_empty());
        assert_eq!(bench.paused, 0);
        assert_eq!(trace.len(), 6);
        assert_eq!(rotation.stage(), Stage::Failed);
    }
}

#[test]
fn pins_that_do_not_become_outputs_fail_without_a_write() {
    for stuck in 0..4u8 {
        let mut bench = Bench::new();
        bench.stuck_slot = Some(stuck);
        let mut rotation = rotate(1, Direction::Forward, PINS);
        let (result, trace) = bench.drive(&mut rotation);
        assert_eq!(result, Err(IOFailure::GenericError));
        assert_eq!(bench.converted, (0..=stuck).collect::<Vec<u8>>());
        assert!(bench.writes.is_empty());
        assert!(bench.resets.is_empty());
        assert_eq!(trace.len(), 5 + usize::from(stuck) + 2);
        assert_eq!(rotation.stage(), Stage::Failed);
    }
}

#[test]
fn failure_is_not_retried() {
    let mut rotation = rotate(1, Direction::Forward, PINS);
    assert_eq!(rotation.advance(Outcome::Succeeded), Action::OpenChip);
    let failed = Action::Finish { result: Err(IOFailure::GenericError) };
    assert_eq!(rotation.advance(Outcome::Failed), failed);
    assert_eq!(rotation.advance(Outcome::Succeeded), failed);
    assert_eq!(rotation.advance(Outcome::Succeeded), failed);
    assert_eq!(rotation.stage(), Stage::Failed);
}

#[test]
fn outcomes_are_ignored_once_running() {
    let mut steady = rotate(2, Direction::Forward, PINS);
    let mut shaky = rotate(2, Direction::Forward, PINS);
    for _ in 0..10 {
        assert_eq!(steady.advance(Outcome::Succeeded), shaky.advance(Outcome::Succeeded));
    }
    assert_eq!(shaky.stage(), Stage::Running);
    loop {
        let expected = steady.advance(Outcome::Succeeded);
        assert_eq!(shaky.advance(Outcome::Failed), expected);
        if let Action::Finish { result } = expected {
            assert_eq!(result, Ok(()));
            break;
        }
    }
    assert_eq!(shaky.stage(), Stage::Done);
}

#[test]
fn first_outcome_is_ignored() {
    let mut rotation = rotate(1, Direction::Forward, PINS);
    assert_eq!(rotation.advance(Outcome::Failed), Action::OpenChip);
    assert_eq!(rotation.advance(Outcome::Succeeded), Action::GetPin { slot: 0, id: 2 });
}

#[test]
fn stages_follow_the_lifecycle() {
    let mut rotation = rotate(1, Direction::Forward, PINS);
    let mut seen = vec![rotation.stage()];
    loop {
        let action = rotation.advance(Outcome::Succeeded);
        if seen.last() != Some(&rotation.stage()) {
            seen.push(rotation.stage());
        }
        if let Action::Finish { .. } = action {
            break;
        }
    }
    assert_eq!(
        seen,
        vec![Stage::Idle, Stage::Acquiring, Stage::Running, Stage::Resetting, Stage::Done]
    );
}

#[test]
fn done_repeats_its_end() {
    let mut bench = Bench::new();
    let mut rotation = rotate(1, Direction::Forward, PINS);
    bench.drive(&mut rotation);
    assert_eq!(rotation.advance(Outcome::Failed), Action::Finish { result: Ok(()) });
    assert_eq!(rotation.advance(Outcome::Succeeded), Action::Finish { result: Ok(()) });
    assert_eq!(rotation.stage(), Stage::Done);
}

#[test]
fn pause_is_five_milliseconds() {
    assert_eq!(DELAY, 5);
}

#[test]
fn caller_supplied_pins_are_requested_in_order() {
    let mut bench = Bench::new();
    let mut rotation = rotate(0, Direction::Forward, [21, 20, 16, 12]);
    bench.drive(&mut rotation);
    assert_eq!(bench.requested, vec![(0, 21), (1, 20), (2, 16), (3, 12)]);
}
