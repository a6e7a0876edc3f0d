//! The half-step excitation sequence and its direction-aware traversal.

use vstd::prelude::*;

verus! {

/// Number of phases in one motor cycle.
pub const PHASES: u8 = 8;

/// Number of coil wires, and so of pins, that drive the motor.
pub const WIRES: u8 = 4;

/// The excitation pattern of each phase, one row per phase and one column
/// per coil wire. The rows are wired for clockwise rotation when walked from
/// the first to the last.
pub const SEQUENCE: [[u8; 4]; 8] = [
    [1, 0, 0, 0],
    [1, 1, 0, 0],
    [0, 1, 0, 0],
    [0, 1, 1, 0],
    [0, 0, 1, 0],
    [0, 0, 1, 1],
    [0, 0, 0, 1],
    [1, 0, 0, 1],
];

/// Sense of rotation: `Forward` is clockwise, `Backward` counterclockwise.
#[derive(Clone, Copy, Debug, PartialEq, Eq, Structural)]
pub enum Direction {
    Forward,
    Backward,
}

/// Electrical state of one output line.
#[derive(Clone, Copy, Debug, PartialEq, Eq, Structural)]
pub enum Level {
    Low,
    High,
}

/// The row of the sequence table that the phase `sequence_step` of a cycle
/// applies: the table is walked upward going forward, downward going
/// backward.
pub open spec fn phase_row(direction: Direction, sequence_step: int) -> int {
    match direction {
        Direction::Forward => sequence_step,
        Direction::Backward => 7 - sequence_step,
    }
}

/// The row applied by the `phase`-th phase of a rotation, counted from zero
/// over all its cycles.
pub open spec fn row_at(direction: Direction, phase: int) -> int {
    phase_row(direction, phase % 8)
}

/// The rows that one cycle applies, in order.
pub open spec fn cycle_rows(direction: Direction) -> Seq<int> {
    Seq::new(8, |sequence_step: int| phase_row(direction, sequence_step))
}

/// The rows that the first `count` phases of a rotation apply, in order.
pub open spec fn rows(direction: Direction, count: nat) -> Seq<int> {
    Seq::new(count, |phase: int| row_at(direction, phase))
}

/// The level that stands for a table entry: 1 is high, anything else low.
pub open spec fn level_of(value: u8) -> Level {
    if value == 1 {
        Level::High
    } else {
        Level::Low
    }
}

/// The level of coil wire `wire` while the table row `row` is applied.
pub open spec fn phase_level(row: int, wire: int) -> Level {
    level_of(SEQUENCE[row][wire])
}

/// The levels of the four wires while the table row `row` is applied.
pub open spec fn row_levels(row: int) -> Seq<Level> {
    Seq::new(4, |wire: int| phase_level(row, wire))
}

/// Maps a phase of a cycle to its table row for the given direction.
pub fn phase_index(direction: Direction, sequence_step: u8) -> (row: u8)
    requires
        sequence_step < PHASES,
    ensures
        row == phase_row(direction, sequence_step as int),
        row < PHASES,
{
    match direction {
        Direction::Forward => sequence_step,
        Direction::Backward => 7 - sequence_step,
    }
}

/// Turns a table entry into an output level.
pub fn u8_to_level(value: u8) -> (level: Level)
    ensures
        level == level_of(value),
{
    if value == 1 {
        Level::High
    } else {
        Level::Low
    }
}

/// Looks up the level of one wire in one row of the sequence table.
pub fn level_at(row: u8, wire: u8) -> (level: Level)
    requires
        row < PHASES,
        wire < WIRES,
    ensures
        level == phase_level(row as int, wire as int),
{
    let r: usize = row as usize;
    let w: usize = wire as usize;
    u8_to_level(SEQUENCE[r][w])
}

/// A forward cycle walks the table from its first row to its last, a
/// backward cycle from its last row to its first.
pub proof fn lemma_cycle_rows()
    ensures
        cycle_rows(Direction::Forward) == seq![0int, 1, 2, 3, 4, 5, 6, 7],
        cycle_rows(Direction::Backward) == seq![7int, 6, 5, 4, 3, 2, 1, 0],
{
    assert(cycle_rows(Direction::Forward) =~= seq![0int, 1, 2, 3, 4, 5, 6, 7]);
    assert(cycle_rows(Direction::Backward) =~= seq![7int, 6, 5, 4, 3, 2, 1, 0]);
}

/// Every phase applies a row of the table, and the next phase applies the
/// neighbouring row: one up going forward, one down going backward, with the
/// first and the last row as neighbours. So no row is skipped or applied
/// twice in a row, within a cycle or from one cycle to the next.
pub proof fn lemma_rows_adjacent(direction: Direction, phase: nat)
    ensures
        0 <= row_at(direction, phase as int) < 8,
        direction == Direction::Forward ==> row_at(direction, phase as int + 1) == (row_at(
            direction,
            phase as int,
        ) + 1) % 8,
        direction == Direction::Backward ==> row_at(direction, phase as int) == (row_at(
            direction,
            phase as int + 1,
        ) + 1) % 8,
{
}

/// A backward rotation applies the rows of the forward rotation of as many
/// cycles in the opposite order. It therefore ends on the row on which the
/// forward rotation began.
pub proof fn lemma_backward_retraces_forward(steps: nat)
    ensures
        rows(Direction::Backward, 8 * steps) == rows(Direction::Forward, 8 * steps).reverse(),
        steps > 0 ==> rows(Direction::Backward, 8 * steps).last() == rows(
            Direction::Forward,
            8 * steps,
        ).first(),
{
    let forward = rows(Direction::Forward, 8 * steps);
    let backward = rows(Direction::Backward, 8 * steps);
    assert forall|phase: int| 0 <= phase < 8 * steps implies backward[phase]
        == forward.reverse()[phase] by {
        assert((8 * steps - 1 - phase) % 8 == 7 - phase % 8);
    }
    assert(backward =~= forward.reverse());
}

} // verus!
