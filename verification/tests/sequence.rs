use rust_gpio::sequence::{level_at, phase_index, u8_to_level, Direction, Level, SEQUENCE};

#[test]
fn forward_walks_the_table_upward() {
    let rows: Vec<u8> = (0..8).map(|step| phase_index(Direction::Forward, step)).collect();
    assert_eq!(rows, vec![0, 1, 2, 3, 4, 5, 6, 7]);
}

#[test]
fn backward_walks_the_table_downward() {
    let rows: Vec<u8> = (0..8).map(|step| phase_index(Direction::Backward, step)).collect();
    assert_eq!(rows, vec![7, 6, 5, 4, 3, 2, 1, 0]);
}

#[test]
fn consecutive_cycles_join_on_neighbouring_rows() {
    let last_forward = phase_index(Direction::Forward, 7);
    let first_forward = phase_index(Direction::Forward, 0);
    assert_eq!((last_forward + 1) % 8, first_forward);
    let last_backward = phase_index(Direction::Backward, 7);
    let first_backward = phase_index(Direction::Backward, 0);
    assert_eq!((first_backward + 1) % 8, last_backward);
}

#[test]
fn only_one_is_high() {
    assert_eq!(u8_to_level(0), Level::Low);
    assert_eq!(u8_to_level(1), Level::High);
    assert_eq!(u8_to_level(2), Level::Low);
    assert_eq!(u8_to_level(255), Level::Low);
}

#[test]
fn table_has_the_half_step_patterns() {
    assert_eq!(
        SEQUENCE,
        [
            [1, 0, 0, 0],
            [1, 1, 0, 0],
            [0, 1, 0, 0],
            [0, 1, 1, 0],
            [0, 0, 1, 0],
            [0, 0, 1, 1],
            [0, 0, 0, 1],
            [1, 0, 0, 1],
        ]
    );
}

#[test]
fn neighbouring_rows_differ_in_one_wire() {
    for row in 0..8usize {
        let next = (row + 1) % 8;
        let changed = (0..4).filter(|&wire| SEQUENCE[row][wire] != SEQUENCE[next][wire]).count();
        assert_eq!(changed, 1);
    }
}

#[test]
fn levels_follow_the_table() {
    for row in 0..8u8 {
        for wire in 0..4u8 {
            let expected = if SEQUENCE[usize::from(row)][usize::from(wire)] == 1 {
                Level::High
            } else {
                Level::Low
            };
            assert_eq!(level_at(row, wire), expected);
        }
    }
    assert_eq!(level_at(0, 0), Level::High);
    assert_eq!(level_at(0, 3), Level::Low);
    assert_eq!(level_at(7, 3), Level::High);
    assert_eq!(level_at(7, 0), Level::High);
    assert_eq!(level_at(7, 1), Level::Low);
}
