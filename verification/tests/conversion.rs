use rust_gpio::convert::degrees_to_cycles;

#[test]
fn zero_degrees_is_no_cycle() {
    assert_eq!(degrees_to_cycles(0), 0);
}

#[test]
fn one_degree_is_one_cycle() {
    assert_eq!(degrees_to_cycles(1), 1);
}

#[test]
fn quarter_turns_are_exact() {
    assert_eq!(degrees_to_cycles(90), 128);
    assert_eq!(degrees_to_cycles(180), 256);
    assert_eq!(degrees_to_cycles(270), 384);
    assert_eq!(degrees_to_cycles(360), 512);
}

#[test]
fn other_angles_use_the_same_ratio() {
    assert_eq!(degrees_to_cycles(45), 64);
    assert_eq!(degrees_to_cycles(100), 142);
    assert_eq!(degrees_to_cycles(359), 510);
    assert_eq!(degrees_to_cycles(361), 513);
}

#[test]
fn partial_cycles_are_dropped() {
    assert_eq!(degrees_to_cycles(2), 2);
    assert_eq!(degrees_to_cycles(3), 4);
    assert_eq!(degrees_to_cycles(44), 62);
    assert_eq!(degrees_to_cycles(46), 65);
}

#[test]
fn ten_turns() {
    assert_eq!(degrees_to_cycles(3600), 5120);
}

#[test]
fn angles_past_the_sixteen_bit_product_do_not_wrap() {
    assert_eq!(degrees_to_cycles(1024), 1456);
    assert_eq!(degrees_to_cycles(u16::MAX), 93205);
}

#[test]
fn every_angle_matches_the_full_ratio() {
    let mut degrees: u16 = 0;
    loop {
        assert_eq!(u64::from(degrees_to_cycles(degrees)), u64::from(degrees) * 512 / 360);
        if degrees == u16::MAX {
            break;
        }
        degrees += 1;
    }
}
