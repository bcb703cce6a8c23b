use ja_2026::board::{msb_first_bits, BoardError, Frame, Io22d08Registers};

#[test]
fn set_number_splits_into_decimal_digits() {
    let mut regs = Io22d08Registers::new();
    regs.set_number(1234);
    let f = regs.next_frame();
    // Position 1 shows digit 2 (segment code 0xa4).
    assert_eq!(f.display_h & 0b0100_0110, 0b0000_0010);
}

#[test]
fn next_frame_routes_segments_position_and_relays() {
    let mut regs = Io22d08Registers::new();
    regs.show_digit(1, 5).unwrap();
    regs.relay_on(0).unwrap();
    regs.relay_on(7).unwrap();
    let f = regs.next_frame();
    assert_eq!(f, Frame { display_h: 18, display_l: 34, relay_dat: 3 });
}

#[test]
fn next_frame_wraps_to_the_first_position() {
    let mut regs = Io22d08Registers::new();
    regs.set_number(1234);
    regs.relay_on(0).unwrap();
    regs.next_frame();
    regs.next_frame();
    regs.next_frame();
    let f = regs.next_frame();
    assert_eq!(f, Frame { display_h: 8, display_l: 126, relay_dat: 2 });
}

#[test]
fn show_digit_keeps_only_the_ones_digit() {
    let mut regs = Io22d08Registers::new();
    regs.show_digit(1, 15).unwrap();
    let f = regs.next_frame();
    assert_eq!(f, Frame { display_h: 18, display_l: 34, relay_dat: 0 });
}

#[test]
fn out_of_range_indices_are_refused() {
    let mut regs = Io22d08Registers::new();
    assert_eq!(regs.show_digit(4, 1), Err(BoardError::InvalidDigitIndex));
    assert_eq!(regs.relay_on(8), Err(BoardError::InvalidRelayIndex));
    assert_eq!(regs.relay_off(9), Err(BoardError::InvalidRelayIndex));
    assert_eq!(regs.relay_toggle(100), Err(BoardError::InvalidRelayIndex));
}

#[test]
fn toggling_twice_restores_the_port_and_off_clears_it() {
    let mut regs = Io22d08Registers::new();
    regs.relay_on(3).unwrap();
    regs.relay_toggle(5).unwrap();
    regs.relay_toggle(5).unwrap();
    regs.relay_off(3).unwrap();
    assert_eq!(regs.next_frame().relay_dat, 0);
}

#[test]
fn bits_are_listed_most_significant_first() {
    assert_eq!(
        msb_first_bits(0b1010_0001),
        [true, false, true, false, false, false, false, true]
    );
}
