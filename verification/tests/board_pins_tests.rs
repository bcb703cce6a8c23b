//! The library's IO22D08 board driven through recorded pins.

use std::cell::RefCell;
use std::rc::Rc;

use ja_2026::board::{BoardError, BoardPins, Io22d08Api, Io22d08Board};

#[derive(Debug, Clone, Copy, PartialEq, Eq)]
enum Pin {
    Data(bool),
    Clock(bool),
    Latch(bool),
    Enable,
}

#[derive(Default)]
struct PinState {
    button_levels: [bool; 4],
    input_levels: [bool; 8],
    writes: Vec<Pin>,
    fail_latch: bool,
}

struct RecordedPins {
    state: Rc<RefCell<PinState>>,
}

impl BoardPins for RecordedPins {
    fn button_high(&mut self, button: usize) -> Result<bool, BoardError> {
        Ok(self.state.borrow().button_levels[button])
    }

    fn input_high(&mut self, input: usize) -> Result<bool, BoardError> {
        Ok(self.state.borrow().input_levels[input])
    }

    fn enable_outputs(&mut self) -> Result<(), BoardError> {
        self.state.borrow_mut().writes.push(Pin::Enable);
        Ok(())
    }

    fn set_data(&mut self, high: bool) -> Result<(), BoardError> {
        self.state.borrow_mut().writes.push(Pin::Data(high));
        Ok(())
    }

    fn set_clock(&mut self, high: bool) -> Result<(), BoardError> {
        self.state.borrow_mut().writes.push(Pin::Clock(high));
        Ok(())
    }

    fn set_latch(&mut self, high: bool) -> Result<(), BoardError> {
        let mut state = self.state.borrow_mut();
        if state.fail_latch {
            return Err(BoardError::Pin);
        }
        state.writes.push(Pin::Latch(high));
        Ok(())
    }
}

fn new_board() -> (Io22d08Board<RecordedPins>, Rc<RefCell<PinState>>) {
    let state = Rc::new(RefCell::new(PinState {
        button_levels: [true; 4],
        input_levels: [true; 8],
        ..PinState::default()
    }));
    let board = Io22d08Board::new(RecordedPins {
        state: state.clone(),
    });
    (board, state)
}

/// The bytes clocked out between the latch going low and high again.
fn shifted_bytes(writes: &[Pin]) -> Vec<u8> {
    let mut bytes = Vec::new();
    let mut current: u8 = 0;
    let mut count = 0;
    let mut data = false;
    for w in writes {
        match w {
            Pin::Data(d) => data = *d,
            Pin::Clock(true) => {
                current = (current << 1) | (data as u8);
                count += 1;
                if count == 8 {
                    bytes.push(current);
                    current = 0;
                    count = 0;
                }
            }
            _ => {}
        }
    }
    bytes
}

#[test]
fn new_sets_up_the_shift_register_lines_then_enables_outputs() {
    let (_board, state) = new_board();
    assert_eq!(
        state.borrow().writes,
        vec![Pin::Data(false), Pin::Latch(true), Pin::Clock(false), Pin::Enable]
    );
}

#[test]
fn buttons_and_inputs_are_active_low() {
    let (mut board, state) = new_board();
    assert_eq!(board.read_button(2), Ok(false));
    assert_eq!(board.read_input(5), Ok(false));
    state.borrow_mut().button_levels[2] = false;
    state.borrow_mut().input_levels[5] = false;
    assert_eq!(board.read_button(2), Ok(true));
    assert_eq!(board.read_input(5), Ok(true));
}

#[test]
fn board_refuses_out_of_range_indices() {
    let (mut board, _state) = new_board();
    assert_eq!(board.read_button(4), Err(BoardError::InvalidButtonIndex));
    assert_eq!(board.read_input(8), Err(BoardError::InvalidInputIndex));
    assert_eq!(board.relay_on(8), Err(BoardError::InvalidRelayIndex));
    assert_eq!(board.show_digit(4, 1), Err(BoardError::InvalidDigitIndex));
}

#[test]
fn tick_latches_three_bytes_with_the_relay_port_last() {
    let (mut board, state) = new_board();
    board.relay_on(0).unwrap();
    board.relay_on(7).unwrap();
    state.borrow_mut().writes.clear();

    board.tick().unwrap();
    let writes = state.borrow().writes.clone();
    assert_eq!(writes.first(), Some(&Pin::Latch(false)));
    assert_eq!(writes.last(), Some(&Pin::Latch(true)));
    let bytes = shifted_bytes(&writes);
    assert_eq!(bytes.len(), 3);
    // Port 0b1000_0001 is wired as ((port & 0x7f) << 1) | (port >> 7).
    assert_eq!(bytes[2], 0b0000_0011);
}

#[test]
fn a_failed_pin_write_fails_the_tick() {
    let (mut board, state) = new_board();
    state.borrow_mut().fail_latch = true;
    assert_eq!(board.tick(), Err(BoardError::Pin));
}
