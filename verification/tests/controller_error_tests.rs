use ja_2026::board_api::{BoardError, Io22d08Api};
use ja_2026::wrapper::Io22d08Controller;

struct Failing {
    fail_input: bool,
    fail_relay: bool,
    ticks: u32,
}

impl Io22d08Api for Failing {
    fn set_number(&mut self, _value: u16) {}
    fn show_digit(&mut self, _position: usize, _value: u8) -> Result<(), BoardError> {
        Err(BoardError::InvalidDigitIndex)
    }
    fn relay_on(&mut self, _relay: usize) -> Result<(), BoardError> {
        if self.fail_relay {
            Err(BoardError::InvalidRelayIndex)
        } else {
            Ok(())
        }
    }
    fn relay_off(&mut self, _relay: usize) -> Result<(), BoardError> {
        Ok(())
    }
    fn relay_toggle(&mut self, _relay: usize) -> Result<(), BoardError> {
        Ok(())
    }
    fn read_button(&mut self, _button: usize) -> Result<bool, BoardError> {
        Ok(false)
    }
    fn read_input(&mut self, _input: usize) -> Result<bool, BoardError> {
        if self.fail_input {
            Err(BoardError::Pin)
        } else {
            Ok(true)
        }
    }
    fn tick(&mut self) -> Result<(), BoardError> {
        self.ticks += 1;
        Ok(())
    }
}

#[test]
fn a_failed_input_read_is_returned() {
    let mut ctrl = Io22d08Controller::new(Failing { fail_input: true, fail_relay: false, ticks: 0 });
    assert_eq!(ctrl.sync_tick(), Err(BoardError::Pin));
}

#[test]
fn a_failed_display_write_is_returned() {
    let mut ctrl = Io22d08Controller::new(Failing { fail_input: false, fail_relay: false, ticks: 0 });
    assert_eq!(ctrl.sync_tick(), Err(BoardError::InvalidDigitIndex));
}

#[test]
fn a_failed_relay_write_is_returned() {
    let mut ctrl = Io22d08Controller::new(Failing { fail_input: false, fail_relay: true, ticks: 0 });
    // All inputs held: after the debounce window, I5 (global) turns every relay on.
    let mut result = Ok(());
    for _ in 0..10 {
        result = ctrl.sync_tick();
        if result == Err(BoardError::InvalidRelayIndex) {
            break;
        }
    }
    assert_eq!(result, Err(BoardError::InvalidRelayIndex));
}
