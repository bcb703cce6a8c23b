//! The order and choice of board calls that one controller tick makes,
//! checked against a board that logs every call.

use std::cell::RefCell;
use std::rc::Rc;

use ja_2026::board_api::{BoardError, Io22d08Api};
use ja_2026::config::{DEBOUNCE_SAMPLES, INPUT_COUNT};
use ja_2026::wrapper::Io22d08Controller;

#[derive(Debug, Clone, Copy, PartialEq, Eq)]
enum Call {
    ReadInput(usize),
    ReadButton(usize),
    RelayOn(usize),
    RelayOff(usize),
    ShowDigit(usize, u8),
    Tick,
}

struct LogState {
    inputs: [bool; INPUT_COUNT],
    calls: Vec<Call>,
}

struct LoggingBoard {
    state: Rc<RefCell<LogState>>,
}

impl Io22d08Api for LoggingBoard {
    fn set_number(&mut self, _value: u16) {}

    fn show_digit(&mut self, position: usize, value: u8) -> Result<(), BoardError> {
        self.state.borrow_mut().calls.push(Call::ShowDigit(position, value));
        Ok(())
    }

    fn relay_on(&mut self, relay: usize) -> Result<(), BoardError> {
        self.state.borrow_mut().calls.push(Call::RelayOn(relay));
        Ok(())
    }

    fn relay_off(&mut self, relay: usize) -> Result<(), BoardError> {
        self.state.borrow_mut().calls.push(Call::RelayOff(relay));
        Ok(())
    }

    fn relay_toggle(&mut self, _relay: usize) -> Result<(), BoardError> {
        Ok(())
    }

    fn read_button(&mut self, button: usize) -> Result<bool, BoardError> {
        self.state.borrow_mut().calls.push(Call::ReadButton(button));
        Ok(false)
    }

    fn read_input(&mut self, input: usize) -> Result<bool, BoardError> {
        let mut state = self.state.borrow_mut();
        state.calls.push(Call::ReadInput(input));
        Ok(state.inputs[input])
    }

    fn tick(&mut self) -> Result<(), BoardError> {
        self.state.borrow_mut().calls.push(Call::Tick);
        Ok(())
    }
}

fn new_logged() -> (Io22d08Controller<LoggingBoard>, Rc<RefCell<LogState>>) {
    let state = Rc::new(RefCell::new(LogState {
        inputs: [false; INPUT_COUNT],
        calls: Vec::new(),
    }));
    let board = LoggingBoard {
        state: state.clone(),
    };
    (Io22d08Controller::new(board), state)
}

fn reads() -> Vec<Call> {
    let mut calls: Vec<Call> = (0..INPUT_COUNT).map(Call::ReadInput).collect();
    calls.extend((0..4).map(Call::ReadButton));
    calls
}

#[test]
fn first_tick_reads_everything_writes_the_display_then_ticks() {
    let (mut ctrl, state) = new_logged();
    ctrl.sync_tick().unwrap();

    let mut expected = reads();
    // All relays start off and were taken as off: no relay write.
    expected.extend([
        Call::ShowDigit(0, 0),
        Call::ShowDigit(1, 5),
        Call::ShowDigit(2, 0),
        Call::ShowDigit(3, 0),
        Call::Tick,
    ]);
    assert_eq!(state.borrow().calls, expected);
}

#[test]
fn an_unchanged_tick_only_reads_and_ticks() {
    let (mut ctrl, state) = new_logged();
    ctrl.sync_tick().unwrap();
    state.borrow_mut().calls.clear();

    ctrl.sync_tick().unwrap();
    let mut expected = reads();
    expected.push(Call::Tick);
    assert_eq!(state.borrow().calls, expected);
}

#[test]
fn an_accepted_press_writes_only_the_changed_relay_before_the_tick() {
    let (mut ctrl, state) = new_logged();
    ctrl.sync_tick().unwrap();
    state.borrow_mut().inputs[2] = true;
    for _ in 0..DEBOUNCE_SAMPLES - 1 {
        ctrl.sync_tick().unwrap();
    }
    state.borrow_mut().calls.clear();

    // This sample completes the debounce run of input 2.
    ctrl.sync_tick().unwrap();
    let calls = state.borrow().calls.clone();
    let writes: Vec<Call> = calls
        .iter()
        .copied()
        .filter(|c| matches!(c, Call::RelayOn(_) | Call::RelayOff(_)))
        .collect();
    assert_eq!(writes, vec![Call::RelayOn(2)]);
    assert_eq!(calls.last(), Some(&Call::Tick));
    let on_at = calls.iter().position(|c| *c == Call::RelayOn(2)).unwrap();
    assert!(on_at >= reads().len());
}
