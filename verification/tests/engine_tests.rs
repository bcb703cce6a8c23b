use ja_2026::board_api::{BoardError, Io22d08Api};
use ja_2026::config::RELAY_COUNT;
use ja_2026::engine::{
    BoardIo, Display, Engine, EngineConfig, InputMode, Snapshot, TickCommand, INPUTS,
};

#[derive(Default)]
struct Fake {
    buttons: [bool; 4],
    inputs: [bool; 8],
    relays: [bool; RELAY_COUNT],
    digits: [u8; 4],
    ticks: u32,
    fail_reads: bool,
}

impl Io22d08Api for Fake {
    fn set_number(&mut self, _value: u16) {}
    fn show_digit(&mut self, position: usize, value: u8) -> Result<(), BoardError> {
        self.digits[position] = value;
        Ok(())
    }
    fn relay_on(&mut self, relay: usize) -> Result<(), BoardError> {
        self.relays[relay] = true;
        Ok(())
    }
    fn relay_off(&mut self, relay: usize) -> Result<(), BoardError> {
        self.relays[relay] = false;
        Ok(())
    }
    fn relay_toggle(&mut self, relay: usize) -> Result<(), BoardError> {
        self.relays[relay] = !self.relays[relay];
        Ok(())
    }
    fn read_button(&mut self, button: usize) -> Result<bool, BoardError> {
        if self.fail_reads {
            return Err(BoardError::InvalidButtonIndex);
        }
        Ok(self.buttons[button])
    }
    fn read_input(&mut self, input: usize) -> Result<bool, BoardError> {
        Ok(self.inputs[input])
    }
    fn tick(&mut self) -> Result<(), BoardError> {
        self.ticks += 1;
        Ok(())
    }
}

#[test]
fn display_from_number_keeps_the_four_lowest_places() {
    let d: Display = 12345u16.into();
    assert_eq!(d.0, [2, 3, 4, 5]);
    let d = Display::from(7u16);
    assert_eq!(d.0, [0, 0, 0, 7]);
    let digits: [u8; 4] = Display::from([9, 8, 7, 6]).into();
    assert_eq!(digits, [9, 8, 7, 6]);
}

#[test]
fn logical_inputs_read_buttons_then_external_inputs() {
    let mut board = Fake::default();
    board.buttons[1] = true;
    board.inputs[0] = true;
    assert_eq!(board.read_input_raw(1), Ok(true));
    assert_eq!(board.read_input_raw(4), Ok(true));
    assert_eq!(board.read_input_raw(5), Ok(false));
    assert_eq!(board.read_input_raw(INPUTS), Err(BoardError::InvalidInputIndex));
}

#[test]
fn tick_adopts_the_command_and_pushes_it_to_the_board() {
    let mut engine = Engine::new(EngineConfig::default());
    let mut board = Fake::default();
    board.inputs[2] = true;
    let mut command = TickCommand::default();
    command.relay_state[3] = true;
    command.display = Display::from(42u16);
    let snap = engine.tick(&mut board, command).unwrap();
    assert_eq!(snap.tick, 1);
    assert!(snap.input_state[4 + 2]);
    assert!(!snap.input_state[0]);
    assert_eq!(snap.relay_state, command.relay_state);
    assert_eq!(board.relays, command.relay_state);
    assert_eq!(board.digits, [0, 0, 4, 2]);
    assert_eq!(board.ticks, 1);
    assert_eq!(engine.prev.tick, 0);
}

#[test]
fn rising_edge_toggle_flips_once_per_press() {
    let mut cfg = EngineConfig::default();
    cfg.input_modes[0] = InputMode::RisingEdgeToggle;
    cfg.input_modes[1] = InputMode::FallingEdgeToggle;
    let mut engine = Engine::new(cfg);
    let mut board = Fake::default();
    let levels = [true, true, false, true, false];
    let expected_rising = [true, true, true, false, false];
    let expected_falling = [false, false, true, true, false];
    for (k, &level) in levels.iter().enumerate() {
        board.buttons[0] = level;
        board.buttons[1] = level;
        let snap = engine.tick(&mut board, TickCommand::default()).unwrap();
        assert_eq!(snap.input_state[0], expected_rising[k], "rising step {}", k);
        assert_eq!(snap.input_state[1], expected_falling[k], "falling step {}", k);
    }
}

#[test]
fn tick_counter_wraps() {
    let mut engine = Engine::new(EngineConfig::default());
    engine.cur.tick = u32::MAX;
    let mut board = Fake::default();
    let snap = engine.tick(&mut board, TickCommand::default()).unwrap();
    assert_eq!(snap.tick, 0);
}

#[test]
fn a_read_error_stops_the_tick() {
    let mut engine = Engine::new(EngineConfig::default());
    let mut board = Fake::default();
    board.fail_reads = true;
    let r = engine.tick(&mut board, TickCommand::default());
    assert_eq!(r.err(), Some(BoardError::InvalidButtonIndex));
    assert_eq!(board.ticks, 0);
}

#[test]
fn identity_command_keeps_the_snapshot_outputs() {
    let mut snap = Snapshot::default();
    snap.relay_state[5] = true;
    snap.display = Display::from(99u16);
    let c = snap.identity_command();
    assert_eq!(c.relay_state, snap.relay_state);
    assert_eq!(c.display.0, [0, 0, 9, 9]);
}
