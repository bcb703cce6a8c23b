//! Tick engine: turns raw board inputs into logical input states through
//! per-input modes, accepts the output targets computed by the caller, and
//! pushes them to the board.
use vstd::prelude::*;

use crate::board_api::{
    digit_calls, lemma_ran_extend, lemma_ran_next, lemma_ran_nothing, lemma_ran_one, outcome,
    relay_calls, ran, BoardCall, BoardError, BoardEvent, Io22d08Api,
};
use crate::config::{BUTTON_COUNT, DIGIT_COUNT, INPUT_COUNT, RELAY_COUNT};

verus! {

/// Number of logical inputs: the buttons followed by the external inputs.
pub const INPUTS: usize = BUTTON_COUNT + INPUT_COUNT;

/// The four display digits, left to right.
#[derive(Copy, Clone)]
pub struct Display(pub [u8; DIGIT_COUNT]);

impl Default for Display {
    fn default() -> (d: Self)
        ensures
            forall|i: int| 0 <= i < DIGIT_COUNT ==> #[trigger] d.0@[i] == 0,
    {
        Display([0;DIGIT_COUNT])
    }
}

impl From<[u8; DIGIT_COUNT]> for Display {
    fn from(value: [u8; DIGIT_COUNT]) -> (d: Self) {
        Self(value)
    }
}

impl vstd::std_specs::convert::FromSpecImpl<[u8; DIGIT_COUNT]> for Display {
    open spec fn obeys_from_spec() -> bool {
        true
    }

    open spec fn from_spec(value: [u8; DIGIT_COUNT]) -> Self {
        Display(value)
    }
}

/// Decimal digit `k` (0 = thousands .. 3 = ones) of `value`, keeping only the
/// four lowest decimal places.
pub open spec fn low_decimal_digit(value: u16, k: int) -> u8 {
    if k == 0 {
        ((value / 1000) % 10) as u8
    } else if k == 1 {
        ((value / 100) % 10) as u8
    } else if k == 2 {
        ((value / 10) % 10) as u8
    } else {
        (value % 10) as u8
    }
}

/// The four lowest decimal places of `value`, left to right.
pub open spec fn low_decimal_digits(value: u16) -> [u8; DIGIT_COUNT] {
    [
        low_decimal_digit(value, 0),
        low_decimal_digit(value, 1),
        low_decimal_digit(value, 2),
        low_decimal_digit(value, 3),
    ]
}

impl From<u16> for Display {
    fn from(value: u16) -> (d: Self) {
        let ghost v0 = value;
        let mut value = value;
        let mut digits = [0u8;DIGIT_COUNT];
        let mut idx: usize = DIGIT_COUNT;
        while idx > 0
            invariant
                0 <= idx <= DIGIT_COUNT,
                idx == 4 ==> value == v0,
                idx == 3 ==> value == v0 / 10,
                idx == 2 ==> value == v0 / 100,
                idx == 1 ==> value == v0 / 1000,
                forall|k: int| idx <= k < DIGIT_COUNT ==> #[trigger] digits@[k] == low_decimal_digit(v0, k),
            decreases idx,
        {
            idx = idx - 1;
            digits[idx] = (value % 10) as u8;
            value = value / 10;
        }
        assert(digits =~= low_decimal_digits(v0));
        Self(digits)
    }
}

impl vstd::std_specs::convert::FromSpecImpl<u16> for Display {
    open spec fn obeys_from_spec() -> bool {
        true
    }

    open spec fn from_spec(value: u16) -> Self {
        Display(low_decimal_digits(value))
    }
}

impl From<Display> for [u8; DIGIT_COUNT] {
    fn from(value: Display) -> (d: Self) {
        value.0
    }
}

impl vstd::std_specs::convert::FromSpecImpl<Display> for [u8; DIGIT_COUNT] {
    open spec fn obeys_from_spec() -> bool {
        true
    }

    open spec fn from_spec(value: Display) -> Self {
        value.0
    }
}

/// The outputs that the caller wants this tick: relay states and display.
#[derive(Copy, Clone)]
pub struct TickCommand {
    pub relay_state: [bool; RELAY_COUNT],
    pub display: Display,
}

impl Default for TickCommand {
    fn default() -> (c: Self)
        ensures
            forall|i: int| 0 <= i < RELAY_COUNT ==> !#[trigger] c.relay_state@[i],
            forall|i: int| 0 <= i < DIGIT_COUNT ==> #[trigger] c.display.0@[i] == 0,
    {
        TickCommand { relay_state: [false;RELAY_COUNT], display: Display::default() }
    }
}

/// What the engine observed and commanded on one tick.
#[derive(Copy, Clone)]
pub struct Snapshot {
    pub tick: u32,
    pub input_state: [bool; INPUTS],
    pub relay_state: [bool; RELAY_COUNT],
    pub display: Display,
}

impl Default for Snapshot {
    fn default() -> (s: Self)
        ensures
            s.tick == 0,
            forall|i: int| 0 <= i < INPUTS ==> !#[trigger] s.input_state@[i],
            forall|i: int| 0 <= i < RELAY_COUNT ==> !#[trigger] s.relay_state@[i],
            forall|i: int| 0 <= i < DIGIT_COUNT ==> #[trigger] s.display.0@[i] == 0,
    {
        Snapshot {
            tick: 0,
            input_state: [false;INPUTS],
            relay_state: [false;RELAY_COUNT],
            display: Display::default(),
        }
    }
}

impl Snapshot {
    /// A command that keeps the outputs of this snapshot.
    pub fn identity_command(&self) -> (c: TickCommand)
        ensures
            c.relay_state == self.relay_state,
            c.display == self.display,
    {
        TickCommand { relay_state: self.relay_state, display: self.display }
    }
}

/// How a raw input becomes a logical input.
#[derive(Copy, Clone, PartialEq, Eq, Structural)]
pub enum InputMode {
    /// The logical state follows the raw level.
    Momentary,
    /// The logical state toggles on each rising raw edge.
    RisingEdgeToggle,
    /// The logical state toggles on each falling raw edge.
    FallingEdgeToggle,
}

/// Per-input configuration of the engine.
#[derive(Copy, Clone)]
pub struct EngineConfig {
    pub input_modes: [InputMode; INPUTS],
}

impl Default for EngineConfig {
    fn default() -> (c: Self)
        ensures
            forall|i: int| 0 <= i < INPUTS ==> #[trigger] c.input_modes@[i] == InputMode::Momentary,
    {
        Self { input_modes: [InputMode::Momentary;INPUTS] }
    }
}

/// Per-input memory: the last raw level and the logical state.
#[derive(Copy, Clone)]
pub struct InputLocal {
    pub last_raw: bool,
    pub logical: bool,
}

impl Default for InputLocal {
    fn default() -> (l: Self)
        ensures
            !l.last_raw,
            !l.logical,
    {
        InputLocal { last_raw: false, logical: false }
    }
}

/// An input after one raw sample under `mode`.
pub open spec fn input_step(mode: InputMode, local: InputLocal, raw: bool) -> InputLocal {
    InputLocal {
        last_raw: raw,
        logical: match mode {
            InputMode::Momentary => raw,
            InputMode::RisingEdgeToggle => if raw && !local.last_raw {
                !local.logical
            } else {
                local.logical
            },
            InputMode::FallingEdgeToggle => if !raw && local.last_raw {
                !local.logical
            } else {
                local.logical
            },
        },
    }
}

/// Input modes: a momentary input follows the raw level; a toggle input
/// flips its logical state exactly on its edge (rising or falling), so a held
/// level never flips it again.
pub proof fn lemma_input_modes(local: InputLocal, raw: bool)
    ensures
        input_step(InputMode::Momentary, local, raw).logical == raw,
        (input_step(InputMode::RisingEdgeToggle, local, raw).logical != local.logical) == (raw
            && !local.last_raw),
        (input_step(InputMode::FallingEdgeToggle, local, raw).logical != local.logical) == (!raw
            && local.last_raw),
        input_step(InputMode::RisingEdgeToggle, input_step(InputMode::RisingEdgeToggle, local, raw), raw).logical
            == input_step(InputMode::RisingEdgeToggle, local, raw).logical,
{
}

/// An input took one step by its mode on the raw level it remembers, and the
/// snapshot shows its new logical state.
pub open spec fn input_stepped(mode: InputMode, before: InputLocal, after: InputLocal, state: bool) -> bool {
    after == input_step(mode, before, after.last_raw) && state == after.logical
}

/// The first `k` inputs took their step and the others are untouched: their
/// memory and snapshot state are those of `before_local` and `before_state`.
pub open spec fn stepped_upto(
    modes: Seq<InputMode>,
    before_local: Seq<InputLocal>,
    before_state: Seq<bool>,
    after_local: Seq<InputLocal>,
    after_state: Seq<bool>,
    k: int,
) -> bool {
    &&& 0 <= k <= INPUTS
    &&& forall|i: int|
        0 <= i < k ==> input_stepped(modes[i], before_local[i], #[trigger] after_local[i], after_state[i])
    &&& forall|i: int|
        k <= i < INPUTS ==> #[trigger] after_local[i] == before_local[i] && after_state[i]
            == before_state[i]
}

/// The board call that reads logical input `idx`: buttons first, then the
/// external inputs.
pub open spec fn raw_read_call(idx: int) -> BoardCall {
    if idx < BUTTON_COUNT {
        BoardCall::ReadButton(idx as usize)
    } else {
        BoardCall::ReadInput((idx - BUTTON_COUNT) as usize)
    }
}

/// The board calls of one engine tick, in order: every logical input read,
/// every relay driven to its commanded state, every digit shown, and one
/// refresh.
pub open spec fn engine_calls(command: TickCommand) -> Seq<BoardCall> {
    Seq::new(INPUTS as nat, |i: int| raw_read_call(i)) + relay_calls(command.relay_state@)
        + digit_calls(command.display.0@) + seq![BoardCall::Tick]
}

/// The subset of the board API that the engine uses, described by the same
/// kind of record as [`Io22d08Api`]: what was last written to each relay and
/// display position, how often the board was refreshed, and the level each
/// logical input last read (buttons first, then the external inputs).
pub trait BoardIo: Sized {
    /// Every board call made so far, in order, with its outcome.
    spec fn board_log(&self) -> Seq<BoardEvent>;

    /// The state last written to relay `relay`.
    spec fn written_relay(&self, relay: int) -> bool;

    /// The digit last written at display position `position`.
    spec fn written_digit(&self, position: int) -> u8;

    /// The relay states the last refresh latched.
    spec fn latched_relay(&self, relay: int) -> bool;

    /// How often the board has been refreshed.
    spec fn refreshes(&self) -> nat;

    /// The level that logical input `idx` last read.
    spec fn last_read(&self, idx: int) -> bool;

    /// Read logical input `idx`: buttons first, then the external inputs.
    fn read_input_raw(&mut self, idx: usize) -> (r: Result<bool, BoardError>)
        ensures
            idx < INPUTS ==> ran(
                old(self).board_log(),
                final(self).board_log(),
                seq![raw_read_call(idx as int)],
                outcome(r),
            ),
            idx >= INPUTS ==> r == Err::<bool, BoardError>(BoardError::InvalidInputIndex)
                && *final(self) == *old(self),
            r matches Ok(v) ==> final(self).last_read(idx as int) == v,
            r is Ok ==> forall|k: int|
                k != idx ==> #[trigger] final(self).last_read(k) == old(self).last_read(k),
            r is Ok ==> (forall|i: int| #[trigger] final(self).written_relay(i) == old(self).written_relay(i)) && (forall|p: int| #[trigger] final(self).written_digit(p) == old(self).written_digit(p)) && final(self).refreshes() == old(self).refreshes() && (forall|l: int| #[trigger] final(self).latched_relay(l) == old(self).latched_relay(l)),
    ;

    /// Drive every relay to its target state.
    fn write_relays(&mut self, relays: [bool; RELAY_COUNT]) -> (r: Result<(), BoardError>)
        ensures
            ran(old(self).board_log(), final(self).board_log(), relay_calls(relays@), outcome(r)),
            r is Ok ==> forall|i: int|
                #[trigger] final(self).written_relay(i) == (if 0 <= i < RELAY_COUNT {
                    relays@[i]
                } else {
                    old(self).written_relay(i)
                }),
            r is Ok ==> (forall|p: int| #[trigger] final(self).written_digit(p) == old(self).written_digit(p)) && final(self).refreshes() == old(self).refreshes() && (forall|k: int| #[trigger] final(self).last_read(k) == old(self).last_read(k)) && (forall|l: int| #[trigger] final(self).latched_relay(l) == old(self).latched_relay(l)),
    ;

    /// Show the four digits.
    fn write_display(&mut self, digits: [u8; DIGIT_COUNT]) -> (r: Result<(), BoardError>)
        ensures
            ran(old(self).board_log(), final(self).board_log(), digit_calls(digits@), outcome(r)),
            r is Ok ==> forall|p: int|
                #[trigger] final(self).written_digit(p) == (if 0 <= p < DIGIT_COUNT {
                    digits@[p]
                } else {
                    old(self).written_digit(p)
                }),
            r is Ok ==> (forall|i: int| #[trigger] final(self).written_relay(i) == old(self).written_relay(i)) && final(self).refreshes() == old(self).refreshes() && (forall|k: int| #[trigger] final(self).last_read(k) == old(self).last_read(k)) && (forall|l: int| #[trigger] final(self).latched_relay(l) == old(self).latched_relay(l)),
    ;

    /// Keep the display multiplex refreshed.
    fn refresh_tick(&mut self) -> (r: Result<(), BoardError>)
        ensures
            ran(old(self).board_log(), final(self).board_log(), seq![BoardCall::Tick], outcome(r)),
            r is Ok ==> final(self).refreshes() == old(self).refreshes() + 1,
            r is Ok ==> forall|i: int| #[trigger] final(self).latched_relay(i) == old(self).written_relay(i),
            r is Ok ==> (forall|i: int| #[trigger] final(self).written_relay(i) == old(self).written_relay(i)) && (forall|p: int| #[trigger] final(self).written_digit(p) == old(self).written_digit(p)) && (forall|k: int| #[trigger] final(self).last_read(k) == old(self).last_read(k)),
    ;
}

impl<T> BoardIo for T where T: Io22d08Api {
    open spec fn board_log(&self) -> Seq<BoardEvent> {
        self.log()
    }

    open spec fn written_relay(&self, relay: int) -> bool {
        self.relay_state(relay)
    }

    open spec fn written_digit(&self, position: int) -> u8 {
        self.digit_at(position)
    }

    open spec fn latched_relay(&self, relay: int) -> bool {
        Io22d08Api::latched_relay(self, relay)
    }

    open spec fn refreshes(&self) -> nat {
        self.tick_count()
    }

    open spec fn last_read(&self, idx: int) -> bool {
        if idx < BUTTON_COUNT {
            self.last_button(idx)
        } else {
            self.last_input(idx - BUTTON_COUNT)
        }
    }

    fn read_input_raw(&mut self, idx: usize) -> (r: Result<bool, BoardError>) {
        if idx < BUTTON_COUNT {
            let r = self.read_button(idx);
            proof {
                lemma_ran_one(old(self).log(), BoardCall::ReadButton(idx), outcome(r));
            }
            r
        } else if idx < INPUTS {
            let r = self.read_input(idx - BUTTON_COUNT);
            proof {
                lemma_ran_one(old(self).log(), BoardCall::ReadInput((idx - BUTTON_COUNT) as usize), outcome(r));
            }
            r
        } else {
            Err(BoardError::InvalidInputIndex)
        }
    }

    fn write_relays(&mut self, relays: [bool; RELAY_COUNT]) -> (r: Result<(), BoardError>) {
        let ghost calls = relay_calls(relays@);
        proof {
            lemma_ran_nothing(old(self).log(), calls);
        }
        let mut idx: usize = 0;
        while idx < RELAY_COUNT
            invariant
                0 <= idx <= RELAY_COUNT,
                calls == relay_calls(relays@),
                ran(old(self).log(), self.log(), calls.take(idx as int), None),
                forall|i: int|
                    #[trigger] self.relay_state(i) == (if 0 <= i < idx {
                        relays@[i]
                    } else {
                        old(self).relay_state(i)
                    }),
                forall|p: int| #[trigger] self.digit_at(p) == old(self).digit_at(p),
                forall|l: int| #[trigger] Io22d08Api::latched_relay(self, l) == Io22d08Api::latched_relay(old(self), l),
                self.tick_count() == old(self).tick_count(),
                forall|i: int| #[trigger] self.last_input(i) == old(self).last_input(i),
                forall|b: int| #[trigger] self.last_button(b) == old(self).last_button(b),
            decreases RELAY_COUNT - idx,
        {
            let ghost cur = self.log();
            let written = if relays[idx] {
                self.relay_on(idx)
            } else {
                self.relay_off(idx)
            };
            proof {
                lemma_ran_next(old(self).log(), cur, calls, idx as int, outcome(written));
            }
            match written {
                Ok(()) => {},
                Err(e) => {
                    return Err(e);
                },
            }
            idx = idx + 1;
        }
        assert(calls.take(RELAY_COUNT as int) =~= calls);
        Ok(())
    }

    fn write_display(&mut self, digits: [u8; DIGIT_COUNT]) -> (r: Result<(), BoardError>) {
        let ghost calls = digit_calls(digits@);
        proof {
            lemma_ran_nothing(old(self).log(), calls);
        }
        let mut idx: usize = 0;
        while idx < DIGIT_COUNT
            invariant
                0 <= idx <= DIGIT_COUNT,
                calls == digit_calls(digits@),
                ran(old(self).log(), self.log(), calls.take(idx as int), None),
                forall|p: int|
                    #[trigger] self.digit_at(p) == (if 0 <= p < idx {
                        digits@[p]
                    } else {
                        old(self).digit_at(p)
                    }),
                forall|i: int| #[trigger] self.relay_state(i) == old(self).relay_state(i),
                forall|l: int| #[trigger] Io22d08Api::latched_relay(self, l) == Io22d08Api::latched_relay(old(self), l),
                self.tick_count() == old(self).tick_count(),
                forall|i: int| #[trigger] self.last_input(i) == old(self).last_input(i),
                forall|b: int| #[trigger] self.last_button(b) == old(self).last_button(b),
            decreases DIGIT_COUNT - idx,
        {
            let ghost cur = self.log();
            let shown = self.show_digit(idx, digits[idx]);
            proof {
                lemma_ran_next(old(self).log(), cur, calls, idx as int, outcome(shown));
            }
            match shown {
                Ok(()) => {},
                Err(e) => {
                    return Err(e);
                },
            }
            idx = idx + 1;
        }
        assert(calls.take(DIGIT_COUNT as int) =~= calls);
        Ok(())
    }

    fn refresh_tick(&mut self) -> (r: Result<(), BoardError>) {
        let r = self.tick();
        proof {
            lemma_ran_one(old(self).log(), BoardCall::Tick, outcome(r));
        }
        r
    }
}

/// The engine: configuration, the previous and current snapshots and the
/// per-input memory.
pub struct Engine {
    pub cfg: EngineConfig,
    pub prev: Snapshot,
    pub cur: Snapshot,
    pub input_local: [InputLocal; INPUTS],
}

impl Engine {
    /// Construct with the given configuration, empty snapshots and all
    /// inputs low.
    pub fn new(cfg: EngineConfig) -> (e: Self)
        ensures
            e.cfg == cfg,
            e.prev == e.cur,
            e.cur.tick == 0,
            forall|i: int| 0 <= i < INPUTS ==> !#[trigger] e.cur.input_state@[i],
            forall|i: int| 0 <= i < RELAY_COUNT ==> !#[trigger] e.cur.relay_state@[i],
            forall|i: int| 0 <= i < DIGIT_COUNT ==> #[trigger] e.cur.display.0@[i] == 0,
            forall|i: int|
                0 <= i < INPUTS ==> !(#[trigger] e.input_local@[i]).last_raw
                    && !e.input_local@[i].logical,
    {
        let s = Snapshot::default();
        Self { cfg, prev: s, cur: s, input_local: [InputLocal::default();INPUTS] }
    }

    /// Run one tick: advance the tick counter, read every input and update
    /// its logical state by its mode, adopt the commanded outputs, push them
    /// to the board and refresh it.
    ///
    /// The calls made on the board are exactly [`engine_calls`], in order, up
    /// to the first that fails: each logical input read once, each relay
    /// driven once, each digit shown once, one refresh. The tick returns the
    /// new current snapshot exactly when every call succeeded; otherwise the
    /// failed call's error is returned and no further call is made. On
    /// success the board records the commanded relays and digits, latched by
    /// the refresh, and for each input the level its memory now holds. After
    /// an error the inputs before the failed read have taken their step and
    /// the rest are untouched, and the outputs are the old ones (a read
    /// failed) or the commanded ones (a write failed).
    pub fn tick<B: BoardIo>(&mut self, board: &mut B, command: TickCommand) -> (r: Result<
        Snapshot,
        BoardError,
    >)
        ensures
            final(self).cfg == old(self).cfg,
            final(self).prev == old(self).cur,
            final(self).cur.tick as int == (old(self).cur.tick as int + 1) % 0x1_0000_0000,
            r is Ok ==> forall|i: int|
                0 <= i < INPUTS ==> input_stepped(
                    old(self).cfg.input_modes@[i],
                    old(self).input_local@[i],
                    #[trigger] final(self).input_local@[i],
                    final(self).cur.input_state@[i],
                ) && final(self).input_local@[i].last_raw == final(board).last_read(i),
            r is Ok ==> final(self).cur.relay_state == command.relay_state,
            r is Ok ==> final(self).cur.display == command.display,
            r is Ok ==> r == Ok::<Snapshot, BoardError>(final(self).cur),
            r is Ok ==> forall|j: int|
                0 <= j < RELAY_COUNT ==> #[trigger] final(board).written_relay(j)
                    == command.relay_state@[j],
            r is Ok ==> forall|p: int|
                0 <= p < DIGIT_COUNT ==> #[trigger] final(board).written_digit(p)
                    == command.display.0@[p],
            r is Ok ==> final(board).refreshes() == old(board).refreshes() + 1,
            r is Ok ==> forall|j: int|
                0 <= j < RELAY_COUNT ==> #[trigger] final(board).latched_relay(j)
                    == command.relay_state@[j],
            ran(old(board).board_log(), final(board).board_log(), engine_calls(command), outcome(r)),
            r is Err ==> exists|k: int|
                #[trigger] stepped_upto(
                    old(self).cfg.input_modes@,
                    old(self).input_local@,
                    old(self).cur.input_state@,
                    final(self).input_local@,
                    final(self).cur.input_state@,
                    k,
                ) && (k < INPUTS ==> final(self).cur.relay_state == old(self).cur.relay_state
                    && final(self).cur.display == old(self).cur.display
                    && final(board).board_log().len() == old(board).board_log().len() + k + 1) && (k
                    == INPUTS ==> final(self).cur.relay_state == command.relay_state
                    && final(self).cur.display == command.display
                    && final(board).board_log().len() > old(board).board_log().len() + INPUTS),
    {
        self.prev = self.cur;
        self.cur.tick = self.prev.tick.wrapping_add(1);
        let ghost locals0 = self.input_local;
        let ghost calls = engine_calls(command);
        let ghost log0 = board.board_log();
        proof {
            lemma_ran_nothing(log0, calls);
        }

        let mut idx: usize = 0;
        while idx < INPUTS
            invariant
                0 <= idx <= INPUTS,
                calls == engine_calls(command),
                log0 == old(board).board_log(),
                ran(log0, board.board_log(), calls.take(idx as int), None),
                board.board_log().len() == log0.len() + idx,
                self.cfg == old(self).cfg,
                self.prev == old(self).cur,
                self.cur.tick as int == (old(self).cur.tick as int + 1) % 0x1_0000_0000,
                locals0 == old(self).input_local,
                self.cur.relay_state == old(self).cur.relay_state,
                self.cur.display == old(self).cur.display,
                board.refreshes() == old(board).refreshes(),
                forall|i: int|
                    0 <= i < idx ==> input_stepped(
                        self.cfg.input_modes@[i],
                        locals0@[i],
                        #[trigger] self.input_local@[i],
                        self.cur.input_state@[i],
                    ) && self.input_local@[i].last_raw == board.last_read(i),
                forall|i: int| idx <= i < INPUTS ==> #[trigger] self.input_local@[i] == locals0@[i],
                forall|i: int|
                    idx <= i < INPUTS ==> #[trigger] self.cur.input_state@[i]
                        == old(self).cur.input_state@[i],
            decreases INPUTS - idx,
        {
            let ghost cur = board.board_log();
            let read = board.read_input_raw(idx);
            proof {
                assert(calls.subrange(idx as int, idx + 1) =~= seq![raw_read_call(idx as int)]);
                lemma_ran_extend(log0, cur, board.board_log(), calls, idx as int, idx + 1, outcome(read));
            }
            let raw = match read {
                Ok(v) => v,
                Err(e) => {
                    assert(stepped_upto(
                        old(self).cfg.input_modes@,
                        old(self).input_local@,
                        old(self).cur.input_state@,
                        self.input_local@,
                        self.cur.input_state@,
                        idx as int,
                    ));
                    return Err(e);
                },
            };
            let mut local = self.input_local[idx];
            match self.cfg.input_modes[idx] {
                InputMode::Momentary => {
                    local.logical = raw;
                },
                InputMode::RisingEdgeToggle => {
                    if raw && !local.last_raw {
                        local.logical = !local.logical;
                    }
                },
                InputMode::FallingEdgeToggle => {
                    if !raw && local.last_raw {
                        local.logical = !local.logical;
                    }
                },
            }
            local.last_raw = raw;
            self.input_local[idx] = local;
            self.cur.input_state[idx] = local.logical;
            idx = idx + 1;
        }

        self.cur.relay_state = command.relay_state;
        self.cur.display = command.display;
        assert(stepped_upto(
            old(self).cfg.input_modes@,
            old(self).input_local@,
            old(self).cur.input_state@,
            self.input_local@,
            self.cur.input_state@,
            INPUTS as int,
        ));

        let ghost cur = board.board_log();
        let written = board.write_relays(self.cur.relay_state);
        proof {
            assert(calls.subrange(INPUTS as int, INPUTS + RELAY_COUNT) =~= relay_calls(
                command.relay_state@,
            ));
            lemma_ran_extend(log0, cur, board.board_log(), calls, INPUTS as int, INPUTS + RELAY_COUNT, outcome(written));
        }
        match written {
            Ok(()) => {},
            Err(e) => {
                return Err(e);
            },
        }
        let digits: [u8; DIGIT_COUNT] = self.cur.display.into();
        let ghost cur = board.board_log();
        let shown = board.write_display(digits);
        proof {
            assert(calls.subrange(INPUTS + RELAY_COUNT, INPUTS + RELAY_COUNT + DIGIT_COUNT) =~= digit_calls(
                command.display.0@,
            ));
            lemma_ran_extend(
                log0,
                cur,
                board.board_log(),
                calls,
                INPUTS + RELAY_COUNT,
                INPUTS + RELAY_COUNT + DIGIT_COUNT,
                outcome(shown),
            );
        }
        match shown {
            Ok(()) => {},
            Err(e) => {
                return Err(e);
            },
        }
        let ghost cur = board.board_log();
        let refreshed = board.refresh_tick();
        proof {
            assert(calls.subrange(INPUTS + RELAY_COUNT + DIGIT_COUNT, calls.len() as int) =~= seq![
                BoardCall::Tick,
            ]);
            lemma_ran_extend(
                log0,
                cur,
                board.board_log(),
                calls,
                INPUTS + RELAY_COUNT + DIGIT_COUNT,
                calls.len() as int,
                outcome(refreshed),
            );
            assert(calls.take(calls.len() as int) =~= calls);
        }
        match refreshed {
            Ok(()) => {},
            Err(e) => {
                return Err(e);
            },
        }
        Ok(self.cur)
    }
}

} // verus!
