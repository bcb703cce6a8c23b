//! The controller: wires the pure domain (relay bank, external inputs,
//! buttons, diagnostic state) to one `Io22d08Api` board.
//!
//! Each consumed 1 ms timer tick reads the raw inputs and buttons, debounces
//! and maps the inputs, dispatches the emitted actions, advances the blink
//! engine, applies the button edges to the diagnostic state, writes only the
//! relay outputs that changed, refreshes the display when its digits changed,
//! and ticks the board.
use vstd::prelude::*;

use crate::action::{Action, apply_global_action, apply_relay_action, apply_speed_action, dispatch_all};
use crate::board_api::{
    digit_calls, lemma_ran_extend, lemma_ran_failure_within, lemma_ran_next, lemma_ran_nothing,
    lemma_ran_one, lemma_ran_then, ok_events, outcome, ran, same_digits, same_reads, same_relays,
    BoardCall, BoardError, Io22d08Api,
};
use crate::config::{BOOT_SPEED_MS, BUTTON_COUNT, DIGIT_COUNT, INPUT_COUNT, RELAY_COUNT, SHIFT_INPUT, SHIFT_MODE};
use crate::debug::{apply_edges, modal_speed, render, spec_render, ButtonInputs, DiagnosticState, DiagnosticView, Page};
use crate::input::{edge_action, line_sample, spec_resolve_shifted, ExternalInputs, LineState};
use crate::relay::{tick_cells, RelayBank, RelayCell, RelayMode, RelayState};

verus! {

/// The controller's domain state, as plain values.
pub struct ControllerState {
    pub relays: Seq<RelayCell>,
    pub inputs: Seq<LineState>,
    pub buttons: Seq<LineState>,
    pub diagnostics: DiagnosticState,
}

/// The accepted levels of some debounced lines.
pub open spec fn stable_of(lines: Seq<LineState>) -> Seq<bool> {
    Seq::new(lines.len(), |i: int| lines[i].stable)
}

/// The actions the external inputs emit when their lines go from `before`
/// to `after`: press edges mapped through the static table, shifted by the
/// Shift line's new level.
pub open spec fn emitted_actions(before: Seq<LineState>, after: Seq<LineState>) -> Seq<Option<Action>> {
    Seq::new(
        INPUT_COUNT as nat,
        |i: int|
            edge_action(
                i,
                after[i].stable && !before[i].stable,
                spec_resolve_shifted(SHIFT_MODE, after[SHIFT_INPUT as int].stable),
            ),
    )
}

/// One controller tick on the raw input and button snapshots `raw_inputs`
/// and `raw_buttons`: debounce the inputs, dispatch the emitted actions in
/// line order, advance the blink engine, debounce the buttons and apply their
/// press edges to the diagnostic state.
pub open spec fn controller_step(
    s: ControllerState,
    raw_inputs: Seq<bool>,
    raw_buttons: Seq<bool>,
) -> ControllerState {
    let inputs = Seq::new(s.inputs.len(), |i: int| line_sample(s.inputs[i], raw_inputs[i]));
    let actions = emitted_actions(s.inputs, inputs);
    let buttons = Seq::new(s.buttons.len(), |i: int| line_sample(s.buttons[i], raw_buttons[i]));
    let edges = Seq::new(s.buttons.len(), |i: int| buttons[i].stable && !s.buttons[i].stable);
    ControllerState {
        relays: tick_cells(dispatch_all(s.relays, actions, INPUT_COUNT as int)),
        inputs,
        buttons,
        diagnostics: apply_edges(s.diagnostics, edges),
    }
}

/// The digits the display shows for a domain state.
pub open spec fn display_digits(s: ControllerState) -> Seq<u8> {
    spec_render(
        s.diagnostics,
        Seq::new(s.relays.len(), |i: int| s.relays[i].state),
        stable_of(s.inputs),
        modal_speed(Seq::new(s.relays.len(), |i: int| s.relays[i].state)),
    )
}

/// The raw input levels a board last read, in line order.
pub open spec fn read_inputs<B: Io22d08Api>(board: B) -> Seq<bool> {
    Seq::new(INPUT_COUNT as nat, |i: int| board.last_input(i))
}

/// The raw button levels a board last read, in button order.
pub open spec fn read_buttons<B: Io22d08Api>(board: B) -> Seq<bool> {
    Seq::new(BUTTON_COUNT as nat, |i: int| board.last_button(i))
}

/// The reads of one controller tick, in order: every external input, then
/// every button.
pub open spec fn read_calls() -> Seq<BoardCall> {
    Seq::new(INPUT_COUNT as nat, |i: int| BoardCall::ReadInput(i as usize)) + Seq::new(
        BUTTON_COUNT as nat,
        |i: int| BoardCall::ReadButton(i as usize),
    )
}

/// The call that drives relay `i` to `on`.
pub open spec fn relay_call(i: int, on: bool) -> BoardCall {
    if on {
        BoardCall::RelayOn(i as usize)
    } else {
        BoardCall::RelayOff(i as usize)
    }
}

/// The relay writes among the first `n` relays that flush `outputs` over
/// the outputs `applied` last written: one call for each relay whose output
/// changed, in relay order, and none for the others.
pub open spec fn changed_relay_calls(applied: Seq<bool>, outputs: Seq<bool>, n: nat) -> Seq<
    BoardCall,
>
    decreases n,
{
    if n == 0 {
        Seq::empty()
    } else {
        let k = n - 1;
        changed_relay_calls(applied, outputs, k as nat) + if applied[k] != outputs[k] {
            seq![relay_call(k, outputs[k])]
        } else {
            Seq::empty()
        }
    }
}

/// The writes among fewer relays are the first writes among more.
proof fn lemma_changed_relay_calls_prefix(applied: Seq<bool>, outputs: Seq<bool>, m: nat, n: nat)
    requires
        m <= n,
    ensures
        changed_relay_calls(applied, outputs, m).len() <= changed_relay_calls(applied, outputs, n).len(),
        changed_relay_calls(applied, outputs, n).take(
            changed_relay_calls(applied, outputs, m).len() as int,
        ) == changed_relay_calls(applied, outputs, m),
    decreases n,
{
    if m < n {
        lemma_changed_relay_calls_prefix(applied, outputs, m, (n - 1) as nat);
        let short = changed_relay_calls(applied, outputs, m);
        let mid = changed_relay_calls(applied, outputs, (n - 1) as nat);
        let long = changed_relay_calls(applied, outputs, n);
        assert(long.take(mid.len() as int) =~= mid);
        assert(long.take(short.len() as int) =~= mid.take(short.len() as int));
    }
}

/// Controller: owns the pure domain state and drives one board from it.
pub struct Io22d08Controller<B> where B: Io22d08Api {
    board: B,
    relays: RelayBank,
    external_inputs: ExternalInputs,
    buttons: ButtonInputs,
    diagnostics: DiagnosticState,
    applied_relay_outputs: [bool; RELAY_COUNT],
    applied_digits: [u8; DIGIT_COUNT],
    display_dirty: bool,
}

impl<B> Io22d08Controller<B> where B: Io22d08Api {
    /// The domain state.
    pub closed spec fn domain(&self) -> ControllerState {
        ControllerState {
            relays: self.relays.cells(),
            inputs: self.external_inputs.lines(),
            buttons: self.buttons.lines(),
            diagnostics: self.diagnostics,
        }
    }

    /// The relay outputs last written to the board.
    pub closed spec fn applied_relay_outputs(&self) -> Seq<bool> {
        self.applied_relay_outputs@
    }

    /// The display digits last written to the board.
    pub closed spec fn applied_digits(&self) -> Seq<u8> {
        self.applied_digits@
    }

    /// Whether the display must be rewritten even if its digits are unchanged.
    pub closed spec fn display_dirty(&self) -> bool {
        self.display_dirty
    }

    /// The board the controller drives.
    pub closed spec fn spec_board(&self) -> B {
        self.board
    }

    /// The board holds what the controller last wrote to it: each relay is in
    /// the state last written, and, unless the display is marked for
    /// writing, each display position holds the digit last written.
    pub open spec fn board_in_sync(&self) -> bool {
        &&& forall|i: int|
            0 <= i < RELAY_COUNT ==> #[trigger] self.spec_board().relay_state(i)
                == self.applied_relay_outputs()[i]
        &&& !self.display_dirty() ==> forall|p: int|
            0 <= p < DIGIT_COUNT ==> #[trigger] self.spec_board().digit_at(p)
                == self.applied_digits()[p]
    }

    /// The state relay `i` of the board holds once the relay outputs of
    /// `next` have been flushed from this controller: the new output where it
    /// differs from the one last written, otherwise what the board held.
    pub open spec fn flushed_relay(&self, next: ControllerState, i: int) -> bool {
        if self.applied_relay_outputs()[i] == next.relays[i].output {
            self.spec_board().relay_state(i)
        } else {
            next.relays[i].output
        }
    }

    /// Whether flushing the display of `next` from this controller writes
    /// the display: it is marked for writing, or its digits changed.
    pub open spec fn display_written(&self, next: ControllerState) -> bool {
        self.display_dirty() || self.applied_digits() != display_digits(next)
    }

    /// The relay outputs of a domain state.
    pub open spec fn outputs_of(next: ControllerState) -> Seq<bool> {
        Seq::new(RELAY_COUNT as nat, |i: int| next.relays[i].output)
    }

    /// The relay writes that flush the outputs of `next` from this
    /// controller.
    pub open spec fn relay_write_calls(&self, next: ControllerState) -> Seq<BoardCall> {
        changed_relay_calls(self.applied_relay_outputs(), Self::outputs_of(next), RELAY_COUNT as nat)
    }

    /// The display writes that flush the display of `next` from this
    /// controller: all four positions in order when the display is written,
    /// none otherwise.
    pub open spec fn display_calls(&self, next: ControllerState) -> Seq<BoardCall> {
        if self.display_written(next) {
            digit_calls(display_digits(next))
        } else {
            Seq::empty()
        }
    }

    /// The board calls of one tick from this controller to the domain state
    /// `next`: the reads, the relay writes, the display writes and one tick.
    pub open spec fn tick_calls(&self, next: ControllerState) -> Seq<BoardCall> {
        read_calls() + self.relay_write_calls(next) + self.display_calls(next) + seq![BoardCall::Tick]
    }

    /// Internal consistency of the owned domain parts.
    pub closed spec fn wf(&self) -> bool {
        &&& self.relays.wf()
        &&& self.external_inputs.wf()
        &&& self.buttons.wf()
        &&& self.external_inputs.lines().len() == INPUT_COUNT
        &&& self.buttons.lines().len() == BUTTON_COUNT
    }

    /// The board reflects the domain: each relay output written equals the
    /// relay's commanded output, and the display shows the rendered view.
    pub open spec fn flushed(&self) -> bool {
        &&& forall|i: int|
            0 <= i < RELAY_COUNT ==> #[trigger] self.applied_relay_outputs()[i]
                == self.domain().relays[i].output
        &&& self.applied_digits() == display_digits(self.domain())
        &&& !self.display_dirty()
    }

    /// Construct with all relays Off at the boot speed, idle inputs and
    /// buttons, and the Speed diagnostic view selected. Nothing has been
    /// written to the board yet: every relay output is taken as off and the
    /// display is marked for writing.
    pub fn new(board: B) -> (c: Self)
        ensures
            c.wf(),
            forall|i: int|
                0 <= i < RELAY_COUNT ==> #[trigger] c.domain().relays[i] == (RelayCell {
                    state: RelayState { mode: RelayMode::Off, speed_ms: BOOT_SPEED_MS },
                    output: false,
                    countdown: BOOT_SPEED_MS as int,
                }),
            forall|i: int|
                0 <= i < INPUT_COUNT ==> #[trigger] c.domain().inputs[i] == (LineState {
                    stable: false,
                    candidate: false,
                    count: 0,
                }),
            forall|i: int|
                0 <= i < BUTTON_COUNT ==> #[trigger] c.domain().buttons[i] == (LineState {
                    stable: false,
                    candidate: false,
                    count: 0,
                }),
            c.domain().diagnostics.spec_view() == DiagnosticView::Speed,
            c.domain().diagnostics.spec_inputs_page() == Page::First,
            c.domain().diagnostics.spec_relay_page() == Page::First,
            c.applied_relay_outputs() == Seq::new(RELAY_COUNT as nat, |i: int| false),
            c.applied_digits() == Seq::new(DIGIT_COUNT as nat, |i: int| 0u8),
            c.display_dirty(),
            c.spec_board() == board,
    {
        let c = Self {
            board,
            relays: RelayBank::new(),
            external_inputs: ExternalInputs::new(),
            buttons: ButtonInputs::new(),
            diagnostics: DiagnosticState::new(),
            applied_relay_outputs: [false;RELAY_COUNT],
            applied_digits: [0;DIGIT_COUNT],
            display_dirty: true,
        };
        assert(c.applied_relay_outputs() =~= Seq::new(RELAY_COUNT as nat, |i: int| false));
        assert(c.applied_digits() =~= Seq::new(DIGIT_COUNT as nat, |i: int| 0u8));
        c
    }

    /// Advance the whole system by one consumed 1 ms timer tick.
    ///
    /// The calls made on the board are exactly [`Self::tick_calls`], in
    /// order, up to the first that fails: every external input read in line
    /// order, then every button; one `relay_on`/`relay_off` for each relay
    /// whose output changed and none for the others; `show_digit` at the four
    /// positions in order when the display changed or is marked for writing
    /// (even when the digits are all zero), none otherwise; and one `tick`.
    /// The tick succeeds exactly when every call it made succeeded; a failed
    /// call's error is returned and no further call is made.
    ///
    /// On success the domain has taken one [`controller_step`] on exactly the
    /// levels the board returned, the board records the relays and digits
    /// just written, and the tick latched the relays. On an error during the
    /// reads nothing of the controller changed; on a later error the domain
    /// has taken its step.
    pub fn sync_tick(&mut self) -> (r: Result<(), BoardError>)
        requires
            old(self).wf(),
        ensures
            final(self).wf(),
            r is Ok ==> final(self).domain() == controller_step(
                old(self).domain(),
                read_inputs(final(self).spec_board()),
                read_buttons(final(self).spec_board()),
            ),
            r is Ok ==> final(self).flushed(),
            r is Ok ==> forall|i: int|
                0 <= i < RELAY_COUNT ==> #[trigger] final(self).spec_board().relay_state(i)
                    == old(self).flushed_relay(final(self).domain(), i),
            r is Ok ==> forall|i: int|
                !(0 <= i < RELAY_COUNT) ==> #[trigger] final(self).spec_board().relay_state(i)
                    == old(self).spec_board().relay_state(i),
            r is Ok && old(self).display_written(final(self).domain()) ==> forall|p: int|
                0 <= p < DIGIT_COUNT ==> #[trigger] final(self).spec_board().digit_at(p)
                    == display_digits(final(self).domain())[p],
            r is Ok && old(self).display_written(final(self).domain()) ==> forall|p: int|
                !(0 <= p < DIGIT_COUNT) ==> #[trigger] final(self).spec_board().digit_at(p)
                    == old(self).spec_board().digit_at(p),
            r is Ok && !old(self).display_written(final(self).domain()) ==> same_digits(
                final(self).spec_board(),
                old(self).spec_board(),
            ),
            r is Ok ==> final(self).spec_board().tick_count() == old(self).spec_board().tick_count()
                + 1,
            r is Ok ==> forall|i: int|
                #[trigger] final(self).spec_board().latched_relay(i)
                    == final(self).spec_board().relay_state(i),
            r is Ok && old(self).board_in_sync() ==> final(self).board_in_sync(),
            ran(
                old(self).spec_board().log(),
                final(self).spec_board().log(),
                old(self).tick_calls(final(self).domain()),
                outcome(r),
            ),
            r is Err && final(self).spec_board().log().len() <= old(self).spec_board().log().len()
                + INPUT_COUNT + BUTTON_COUNT ==> final(self).domain() == old(self).domain()
                && final(self).applied_relay_outputs() == old(self).applied_relay_outputs()
                && final(self).applied_digits() == old(self).applied_digits()
                && final(self).display_dirty() == old(self).display_dirty(),
            r is Err && final(self).spec_board().log().len() > old(self).spec_board().log().len()
                + INPUT_COUNT + BUTTON_COUNT ==> exists|raw_inputs: Seq<bool>, raw_buttons: Seq<bool>|
                raw_inputs.len() == INPUT_COUNT && raw_buttons.len() == BUTTON_COUNT
                    && #[trigger] controller_step(old(self).domain(), raw_inputs, raw_buttons)
                    == final(self).domain(),
    {
        let ghost start = self.domain();
        let ghost board0 = self.board;
        let ghost log0 = self.board.log();
        let (raw_inputs, raw_buttons) = match self.read_board() {
            Ok(raws) => raws,
            Err(e) => {
                proof {
                    let calls = old(self).tick_calls(self.domain());
                    assert(calls.take((INPUT_COUNT + BUTTON_COUNT) as int) =~= read_calls());
                    lemma_ran_failure_within(log0, self.board.log(), calls, (INPUT_COUNT + BUTTON_COUNT) as int, e);
                }
                return Err(e);
            },
        };
        let ghost log1 = self.board.log();
        self.update_domain(raw_inputs, raw_buttons);
        assert(controller_step(start, raw_inputs@, raw_buttons@) == self.domain());
        let ghost stepped = *self;
        let ghost reads_len = (INPUT_COUNT + BUTTON_COUNT) as int;
        let ghost calls = old(self).tick_calls(self.domain());
        let ghost relay_writes = old(self).relay_write_calls(self.domain());
        let ghost display_writes = old(self).display_calls(self.domain());
        proof {
            assert(calls.take(reads_len) =~= read_calls());
            assert(stepped.relay_write_calls(stepped.domain()) == relay_writes);
            assert(calls.subrange(reads_len, reads_len + relay_writes.len()) =~= relay_writes);
            assert(calls.subrange(
                reads_len + relay_writes.len(),
                reads_len + relay_writes.len() + display_writes.len(),
            ) =~= display_writes);
            assert(calls.subrange(
                reads_len + relay_writes.len() + display_writes.len(),
                calls.len() as int,
            ) =~= seq![BoardCall::Tick]);
            assert(calls.take(calls.len() as int) =~= calls);
        }
        let flushed = self.flush_relays();
        proof {
            lemma_ran_extend(
                log0,
                log1,
                self.board.log(),
                calls,
                reads_len,
                reads_len + relay_writes.len(),
                outcome(flushed),
            );
        }
        match flushed {
            Ok(()) => {},
            Err(e) => {
                return Err(e);
            },
        }
        let ghost mid = *self;
        proof {
            assert(mid.display_calls(mid.domain()) == display_writes);
        }
        let written = self.flush_display();
        proof {
            lemma_ran_extend(
                log0,
                mid.board.log(),
                self.board.log(),
                calls,
                reads_len + relay_writes.len(),
                reads_len + relay_writes.len() + display_writes.len(),
                outcome(written),
            );
        }
        match written {
            Ok(()) => {},
            Err(e) => {
                return Err(e);
            },
        }
        assert(self.applied_relay_outputs() == mid.applied_relay_outputs());
        let ghost shown = *self;
        let ticked = self.board.tick();
        proof {
            lemma_ran_one(shown.board.log(), BoardCall::Tick, outcome(ticked));
            lemma_ran_extend(
                log0,
                shown.board.log(),
                self.board.log(),
                calls,
                reads_len + relay_writes.len() + display_writes.len(),
                calls.len() as int,
                outcome(ticked),
            );
        }
        match ticked {
            Ok(()) => {},
            Err(e) => {
                return Err(e);
            },
        }
        proof {
            assert(raw_inputs@ =~= read_inputs(self.board));
            assert(raw_buttons@ =~= read_buttons(self.board));
            assert forall|k: int| 0 <= k < RELAY_COUNT implies #[trigger] self.board.relay_state(k)
                == old(self).flushed_relay(self.domain(), k) by {
                assert(shown.board.relay_state(k) == mid.board.relay_state(k));
                assert(stepped.board.relay_state(k) == board0.relay_state(k));
            }
            assert forall|k: int| !(0 <= k < RELAY_COUNT) implies #[trigger] self.board.relay_state(k)
                == board0.relay_state(k) by {
                assert(shown.board.relay_state(k) == mid.board.relay_state(k));
                assert(stepped.board.relay_state(k) == board0.relay_state(k));
            }
            if old(self).board_in_sync() {
                assert forall|k: int| 0 <= k < RELAY_COUNT implies #[trigger] self.board.relay_state(k)
                    == self.applied_relay_outputs()[k] by {
                    assert(self.board.relay_state(k) == old(self).flushed_relay(self.domain(), k));
                    assert(old(self).spec_board().relay_state(k) == old(self).applied_relay_outputs()[k]);
                }
                assert forall|p: int| 0 <= p < DIGIT_COUNT implies #[trigger] self.board.digit_at(p)
                    == self.applied_digits()[p] by {
                    if !old(self).display_written(self.domain()) {
                        assert(self.board.digit_at(p) == old(self).board.digit_at(p));
                        assert(old(self).spec_board().digit_at(p) == old(self).applied_digits()[p]);
                    }
                }
            }
        }
        Ok(())
    }

    /// Read every external input in line order, then every button, stopping
    /// at the first failed read. Only the board changes.
    fn read_board(&mut self) -> (r: Result<([bool; INPUT_COUNT], [bool; BUTTON_COUNT]), BoardError>)
        requires
            old(self).wf(),
        ensures
            final(self).wf(),
            final(self).domain() == old(self).domain(),
            final(self).applied_relay_outputs == old(self).applied_relay_outputs,
            final(self).applied_digits == old(self).applied_digits,
            final(self).display_dirty == old(self).display_dirty,
            ran(old(self).board.log(), final(self).board.log(), read_calls(), outcome(r)),
            r matches Ok(raws) ==> raws.0@ == read_inputs(final(self).board) && raws.1@
                == read_buttons(final(self).board),
            r is Ok ==> same_relays(final(self).board, old(self).board) && same_digits(
                final(self).board,
                old(self).board,
            ) && final(self).board.tick_count() == old(self).board.tick_count(),
    {
        let ghost start = self.domain();
        let ghost board0 = self.board;
        let ghost log0 = self.board.log();
        let ghost calls = read_calls();
        proof {
            lemma_ran_nothing(log0, calls);
        }
        let mut raw_inputs = [false;INPUT_COUNT];
        let mut i: usize = 0;
        while i < INPUT_COUNT
            invariant
                0 <= i <= INPUT_COUNT,
                self.wf(),
                self.domain() == start,
                start == old(self).domain(),
                board0 == old(self).board,
                self.applied_relay_outputs == old(self).applied_relay_outputs,
                self.applied_digits == old(self).applied_digits,
                self.display_dirty == old(self).display_dirty,
                same_relays(self.board, board0),
                same_digits(self.board, board0),
                self.board.tick_count() == board0.tick_count(),
                forall|b: int| #[trigger] self.board.last_button(b) == board0.last_button(b),
                forall|j: int| 0 <= j < i ==> #[trigger] self.board.last_input(j) == raw_inputs@[j],
                log0 == old(self).board.log(),
                calls == read_calls(),
                ran(log0, self.board.log(), calls.take(i as int), None),
            decreases INPUT_COUNT - i,
        {
            let ghost cur = self.board.log();
            let read = self.board.read_input(i);
            proof {
                lemma_ran_next(log0, cur, calls, i as int, outcome(read));
            }
            match read {
                Ok(v) => {
                    raw_inputs[i] = v;
                },
                Err(e) => {
                    return Err(e);
                },
            }
            i = i + 1;
        }
        let mut raw_buttons = [false;BUTTON_COUNT];
        let mut i: usize = 0;
        while i < BUTTON_COUNT
            invariant
                0 <= i <= BUTTON_COUNT,
                self.wf(),
                self.domain() == start,
                start == old(self).domain(),
                board0 == old(self).board,
                self.applied_relay_outputs == old(self).applied_relay_outputs,
                self.applied_digits == old(self).applied_digits,
                self.display_dirty == old(self).display_dirty,
                same_relays(self.board, board0),
                same_digits(self.board, board0),
                self.board.tick_count() == board0.tick_count(),
                forall|j: int|
                    0 <= j < INPUT_COUNT ==> #[trigger] self.board.last_input(j) == raw_inputs@[j],
                forall|j: int| 0 <= j < i ==> #[trigger] self.board.last_button(j) == raw_buttons@[j],
                log0 == old(self).board.log(),
                calls == read_calls(),
                ran(log0, self.board.log(), calls.take(INPUT_COUNT + i), None),
            decreases BUTTON_COUNT - i,
        {
            let ghost cur = self.board.log();
            let read = self.board.read_button(i);
            proof {
                lemma_ran_next(log0, cur, calls, INPUT_COUNT + i, outcome(read));
            }
            match read {
                Ok(v) => {
                    raw_buttons[i] = v;
                },
                Err(e) => {
                    return Err(e);
                },
            }
            i = i + 1;
        }
        assert(calls.take((INPUT_COUNT + BUTTON_COUNT) as int) =~= calls);
        Ok((raw_inputs, raw_buttons))
    }

    /// The decisions of one tick, on given raw snapshots.
    fn update_domain(&mut self, raw_inputs: [bool; INPUT_COUNT], raw_buttons: [bool; BUTTON_COUNT])
        requires
            old(self).wf(),
        ensures
            final(self).wf(),
            final(self).domain() == controller_step(old(self).domain(), raw_inputs@, raw_buttons@),
            final(self).applied_relay_outputs == old(self).applied_relay_outputs,
            final(self).applied_digits == old(self).applied_digits,
            final(self).display_dirty == old(self).display_dirty,
            final(self).board == old(self).board,
    {
        let ghost start = self.domain();
        let actions = self.external_inputs.tick_1ms(raw_inputs);
        let ghost cells0 = self.relays.cells();
        let ghost inputs1 = self.external_inputs;
        let mut k: usize = 0;
        while k < INPUT_COUNT
            invariant
                0 <= k <= INPUT_COUNT,
                self.relays.wf(),
                self.external_inputs == inputs1,
                self.external_inputs.wf(),
                self.external_inputs.lines().len() == INPUT_COUNT,
                self.buttons == old(self).buttons,
                self.diagnostics == old(self).diagnostics,
                self.applied_relay_outputs == old(self).applied_relay_outputs,
                self.applied_digits == old(self).applied_digits,
                self.display_dirty == old(self).display_dirty,
                self.board == old(self).board,
                self.relays.cells() == dispatch_all(cells0, actions@, k as int),
            decreases INPUT_COUNT - k,
        {
            match actions[k] {
                Some(action) => {
                    apply_relay_action(&mut self.relays, action);
                    apply_global_action(&mut self.relays, action);
                    apply_speed_action(&mut self.relays, action);
                },
                None => {},
            }
            k = k + 1;
        }
        let ghost dispatched = self.relays.cells();
        self.relays.tick_1ms();
        let edges = self.buttons.tick_1ms(raw_buttons);
        self.diagnostics.apply_button_edges(edges);
        proof {
            let step = controller_step(start, raw_inputs@, raw_buttons@);
            assert(self.domain().inputs =~= step.inputs);
            assert(actions@ =~= emitted_actions(start.inputs, self.domain().inputs));
            assert(self.domain().relays =~= step.relays);
            assert(self.domain().buttons =~= step.buttons);
            assert(edges@ =~= Seq::new(
                start.buttons.len(),
                |i: int| step.buttons[i].stable && !start.buttons[i].stable,
            ));
        }
    }

    /// Write to the board every relay output that differs from the one last
    /// written.
    fn flush_relays(&mut self) -> (r: Result<(), BoardError>)
        requires
            old(self).wf(),
        ensures
            final(self).wf(),
            final(self).domain() == old(self).domain(),
            final(self).applied_digits == old(self).applied_digits,
            final(self).display_dirty == old(self).display_dirty,
            r is Ok ==> forall|i: int|
                0 <= i < RELAY_COUNT ==> #[trigger] final(self).applied_relay_outputs()[i]
                    == final(self).domain().relays[i].output,
            (forall|i: int|
                0 <= i < RELAY_COUNT ==> #[trigger] old(self).applied_relay_outputs()[i]
                    == old(self).domain().relays[i].output) ==> r is Ok && *final(self) == *old(
                self,
            ),
            r is Ok ==> forall|i: int|
                0 <= i < RELAY_COUNT ==> #[trigger] final(self).spec_board().relay_state(i)
                    == old(self).flushed_relay(old(self).domain(), i),
            r is Ok ==> forall|i: int|
                !(0 <= i < RELAY_COUNT) ==> #[trigger] final(self).spec_board().relay_state(i)
                    == old(self).spec_board().relay_state(i),
            r is Ok ==> same_digits(final(self).spec_board(), old(self).spec_board()),
            r is Ok ==> same_reads(final(self).spec_board(), old(self).spec_board()),
            r is Ok ==> final(self).spec_board().tick_count() == old(self).spec_board().tick_count(),
            ran(
                old(self).spec_board().log(),
                final(self).spec_board().log(),
                old(self).relay_write_calls(old(self).domain()),
                outcome(r),
            ),
    {
        let ghost applied0 = old(self).applied_relay_outputs@;
        let ghost outs = Self::outputs_of(old(self).domain());
        let ghost log0 = old(self).board.log();
        proof {
            assert(log0 =~= log0 + ok_events(changed_relay_calls(applied0, outs, 0)));
        }
        let ghost in_sync = forall|i: int|
            0 <= i < RELAY_COUNT ==> #[trigger] old(self).applied_relay_outputs()[i]
                == old(self).domain().relays[i].output;
        let mut idx: usize = 0;
        while idx < RELAY_COUNT
            invariant
                0 <= idx <= RELAY_COUNT,
                self.wf(),
                self.domain() == old(self).domain(),
                self.applied_digits == old(self).applied_digits,
                self.display_dirty == old(self).display_dirty,
                forall|j: int|
                    0 <= j < idx ==> #[trigger] self.applied_relay_outputs@[j]
                        == self.relays.cells()[j].output,
                in_sync == forall|i: int|
                    0 <= i < RELAY_COUNT ==> #[trigger] old(self).applied_relay_outputs()[i]
                        == old(self).domain().relays[i].output,
                in_sync ==> *self == *old(self),
                forall|j: int|
                    idx <= j < RELAY_COUNT ==> #[trigger] self.applied_relay_outputs@[j]
                        == old(self).applied_relay_outputs@[j],
                forall|j: int|
                    #[trigger] self.board.relay_state(j) == (if 0 <= j < idx
                        && old(self).applied_relay_outputs@[j] != old(self).relays.cells()[j].output {
                        old(self).relays.cells()[j].output
                    } else {
                        old(self).board.relay_state(j)
                    }),
                same_digits(self.board, old(self).board),
                same_reads(self.board, old(self).board),
                self.board.tick_count() == old(self).board.tick_count(),
                applied0 == old(self).applied_relay_outputs@,
                outs == Self::outputs_of(old(self).domain()),
                log0 == old(self).board.log(),
                ran(log0, self.board.log(), changed_relay_calls(applied0, outs, idx as nat), None),
            decreases RELAY_COUNT - idx,
        {
            let output = self.relays.relay_output(idx);
            let ghost cur = self.board.log();
            let ghost before_calls = changed_relay_calls(applied0, outs, idx as nat);
            assert(changed_relay_calls(applied0, outs, (idx + 1) as nat) == before_calls + if applied0[idx as int]
                != outs[idx as int] {
                seq![relay_call(idx as int, outs[idx as int])]
            } else {
                Seq::empty()
            });
            assert(before_calls + Seq::<BoardCall>::empty() =~= before_calls);
            assert(in_sync ==> old(self).applied_relay_outputs()[idx as int]
                == old(self).domain().relays[idx as int].output);
            if output != self.applied_relay_outputs[idx] {
                let written = if output {
                    self.board.relay_on(idx)
                } else {
                    self.board.relay_off(idx)
                };
                proof {
                    let c = relay_call(idx as int, output);
                    lemma_ran_one(cur, c, outcome(written));
                    lemma_ran_then(log0, cur, self.board.log(), before_calls, seq![c], outcome(written));
                    if let Err(e) = written {
                        lemma_changed_relay_calls_prefix(applied0, outs, (idx + 1) as nat, RELAY_COUNT as nat);
                        lemma_ran_failure_within(
                            log0,
                            self.board.log(),
                            changed_relay_calls(applied0, outs, RELAY_COUNT as nat),
                            changed_relay_calls(applied0, outs, (idx + 1) as nat).len() as int,
                            e,
                        );
                    }
                }
                match written {
                    Ok(()) => {},
                    Err(e) => {
                        return Err(e);
                    },
                }
                self.applied_relay_outputs[idx] = output;
            }
            idx = idx + 1;
        }
        Ok(())
    }

    /// Render the selected diagnostic view and write it to the display when
    /// its digits differ from the ones last written, or the display is marked
    /// for writing.
    fn flush_display(&mut self) -> (r: Result<(), BoardError>)
        requires
            old(self).wf(),
        ensures
            final(self).wf(),
            final(self).domain() == old(self).domain(),
            final(self).applied_relay_outputs == old(self).applied_relay_outputs,
            r is Ok ==> final(self).applied_digits() == display_digits(final(self).domain()),
            r is Ok ==> !final(self).display_dirty(),
            !old(self).display_dirty() && old(self).applied_digits() == display_digits(
                old(self).domain(),
            ) ==> r is Ok && *final(self) == *old(self),
            r is Ok && old(self).display_written(old(self).domain()) ==> forall|p: int|
                0 <= p < DIGIT_COUNT ==> #[trigger] final(self).spec_board().digit_at(p)
                    == display_digits(old(self).domain())[p],
            r is Ok ==> forall|p: int|
                !(0 <= p < DIGIT_COUNT) ==> #[trigger] final(self).spec_board().digit_at(p)
                    == old(self).spec_board().digit_at(p),
            r is Ok ==> same_relays(final(self).spec_board(), old(self).spec_board()),
            r is Ok ==> same_reads(final(self).spec_board(), old(self).spec_board()),
            r is Ok ==> final(self).spec_board().tick_count() == old(self).spec_board().tick_count(),
            ran(
                old(self).spec_board().log(),
                final(self).spec_board().log(),
                old(self).display_calls(old(self).domain()),
                outcome(r),
            ),
    {
        let inputs = self.external_inputs.stable();
        let digits = render(&self.diagnostics, &self.relays, inputs);
        proof {
            let d = self.domain();
            assert(inputs@ =~= stable_of(d.inputs));
            assert(self.relays.states() =~= Seq::new(d.relays.len(), |i: int| d.relays[i].state));
            assert(digits@ == display_digits(d));
        }
        if !self.display_dirty && digits_equal(&digits, &self.applied_digits) {
            proof {
                lemma_ran_nothing(self.board.log(), Seq::<BoardCall>::empty());
                assert(Seq::<BoardCall>::empty().take(0) =~= Seq::<BoardCall>::empty());
            }
            return Ok(());
        }
        let ghost calls = digit_calls(digits@);
        let ghost log0 = self.board.log();
        proof {
            lemma_ran_nothing(log0, calls);
        }
        let mut position: usize = 0;
        while position < DIGIT_COUNT
            invariant
                0 <= position <= DIGIT_COUNT,
                self.wf(),
                self.domain() == old(self).domain(),
                self.applied_relay_outputs == old(self).applied_relay_outputs,
                !(!old(self).display_dirty() && old(self).applied_digits() == display_digits(
                    old(self).domain(),
                )),
                digits@ == display_digits(old(self).domain()),
                self.applied_digits == old(self).applied_digits,
                self.display_dirty == old(self).display_dirty,
                forall|p: int|
                    #[trigger] self.board.digit_at(p) == (if 0 <= p < position {
                        digits@[p]
                    } else {
                        old(self).board.digit_at(p)
                    }),
                same_relays(self.board, old(self).board),
                same_reads(self.board, old(self).board),
                self.board.tick_count() == old(self).board.tick_count(),
                calls == digit_calls(digits@),
                log0 == old(self).board.log(),
                ran(log0, self.board.log(), calls.take(position as int), None),
            decreases DIGIT_COUNT - position,
        {
            let ghost cur = self.board.log();
            let shown = self.board.show_digit(position, digits[position]);
            proof {
                lemma_ran_next(log0, cur, calls, position as int, outcome(shown));
            }
            match shown {
                Ok(()) => {},
                Err(e) => {
                    return Err(e);
                },
            }
            position = position + 1;
        }
        assert(calls.take(DIGIT_COUNT as int) =~= calls);
        self.applied_digits = digits;
        self.display_dirty = false;
        Ok(())
    }
}

/// Whether two digit arrays are equal.
fn digits_equal(a: &[u8; DIGIT_COUNT], b: &[u8; DIGIT_COUNT]) -> (r: bool)
    ensures
        r == (a@ == b@),
{
    let mut i: usize = 0;
    while i < DIGIT_COUNT
        invariant
            0 <= i <= DIGIT_COUNT,
            forall|j: int| 0 <= j < i ==> a@[j] == b@[j],
        decreases DIGIT_COUNT - i,
    {
        if a[i] != b[i] {
            return false;
        }
        i = i + 1;
    }
    assert(a@ =~= b@);
    true
}

} // verus!
