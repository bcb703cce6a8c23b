//! Relay domain model and blink engine.
//!
//! Each relay owns its mode, its stored speed (the blink half-cycle in
//! milliseconds), its commanded output and the countdown to its next blink
//! transition. No state is shared between relays.
use vstd::prelude::*;

use crate::config::{BOOT_SPEED_MS, RELAY_COUNT};

verus! {

/// Operating mode of a single relay.
#[derive(Copy, Clone, Debug, PartialEq, Eq, Structural)]
pub enum RelayMode {
    /// Relay is off.
    Off,
    /// Relay is blinking at its stored speed.
    Blink,
    /// Relay is on (steady).
    On,
}

/// State of a single relay: its mode and speed.
#[derive(Copy, Clone, Debug, PartialEq, Eq, Structural)]
pub struct RelayState {
    /// Operating mode (Off, Blink, or On).
    pub mode: RelayMode,
    /// Blink half-cycle in milliseconds.
    pub speed_ms: u16,
}

impl RelayState {
    /// Construct a relay in Off mode with the boot speed.
    pub fn new() -> (r: Self)
        ensures
            r.mode == RelayMode::Off,
            r.speed_ms == BOOT_SPEED_MS,
    {
        RelayState { mode: RelayMode::Off, speed_ms: BOOT_SPEED_MS }
    }

    /// Construct a relay with a specific mode and speed.
    pub fn with_mode_and_speed(mode: RelayMode, speed_ms: u16) -> (r: Self)
        ensures
            r.mode == mode,
            r.speed_ms == speed_ms,
    {
        RelayState { mode, speed_ms }
    }
}

impl Default for RelayState {
    fn default() -> (r: Self)
        ensures
            r.mode == RelayMode::Off,
            r.speed_ms == BOOT_SPEED_MS,
    {
        Self::new()
    }
}

/// Blink timing policy: the length of one blink half-cycle, in milliseconds,
/// for a relay whose stored speed is `speed_ms`.
pub open spec fn half_cycle_ms(speed_ms: u16) -> u16 {
    speed_ms
}

/// Blink timing policy (see [`half_cycle_ms`]).
pub fn blink_half_cycle(speed_ms: u16) -> (ms: u16)
    ensures
        ms == speed_ms,
        ms == half_cycle_ms(speed_ms),
{
    speed_ms
}

/// The steady output commanded by a non-blinking mode.
pub open spec fn steady_output(mode: RelayMode) -> bool {
    mode == RelayMode::On
}

/// One relay as the blink engine sees it: its state, its commanded output
/// and the milliseconds left in its current blink half-cycle.
pub struct RelayCell {
    pub state: RelayState,
    pub output: bool,
    pub countdown: int,
}

/// The cell after its mode is set to `mode`, its speed kept.
///
/// Entering Blink from another mode starts the blink On with a full
/// half-cycle; setting Blink while already blinking keeps the running phase;
/// Off and On command their steady output at once.
pub open spec fn cell_set_mode(c: RelayCell, mode: RelayMode) -> RelayCell {
    let state = RelayState { mode, speed_ms: c.state.speed_ms };
    if mode == RelayMode::Blink {
        if c.state.mode == RelayMode::Blink {
            RelayCell { state, ..c }
        } else {
            RelayCell { state, output: true, countdown: half_cycle_ms(c.state.speed_ms) as int }
        }
    } else {
        RelayCell { state, output: steady_output(mode), ..c }
    }
}

/// The cell after its stored speed is set to `speed_ms`; a running
/// half-cycle is not shortened or lengthened.
pub open spec fn cell_set_speed(c: RelayCell, speed_ms: u16) -> RelayCell {
    RelayCell { state: RelayState { mode: c.state.mode, speed_ms }, ..c }
}

/// The cell after one millisecond. A blinking relay counts its half-cycle
/// down; when the half-cycle ends its output toggles and a new half-cycle,
/// of the speed stored at that moment, starts.
pub open spec fn cell_tick(c: RelayCell) -> RelayCell {
    if c.state.mode == RelayMode::Blink {
        if c.countdown > 1 {
            RelayCell { countdown: c.countdown - 1, ..c }
        } else {
            RelayCell {
                output: !c.output,
                countdown: half_cycle_ms(c.state.speed_ms) as int,
                ..c
            }
        }
    } else {
        c
    }
}

/// Every relay after one millisecond.
pub open spec fn tick_cells(cells: Seq<RelayCell>) -> Seq<RelayCell> {
    Seq::new(cells.len(), |i: int| cell_tick(cells[i]))
}

/// A cell is consistent when a non-blinking relay commands its steady output.
pub open spec fn cell_wf(c: RelayCell) -> bool {
    c.state.mode != RelayMode::Blink ==> c.output == steady_output(c.state.mode)
}

/// Concrete relay bank: eight independently controlled relays.
#[derive(Clone, Debug, PartialEq, Eq)]
pub struct RelayBank {
    relays: [RelayState; RELAY_COUNT],
    outputs: [bool; RELAY_COUNT],
    countdowns: [u16; RELAY_COUNT],
}

impl RelayBank {
    /// The relays of the bank, as cells of the blink engine.
    pub closed spec fn cells(&self) -> Seq<RelayCell> {
        Seq::new(RELAY_COUNT as nat, |i: int| self.cell_at(i))
    }

    /// Relay `i` as a cell of the blink engine.
    closed spec fn cell_at(&self, i: int) -> RelayCell {
        RelayCell {
            state: self.relays@[i],
            output: self.outputs@[i],
            countdown: self.countdowns@[i] as int,
        }
    }

    /// The bank's internal consistency: every relay is consistent.
    pub open spec fn wf(&self) -> bool {
        &&& self.cells().len() == RELAY_COUNT
        &&& forall|i: int| 0 <= i < RELAY_COUNT ==> cell_wf(#[trigger] self.cells()[i])
    }

    /// The state (mode and speed) of every relay.
    pub open spec fn states(&self) -> Seq<RelayState> {
        Seq::new(self.cells().len(), |i: int| self.cells()[i].state)
    }

    /// Construct a new relay bank with all relays Off at the boot speed.
    pub fn new() -> (bank: Self)
        ensures
            bank.wf(),
            forall|i: int|
                0 <= i < RELAY_COUNT ==> #[trigger] bank.cells()[i] == (RelayCell {
                    state: RelayState { mode: RelayMode::Off, speed_ms: BOOT_SPEED_MS },
                    output: false,
                    countdown: BOOT_SPEED_MS as int,
                }),
    {
        RelayBank {
            relays: [RelayState::new();RELAY_COUNT],
            outputs: [false;RELAY_COUNT],
            countdowns: [BOOT_SPEED_MS;RELAY_COUNT],
        }
    }

    /// The state of relay `idx`.
    pub fn relay(&self, idx: usize) -> (r: RelayState)
        requires
            self.wf(),
            idx < RELAY_COUNT,
        ensures
            r == self.cells()[idx as int].state,
    {
        self.relays[idx]
    }

    /// A mutable reference to the state of relay `idx`.
    fn relay_mut(&mut self, idx: usize) -> (r: &mut RelayState)
        requires
            idx < RELAY_COUNT,
        ensures
            *r == old(self).relays@[idx as int],
            final(self).relays@ == old(self).relays@.update(idx as int, *final(r)),
            final(self).outputs == old(self).outputs,
            final(self).countdowns == old(self).countdowns,
    {
        &mut self.relays[idx]
    }

    /// The commanded output of relay `idx` (On while its output is driven).
    pub fn relay_output(&self, idx: usize) -> (out: bool)
        requires
            self.wf(),
            idx < RELAY_COUNT,
        ensures
            out == self.cells()[idx as int].output,
    {
        self.outputs[idx]
    }

    /// Set relay `idx` to a new mode, preserving its speed.
    pub fn set_mode(&mut self, idx: usize, mode: RelayMode)
        requires
            old(self).wf(),
            idx < RELAY_COUNT,
        ensures
            final(self).wf(),
            final(self).cells() == old(self).cells().update(
                idx as int,
                cell_set_mode(old(self).cells()[idx as int], mode),
            ),
    {
        let ghost before = self.cells();
        let speed = self.relays[idx].speed_ms;
        let was_blinking = self.relays[idx].mode == RelayMode::Blink;
        self.relay_mut(idx).mode = mode;
        match mode {
            RelayMode::Blink => {
                if !was_blinking {
                    self.outputs[idx] = true;
                    self.countdowns[idx] = blink_half_cycle(speed);
                }
            },
            RelayMode::On => {
                self.outputs[idx] = true;
            },
            RelayMode::Off => {
                self.outputs[idx] = false;
            },
        }
        assert(self.cells() =~= before.update(idx as int, cell_set_mode(before[idx as int], mode)));
    }

    /// Set relay `idx` to a new speed, preserving its mode. A running blink
    /// half-cycle keeps its length; the new speed applies from the next one.
    pub fn set_speed(&mut self, idx: usize, speed_ms: u16)
        requires
            old(self).wf(),
            idx < RELAY_COUNT,
        ensures
            final(self).wf(),
            final(self).cells() == old(self).cells().update(
                idx as int,
                cell_set_speed(old(self).cells()[idx as int], speed_ms),
            ),
    {
        let ghost before = self.cells();
        self.relay_mut(idx).speed_ms = speed_ms;
        assert(self.cells() =~= before.update(idx as int, cell_set_speed(before[idx as int], speed_ms)));
    }

    /// Advance every relay's blink engine by one millisecond.
    pub fn tick_1ms(&mut self)
        requires
            old(self).wf(),
        ensures
            final(self).wf(),
            forall|i: int|
                0 <= i < RELAY_COUNT ==> #[trigger] final(self).cells()[i] == cell_tick(
                    old(self).cells()[i],
                ),
    {
        let ghost before = self.cells();
        let ghost self_before = *self;
        let mut i: usize = 0;
        while i < RELAY_COUNT
            invariant
                0 <= i <= RELAY_COUNT,
                self.cells().len() == RELAY_COUNT,
                before.len() == RELAY_COUNT,
                forall|j: int| 0 <= j < RELAY_COUNT ==> cell_wf(#[trigger] before[j]),
                forall|j: int| 0 <= j < RELAY_COUNT ==> #[trigger] before[j] == self_before.cell_at(j),
                forall|j: int| 0 <= j < i ==> #[trigger] self.cell_at(j) == cell_tick(before[j]),
                forall|j: int| i <= j < RELAY_COUNT ==> #[trigger] self.cell_at(j) == before[j],
            decreases RELAY_COUNT - i,
        {
            let ghost prev = *self;
            if self.relays[i].mode == RelayMode::Blink {
                let left = self.countdowns[i];
                if left > 1 {
                    self.countdowns[i] = left - 1;
                } else {
                    let out = self.outputs[i];
                    self.outputs[i] = !out;
                    self.countdowns[i] = blink_half_cycle(self.relays[i].speed_ms);
                }
            }
            assert forall|j: int| 0 <= j < RELAY_COUNT && j != i implies #[trigger] self.cell_at(j)
                == prev.cell_at(j) by {}
            i = i + 1;
        }
        assert forall|j: int| 0 <= j < RELAY_COUNT implies #[trigger] self.cells()[j] == cell_tick(
            before[j],
        ) by {
            assert(self.cells()[j] == self.cell_at(j));
        }
    }

    /// All relay states.
    pub fn relays(&self) -> (r: &[RelayState; RELAY_COUNT])
        requires
            self.wf(),
        ensures
            r@ == self.states(),
    {
        assert(self.relays@ =~= self.states());
        &self.relays
    }

    /// All relay states, as a slice.
    pub fn as_slice(&self) -> (r: &[RelayState])
        requires
            self.wf(),
        ensures
            r@ == self.states(),
    {
        assert(self.relays@ =~= self.states());
        self.relays.as_slice()
    }
}

/// The cell after `n` milliseconds.
pub open spec fn cell_ticks(c: RelayCell, n: nat) -> RelayCell
    decreases n,
{
    if n == 0 {
        c
    } else {
        cell_tick(cell_ticks(c, (n - 1) as nat))
    }
}

/// A relay that is not blinking keeps its state and steady output however
/// much time passes.
pub proof fn lemma_steady_relay_is_unaffected_by_time(c: RelayCell, n: nat)
    requires
        c.state.mode != RelayMode::Blink,
    ensures
        cell_ticks(c, n) == c,
    decreases n,
{
    if n > 0 {
        lemma_steady_relay_is_unaffected_by_time(c, (n - 1) as nat);
    }
}

/// Leaving Blink commands the steady output of the new mode at once: Off
/// drives the relay off and On drives it on.
pub proof fn lemma_leaving_blink_sets_steady_output(c: RelayCell, mode: RelayMode)
    requires
        mode != RelayMode::Blink,
    ensures
        cell_set_mode(c, mode).output == (mode == RelayMode::On),
        cell_wf(cell_set_mode(c, mode)),
{
}

/// A blinking relay holds its output until its running half-cycle ends and
/// toggles exactly then, starting a half-cycle of its stored speed: after
/// `n` < `k` milliseconds of a half-cycle with `k` left, the output is
/// unchanged with `k - n` left; after `k` it has toggled.
pub proof fn lemma_blink_holds_until_boundary(c: RelayCell, n: nat)
    requires
        c.state.mode == RelayMode::Blink,
        c.countdown >= 1,
        n <= c.countdown,
    ensures
        cell_ticks(c, n).state == c.state,
        n < c.countdown ==> cell_ticks(c, n).output == c.output && cell_ticks(c, n).countdown
            == c.countdown - n,
        n == c.countdown ==> cell_ticks(c, n).output == !c.output && cell_ticks(c, n).countdown
            == half_cycle_ms(c.state.speed_ms) as int,
    decreases n,
{
    if n > 0 {
        lemma_blink_holds_until_boundary(c, (n - 1) as nat);
    }
}

/// Entering Blink from another mode turns the relay on at once, and with its
/// speed unchanged the relay is on exactly during the even half-cycles: `n`
/// milliseconds later its output is on iff `n / s` is even, where `s` is the
/// half-cycle of its speed, and `s - n % s` milliseconds remain until the
/// next toggle.
pub proof fn lemma_blink_square_wave(c: RelayCell, n: nat)
    requires
        c.state.mode != RelayMode::Blink,
        half_cycle_ms(c.state.speed_ms) >= 1,
    ensures
        ({
            let s = half_cycle_ms(c.state.speed_ms) as int;
            let b = cell_ticks(cell_set_mode(c, RelayMode::Blink), n);
            &&& b.state == cell_set_mode(c, RelayMode::Blink).state
            &&& b.output == ((n as int / s) % 2 == 0)
            &&& b.countdown == s - (n as int % s)
        }),
    decreases n,
{
    let s = half_cycle_ms(c.state.speed_ms) as int;
    if n == 0 {
        assert(0int / s == 0) by (nonlinear_arith)
            requires
                s >= 1,
        ;
        assert(0int % s == 0) by (nonlinear_arith)
            requires
                s >= 1,
        ;
    } else {
        let m = (n - 1) as nat;
        lemma_blink_square_wave(c, m);
        let q = m as int / s;
        let r = m as int % s;
        vstd::arithmetic::div_mod::lemma_fundamental_div_mod(m as int, s);
        assert(0 <= r < s) by {
            vstd::arithmetic::div_mod::lemma_mod_bound(m as int, s);
        }
        if r + 1 < s {
            assert(n as int == q * s + (r + 1)) by (nonlinear_arith)
                requires
                    m as int == s * q + r,
                    n == m + 1,
            ;
            vstd::arithmetic::div_mod::lemma_fundamental_div_mod_converse(n as int, s, q, r + 1);
        } else {
            assert(n as int == (q + 1) * s + 0) by (nonlinear_arith)
                requires
                    m as int == s * q + r,
                    n == m + 1,
                    r + 1 == s,
            ;
            vstd::arithmetic::div_mod::lemma_fundamental_div_mod_converse(n as int, s, q + 1, 0);
        }
    }
}

/// Blink timing: the half-cycle is the stored speed in milliseconds. A relay
/// entering Blink at stored speed `s` (at least 1) is on for exactly `s` ticks,
/// then off for `s` ticks, and so on: after `n` ticks its output is on
/// exactly when `n / s` is even.
pub proof fn lemma_blink_half_cycle_is_the_speed(c: RelayCell, n: nat)
    requires
        c.state.mode != RelayMode::Blink,
        c.state.speed_ms >= 1,
    ensures
        cell_ticks(cell_set_mode(c, RelayMode::Blink), n).output == ((n as int / c.state.speed_ms as int)
            % 2 == 0),
        n < c.state.speed_ms ==> cell_ticks(cell_set_mode(c, RelayMode::Blink), n).output,
        c.state.speed_ms <= n < 2 * c.state.speed_ms ==> !cell_ticks(
            cell_set_mode(c, RelayMode::Blink),
            n,
        ).output,
{
    let s = c.state.speed_ms as int;
    assert(half_cycle_ms(c.state.speed_ms) as int == s);
    lemma_blink_square_wave(c, n);
    if n < s {
        vstd::arithmetic::div_mod::lemma_basic_div(n as int, s);
    } else if n < 2 * s {
        vstd::arithmetic::div_mod::lemma_fundamental_div_mod_converse(n as int, s, 1, n - s);
    }
}

} // verus!
