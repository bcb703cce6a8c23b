//! Semantic actions and the pure mode/speed transitions they cause.
//! Every relay owns its speed; no state is shared between relays.
use vstd::prelude::*;

use crate::config::{
    included_in_global, spec_included_in_global, speed_level, speed_level_ms, RELAY_COUNT,
    SPEED_LEVEL_COUNT,
};
use crate::relay::{cell_set_mode, cell_set_speed, RelayBank, RelayCell, RelayMode};

verus! {

/// Semantic actions resolved from input mapping.
#[derive(Copy, Clone, Debug, PartialEq, Eq, Structural)]
pub enum Action {
    /// Toggle single relay power (Off -> On; On or Blink -> Off).
    TogglePower(usize),
    /// Toggle single relay blink (Off or On -> Blink; Blink -> On).
    ToggleBlink(usize),
    /// Set all included relays On if they are all Off, else all Off.
    GlobalPower,
    /// Force all included relays to Blink, preserving their speeds.
    GlobalBlink,
    /// Move every relay's speed toward shorter half-cycles.
    SpeedAllUp,
    /// Move every relay's speed toward longer half-cycles.
    SpeedAllDown,
    /// Reserved / no-op action.
    Reserved,
}

/// The mode a relay takes on `TogglePower`.
pub open spec fn toggle_power_mode(mode: RelayMode) -> RelayMode {
    match mode {
        RelayMode::Off => RelayMode::On,
        _ => RelayMode::Off,
    }
}

/// The mode a relay takes on `ToggleBlink`.
pub open spec fn toggle_blink_mode(mode: RelayMode) -> RelayMode {
    match mode {
        RelayMode::Blink => RelayMode::On,
        _ => RelayMode::Blink,
    }
}

/// Index of the speed level one step shorter than `c`: the first level of the
/// table (longest first) that is strictly shorter than `c`, or the shortest
/// level when there is none.
pub open spec fn faster_level_index(c: int) -> int {
    if (speed_level(0) as int) < c {
        0
    } else if (speed_level(1) as int) < c {
        1
    } else if (speed_level(2) as int) < c {
        2
    } else if (speed_level(3) as int) < c {
        3
    } else {
        4
    }
}

/// Index of the speed level one step longer than `c`: the last level of the
/// table (longest first) that is strictly longer than `c`, or the longest
/// level when there is none.
pub open spec fn slower_level_index(c: int) -> int {
    if (speed_level(4) as int) > c {
        4
    } else if (speed_level(3) as int) > c {
        3
    } else if (speed_level(2) as int) > c {
        2
    } else if (speed_level(1) as int) > c {
        1
    } else {
        0
    }
}

/// The relays after a single-relay action.
pub open spec fn relay_action_cells(cells: Seq<RelayCell>, action: Action) -> Seq<RelayCell> {
    match action {
        Action::TogglePower(i) => if i < RELAY_COUNT {
            cells.update(i as int, cell_set_mode(cells[i as int], toggle_power_mode(cells[i as int].state.mode)))
        } else {
            cells
        },
        Action::ToggleBlink(i) => if i < RELAY_COUNT {
            cells.update(i as int, cell_set_mode(cells[i as int], toggle_blink_mode(cells[i as int].state.mode)))
        } else {
            cells
        },
        _ => cells,
    }
}

/// Whether every relay included in the global actions is Off.
pub open spec fn all_included_off(cells: Seq<RelayCell>) -> bool {
    forall|i: int|
        0 <= i < RELAY_COUNT && spec_included_in_global(i) ==> #[trigger] cells[i].state.mode
            == RelayMode::Off
}

/// Every included relay set to `mode`; the others unchanged.
pub open spec fn set_included(cells: Seq<RelayCell>, mode: RelayMode) -> Seq<RelayCell> {
    Seq::new(
        cells.len(),
        |i: int|
            if spec_included_in_global(i) {
                cell_set_mode(cells[i], mode)
            } else {
                cells[i]
            },
    )
}

/// The relays after a global mode action.
pub open spec fn global_action_cells(cells: Seq<RelayCell>, action: Action) -> Seq<RelayCell> {
    match action {
        Action::GlobalPower => set_included(
            cells,
            if all_included_off(cells) {
                RelayMode::On
            } else {
                RelayMode::Off
            },
        ),
        Action::GlobalBlink => set_included(cells, RelayMode::Blink),
        _ => cells,
    }
}

/// The relays after a speed action.
pub open spec fn speed_action_cells(cells: Seq<RelayCell>, action: Action) -> Seq<RelayCell> {
    match action {
        Action::SpeedAllUp => Seq::new(
            cells.len(),
            |i: int|
                cell_set_speed(
                    cells[i],
                    speed_level(faster_level_index(cells[i].state.speed_ms as int)),
                ),
        ),
        Action::SpeedAllDown => Seq::new(
            cells.len(),
            |i: int|
                cell_set_speed(
                    cells[i],
                    speed_level(slower_level_index(cells[i].state.speed_ms as int)),
                ),
        ),
        _ => cells,
    }
}

/// The search for a shorter level stops at the first level that is not longer
/// than `c`.
proof fn lemma_faster_found(c: int, i: int)
    requires
        0 <= i < 5,
        forall|j: int| 0 <= j < i ==> c < #[trigger] speed_level(j),
        speed_level(i) <= c,
    ensures
        faster_level_index(c) == (if speed_level(i) < c {
            i
        } else if i + 1 < 5 {
            i + 1
        } else {
            4
        }),
{
    if i >= 1 {
        assert(c < speed_level(0));
    }
    if i >= 2 {
        assert(c < speed_level(1));
    }
    if i >= 3 {
        assert(c < speed_level(2));
    }
    if i >= 4 {
        assert(c < speed_level(3));
    }
}

/// The search for a longer level stops at the last level that is not shorter
/// than `c`.
proof fn lemma_slower_found(c: int, i: int)
    requires
        0 <= i < 5,
        forall|j: int| i < j < 5 ==> c > #[trigger] speed_level(j),
        speed_level(i) >= c,
    ensures
        slower_level_index(c) == (if speed_level(i) > c {
            i
        } else if i == 0 {
            0
        } else {
            i - 1
        }),
{
    if i <= 3 {
        assert(c > speed_level(4));
    }
    if i <= 2 {
        assert(c > speed_level(3));
    }
    if i <= 1 {
        assert(c > speed_level(2));
    }
    if i <= 0 {
        assert(c > speed_level(1));
    }
}

/// The relays after one action is dispatched to the single-relay, global and
/// speed handlers in turn (each ignores the actions it does not handle).
pub open spec fn dispatch_cells(cells: Seq<RelayCell>, action: Action) -> Seq<RelayCell> {
    speed_action_cells(global_action_cells(relay_action_cells(cells, action), action), action)
}

/// The relays after the first `n` emitted actions are dispatched in order;
/// `None` entries are skipped.
pub open spec fn dispatch_all(cells: Seq<RelayCell>, actions: Seq<Option<Action>>, n: int) -> Seq<
    RelayCell,
>
    decreases n,
{
    if n <= 0 {
        cells
    } else {
        let prev = dispatch_all(cells, actions, n - 1);
        match actions[n - 1] {
            Some(a) => dispatch_cells(prev, a),
            None => prev,
        }
    }
}

/// Index of the speed level that a speed action moves `current_speed_ms` to:
/// one step shorter for `up`, one step longer otherwise, clamped at the ends
/// of the table. A speed between two levels moves to the neighbouring level
/// in the requested direction.
fn nearest_speed_index(current_speed_ms: u16, up: bool) -> (idx: usize)
    ensures
        idx < SPEED_LEVEL_COUNT,
        idx == (if up {
            faster_level_index(current_speed_ms as int)
        } else {
            slower_level_index(current_speed_ms as int)
        }),
{
    if up {
        let mut i: usize = 0;
        while i < SPEED_LEVEL_COUNT
            invariant
                up,
                0 <= i <= SPEED_LEVEL_COUNT,
                forall|j: int| 0 <= j < i ==> current_speed_ms < #[trigger] speed_level(j),
            decreases SPEED_LEVEL_COUNT - i,
        {
            let level = speed_level_ms(i);
            if current_speed_ms >= level {
                proof {
                    lemma_faster_found(current_speed_ms as int, i as int);
                }
            }
            if current_speed_ms > level {
                return i;
            } else if current_speed_ms == level {
                return if i + 1 < SPEED_LEVEL_COUNT {
                    i + 1
                } else {
                    SPEED_LEVEL_COUNT - 1
                };
            }
            i = i + 1;
        }
        SPEED_LEVEL_COUNT - 1
    } else {
        let mut i: usize = SPEED_LEVEL_COUNT;
        while i > 0
            invariant
                !up,
                0 <= i <= SPEED_LEVEL_COUNT,
                forall|j: int| i <= j < SPEED_LEVEL_COUNT ==> current_speed_ms > #[trigger] speed_level(j),
            decreases i,
        {
            let level = speed_level_ms(i - 1);
            if current_speed_ms <= level {
                proof {
                    lemma_slower_found(current_speed_ms as int, i - 1);
                }
            }
            if current_speed_ms < level {
                return i - 1;
            } else if current_speed_ms == level {
                return if i - 1 == 0 {
                    0
                } else {
                    i - 2
                };
            }
            i = i - 1;
        }
        0
    }
}

/// Apply a single-relay action (`TogglePower`, `ToggleBlink`); other actions
/// and out-of-range relay indices leave the bank unchanged.
pub fn apply_relay_action(bank: &mut RelayBank, action: Action)
    requires
        old(bank).wf(),
    ensures
        final(bank).wf(),
        final(bank).cells() == relay_action_cells(old(bank).cells(), action),
{
    match action {
        Action::TogglePower(relay_idx) => {
            if relay_idx < RELAY_COUNT {
                let relay = bank.relay(relay_idx);
                let new_mode = match relay.mode {
                    RelayMode::Off => RelayMode::On,
                    RelayMode::On | RelayMode::Blink => RelayMode::Off,
                };
                bank.set_mode(relay_idx, new_mode);
            }
        },
        Action::ToggleBlink(relay_idx) => {
            if relay_idx < RELAY_COUNT {
                let relay = bank.relay(relay_idx);
                let new_mode = match relay.mode {
                    RelayMode::Off | RelayMode::On => RelayMode::Blink,
                    RelayMode::Blink => RelayMode::On,
                };
                bank.set_mode(relay_idx, new_mode);
            }
        },
        _ => {},
    }
}

/// Set every included relay to `mode`.
fn set_all_included(bank: &mut RelayBank, mode: RelayMode)
    requires
        old(bank).wf(),
    ensures
        final(bank).wf(),
        final(bank).cells() == set_included(old(bank).cells(), mode),
{
    let ghost before = bank.cells();
    let mut i: usize = 0;
    while i < RELAY_COUNT
        invariant
            0 <= i <= RELAY_COUNT,
            bank.wf(),
            before.len() == RELAY_COUNT,
            bank.cells().len() == RELAY_COUNT,
            forall|j: int|
                0 <= j < i ==> #[trigger] bank.cells()[j] == set_included(before, mode)[j],
            forall|j: int| i <= j < RELAY_COUNT ==> #[trigger] bank.cells()[j] == before[j],
        decreases RELAY_COUNT - i,
    {
        if included_in_global(i) {
            bank.set_mode(i, mode);
        }
        i = i + 1;
    }
    assert(bank.cells() =~= set_included(before, mode));
}

/// Apply a global mode action (`GlobalPower`, `GlobalBlink`) to every
/// included relay; other actions leave the bank unchanged. Speeds are kept.
pub fn apply_global_action(bank: &mut RelayBank, action: Action)
    requires
        old(bank).wf(),
    ensures
        final(bank).wf(),
        final(bank).cells() == global_action_cells(old(bank).cells(), action),
{
    match action {
        Action::GlobalPower => {
            let mut all_off = true;
            let mut i: usize = 0;
            while i < RELAY_COUNT
                invariant
                    0 <= i <= RELAY_COUNT,
                    bank.wf(),
                    all_off == forall|j: int|
                        0 <= j < i && spec_included_in_global(j) ==> #[trigger] bank.cells()[j].state.mode
                            == RelayMode::Off,
                decreases RELAY_COUNT - i,
            {
                if included_in_global(i) && bank.relay(i).mode != RelayMode::Off {
                    all_off = false;
                }
                i = i + 1;
            }
            let new_mode = if all_off {
                RelayMode::On
            } else {
                RelayMode::Off
            };
            set_all_included(bank, new_mode);
        },
        Action::GlobalBlink => {
            set_all_included(bank, RelayMode::Blink);
        },
        _ => {},
    }
}

/// Apply a speed action: `SpeedAllUp` moves each relay one level toward
/// shorter half-cycles, `SpeedAllDown` one level toward longer ones, each
/// relay independently and clamped at the ends of the table. Modes are kept.
pub fn apply_speed_action(bank: &mut RelayBank, action: Action)
    requires
        old(bank).wf(),
    ensures
        final(bank).wf(),
        final(bank).cells() == speed_action_cells(old(bank).cells(), action),
{
    let up = match action {
        Action::SpeedAllUp => true,
        Action::SpeedAllDown => false,
        _ => {
            return ;
        },
    };
    let ghost before = bank.cells();
    let mut i: usize = 0;
    while i < RELAY_COUNT
        invariant
            0 <= i <= RELAY_COUNT,
            bank.wf(),
            up == (action == Action::SpeedAllUp),
            action == Action::SpeedAllUp || action == Action::SpeedAllDown,
            before.len() == RELAY_COUNT,
            bank.cells().len() == RELAY_COUNT,
            forall|j: int|
                0 <= j < i ==> #[trigger] bank.cells()[j] == speed_action_cells(before, action)[j],
            forall|j: int| i <= j < RELAY_COUNT ==> #[trigger] bank.cells()[j] == before[j],
        decreases RELAY_COUNT - i,
    {
        let relay = bank.relay(i);
        let new_idx = nearest_speed_index(relay.speed_ms, up);
        let new_speed_ms = speed_level_ms(new_idx);
        bank.set_speed(i, new_speed_ms);
        i = i + 1;
    }
    assert(bank.cells() =~= speed_action_cells(before, action));
}

/// Whether `v` is one of the speed table's levels.
pub open spec fn is_speed_level(v: u16) -> bool {
    exists|k: int| 0 <= k < SPEED_LEVEL_COUNT && v == #[trigger] speed_level(k)
}

/// A speed action always leaves every relay on a level of the speed table.
pub proof fn lemma_speed_actions_land_on_levels(cells: Seq<RelayCell>, action: Action, i: int)
    requires
        action == Action::SpeedAllUp || action == Action::SpeedAllDown,
        0 <= i < cells.len(),
    ensures
        is_speed_level(speed_action_cells(cells, action)[i].state.speed_ms),
{
    let c = cells[i].state.speed_ms as int;
    if action == Action::SpeedAllUp {
        let k = faster_level_index(c);
        assert(speed_level(k) == speed_action_cells(cells, action)[i].state.speed_ms);
    } else {
        let k = slower_level_index(c);
        assert(speed_level(k) == speed_action_cells(cells, action)[i].state.speed_ms);
    }
}

/// The relay's speed is the table level `k` for some `lo <= k < hi`.
pub open spec fn speed_level_in_range(c: RelayCell, lo: int, hi: int) -> bool {
    exists|k: int| lo <= k < hi && c.state.speed_ms == #[trigger] speed_level(k)
}

/// One step faster then one step slower returns every relay to its speed,
/// when every relay is on a level of the table other than the shortest; one
/// step slower then one step faster does the same for levels other than the
/// longest. Modes, outputs and running half-cycles are kept throughout.
pub proof fn lemma_speed_steps_undo_each_other(cells: Seq<RelayCell>)
    ensures
        (forall|i: int| 0 <= i < cells.len() ==> #[trigger] speed_level_in_range(cells[i], 0, 4))
            ==> speed_action_cells(speed_action_cells(cells, Action::SpeedAllUp), Action::SpeedAllDown)
            == cells,
        (forall|i: int| 0 <= i < cells.len() ==> #[trigger] speed_level_in_range(cells[i], 1, 5))
            ==> speed_action_cells(speed_action_cells(cells, Action::SpeedAllDown), Action::SpeedAllUp)
            == cells,
{
    let up = speed_action_cells(cells, Action::SpeedAllUp);
    let down = speed_action_cells(cells, Action::SpeedAllDown);
    if forall|i: int| 0 <= i < cells.len() ==> #[trigger] speed_level_in_range(cells[i], 0, 4) {
        let back = speed_action_cells(up, Action::SpeedAllDown);
        assert forall|i: int| 0 <= i < cells.len() implies #[trigger] back[i] == cells[i] by {
            assert(speed_level_in_range(cells[i], 0, 4));
            let k = choose|k: int| 0 <= k < 4 && cells[i].state.speed_ms == #[trigger] speed_level(k);
            assert(speed_level(k) == cells[i].state.speed_ms);
        }
        assert(back =~= cells);
    }
    if forall|i: int| 0 <= i < cells.len() ==> #[trigger] speed_level_in_range(cells[i], 1, 5) {
        let back = speed_action_cells(down, Action::SpeedAllUp);
        assert forall|i: int| 0 <= i < cells.len() implies #[trigger] back[i] == cells[i] by {
            assert(speed_level_in_range(cells[i], 1, 5));
            let k = choose|k: int| 1 <= k < 5 && cells[i].state.speed_ms == #[trigger] speed_level(k);
            assert(speed_level(k) == cells[i].state.speed_ms);
        }
        assert(back =~= cells);
    }
}

/// Speed actions change only speeds; mode actions never change a speed.
pub proof fn lemma_actions_keep_what_they_do_not_own(cells: Seq<RelayCell>, action: Action, i: int)
    requires
        0 <= i < cells.len(),
        cells.len() == RELAY_COUNT,
    ensures
        speed_action_cells(cells, action)[i].state.mode == cells[i].state.mode,
        speed_action_cells(cells, action)[i].output == cells[i].output,
        speed_action_cells(cells, action)[i].countdown == cells[i].countdown,
        relay_action_cells(cells, action)[i].state.speed_ms == cells[i].state.speed_ms,
        global_action_cells(cells, action)[i].state.speed_ms == cells[i].state.speed_ms,
{
}

/// A single-relay action changes no other relay.
pub proof fn lemma_relay_actions_are_local(cells: Seq<RelayCell>, action: Action, j: int)
    requires
        cells.len() == RELAY_COUNT,
        0 <= j < cells.len(),
        match action {
            Action::TogglePower(i) => i != j,
            Action::ToggleBlink(i) => i != j,
            _ => true,
        },
    ensures
        relay_action_cells(cells, action)[j] == cells[j],
{
    match action {
        Action::TogglePower(i) => {
            assert(i as int != j);
        },
        Action::ToggleBlink(i) => {
            assert(i as int != j);
        },
        _ => {},
    }
}

/// `TogglePower` twice restores a steady relay's mode; it turns a blinking
/// relay Off, and `ToggleBlink` turns a blinking relay On.
pub proof fn lemma_toggle_power_twice(mode: RelayMode)
    ensures
        mode != RelayMode::Blink ==> toggle_power_mode(toggle_power_mode(mode)) == mode,
        mode == RelayMode::Blink ==> toggle_power_mode(mode) == RelayMode::Off,
        mode == RelayMode::Blink ==> toggle_blink_mode(mode) == RelayMode::On,
        mode != RelayMode::Blink ==> toggle_blink_mode(mode) == RelayMode::Blink,
{
}

/// `GlobalPower` turns every included relay On when all are Off, and Off
/// otherwise; so pressed twice from all Off it leaves all Off again.
pub proof fn lemma_global_power_twice(cells: Seq<RelayCell>)
    requires
        cells.len() == RELAY_COUNT,
        all_included_off(cells),
    ensures
        forall|i: int|
            0 <= i < RELAY_COUNT && spec_included_in_global(i) ==> (#[trigger] global_action_cells(
                cells,
                Action::GlobalPower,
            )[i]).state.mode == RelayMode::On,
        all_included_off(
            global_action_cells(global_action_cells(cells, Action::GlobalPower), Action::GlobalPower),
        ),
{
    let once = global_action_cells(cells, Action::GlobalPower);
    if spec_included_in_global(0) {
        assert(once[0].state.mode == RelayMode::On);
        assert(!all_included_off(once));
    }
    assert(spec_included_in_global(0)) by {
        let mask: u8 = crate::config::GLOBAL_MODE_INCLUSION_MASK;
        assert((mask >> 0u8) & 1u8 == 1u8) by (bit_vector)
            requires
                mask == 0xFFu8,
        ;
    }
}

/// GlobalPower: when every included relay is Off, every included relay turns
/// On; when some included relay is not Off (On or blinking), every included
/// relay turns Off. Relays outside the global set are untouched.
pub proof fn lemma_global_power_all_on_or_all_off(cells: Seq<RelayCell>)
    requires
        cells.len() == RELAY_COUNT,
    ensures
        (forall|i: int|
            0 <= i < RELAY_COUNT && spec_included_in_global(i) ==> #[trigger] cells[i].state.mode
                == RelayMode::Off) ==> forall|i: int|
            0 <= i < RELAY_COUNT && spec_included_in_global(i) ==> #[trigger] global_action_cells(
                cells,
                Action::GlobalPower,
            )[i].state.mode == RelayMode::On,
        (exists|i: int|
            0 <= i < RELAY_COUNT && spec_included_in_global(i) && #[trigger] cells[i].state.mode
                != RelayMode::Off) ==> forall|i: int|
            0 <= i < RELAY_COUNT && spec_included_in_global(i) ==> #[trigger] global_action_cells(
                cells,
                Action::GlobalPower,
            )[i].state.mode == RelayMode::Off,
        forall|i: int|
            0 <= i < RELAY_COUNT && !spec_included_in_global(i) ==> #[trigger] global_action_cells(
                cells,
                Action::GlobalPower,
            )[i] == cells[i],
{
}

} // verus!
