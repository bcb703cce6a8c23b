//! Configuration: the single source of truth for counts, indices and
//! behavioural constants of the relay controller.
use vstd::prelude::*;

verus! {

/// Total number of relays controlled by the system.
pub const RELAY_COUNT: usize = 8;

/// Total number of built-in buttons (diagnostics only).
pub const BUTTON_COUNT: usize = 4;

/// Total number of external inputs (control actions).
pub const INPUT_COUNT: usize = 8;

/// Number of digits on the seven-segment display.
pub const DIGIT_COUNT: usize = 4;

/// Number of entries in the blink speed table.
pub const SPEED_LEVEL_COUNT: usize = 5;

/// Half-cycle duration table for relay blinking, in milliseconds, from the
/// longest to the shortest. Level 2 is the boot default.
pub const SPEED_LEVELS_MS: [u16; 5] = [1200, 800, 500, 300, 150];

/// Boot speed level for all relays (index into the speed table).
pub const BOOT_SPEED_LEVEL: usize = 2;

/// Boot speed value in milliseconds for all relays (the boot level's entry).
pub const BOOT_SPEED_MS: u16 = 500;

/// Bitmask of relays included in the global mode actions; bit N stands for
/// relay N. All eight relays are included.
pub const GLOBAL_MODE_INCLUSION_MASK: u8 = 0xFF;

/// Debounce threshold: a line accepts a new level after this many
/// consecutive 1 ms samples of it.
pub const DEBOUNCE_SAMPLES: u32 = 10;

/// Index of the external input that acts as Shift.
pub const SHIFT_INPUT: usize = 4;

/// How the Shift input is turned into a shifted/unshifted flag.
#[derive(Copy, Clone, Debug, PartialEq, Eq, Structural)]
pub enum ShiftMode {
    /// Shift is active exactly while its debounced level is high.
    Momentary,
}

/// The Shift policy in use.
pub const SHIFT_MODE: ShiftMode = ShiftMode::Momentary;

/// The speed table as a mathematical function of the level index.
pub open spec fn speed_level(level: int) -> u16 {
    if level == 0 {
        1200
    } else if level == 1 {
        800
    } else if level == 2 {
        500
    } else if level == 3 {
        300
    } else {
        150
    }
}

/// Read entry `level` of the speed table.
pub fn speed_level_ms(level: usize) -> (ms: u16)
    requires
        level < SPEED_LEVEL_COUNT,
    ensures
        ms == speed_level(level as int),
        ms == SPEED_LEVELS_MS@[level as int],
{
    SPEED_LEVELS_MS[level]
}

/// Whether relay `idx` takes part in the global mode actions.
pub open spec fn spec_included_in_global(idx: int) -> bool {
    0 <= idx < 8 && (GLOBAL_MODE_INCLUSION_MASK >> (idx as u8)) & 1u8 == 1u8
}

/// Whether relay `idx` takes part in the global mode actions (its bit in
/// [`GLOBAL_MODE_INCLUSION_MASK`] is set).
pub fn included_in_global(idx: usize) -> (b: bool)
    requires
        idx < RELAY_COUNT,
    ensures
        b == spec_included_in_global(idx as int),
        b,
{
    let bit: u8 = 1u8 << (idx as u8);
    let r = GLOBAL_MODE_INCLUSION_MASK & bit != 0;
    let mask: u8 = GLOBAL_MODE_INCLUSION_MASK;
    assert(r == ((mask >> (idx as u8)) & 1u8 == 1u8) && r) by (bit_vector)
        requires
            idx < 8,
            mask == 0xFFu8,
            bit == 1u8 << (idx as u8),
            r == (mask & bit != 0),
    ;
    r
}

} // verus!
