use ja_2026::config::{BOOT_SPEED_MS, RELAY_COUNT};
use ja_2026::relay::{blink_half_cycle, RelayBank, RelayMode, RelayState};

#[test]
fn blink_output_is_a_square_wave_of_the_stored_half_cycle() {
    let mut bank = RelayBank::new();
    bank.set_speed(2, 3);
    bank.set_mode(2, RelayMode::Blink);
    for n in 0..20u32 {
        assert_eq!(bank.relay_output(2), (n / 3) % 2 == 0, "tick {}", n);
        bank.tick_1ms();
    }
}

#[test]
fn steady_relays_are_unaffected_by_time() {
    let mut bank = RelayBank::new();
    bank.set_mode(0, RelayMode::On);
    for _ in 0..1000 {
        bank.tick_1ms();
    }
    assert!(bank.relay_output(0));
    assert_eq!(bank.relay(0).mode, RelayMode::On);
    assert!(!bank.relay_output(1));
    assert_eq!(bank.relay(1).mode, RelayMode::Off);
}

#[test]
fn leaving_blink_on_the_off_phase_commands_steady_on() {
    let mut bank = RelayBank::new();
    bank.set_mode(3, RelayMode::Blink);
    for _ in 0..BOOT_SPEED_MS {
        bank.tick_1ms();
    }
    assert!(!bank.relay_output(3));
    bank.set_mode(3, RelayMode::On);
    assert!(bank.relay_output(3));
}

#[test]
fn new_bank_is_all_off_at_boot_speed() {
    let bank = RelayBank::new();
    for i in 0..RELAY_COUNT {
        assert_eq!(bank.relay(i), RelayState::new());
        assert!(!bank.relay_output(i));
    }
    assert_eq!(bank.relays().len(), RELAY_COUNT);
    assert_eq!(bank.as_slice()[7].speed_ms, BOOT_SPEED_MS);
}

#[test]
fn setting_a_speed_keeps_the_mode_and_other_relays() {
    let mut bank = RelayBank::new();
    bank.set_mode(1, RelayMode::On);
    bank.set_speed(1, 150);
    assert_eq!(bank.relay(1), RelayState::with_mode_and_speed(RelayMode::On, 150));
    assert_eq!(bank.relay(0), RelayState::new());
}

#[test]
fn blink_half_cycle_is_the_stored_speed() {
    assert_eq!(blink_half_cycle(800), 800);
}

#[test]
fn zero_speed_blinks_every_tick() {
    let mut bank = RelayBank::new();
    bank.set_speed(0, 0);
    bank.set_mode(0, RelayMode::Blink);
    bank.tick_1ms();
    let first = bank.relay_output(0);
    bank.tick_1ms();
    assert_ne!(bank.relay_output(0), first);
}
