use ja_2026::action::{apply_global_action, apply_relay_action, apply_speed_action, Action};
use ja_2026::config::{RELAY_COUNT, SPEED_LEVELS_MS};
use ja_2026::relay::{RelayBank, RelayMode};

#[test]
fn speed_up_then_down_restores_levels_other_than_the_shortest() {
    let mut bank = RelayBank::new();
    let speeds = [1200, 800, 500, 300, 1200, 800, 500, 300];
    for (i, &s) in speeds.iter().enumerate() {
        bank.set_speed(i, s);
    }
    apply_speed_action(&mut bank, Action::SpeedAllUp);
    apply_speed_action(&mut bank, Action::SpeedAllDown);
    for (i, &s) in speeds.iter().enumerate() {
        assert_eq!(bank.relay(i).speed_ms, s);
    }
}

#[test]
fn speed_down_then_up_restores_levels_other_than_the_longest() {
    let mut bank = RelayBank::new();
    let speeds = [150, 800, 500, 300, 150, 800, 500, 300];
    for (i, &s) in speeds.iter().enumerate() {
        bank.set_speed(i, s);
    }
    apply_speed_action(&mut bank, Action::SpeedAllDown);
    apply_speed_action(&mut bank, Action::SpeedAllUp);
    for (i, &s) in speeds.iter().enumerate() {
        assert_eq!(bank.relay(i).speed_ms, s);
    }
}

#[test]
fn speed_actions_land_on_table_levels_from_any_speed() {
    for start in [0u16, 1, 149, 151, 299, 1000, 1201, 65535] {
        for action in [Action::SpeedAllUp, Action::SpeedAllDown] {
            let mut bank = RelayBank::new();
            bank.set_speed(0, start);
            apply_speed_action(&mut bank, action);
            assert!(SPEED_LEVELS_MS.contains(&bank.relay(0).speed_ms));
        }
    }
    let mut bank = RelayBank::new();
    bank.set_speed(0, 1000);
    apply_speed_action(&mut bank, Action::SpeedAllUp);
    assert_eq!(bank.relay(0).speed_ms, 800);
    bank.set_speed(0, 1000);
    apply_speed_action(&mut bank, Action::SpeedAllDown);
    assert_eq!(bank.relay(0).speed_ms, 1200);
    bank.set_speed(0, 100);
    apply_speed_action(&mut bank, Action::SpeedAllUp);
    assert_eq!(bank.relay(0).speed_ms, 150);
    bank.set_speed(0, 2000);
    apply_speed_action(&mut bank, Action::SpeedAllDown);
    assert_eq!(bank.relay(0).speed_ms, 1200);
}

#[test]
fn speed_actions_keep_modes_and_outputs() {
    let mut bank = RelayBank::new();
    bank.set_mode(0, RelayMode::On);
    bank.set_mode(1, RelayMode::Blink);
    apply_speed_action(&mut bank, Action::SpeedAllUp);
    assert_eq!(bank.relay(0).mode, RelayMode::On);
    assert_eq!(bank.relay(1).mode, RelayMode::Blink);
    assert!(bank.relay_output(0));
    assert!(bank.relay_output(1));
}

#[test]
fn toggle_power_twice_restores_a_steady_mode() {
    let mut bank = RelayBank::new();
    apply_relay_action(&mut bank, Action::TogglePower(2));
    apply_relay_action(&mut bank, Action::TogglePower(2));
    assert_eq!(bank.relay(2).mode, RelayMode::Off);
    bank.set_mode(2, RelayMode::On);
    apply_relay_action(&mut bank, Action::TogglePower(2));
    apply_relay_action(&mut bank, Action::TogglePower(2));
    assert_eq!(bank.relay(2).mode, RelayMode::On);
}

#[test]
fn relay_actions_touch_only_their_relay() {
    let mut bank = RelayBank::new();
    apply_relay_action(&mut bank, Action::ToggleBlink(6));
    for i in 0..RELAY_COUNT {
        let expected = if i == 6 { RelayMode::Blink } else { RelayMode::Off };
        assert_eq!(bank.relay(i).mode, expected);
    }
}

#[test]
fn out_of_range_and_foreign_actions_change_nothing() {
    let mut bank = RelayBank::new();
    apply_relay_action(&mut bank, Action::TogglePower(8));
    apply_relay_action(&mut bank, Action::ToggleBlink(100));
    apply_relay_action(&mut bank, Action::GlobalPower);
    apply_global_action(&mut bank, Action::TogglePower(0));
    apply_global_action(&mut bank, Action::Reserved);
    apply_speed_action(&mut bank, Action::GlobalBlink);
    for i in 0..RELAY_COUNT {
        assert_eq!(bank.relay(i).mode, RelayMode::Off);
        assert_eq!(bank.relay(i).speed_ms, 500);
    }
}

#[test]
fn global_power_twice_from_all_off_ends_all_off() {
    let mut bank = RelayBank::new();
    apply_global_action(&mut bank, Action::GlobalPower);
    for i in 0..RELAY_COUNT {
        assert_eq!(bank.relay(i).mode, RelayMode::On);
    }
    apply_global_action(&mut bank, Action::GlobalPower);
    for i in 0..RELAY_COUNT {
        assert_eq!(bank.relay(i).mode, RelayMode::Off);
    }
}

#[test]
fn global_blink_keeps_a_running_blink_phase() {
    let mut bank = RelayBank::new();
    bank.set_mode(0, RelayMode::Blink);
    for _ in 0..200 {
        bank.tick_1ms();
    }
    apply_global_action(&mut bank, Action::GlobalBlink);
    for _ in 0..299 {
        bank.tick_1ms();
    }
    assert!(bank.relay_output(0));
    bank.tick_1ms();
    assert!(!bank.relay_output(0));
}
