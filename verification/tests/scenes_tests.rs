use ja_2026::engine::Snapshot;
use ja_2026::scenes::manager::SceneManager;
use ja_2026::scenes::rotate::RotateScene;
use ja_2026::scenes::selector::ButtonCycleSelector;
use ja_2026::scenes::types::{Scene, SceneContext, SceneId};

fn ctx_with(tick: u32, inputs: &[usize], relays: &[usize]) -> SceneContext {
    let mut current = Snapshot::default();
    current.tick = tick;
    for &i in inputs {
        current.input_state[i] = true;
    }
    for &r in relays {
        current.relay_state[r] = true;
    }
    SceneContext { current, previous: Snapshot::default() }
}

#[test]
fn without_lag_the_left_relay_turns_off_on_the_step() {
    let mut rot = RotateScene::new(1, 0);
    rot.on_enter(&ctx_with(0, &[], &[2]));
    let c = rot.update(&ctx_with(10, &[0], &[2]));
    let mut expected = [false; 8];
    expected[3] = true;
    assert_eq!(c.relay_state, expected);
}

#[test]
fn with_lag_the_left_relay_stays_on_until_its_time() {
    let mut rot = RotateScene::new(10, 3);
    rot.on_enter(&ctx_with(0, &[], &[2]));
    let c = rot.update(&ctx_with(10, &[0], &[2]));
    assert!(c.relay_state[2]);
    assert!(c.relay_state[3]);
    let c = rot.update(&ctx_with(12, &[0], &[2, 3]));
    assert!(c.relay_state[2]);
    let c = rot.update(&ctx_with(13, &[0], &[2, 3]));
    assert!(!c.relay_state[2]);
    assert!(c.relay_state[3]);
    assert_eq!(c.display.0, [0, 0, 1, 0]);
}

#[test]
fn manager_with_lag_enters_rotate_from_the_current_outputs() {
    let mut m = SceneManager::new(ButtonCycleSelector::new(0), SceneId::Rotate, 1, 0);
    let c = m.update(&ctx_with(4, &[], &[5]));
    assert_eq!(m.active_scene(), SceneId::Rotate);
    let mut expected = [false; 8];
    expected[4] = true;
    assert_eq!(c.relay_state, expected);
    let c = m.update(&ctx_with(5, &[0], &[4]));
    assert_eq!(m.active_scene(), SceneId::Idle);
    assert_eq!(c.relay_state, [false; 8]);
}
