use ja_2026::engine::{Display, Snapshot};
use ja_2026::scene::{
    ButtonCycleSelector, IdleScene, RotateScene, Scene, SceneContext, SceneId, SceneManager,
    SceneSelector,
};

fn ctx_with(tick: u32, inputs: &[usize], relays: &[usize]) -> SceneContext {
    let mut current = Snapshot::default();
    current.tick = tick;
    for &i in inputs {
        current.input_state[i] = true;
    }
    for &r in relays {
        current.relay_state[r] = true;
    }
    SceneContext { current, previous: Snapshot::default() }
}

#[test]
fn selector_cycles_on_rising_edges_only() {
    let mut sel = ButtonCycleSelector::new(3);
    assert_eq!(sel.next_scene(&ctx_with(0, &[3], &[]), SceneId::Idle), SceneId::Rotate);
    // Held: no further change.
    assert_eq!(sel.next_scene(&ctx_with(1, &[3], &[]), SceneId::Rotate), SceneId::Rotate);
    assert_eq!(sel.next_scene(&ctx_with(2, &[], &[]), SceneId::Rotate), SceneId::Rotate);
    assert_eq!(sel.next_scene(&ctx_with(3, &[3], &[]), SceneId::Rotate), SceneId::Idle);
}

#[test]
fn idle_scene_blanks_everything() {
    let mut idle = IdleScene;
    assert_eq!(idle.id(), SceneId::Idle);
    let c = idle.update(&ctx_with(5, &[0, 1], &[2, 3]));
    assert_eq!(c.relay_state, [false; 8]);
    assert_eq!(c.display.0, [0; 4]);
}

#[test]
fn rotate_scene_steps_forward_from_the_first_on_relay() {
    let mut rot = RotateScene::new(2);
    assert_eq!(rot.id(), SceneId::Rotate);
    let c = rot.update(&ctx_with(4, &[0], &[3, 5]));
    let mut expected = [false; 8];
    expected[4] = true;
    assert_eq!(c.relay_state, expected);
    assert_eq!(c.display.0, [0, 0, 0, 2]);
    // Not a step tick: the outputs are kept.
    let c = rot.update(&ctx_with(5, &[], &[4]));
    assert_eq!(c.relay_state, expected);
}

#[test]
fn rotate_scene_steps_backward_and_wraps() {
    let mut rot = RotateScene::new(0);
    let c = rot.update(&ctx_with(7, &[], &[]));
    let mut expected = [false; 8];
    expected[7] = true;
    assert_eq!(c.relay_state, expected);
    assert_eq!(c.display.0, [0, 0, 0, 1]);
}

#[test]
fn rotate_speed_stays_between_one_and_five_thousand() {
    let mut rot = RotateScene::new(4999);
    rot.update(&ctx_with(1, &[1], &[]));
    let c = rot.update(&ctx_with(1, &[1], &[]));
    assert_eq!(c.display.0, [5, 0, 0, 0]);
    let mut slow = RotateScene::new(1);
    let c = slow.update(&ctx_with(1, &[2], &[]));
    assert_eq!(c.display.0, [0, 0, 0, 1]);
}

#[test]
fn manager_switches_scenes_with_the_selector() {
    let mut m = SceneManager::new(ButtonCycleSelector::new(3), SceneId::Idle, 1);
    let c = m.update(&ctx_with(0, &[], &[]));
    assert_eq!(m.active_scene(), SceneId::Idle);
    assert_eq!(c.relay_state, [false; 8]);
    let c = m.update(&ctx_with(1, &[3], &[]));
    assert_eq!(m.active_scene(), SceneId::Rotate);
    let mut expected = [false; 8];
    expected[7] = true;
    assert_eq!(c.relay_state, expected);
    let _ = Display::from(0u16);
}
