use scene_pick::camera::CameraController;
use scene_pick::input::{
    Direction, InputState, Key, MouseButton, ANGLE_PER_PIXEL, PITCH_LIMIT, SPEED_FAST, SPEED_NORMAL,
    SPEED_SLOW,
};
use scene_pick::scene::NodeHandle;

fn controller() -> CameraController {
    CameraController::new(
        NodeHandle { index: 1, generation: 1 },
        NodeHandle { index: 2, generation: 1 },
    )
}

#[test]
fn new_controller_is_at_rest() {
    let c = controller();
    assert_eq!(c.input, InputState::new());
    assert_eq!(c.input.speed_quarters, SPEED_NORMAL);
    assert_eq!(c.input.pitch, 0);
    assert!(c.scene_context.previous.is_none());
    assert!(c.editor_context.pick_list.is_empty());
}

#[test]
fn movement_keys_set_and_clear_their_direction() {
    let mut c = controller();
    c.on_key_down(Key::W);
    c.on_key_down(Key::A);
    assert!(c.input.is_moving(Direction::Forward) && c.input.is_moving(Direction::Left));
    assert!(!c.input.is_moving(Direction::Backward) && !c.input.is_moving(Direction::Right));
    c.on_key_up(Key::W);
    assert!(!c.input.is_moving(Direction::Forward) && c.input.is_moving(Direction::Left));
    c.on_key_down(Key::S);
    c.on_key_down(Key::D);
    c.on_key_down(Key::E);
    assert!(c.input.is_moving(Direction::Backward) && c.input.is_moving(Direction::Right) && c.input.is_moving(Direction::Down));
}

#[test]
fn repeated_key_events_are_idempotent() {
    let mut c = controller();
    c.on_key_down(Key::D);
    let once = c.input;
    c.on_key_down(Key::D);
    c.on_key_down(Key::D);
    assert_eq!(c.input, once);
    c.on_key_up(Key::D);
    let released = c.input;
    c.on_key_up(Key::D);
    assert_eq!(c.input, released);
    assert!(!c.input.is_moving(Direction::Right));
}

#[test]
fn space_and_q_both_drive_up() {
    let mut c = controller();
    c.on_key_down(Key::Space);
    assert!(c.input.is_moving(Direction::Up));
    c.on_key_down(Key::Q);
    c.on_key_up(Key::Q);
    assert!(c.input.is_moving(Direction::Up));
    assert!(c.input.is_held(Key::Space) && !c.input.is_held(Key::Q));
    c.on_key_up(Key::Space);
    assert!(!c.input.is_moving(Direction::Up));
    c.on_key_down(Key::Q);
    assert!(c.input.is_moving(Direction::Up));
    c.on_key_up(Key::Space);
    assert!(c.input.is_moving(Direction::Up));
    let m = c.update();
    assert_eq!(m.up, 1);
    c.on_key_up(Key::Q);
    assert_eq!(c.update().up, 0);
}

#[test]
fn directions_follow_the_keys_held_down() {
    let mut c = controller();
    let events = [
        (Key::W, true), (Key::A, true), (Key::W, true), (Key::Space, true), (Key::Q, true),
        (Key::A, false), (Key::Space, false), (Key::E, true), (Key::W, false), (Key::W, false),
    ];
    for (k, down) in events {
        if down {
            c.on_key_down(k);
        } else {
            c.on_key_up(k);
        }
    }
    assert!(!c.input.is_moving(Direction::Forward));
    assert!(!c.input.is_moving(Direction::Left));
    assert!(c.input.is_moving(Direction::Up));
    assert!(c.input.is_moving(Direction::Down));
    assert!(!c.input.is_moving(Direction::Backward) && !c.input.is_moving(Direction::Right));
    assert!(!c.input.is_held(Key::Other));
}

#[test]
fn other_keys_change_nothing() {
    let mut c = controller();
    c.on_key_down(Key::W);
    let before = c.input;
    c.on_key_down(Key::Other);
    c.on_key_up(Key::Other);
    assert_eq!(c.input, before);
}

#[test]
fn speed_modifiers_last_event_wins() {
    let mut c = controller();
    assert_eq!(c.input.speed_quarters, SPEED_NORMAL);
    c.on_key_down(Key::LControl);
    assert_eq!(c.input.speed_quarters, SPEED_FAST);
    c.on_key_down(Key::LShift);
    assert_eq!(c.input.speed_quarters, SPEED_SLOW);
    c.on_key_up(Key::LShift);
    assert_eq!(c.input.speed_quarters, SPEED_NORMAL);
    c.on_key_down(Key::LShift);
    c.on_key_up(Key::LControl);
    assert_eq!(c.input.speed_quarters, SPEED_NORMAL);
    c.on_key_down(Key::LControl);
    assert_eq!(c.input.speed_quarters, SPEED_FAST);
    c.on_key_up(Key::LControl);
    assert_eq!(c.input.speed_quarters, SPEED_NORMAL);
}

#[test]
fn speed_factor_values() {
    assert_eq!(SPEED_NORMAL, 4);
    assert_eq!(SPEED_FAST, 8);
    assert_eq!(SPEED_SLOW, 1);
}

#[test]
fn mouse_move_rotates_only_while_rotating() {
    let mut c = controller();
    c.on_mouse_move(10, 20);
    assert_eq!(c.input.yaw, 0);
    assert_eq!(c.input.pitch, 0);
    c.on_mouse_button_down(MouseButton::Right);
    assert!(c.input.rotate);
    c.on_mouse_move(10, 20);
    assert_eq!(c.input.yaw, -10 * ANGLE_PER_PIXEL);
    assert_eq!(c.input.pitch, 20 * ANGLE_PER_PIXEL);
    assert_eq!(c.input.yaw, -100_000);
    c.on_mouse_button_up(MouseButton::Right);
    assert!(!c.input.rotate);
    c.on_mouse_move(10, 20);
    assert_eq!(c.input.yaw, -100_000);
}

#[test]
fn pitch_is_clamped_to_a_quarter_turn() {
    let mut c = controller();
    c.on_mouse_button_down(MouseButton::Right);
    c.on_mouse_move(0, 1000);
    assert_eq!(c.input.pitch, PITCH_LIMIT);
    c.on_mouse_move(0, 5);
    assert_eq!(c.input.pitch, PITCH_LIMIT);
    c.on_mouse_move(0, -1);
    assert_eq!(c.input.pitch, PITCH_LIMIT - ANGLE_PER_PIXEL);
    c.on_mouse_move(0, i32::MIN);
    assert_eq!(c.input.pitch, -PITCH_LIMIT);
    c.on_mouse_move(i32::MAX, i32::MAX);
    assert_eq!(c.input.pitch, PITCH_LIMIT);
    for dy in [3, -700, 250, 9999, -9999, 1, 0] {
        c.on_mouse_move(1, dy);
        assert!(c.input.pitch >= -PITCH_LIMIT && c.input.pitch <= PITCH_LIMIT);
    }
}

#[test]
fn pitch_limit_is_a_quarter_turn_in_microradians() {
    let quarter = std::f64::consts::FRAC_PI_2 * 1_000_000.0;
    assert!((PITCH_LIMIT as f64 - quarter).abs() < 1.0);
}

#[test]
fn drag_accumulates_and_update_consumes_it() {
    let mut c = controller();
    c.on_mouse_button_down(MouseButton::Middle);
    assert!(c.input.drag);
    c.on_mouse_move(3, -4);
    c.on_mouse_move(2, 1);
    assert_eq!(c.input.drag_side, -5);
    assert_eq!(c.input.drag_up, 3);
    assert_eq!(c.input.yaw, 0);
    let m = c.update();
    assert_eq!(m.drag_side, -5);
    assert_eq!(m.drag_up, 3);
    assert_eq!(c.input.drag_side, 0);
    assert_eq!(c.input.drag_up, 0);
    let m2 = c.update();
    assert_eq!(m2.drag_side, 0);
    c.on_mouse_button_up(MouseButton::Middle);
    c.on_mouse_move(3, 3);
    assert_eq!(c.input.drag_side, 0);
}

#[test]
fn left_and_other_buttons_change_nothing() {
    let mut c = controller();
    c.on_mouse_button_down(MouseButton::Left);
    c.on_mouse_button_down(MouseButton::Other);
    assert!(!c.input.rotate && !c.input.drag);
}

#[test]
fn update_reports_axes_and_speed() {
    let mut c = controller();
    let m = c.update();
    assert_eq!((m.look, m.side, m.up), (0, 0, 0));
    c.on_key_down(Key::W);
    c.on_key_down(Key::D);
    c.on_key_down(Key::Space);
    c.on_key_down(Key::LShift);
    let m = c.update();
    assert_eq!((m.look, m.side, m.up), (1, -1, 1));
    assert_eq!(m.speed_quarters, SPEED_SLOW);
    c.on_key_down(Key::S);
    c.on_key_down(Key::E);
    let m = c.update();
    assert_eq!((m.look, m.side, m.up), (0, -1, 0));
    c.on_key_up(Key::D);
    c.on_key_down(Key::A);
    let m = c.update();
    assert_eq!(m.side, 1);
}

#[test]
fn update_reports_angles() {
    let mut c = controller();
    c.on_mouse_button_down(MouseButton::Right);
    c.on_mouse_move(-3, 7);
    let m = c.update();
    assert_eq!(m.yaw, 30_000);
    assert_eq!(m.pitch, 70_000);
}

#[test]
fn yaw_saturates_instead_of_overflowing() {
    let mut c = controller();
    c.on_mouse_button_down(MouseButton::Right);
    for _ in 0..2_000_000 {
        c.on_mouse_move(i32::MIN, 0);
        if c.input.yaw == i64::MAX {
            break;
        }
    }
    assert_eq!(c.input.yaw, i64::MAX);
    c.on_mouse_move(i32::MIN, 0);
    assert_eq!(c.input.yaw, i64::MAX);
}
