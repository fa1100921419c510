use winit_input_map::input::{DEFAULT_MOUSE_SCALE, DEFAULT_PRESS_SENSITIVITY};
use winit_input_map::{
    clamp_len, isqrt, AxisSign, DeviceEvent, GamepadEvent, InputCode, InputMap, MouseButton,
    ScrollDelta, WindowEvent, UNIT,
};

const JUMP: u32 = 1;
const FIRE: u32 = 2;
const UNUSED: u32 = 9;

fn key(code: u32, pressed: bool) -> WindowEvent {
    WindowEvent::KeyboardInput { key: InputCode::Key(code), text: None, pressed }
}

fn typed(code: u32, text: &str) -> WindowEvent {
    WindowEvent::KeyboardInput { key: InputCode::Key(code), text: Some(text.to_string()), pressed: true }
}

fn motion(dx: i32, dy: i32) -> DeviceEvent {
    DeviceEvent::MouseMotion { dx, dy }
}

#[test]
fn new_has_defaults() {
    let input = InputMap::<u32>::new(&[]);
    assert_eq!(input.mouse_pos, (0, 0));
    assert_eq!(input.recently_pressed, None);
    assert_eq!(input.text_typed, None);
    assert_eq!(input.mouse_scale, DEFAULT_MOUSE_SCALE);
    assert_eq!(input.scroll_scale, 100);
    assert_eq!(input.press_sensitivity, DEFAULT_PRESS_SENSITIVITY);
    assert_eq!(DEFAULT_PRESS_SENSITIVITY, 500);
}

#[test]
fn empty_map_still_tracks_cursor_and_text() {
    let mut input = InputMap::<()>::empty();
    assert!(input.binds.is_empty());
    input.update_with_window_event(&WindowEvent::CursorMoved { x: 12_500, y: -3_000 });
    input.update_with_window_event(&typed(4, "q"));
    assert_eq!(input.mouse_pos, (12_500, -3_000));
    assert_eq!(input.text_typed.as_deref(), Some("q"));
    assert_eq!(input.recently_pressed, Some(InputCode::Key(4)));
}

#[test]
fn new_binds_in_order() {
    let input = InputMap::new(&[
        (JUMP, vec![InputCode::Key(1), InputCode::Key(2)]),
        (FIRE, vec![InputCode::Key(1)]),
    ]);
    assert_eq!(input.lookup(&InputCode::Key(1)), Some(&vec![JUMP, FIRE]));
    assert_eq!(input.lookup(&InputCode::Key(2)), Some(&vec![JUMP]));
    assert_eq!(input.lookup(&InputCode::Key(3)), None);
}

#[test]
fn bind_keeps_duplicates() {
    let mut input = InputMap::new(&[(JUMP, vec![InputCode::Key(1)])]);
    input.bind(InputCode::Key(1), JUMP);
    input.bind(InputCode::Mouse(MouseButton::Left), FIRE);
    assert_eq!(input.lookup(&InputCode::Key(1)), Some(&vec![JUMP, JUMP]));
    assert_eq!(input.lookup(&InputCode::Mouse(MouseButton::Left)), Some(&vec![FIRE]));
}

#[test]
fn unbound_action_stays_idle() {
    let mut input = InputMap::new(&[(JUMP, vec![InputCode::Key(1)])]);
    input.update_with_window_event(&key(1, true));
    input.update_with_window_event(&key(7, true));
    input.update_with_device_event(&motion(5_000, -5_000));
    input.update_gamepad(GamepadEvent::ButtonPressed { button: 0, id: 0 });
    assert_eq!(input.action_val(UNUSED), 0);
    assert!(!input.pressing(UNUSED));
    assert!(!input.pressed(UNUSED));
    assert!(!input.released(UNUSED));
    input.init();
    assert_eq!(input.action_val(UNUSED), 0);
}

#[test]
fn last_write_wins() {
    let mut input = InputMap::new(&[(JUMP, vec![InputCode::Key(1), InputCode::Key(2)])]);
    input.update_with_window_event(&key(1, true));
    assert_eq!(input.action_val(JUMP), UNIT);
    input.update_with_window_event(&key(2, false));
    assert_eq!(input.action_val(JUMP), 0);
    assert!(!input.pressing(JUMP));
}

#[test]
fn press_gives_pressed_edge_once() {
    let mut input = InputMap::new(&[(JUMP, vec![InputCode::Key(1)])]);
    input.update_with_window_event(&key(1, true));
    assert!(input.pressing(JUMP));
    assert!(input.pressed(JUMP));
    assert!(!input.released(JUMP));
    input.update_with_window_event(&key(1, true));
    assert!(!input.pressed(JUMP));
    assert!(input.pressing(JUMP));
}

#[test]
fn release_then_reset() {
    let mut input = InputMap::new(&[(JUMP, vec![InputCode::Key(1)])]);
    input.update_with_window_event(&key(1, true));
    input.init();
    assert!(!input.pressed(JUMP));
    assert!(input.pressing(JUMP));
    input.update_with_window_event(&key(1, false));
    assert!(input.released(JUMP));
    assert!(!input.pressed(JUMP));
    assert_eq!(input.action_val(JUMP), 0);
    input.init();
    assert!(!input.released(JUMP));
    assert_eq!(input.action_val(JUMP), 0);
}

#[test]
fn reset_keeps_held_keys() {
    let mut input = InputMap::new(&[(JUMP, vec![InputCode::Key(1)])]);
    input.update_with_window_event(&key(1, true));
    input.init();
    assert_eq!(input.action_val(JUMP), UNIT);
    assert!(input.pressing(JUMP));
    assert_eq!(input.recently_pressed, None);
}

#[test]
fn motion_accumulates_until_reset() {
    let right = InputCode::MouseMoveX(AxisSign::Pos);
    let left = InputCode::MouseMoveX(AxisSign::Neg);
    let mut input = InputMap::new(&[(JUMP, vec![right]), (FIRE, vec![left])]);
    input.update_with_device_event(&motion(2_000, 0));
    input.update_with_device_event(&motion(3_000, 0));
    assert_eq!(input.action_val(JUMP), 500);
    assert_eq!(input.action_val(FIRE), 0);
    assert!(input.pressing(JUMP));
    assert_eq!(input.recently_pressed, Some(right));
    input.init();
    assert_eq!(input.action_val(JUMP), 0);
    assert!(!input.pressing(JUMP));
}

#[test]
fn motion_negative_half() {
    let down = InputCode::MouseMoveY(AxisSign::Neg);
    let mut input = InputMap::new(&[(JUMP, vec![down])]);
    input.update_with_device_event(&motion(0, -4_000));
    assert_eq!(input.action_val(JUMP), 400);
    assert!(!input.pressing(JUMP));
    assert_eq!(input.recently_pressed, None);
}

#[test]
fn motion_saturates() {
    let right = InputCode::MouseMoveX(AxisSign::Pos);
    let mut input = InputMap::new(&[(JUMP, vec![right])]);
    input.mouse_scale = u32::MAX;
    input.update_with_device_event(&motion(i32::MAX, 0));
    input.update_with_device_event(&motion(i32::MAX, 0));
    assert_eq!(input.action_val(JUMP), u32::MAX);
}

#[test]
fn scroll_uses_both_axes() {
    let up = InputCode::MouseScroll(AxisSign::Pos);
    let left = InputCode::MouseScrollX(AxisSign::Neg);
    let mut input = InputMap::new(&[(JUMP, vec![up]), (FIRE, vec![left])]);
    input.update_with_device_event(&DeviceEvent::MouseWheel { delta: ScrollDelta::Lines(-2_000, 1_000) });
    assert_eq!(input.action_val(JUMP), 100);
    assert_eq!(input.action_val(FIRE), 200);
    input.update_with_device_event(&DeviceEvent::MouseWheel { delta: ScrollDelta::Pixels(0, 30_000) });
    assert_eq!(input.action_val(JUMP), 3_100);
    input.init();
    assert_eq!(input.action_val(JUMP), 0);
    assert_eq!(input.action_val(FIRE), 0);
}

#[test]
fn mouse_button_presses() {
    let mut input = InputMap::new(&[(FIRE, vec![InputCode::Mouse(MouseButton::Other(8))])]);
    input.update_with_window_event(&WindowEvent::MouseInput { pressed: true, button: MouseButton::Other(8) });
    assert!(input.pressed(FIRE));
    input.update_with_window_event(&WindowEvent::MouseInput { pressed: false, button: MouseButton::Other(8) });
    assert!(input.released(FIRE));
}

#[test]
fn text_accumulates_and_clears() {
    let mut input = InputMap::<u32>::new(&[]);
    input.update_with_window_event(&typed(1, "a"));
    input.update_with_window_event(&typed(2, "bc"));
    assert_eq!(input.text_typed.as_deref(), Some("abc"));
    input.update_with_window_event(&key(1, false));
    assert_eq!(input.text_typed, None);
    input.update_with_window_event(&typed(1, "z"));
    input.init();
    assert_eq!(input.text_typed, None);
}

#[test]
fn recently_pressed_unbound_key() {
    let mut input = InputMap::<u32>::new(&[]);
    input.update_with_window_event(&key(42, true));
    assert_eq!(input.recently_pressed, Some(InputCode::Key(42)));
    input.update_with_window_event(&key(42, false));
    assert_eq!(input.recently_pressed, Some(InputCode::Key(42)));
    input.init();
    assert_eq!(input.recently_pressed, None);
}

#[test]
fn gamepad_buttons_scoped_and_any() {
    let mut input = InputMap::new(&[
        (JUMP, vec![InputCode::gamepad_button(3)]),
        (FIRE, vec![InputCode::GamepadButtonOn(3, 2)]),
        (UNUSED, vec![InputCode::GamepadButtonOn(3, 1)]),
    ]);
    input.update_gamepad(GamepadEvent::ButtonPressed { button: 3, id: 2 });
    assert!(input.pressed(JUMP));
    assert!(input.pressed(FIRE));
    assert_eq!(input.action_val(UNUSED), 0);
    input.update_gamepad(GamepadEvent::ButtonChanged { button: 3, value: 300, id: 2 });
    assert_eq!(input.action_val(JUMP), 300);
    assert!(input.released(FIRE));
    input.update_gamepad(GamepadEvent::ButtonReleased { button: 3, id: 2 });
    assert_eq!(input.action_val(FIRE), 0);
    input.update_gamepad(GamepadEvent::Other);
    assert_eq!(input.action_val(JUMP), 0);
}

#[test]
fn gamepad_axis_halves() {
    let mut input = InputMap::new(&[
        (JUMP, vec![InputCode::gamepad_axis_pos(1)]),
        (FIRE, vec![InputCode::gamepad_axis_neg(1).set_gamepad_id(4)]),
    ]);
    input.update_gamepad(GamepadEvent::AxisChanged { axis: 1, position: -700, id: 4 });
    assert_eq!(input.action_val(JUMP), 0);
    assert_eq!(input.action_val(FIRE), 700);
    assert!(input.pressed(FIRE));
    assert_eq!(input.axis(JUMP, FIRE), -700);
    input.update_gamepad(GamepadEvent::AxisChanged { axis: 1, position: 250, id: 4 });
    assert_eq!(input.action_val(JUMP), 250);
    assert!(input.released(FIRE));
}

#[test]
fn set_gamepad_id_leaves_keys() {
    assert_eq!(InputCode::Key(3).set_gamepad_id(1), InputCode::Key(3));
    assert_eq!(
        InputCode::GamepadAxisOn(2, AxisSign::Pos, 1).set_gamepad_id(5),
        InputCode::GamepadAxisOn(2, AxisSign::Pos, 5)
    );
    assert_eq!(InputCode::keycode(7), InputCode::Key(7));
    assert_eq!(InputCode::mouse_button(MouseButton::Middle), InputCode::Mouse(MouseButton::Middle));
}

#[test]
fn high_sensitivity_never_presses() {
    let mut input = InputMap::new(&[(JUMP, vec![InputCode::Key(1)])]);
    input.press_sensitivity = 1_500;
    input.update_with_window_event(&key(1, true));
    assert_eq!(input.action_val(JUMP), UNIT);
    assert!(!input.pressing(JUMP));
    assert!(!input.pressed(JUMP));
}

#[test]
fn axis_of_unbound_is_zero() {
    let input = InputMap::<u32>::new(&[]);
    assert_eq!(input.axis(JUMP, FIRE), 0);
    assert_eq!(input.dir(JUMP, FIRE, UNUSED, 10), (0, 0));
}

#[test]
fn axis_and_dir() {
    let mut input = InputMap::new(&[
        (1, vec![InputCode::Key(1)]),
        (2, vec![InputCode::Key(2)]),
        (3, vec![InputCode::Key(3)]),
        (4, vec![InputCode::Key(4)]),
    ]);
    input.update_with_window_event(&key(2, true));
    input.update_with_window_event(&key(3, true));
    assert_eq!(input.axis(1, 2), -1_000);
    assert_eq!(input.dir(1, 2, 3, 4), (-1_000, 1_000));
    assert_eq!(input.dir_max_len_1(1, 2, 3, 4), (-706, 706));
}

#[test]
fn dir_max_len_1_scales_motion() {
    let mut input = InputMap::new(&[
        (1, vec![InputCode::MouseMoveX(AxisSign::Pos)]),
        (2, vec![InputCode::MouseMoveX(AxisSign::Neg)]),
        (3, vec![InputCode::MouseMoveY(AxisSign::Pos)]),
        (4, vec![InputCode::MouseMoveY(AxisSign::Neg)]),
    ]);
    input.update_with_device_event(&motion(30_000, 40_000));
    assert_eq!(input.dir(1, 2, 3, 4), (3_000, 4_000));
    assert_eq!(input.dir_max_len_1(1, 2, 3, 4), (600, 800));
}

#[test]
fn clamp_len_long_vector() {
    assert_eq!(clamp_len(3_000, 4_000), (600, 800));
    assert_eq!(clamp_len(-3_000, 4_000), (-600, 800));
    assert_eq!(clamp_len(0, -5_000), (0, -1_000));
}

#[test]
fn clamp_len_short_vector_unchanged() {
    assert_eq!(clamp_len(300, 400), (300, 400));
    assert_eq!(clamp_len(600, 800), (600, 800));
    assert_eq!(clamp_len(0, 0), (0, 0));
}

#[test]
fn clamp_len_largest_inputs() {
    let big: i64 = 0xffff_ffff;
    assert_eq!(clamp_len(big, 0), (1_000, 0));
    assert_eq!(clamp_len(-big, -big), (-707, -707));
}

#[test]
fn isqrt_values() {
    assert_eq!(isqrt(0), 0);
    assert_eq!(isqrt(24), 4);
    assert_eq!(isqrt(25), 5);
    assert_eq!(isqrt(25_000_000), 5_000);
    assert_eq!(isqrt(0x3_ffff_ffff_ffff_ffff), 0x1_ffff_ffff);
}

#[test]
fn clamp_len_never_exceeds_unit() {
    assert_eq!(clamp_len(1_000, 1), (999, 0));
    assert_eq!(clamp_len(-1_000, 1_000), (-706, 706));
    for &(x, y) in &[(1_000i64, 1i64), (1_001, 0), (999, 50), (-1_234, 5_678), (70_000, -1)] {
        let (rx, ry) = clamp_len(x, y);
        assert!(rx * rx + ry * ry <= 1_000_000);
    }
}

#[test]
fn scroll_uses_scroll_scale() {
    let up = InputCode::MouseScroll(AxisSign::Pos);
    let right = InputCode::MouseMoveX(AxisSign::Pos);
    let mut input = InputMap::new(&[(JUMP, vec![up]), (FIRE, vec![right])]);
    input.scroll_scale = 200;
    input.update_with_device_event(&DeviceEvent::MouseWheel { delta: ScrollDelta::Lines(0, 1_000) });
    input.update_with_device_event(&motion(1_000, 0));
    assert_eq!(input.action_val(JUMP), 200);
    assert_eq!(input.action_val(FIRE), 100);
}

#[test]
fn update_val_edges() {
    let mut input = InputMap::new(&[(JUMP, vec![InputCode::Key(1), InputCode::Key(2)])]);
    input.update_val(InputCode::Key(1), UNIT);
    assert!(input.pressed(JUMP));
    assert!(!input.released(JUMP));
    input.update_val(InputCode::Key(1), UNIT);
    assert!(!input.pressed(JUMP));
    assert!(input.pressing(JUMP));
    input.update_val(InputCode::Key(2), 0);
    assert_eq!(input.action_val(JUMP), 0);
    assert!(input.released(JUMP));
    assert!(!input.pressing(JUMP));
}

#[test]
fn empty_map_queries() {
    let mut input = InputMap::<()>::empty();
    input.update_val(InputCode::Key(3), UNIT);
    assert_eq!(input.action_val(()), 0);
    assert!(!input.pressed(()));
    assert_eq!(input.recently_pressed, Some(InputCode::Key(3)));
}
