use toy_physics::input::{InputData, Key, KEY_COOLDOWN_MS, KEY_COUNT, MOUSE_DRAG_THRESHOLD};
use toy_physics::space::{vec2, ScreenSpace, Vec2};

const ALL_KEYS: [Key; 13] = [
    Key::Space,
    Key::Tab,
    Key::ArrowUp,
    Key::ArrowDown,
    Key::ArrowRight,
    Key::KeyA,
    Key::KeyC,
    Key::KeyD,
    Key::KeyR,
    Key::KeyS,
    Key::KeyW,
    Key::Minus,
    Key::Equal,
];

fn at(x: i32, y: i32) -> Vec2<i32, ScreenSpace> {
    vec2(x, y)
}

#[test]
fn keys_have_distinct_slots() {
    assert_eq!(KEY_COUNT, ALL_KEYS.len());
    let mut seen = [false; KEY_COUNT];
    for key in ALL_KEYS {
        let i = key.index();
        assert!(i < KEY_COUNT);
        assert!(!seen[i]);
        seen[i] = true;
    }
}

#[test]
fn nothing_is_held_or_tapped_at_the_start() {
    let inputs = InputData::new(5_000);
    for key in ALL_KEYS {
        assert!(!inputs.is_held(key));
        assert!(!inputs.is_pressed(key));
    }
    assert_eq!(inputs.tap_cooldowns, [5_000; KEY_COUNT]);
    assert!(!inputs.mouse_down);
    assert!(!inputs.was_mouse_pressed());
    assert!(!inputs.was_mouse_released());
    assert!(!inputs.is_mouse_dragging());
    assert!(!inputs.was_mouse_dragging());
    assert_eq!(inputs.mouse, at(0, 0));
}

#[test]
fn a_press_after_the_cooldown_is_a_tap() {
    let mut inputs = InputData::new(0);
    inputs.register_key(Key::Space, true, 101);
    assert!(inputs.is_held(Key::Space));
    assert!(inputs.is_pressed(Key::Space));
    assert_eq!(inputs.tap_cooldowns[Key::Space.index()], 101);
    for key in ALL_KEYS {
        if key != Key::Space {
            assert!(!inputs.is_held(key));
            assert!(!inputs.is_pressed(key));
        }
    }
}

#[test]
fn a_press_within_the_cooldown_changes_nothing() {
    assert_eq!(KEY_COOLDOWN_MS, 100);
    let mut inputs = InputData::new(1_000);
    inputs.register_key(Key::Tab, true, 1_050);
    assert!(!inputs.is_held(Key::Tab));
    assert!(!inputs.is_pressed(Key::Tab));
    // Exactly the cooldown is not yet more than the cooldown.
    inputs.register_key(Key::Tab, true, 1_100);
    assert!(!inputs.is_pressed(Key::Tab));
    inputs.register_key(Key::Tab, true, 1_101);
    assert!(inputs.is_pressed(Key::Tab));
    assert!(inputs.is_held(Key::Tab));
}

#[test]
fn a_clock_that_ran_backwards_gives_no_tap() {
    let mut inputs = InputData::new(1_000);
    inputs.register_key(Key::KeyC, true, 10);
    assert!(!inputs.is_pressed(Key::KeyC));
    assert_eq!(inputs.tap_cooldowns[Key::KeyC.index()], 1_000);
}

#[test]
fn a_held_key_taps_once_per_cooldown() {
    let mut inputs = InputData::new(0);
    let mut taps = 0;
    // The key goes down at 1000 and the system repeats it every 30 ms; a
    // frame ends every 16 ms.
    let mut next_repeat = 1_000;
    let mut now = 1_000;
    while now <= 1_100 {
        while next_repeat <= now {
            inputs.register_key(Key::ArrowUp, true, next_repeat);
            next_repeat += 30;
        }
        if inputs.is_pressed(Key::ArrowUp) {
            taps += 1;
        }
        assert!(inputs.is_held(Key::ArrowUp));
        inputs.end_frame();
        assert!(!inputs.is_pressed(Key::ArrowUp));
        now += 16;
    }
    assert_eq!(taps, 1);
    assert_eq!(inputs.tap_cooldowns[Key::ArrowUp.index()], 1_000);
    // The first repeat after the cooldown counts again.
    inputs.register_key(Key::ArrowUp, true, 1_120);
    assert!(inputs.is_pressed(Key::ArrowUp));
    assert_eq!(inputs.tap_cooldowns[Key::ArrowUp.index()], 1_120);
}

#[test]
fn a_release_clears_held_whatever_the_cooldown() {
    let mut inputs = InputData::new(0);
    inputs.register_key(Key::KeyW, true, 500);
    assert!(inputs.is_held(Key::KeyW));
    inputs.register_key(Key::KeyW, false, 501);
    assert!(!inputs.is_held(Key::KeyW));
    // The tap of this frame is still there, and so is the cooldown.
    assert!(inputs.is_pressed(Key::KeyW));
    assert_eq!(inputs.tap_cooldowns[Key::KeyW.index()], 500);
}

#[test]
fn end_frame_forgets_taps_and_keeps_what_is_held() {
    let mut inputs = InputData::new(0);
    inputs.register_key(Key::KeyA, true, 200);
    inputs.register_key(Key::KeyD, true, 200);
    inputs.end_frame();
    assert!(!inputs.is_pressed(Key::KeyA));
    assert!(!inputs.is_pressed(Key::KeyD));
    assert!(inputs.is_held(Key::KeyA));
    assert!(inputs.is_held(Key::KeyD));
    assert_eq!(inputs.tap_cooldowns[Key::KeyA.index()], 200);
}

#[test]
fn a_press_marks_where_the_button_went_down() {
    let mut inputs = InputData::new(0);
    inputs.register_cursor(at(10, 10));
    inputs.register_mouse_button(true);
    assert!(inputs.mouse_down);
    assert!(inputs.was_mouse_pressed());
    assert!(!inputs.was_mouse_released());
    assert_eq!(inputs.mouse_pressed.pos, at(10, 10));
    // Holding the button is no second press.
    inputs.end_frame();
    inputs.register_mouse_button(true);
    assert!(!inputs.was_mouse_pressed());
    assert!(inputs.mouse_down);
}

#[test]
fn a_drag_needs_more_than_the_threshold() {
    assert_eq!(MOUSE_DRAG_THRESHOLD, 4);
    let mut inputs = InputData::new(0);
    inputs.register_cursor(at(10, 10));
    inputs.register_mouse_button(true);
    assert!(!inputs.is_mouse_dragging());
    inputs.register_cursor(at(14, 10));
    assert!(!inputs.is_mouse_dragging());
    inputs.register_cursor(at(13, 13));
    assert!(inputs.is_mouse_dragging());
    inputs.register_cursor(at(10, 15));
    assert!(inputs.is_mouse_dragging());
    assert!(!inputs.was_mouse_dragging());
    inputs.register_mouse_button(false);
    assert!(!inputs.is_mouse_dragging());
    assert!(inputs.was_mouse_dragging());
    assert!(inputs.was_mouse_released());
    assert_eq!(inputs.mouse_released.pos, at(10, 15));
    inputs.end_frame();
    assert!(!inputs.was_mouse_dragging());
    assert!(!inputs.was_mouse_released());
}

#[test]
fn a_click_is_no_drag() {
    let mut inputs = InputData::new(0);
    inputs.register_cursor(at(100, 100));
    inputs.register_mouse_button(true);
    inputs.register_cursor(at(102, 101));
    inputs.register_mouse_button(false);
    assert!(inputs.was_mouse_pressed());
    assert!(inputs.was_mouse_released());
    assert!(!inputs.was_mouse_dragging());
}

#[test]
fn a_release_without_a_press_is_ignored() {
    let mut inputs = InputData::new(0);
    inputs.register_mouse_button(false);
    assert!(!inputs.was_mouse_released());
    assert!(!inputs.mouse_down);
}

#[test]
fn a_drag_across_the_whole_range_does_not_overflow() {
    let mut inputs = InputData::new(0);
    inputs.register_cursor(at(i32::MIN, i32::MIN));
    inputs.register_mouse_button(true);
    inputs.register_cursor(at(i32::MAX, i32::MAX));
    assert!(inputs.is_mouse_dragging());
}
