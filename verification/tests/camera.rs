use gl_renderer::camera::{
    Button, CaptureMode, CursorAction, EditorCamera, Flight, Key, Motion, Scroll,
};

#[test]
fn right_button_flies() {
    let mut camera = EditorCamera::new();
    assert!(!camera.is_capturing());
    assert_eq!(camera.on_mouse_button(Button::Right, true, true), CursorAction::Grab);
    assert_eq!(camera.capture, CaptureMode::Fly);
    assert!(camera.is_capturing());
    assert_eq!(camera.on_raw_mouse_delta(), Motion::Look);
    assert_eq!(camera.on_scroll(false), Scroll::FlySpeed);
    assert_eq!(camera.on_mouse_button(Button::Right, false, false), CursorAction::Release);
    assert_eq!(camera.capture, CaptureMode::Idle);
}

#[test]
fn left_button_orbits_only_with_alt() {
    let mut camera = EditorCamera::new();
    assert_eq!(camera.on_mouse_button(Button::Left, true, true), CursorAction::Keep);
    camera.on_modifiers(true, false);
    assert_eq!(camera.on_mouse_button(Button::Left, true, true), CursorAction::Grab);
    assert_eq!(camera.on_raw_mouse_delta(), Motion::Orbit);
    assert_eq!(camera.on_scroll(false), Scroll::Dolly);
    camera.on_modifiers(false, false);
    assert_eq!(camera.on_mouse_button(Button::Left, false, true), CursorAction::Release);
}

#[test]
fn middle_button_pans() {
    let mut camera = EditorCamera::new();
    assert_eq!(camera.on_mouse_button(Button::Middle, true, false), CursorAction::Keep);
    assert_eq!(camera.on_mouse_button(Button::Middle, true, true), CursorAction::Grab);
    assert_eq!(camera.on_raw_mouse_delta(), Motion::Pan);
}

#[test]
fn a_capture_ends_with_its_own_button() {
    let mut camera = EditorCamera::new();
    camera.on_mouse_button(Button::Right, true, true);
    assert_eq!(camera.on_mouse_button(Button::Middle, true, true), CursorAction::Keep);
    assert_eq!(camera.on_mouse_button(Button::Middle, false, true), CursorAction::Keep);
    assert_eq!(camera.on_mouse_button(Button::Other, false, true), CursorAction::Keep);
    assert_eq!(camera.capture, CaptureMode::Fly);
    assert_eq!(camera.on_mouse_button(Button::Right, false, true), CursorAction::Release);
    assert_eq!(camera.on_mouse_button(Button::Right, false, true), CursorAction::Keep);
}

#[test]
fn idle_mouse_does_nothing() {
    let camera = EditorCamera::new();
    assert_eq!(camera.on_raw_mouse_delta(), Motion::Ignore);
    assert_eq!(camera.on_scroll(false), Scroll::Ignore);
    assert_eq!(camera.on_scroll(true), Scroll::Dolly);
    assert_eq!(camera.update(), None);
}

#[test]
fn keys_steer_the_flight() {
    let mut camera = EditorCamera::new();
    camera.on_mouse_button(Button::Right, true, true);
    camera.on_key(Key::W, true);
    camera.on_key(Key::A, true);
    camera.on_key(Key::E, true);
    camera.on_key(Key::Q, true);
    camera.on_key(Key::Other, true);
    camera.on_modifiers(false, true);
    assert_eq!(
        camera.update(),
        Some(Flight { forward: 1, right: -1, up: 0, fast: true })
    );
    camera.on_key(Key::W, false);
    camera.on_key(Key::S, true);
    camera.on_key(Key::A, false);
    camera.on_key(Key::D, true);
    camera.on_key(Key::E, false);
    camera.on_modifiers(false, false);
    assert_eq!(
        camera.update(),
        Some(Flight { forward: -1, right: 1, up: -1, fast: false })
    );
}
