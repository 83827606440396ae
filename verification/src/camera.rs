//! The editor camera's input: what the mouse and the keys mean. The camera's
//! floats stay with the host, which does what it is told.

use vstd::prelude::*;

verus! {

/// What the mouse is held for.
#[derive(Clone, Copy, Debug, PartialEq, Eq, Structural)]
pub enum CaptureMode {
    Idle,
    Fly,
    Orbit,
    Pan,
}

/// The mouse buttons.
#[derive(Clone, Copy, Debug, PartialEq, Eq, Structural)]
pub enum Button {
    Left,
    Right,
    Middle,
    Other,
}

/// The keys that move the camera.
#[derive(Clone, Copy, Debug, PartialEq, Eq, Structural)]
pub enum Key {
    W,
    S,
    A,
    D,
    Q,
    E,
    Other,
}

/// What becomes of the cursor.
#[derive(Clone, Copy, Debug, PartialEq, Eq, Structural)]
pub enum CursorAction {
    Keep,
    Grab,
    Release,
}

/// What a mouse movement means.
#[derive(Clone, Copy, Debug, PartialEq, Eq, Structural)]
pub enum Motion {
    Ignore,
    /// Turn the camera.
    Look,
    /// Turn the camera, and move it round the pivot.
    Orbit,
    /// Move the camera and the pivot sideways.
    Pan,
}

/// What scrolling means.
#[derive(Clone, Copy, Debug, PartialEq, Eq, Structural)]
pub enum Scroll {
    Ignore,
    /// Fly faster or slower.
    FlySpeed,
    /// Move towards the pivot or away from it.
    Dolly,
}

/// A flight: which way, along each axis, and whether fast.
#[derive(Clone, Copy, Debug, PartialEq, Eq, Structural)]
pub struct Flight {
    pub forward: i8,
    pub right: i8,
    pub up: i8,
    pub fast: bool,
}

/// The state of the camera's input.
#[derive(Clone, Copy, Debug, PartialEq, Eq, Structural)]
pub struct EditorCamera {
    pub capture: CaptureMode,
    pub alt: bool,
    pub shift: bool,
    pub key_fwd: bool,
    pub key_back: bool,
    pub key_left: bool,
    pub key_right: bool,
    pub key_up: bool,
    pub key_down: bool,
}

/// What a button captures the mouse for.
pub open spec fn captures(button: Button) -> CaptureMode {
    match button {
        Button::Right => CaptureMode::Fly,
        Button::Left => CaptureMode::Orbit,
        Button::Middle => CaptureMode::Pan,
        Button::Other => CaptureMode::Idle,
    }
}

/// One way, the other, or neither.
pub open spec fn axis(plus: bool, minus: bool) -> int {
    (if plus {
        1int
    } else {
        0
    }) - (if minus {
        1int
    } else {
        0
    })
}

fn along(plus: bool, minus: bool) -> (a: i8)
    ensures
        a == axis(plus, minus),
{
    if plus && !minus {
        1
    } else if minus && !plus {
        -1
    } else {
        0
    }
}

impl EditorCamera {
    /// Nothing is pressed.
    pub fn new() -> (camera: EditorCamera)
        ensures
            camera == (EditorCamera {
                capture: CaptureMode::Idle,
                alt: false,
                shift: false,
                key_fwd: false,
                key_back: false,
                key_left: false,
                key_right: false,
                key_up: false,
                key_down: false,
            }),
    {
        EditorCamera {
            capture: CaptureMode::Idle,
            alt: false,
            shift: false,
            key_fwd: false,
            key_back: false,
            key_left: false,
            key_right: false,
            key_up: false,
            key_down: false,
        }
    }

    /// Whether the mouse is held.
    pub fn is_capturing(&self) -> (yes: bool)
        ensures
            yes == (self.capture != CaptureMode::Idle),
    {
        self.capture != CaptureMode::Idle
    }

    /// Whether pressing a button captures the mouse.
    pub open spec fn starts(self, button: Button, pressed: bool, hovered: bool) -> bool {
        &&& pressed
        &&& hovered
        &&& self.capture == CaptureMode::Idle
        &&& button != Button::Other
        &&& button == Button::Left ==> self.alt
    }

    /// Whether letting a button go lets the mouse go.
    pub open spec fn ends(self, button: Button, pressed: bool) -> bool {
        !pressed && button != Button::Other && self.capture == captures(button)
    }

    /// A mouse button was pressed or let go; `hovered` tells whether the mouse is
    /// over the viewport. Returns what becomes of the cursor. When an orbit
    /// begins, the host measures the distance to the pivot.
    pub fn on_mouse_button(&mut self, button: Button, pressed: bool, hovered: bool) -> (action:
        CursorAction)
        ensures
            action == (if old(self).starts(button, pressed, hovered) {
                CursorAction::Grab
            } else if old(self).ends(button, pressed) {
                CursorAction::Release
            } else {
                CursorAction::Keep
            }),
            *final(self) == (EditorCamera {
                capture: if old(self).starts(button, pressed, hovered) {
                    captures(button)
                } else if old(self).ends(button, pressed) {
                    CaptureMode::Idle
                } else {
                    old(self).capture
                },
                ..*old(self)
            }),
    {
        match button {
            Button::Right => {
                if pressed && hovered && self.capture == CaptureMode::Idle {
                    self.capture = CaptureMode::Fly;
                    CursorAction::Grab
                } else if !pressed && self.capture == CaptureMode::Fly {
                    self.capture = CaptureMode::Idle;
                    CursorAction::Release
                } else {
                    CursorAction::Keep
                }
            },
            Button::Left => {
                if pressed && self.alt && hovered && self.capture == CaptureMode::Idle {
                    self.capture = CaptureMode::Orbit;
                    CursorAction::Grab
                } else if !pressed && self.capture == CaptureMode::Orbit {
                    self.capture = CaptureMode::Idle;
                    CursorAction::Release
                } else {
                    CursorAction::Keep
                }
            },
            Button::Middle => {
                if pressed && hovered && self.capture == CaptureMode::Idle {
                    self.capture = CaptureMode::Pan;
                    CursorAction::Grab
                } else if !pressed && self.capture == CaptureMode::Pan {
                    self.capture = CaptureMode::Idle;
                    CursorAction::Release
                } else {
                    CursorAction::Keep
                }
            },
            Button::Other => CursorAction::Keep,
        }
    }

    /// What a mouse movement means.
    pub fn on_raw_mouse_delta(&self) -> (motion: Motion)
        ensures
            motion == (match self.capture {
                CaptureMode::Idle => Motion::Ignore,
                CaptureMode::Fly => Motion::Look,
                CaptureMode::Orbit => Motion::Orbit,
                CaptureMode::Pan => Motion::Pan,
            }),
    {
        match self.capture {
            CaptureMode::Idle => Motion::Ignore,
            CaptureMode::Fly => Motion::Look,
            CaptureMode::Orbit => Motion::Orbit,
            CaptureMode::Pan => Motion::Pan,
        }
    }

    /// What scrolling does.
    pub open spec fn scrolled(self, hovered: bool) -> Scroll {
        if !hovered && self.capture == CaptureMode::Idle {
            Scroll::Ignore
        } else if self.capture == CaptureMode::Fly {
            Scroll::FlySpeed
        } else {
            Scroll::Dolly
        }
    }

    /// What scrolling means.
    pub fn on_scroll(&self, hovered: bool) -> (scroll: Scroll)
        ensures
            scroll == self.scrolled(hovered),
            scroll == (if !hovered && self.capture == CaptureMode::Idle {
                Scroll::Ignore
            } else if self.capture == CaptureMode::Fly {
                Scroll::FlySpeed
            } else {
                Scroll::Dolly
            }),
    {
        if !hovered && !self.is_capturing() {
            return Scroll::Ignore;
        }
        if self.capture == CaptureMode::Fly {
            Scroll::FlySpeed
        } else {
            Scroll::Dolly
        }
    }

    /// The camera after a key was pressed or let go.
    pub open spec fn keyed(self, key: Key, pressed: bool) -> EditorCamera {
        match key {
            Key::W => EditorCamera { key_fwd: pressed, ..self },
            Key::S => EditorCamera { key_back: pressed, ..self },
            Key::A => EditorCamera { key_left: pressed, ..self },
            Key::D => EditorCamera { key_right: pressed, ..self },
            Key::Q => EditorCamera { key_down: pressed, ..self },
            Key::E => EditorCamera { key_up: pressed, ..self },
            Key::Other => self,
        }
    }

    /// Where the pressed keys lead: forward, right and up.
    pub open spec fn heading(self) -> (int, int, int) {
        (
            axis(self.key_fwd, self.key_back),
            axis(self.key_right, self.key_left),
            axis(self.key_up, self.key_down),
        )
    }

    /// A key was pressed or let go.
    pub fn on_key(&mut self, key: Key, pressed: bool)
        ensures
            *final(self) == old(self).keyed(key, pressed),
            *final(self) == (match key {
                Key::W => EditorCamera { key_fwd: pressed, ..*old(self) },
                Key::S => EditorCamera { key_back: pressed, ..*old(self) },
                Key::A => EditorCamera { key_left: pressed, ..*old(self) },
                Key::D => EditorCamera { key_right: pressed, ..*old(self) },
                Key::Q => EditorCamera { key_down: pressed, ..*old(self) },
                Key::E => EditorCamera { key_up: pressed, ..*old(self) },
                Key::Other => *old(self),
            }),
    {
        match key {
            Key::W => {
                self.key_fwd = pressed;
            },
            Key::S => {
                self.key_back = pressed;
            },
            Key::A => {
                self.key_left = pressed;
            },
            Key::D => {
                self.key_right = pressed;
            },
            Key::Q => {
                self.key_down = pressed;
            },
            Key::E => {
                self.key_up = pressed;
            },
            Key::Other => {},
        }
    }

    /// The modifier keys have changed.
    pub fn on_modifiers(&mut self, alt: bool, shift: bool)
        ensures
            *final(self) == (EditorCamera { alt, shift, ..*old(self) }),
    {
        self.alt = alt;
        self.shift = shift;
    }

    /// Where the camera flies in this frame, if it flies at all.
    pub fn update(&self) -> (flight: Option<Flight>)
        ensures
            flight is Some <==> self.capture == CaptureMode::Fly,
            flight matches Some(f) ==> {
                &&& f.forward == axis(self.key_fwd, self.key_back)
                &&& f.right == axis(self.key_right, self.key_left)
                &&& f.up == axis(self.key_up, self.key_down)
                &&& f.fast == self.shift
            },
            flight matches Some(f) ==> (f.forward as int, f.right as int, f.up as int)
                == self.heading(),
    {
        if self.capture != CaptureMode::Fly {
            return None;
        }
        Some(
            Flight {
                forward: along(self.key_fwd, self.key_back),
                right: along(self.key_right, self.key_left),
                up: along(self.key_up, self.key_down),
                fast: self.shift,
            },
        )
    }
}

/// Whether the cursor is grabbed after an action, if it was before.
pub open spec fn grabbed(before: bool, action: CursorAction) -> bool {
    match action {
        CursorAction::Keep => before,
        CursorAction::Grab => true,
        CursorAction::Release => false,
    }
}

/// The cursor is grabbed exactly while the mouse is held, and it is grabbed and
/// released in turn. A capture ends only with the button that began it.
pub proof fn cursor_follows_capture(
    before: EditorCamera,
    button: Button,
    pressed: bool,
    hovered: bool,
    action: CursorAction,
    after: EditorCamera,
)
    requires
        action == (if before.starts(button, pressed, hovered) {
            CursorAction::Grab
        } else if before.ends(button, pressed) {
            CursorAction::Release
        } else {
            CursorAction::Keep
        }),
        after.capture == (if before.starts(button, pressed, hovered) {
            captures(button)
        } else if before.ends(button, pressed) {
            CaptureMode::Idle
        } else {
            before.capture
        }),
    ensures
        grabbed(before.capture != CaptureMode::Idle, action) == (after.capture
            != CaptureMode::Idle),
        action == CursorAction::Grab ==> before.capture == CaptureMode::Idle,
        action == CursorAction::Release ==> before.capture != CaptureMode::Idle,
        before.capture != CaptureMode::Idle && after.capture != before.capture ==> !pressed
            && before.capture == captures(button),
{
}

/// Where a key leads: forward, right and up.
pub open spec fn direction(key: Key) -> (int, int, int) {
    match key {
        Key::W => (1, 0, 0),
        Key::S => (-1, 0, 0),
        Key::D => (0, 1, 0),
        Key::A => (0, -1, 0),
        Key::E => (0, 0, 1),
        Key::Q => (0, 0, -1),
        Key::Other => (0, 0, 0),
    }
}

/// A key that is held adds its own direction to where the camera flies, and
/// nothing else, whatever other keys are held; letting it go takes that away
/// again. Keys that point in opposite directions cancel out. No key touches the
/// capture or the modifiers.
pub proof fn held_keys_add_up(camera: EditorCamera, key: Key)
    ensures
        ({
            let held = camera.keyed(key, true);
            let free = camera.keyed(key, false);
            &&& held.heading().0 == free.heading().0 + direction(key).0
            &&& held.heading().1 == free.heading().1 + direction(key).1
            &&& held.heading().2 == free.heading().2 + direction(key).2
            &&& camera == held || camera == free
            &&& (held.capture, held.alt, held.shift) == (camera.capture, camera.alt, camera.shift)
        }),
{
}

/// The mouse is captured only by a press over the viewport, while it is free, and
/// by the left button only with the modifier held; every such press of one of the
/// three buttons does capture it, each for something else. Letting go ends a
/// capture wherever the mouse is.
pub proof fn captures_begin_in_the_viewport(
    camera: EditorCamera,
    button: Button,
    other: Button,
    pressed: bool,
    hovered: bool,
)
    ensures
        camera.starts(button, pressed, hovered) ==> {
            &&& pressed && hovered && camera.capture == CaptureMode::Idle
            &&& button == Button::Left ==> camera.alt
            &&& captures(button) != CaptureMode::Idle
        },
        camera.capture == CaptureMode::Idle && pressed && hovered && (button == Button::Right
            || button == Button::Middle || button == Button::Left && camera.alt)
            ==> camera.starts(button, pressed, hovered),
        captures(Button::Right) == CaptureMode::Fly,
        captures(Button::Left) == CaptureMode::Orbit,
        captures(Button::Middle) == CaptureMode::Pan,
        camera.ends(button, pressed) <==> !pressed && camera.capture != CaptureMode::Idle
            && camera.capture == captures(button),
        button != other ==> captures(button) != captures(other),
{
}

/// Scrolling works over the viewport and during a capture, and nowhere else; it
/// changes the speed of a flight, and otherwise the distance.
pub proof fn scrolling_follows_the_capture(camera: EditorCamera, hovered: bool)
    ensures
        camera.scrolled(hovered) == Scroll::Ignore <==> !hovered && camera.capture
            == CaptureMode::Idle,
        camera.scrolled(hovered) == Scroll::FlySpeed <==> camera.capture == CaptureMode::Fly,
{
}

} // verus!
