use vstd::prelude::*;

verus! {

/// The keys that steer the camera; every other key is `Other`.
#[derive(Debug, Clone, Copy, PartialEq, Eq, Structural)]
pub enum Key {
    Escape,
    W,
    S,
    A,
    D,
    Other,
}

/// What the window reports, as far as the camera is concerned.
#[derive(Debug, Clone, Copy, PartialEq, Eq, Structural)]
pub enum InputEvent {
    KeyDown(Key),
    KeyUp(Key),
    /// The mouse moved by `xrel` to the right and `yrel` down.
    MouseMotion { xrel: i32, yrel: i32 },
    /// The left mouse button went down.
    MouseLeftDown,
    Other,
}

/// What the caller is to do after an event.
#[derive(Debug, Clone, Copy, PartialEq, Eq, Structural)]
pub enum InputAction {
    Nothing,
    /// Give the mouse back to the desktop.
    ReleaseMouse,
    /// Keep the mouse in the window and report its moves.
    CaptureMouse,
    /// Turn the camera: pitch by `yrel`, then yaw by `xrel`, each divided by
    /// three.
    Look { xrel: i32, yrel: i32 },
}

/// The moves the camera is to make for one frame, in this order: to the left,
/// to the right, forward, backward.
#[derive(Debug, Clone, Copy, PartialEq, Eq, Structural)]
pub struct Moves {
    pub left: bool,
    pub right: bool,
    pub forward: bool,
    pub backward: bool,
}

/// What a handler holds: which of the four keys are down, whether the mouse is
/// captured, and whether the picture has to be drawn anew.
pub struct Controls {
    pub left: bool,
    pub right: bool,
    pub forward: bool,
    pub backward: bool,
    pub captured: bool,
    pub dirty: bool,
}

/// The state after an event.
pub open spec fn after_event(s: Controls, event: InputEvent) -> Controls {
    match event {
        InputEvent::KeyDown(Key::Escape) => Controls { captured: false, ..s },
        InputEvent::KeyDown(Key::W) => Controls { forward: true, ..s },
        InputEvent::KeyDown(Key::S) => Controls { backward: true, ..s },
        InputEvent::KeyDown(Key::A) => Controls { left: true, ..s },
        InputEvent::KeyDown(Key::D) => Controls { right: true, ..s },
        InputEvent::KeyUp(Key::W) => Controls { forward: false, ..s },
        InputEvent::KeyUp(Key::S) => Controls { backward: false, ..s },
        InputEvent::KeyUp(Key::A) => Controls { left: false, ..s },
        InputEvent::KeyUp(Key::D) => Controls { right: false, ..s },
        InputEvent::MouseMotion { .. } => if s.captured {
            Controls { dirty: true, ..s }
        } else {
            s
        },
        InputEvent::MouseLeftDown => Controls { captured: true, ..s },
        _ => s,
    }
}

/// What the caller is to do after an event that found the state `s`.
pub open spec fn action_for(s: Controls, event: InputEvent) -> InputAction {
    match event {
        InputEvent::KeyDown(Key::Escape) => InputAction::ReleaseMouse,
        InputEvent::MouseMotion { xrel, yrel } => if s.captured {
            InputAction::Look { xrel, yrel }
        } else {
            InputAction::Nothing
        },
        InputEvent::MouseLeftDown => InputAction::CaptureMouse,
        _ => InputAction::Nothing,
    }
}

/// Follows the keys and the mouse, and says how the camera is to move.
pub struct InputHandler {
    moving_left: bool,
    moving_right: bool,
    moving_forward: bool,
    moving_backward: bool,
    mouse_captured: bool,
    dirty: bool,
}

impl View for InputHandler {
    type V = Controls;

    closed spec fn view(&self) -> Controls {
        Controls {
            left: self.moving_left,
            right: self.moving_right,
            forward: self.moving_forward,
            backward: self.moving_backward,
            captured: self.mouse_captured,
            dirty: self.dirty,
        }
    }
}

impl InputHandler {
    /// A handler with no key down, the mouse free and nothing to draw.
    pub fn new() -> (handler: InputHandler)
        ensures
            handler@ == (Controls {
                left: false,
                right: false,
                forward: false,
                backward: false,
                captured: false,
                dirty: false,
            }),
    {
        InputHandler {
            moving_left: false,
            moving_right: false,
            moving_forward: false,
            moving_backward: false,
            mouse_captured: false,
            dirty: false,
        }
    }

    /// Takes one event in, and says what the caller is to do about it.
    pub fn process(&mut self, event: &InputEvent) -> (action: InputAction)
        ensures
            final(self)@ == after_event(old(self)@, *event),
            action == action_for(old(self)@, *event),
    {
        match *event {
            InputEvent::KeyDown(key) => match key {
                Key::Escape => {
                    self.mouse_captured = false;
                    InputAction::ReleaseMouse
                },
                Key::W => {
                    self.moving_forward = true;
                    InputAction::Nothing
                },
                Key::S => {
                    self.moving_backward = true;
                    InputAction::Nothing
                },
                Key::A => {
                    self.moving_left = true;
                    InputAction::Nothing
                },
                Key::D => {
                    self.moving_right = true;
                    InputAction::Nothing
                },
                Key::Other => InputAction::Nothing,
            },
            InputEvent::KeyUp(key) => {
                match key {
                    Key::W => {
                        self.moving_forward = false;
                    },
                    Key::S => {
                        self.moving_backward = false;
                    },
                    Key::A => {
                        self.moving_left = false;
                    },
                    Key::D => {
                        self.moving_right = false;
                    },
                    _ => {},
                }
                InputAction::Nothing
            },
            InputEvent::MouseMotion { xrel, yrel } => {
                if self.mouse_captured {
                    self.dirty = true;
                    InputAction::Look { xrel, yrel }
                } else {
                    InputAction::Nothing
                }
            },
            InputEvent::MouseLeftDown => {
                self.mouse_captured = true;
                InputAction::CaptureMouse
            },
            InputEvent::Other => InputAction::Nothing,
        }
    }

    /// Says which moves the camera is to make for this frame: one for each key
    /// that is down. The picture has to be drawn anew if any key is down.
    pub fn update(&mut self) -> (moves: Moves)
        ensures
            moves == (Moves {
                left: old(self)@.left,
                right: old(self)@.right,
                forward: old(self)@.forward,
                backward: old(self)@.backward,
            }),
            final(self)@ == (Controls {
                dirty: old(self)@.dirty || moves.left || moves.right || moves.forward
                    || moves.backward,
                ..old(self)@
            }),
    {
        self.dirty = self.dirty || self.moving_left || self.moving_right || self.moving_forward
            || self.moving_backward;
        Moves {
            left: self.moving_left,
            right: self.moving_right,
            forward: self.moving_forward,
            backward: self.moving_backward,
        }
    }

    /// Tells whether the picture has to be drawn anew.
    pub fn is_dirty(&self) -> (dirty: bool)
        ensures
            dirty == self@.dirty,
    {
        self.dirty
    }

    /// Marks the picture as drawn.
    pub fn clear(&mut self)
        ensures
            final(self)@ == (Controls { dirty: false, ..old(self)@ }),
    {
        self.dirty = false;
    }
}

} // verus!
