use raytracer::input::InputAction;
use raytracer::input::InputEvent;
use raytracer::input::InputHandler;
use raytracer::input::Key;
use raytracer::input::Moves;

fn still() -> Moves {
    Moves { left: false, right: false, forward: false, backward: false }
}

#[test]
fn a_new_handler_moves_nothing_and_is_clean() {
    let mut handler = InputHandler::new();
    assert!(!handler.is_dirty());
    assert_eq!(handler.update(), still());
    assert!(!handler.is_dirty());
}

#[test]
fn a_key_that_is_down_moves_the_camera_until_it_is_up() {
    let mut handler = InputHandler::new();
    assert_eq!(handler.process(&InputEvent::KeyDown(Key::W)), InputAction::Nothing);
    assert_eq!(handler.update(), Moves { forward: true, ..still() });
    assert_eq!(handler.update(), Moves { forward: true, ..still() });
    assert_eq!(handler.process(&InputEvent::KeyUp(Key::W)), InputAction::Nothing);
    assert_eq!(handler.update(), still());
}

#[test]
fn each_key_has_its_own_move() {
    let mut handler = InputHandler::new();
    handler.process(&InputEvent::KeyDown(Key::A));
    assert_eq!(handler.update(), Moves { left: true, ..still() });
    handler.process(&InputEvent::KeyDown(Key::D));
    assert_eq!(handler.update(), Moves { left: true, right: true, ..still() });
    handler.process(&InputEvent::KeyDown(Key::S));
    assert_eq!(handler.update(), Moves { left: true, right: true, backward: true, ..still() });
    handler.process(&InputEvent::KeyUp(Key::A));
    handler.process(&InputEvent::KeyUp(Key::D));
    assert_eq!(handler.update(), Moves { backward: true, ..still() });
    handler.process(&InputEvent::KeyUp(Key::S));
    assert_eq!(handler.update(), still());
}

#[test]
fn a_move_makes_the_picture_dirty_until_it_is_cleared() {
    let mut handler = InputHandler::new();
    handler.process(&InputEvent::KeyDown(Key::A));
    assert!(!handler.is_dirty());
    handler.update();
    assert!(handler.is_dirty());
    handler.process(&InputEvent::KeyUp(Key::A));
    handler.update();
    assert!(handler.is_dirty());
    handler.clear();
    assert!(!handler.is_dirty());
    handler.update();
    assert!(!handler.is_dirty());
}

#[test]
fn the_mouse_turns_the_camera_only_while_it_is_captured() {
    let mut handler = InputHandler::new();
    let motion = InputEvent::MouseMotion { xrel: 6, yrel: -9 };
    assert_eq!(handler.process(&motion), InputAction::Nothing);
    assert!(!handler.is_dirty());
    assert_eq!(handler.process(&InputEvent::MouseLeftDown), InputAction::CaptureMouse);
    assert!(!handler.is_dirty());
    assert_eq!(handler.process(&motion), InputAction::Look { xrel: 6, yrel: -9 });
    assert!(handler.is_dirty());
    handler.clear();
    assert_eq!(handler.process(&InputEvent::KeyDown(Key::Escape)), InputAction::ReleaseMouse);
    assert_eq!(handler.process(&motion), InputAction::Nothing);
    assert!(!handler.is_dirty());
}

#[test]
fn escape_releases_the_mouse_even_when_it_is_free() {
    let mut handler = InputHandler::new();
    assert_eq!(handler.process(&InputEvent::KeyDown(Key::Escape)), InputAction::ReleaseMouse);
    assert_eq!(handler.process(&InputEvent::KeyUp(Key::Escape)), InputAction::Nothing);
}

#[test]
fn other_events_change_nothing() {
    let mut handler = InputHandler::new();
    handler.process(&InputEvent::KeyDown(Key::W));
    assert_eq!(handler.process(&InputEvent::Other), InputAction::Nothing);
    assert_eq!(handler.process(&InputEvent::KeyDown(Key::Other)), InputAction::Nothing);
    assert_eq!(handler.process(&InputEvent::KeyUp(Key::Other)), InputAction::Nothing);
    assert!(!handler.is_dirty());
    assert_eq!(handler.update(), Moves { forward: true, ..still() });
}
