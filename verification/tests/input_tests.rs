use rustgamex::input::{
    GameKey, InputEvent, InputMerger, InputSource, InputState, JumpLatch, PadButton, QueuedInput,
};

#[test]
fn new_input_state_has_nothing_pressed() {
    let s = InputState::new();
    assert!(!s.up && !s.down && !s.left && !s.right && !s.jump && !s.jump_pressed && !s.run && !s.quit);
    assert_eq!(InputState::default(), s);
}

#[test]
fn queued_input_plays_back_by_frame() {
    let mut q = QueuedInput::new();
    let mut right = InputState::new();
    right.right = true;
    q.queue_input(1, right);
    assert_eq!(q.poll(), InputState::new());
    assert_eq!(q.poll(), right);
    assert_eq!(q.poll(), InputState::new());
    assert!(!q.should_quit());
}

#[test]
fn queueing_a_frame_twice_keeps_the_last_state() {
    let mut q = QueuedInput::new();
    let mut a = InputState::new();
    a.left = true;
    let mut b = InputState::new();
    b.jump = true;
    q.queue_input(0, a);
    q.queue_input(0, b);
    assert_eq!(q.poll(), b);
}

#[test]
fn releasing_one_source_keeps_another_sources_direction() {
    let mut m = InputMerger::new();
    m.handle(InputEvent::KeyDown(GameKey::Left));
    m.handle(InputEvent::ButtonDown(PadButton::DPadLeft));
    m.handle(InputEvent::KeyUp(GameKey::Left));
    assert!(m.finish_frame().left);
    m.handle(InputEvent::ButtonUp(PadButton::DPadLeft));
    assert!(!m.finish_frame().left);
}

#[test]
fn jump_press_is_reported_on_the_first_frame_only() {
    let mut m = InputMerger::new();
    m.handle(InputEvent::KeyDown(GameKey::Jump));
    let first = m.finish_frame();
    assert!(first.jump && first.jump_pressed);
    let second = m.finish_frame();
    assert!(second.jump && !second.jump_pressed);
    m.handle(InputEvent::KeyUp(GameKey::Jump));
    m.handle(InputEvent::ButtonDown(PadButton::Jump));
    assert!(!m.finish_frame().jump_pressed, "still held, via the pad");
}

#[test]
fn stick_registers_past_the_deadzone_only() {
    let mut m = InputMerger::new();
    m.handle(InputEvent::StickX(-8000));
    assert!(!m.finish_frame().left);
    m.handle(InputEvent::StickX(-8001));
    assert!(m.finish_frame().left);
    m.handle(InputEvent::StickY(9000));
    let s = m.finish_frame();
    assert!(s.down && !s.up);
}

#[test]
fn escape_start_and_window_close_quit() {
    for ev in [
        InputEvent::Quit,
        InputEvent::KeyDown(GameKey::Escape),
        InputEvent::ButtonDown(PadButton::Start),
    ] {
        let mut m = InputMerger::new();
        m.handle(ev);
        assert!(m.should_quit());
        m.handle(InputEvent::KeyUp(GameKey::Escape));
        assert!(m.finish_frame().quit);
    }
}

#[test]
fn shift_or_a_shoulder_button_runs() {
    let mut m = InputMerger::new();
    m.handle(InputEvent::KeyDown(GameKey::Run));
    assert!(m.finish_frame().run);
    m.handle(InputEvent::ButtonDown(PadButton::Run));
    m.handle(InputEvent::KeyUp(GameKey::Run));
    assert!(m.finish_frame().run, "still held on the pad");
    m.handle(InputEvent::ButtonUp(PadButton::Run));
    assert!(!m.finish_frame().run);
}

#[test]
fn one_hold_across_sources_reports_one_press() {
    let mut m = InputMerger::new();
    m.handle(InputEvent::KeyDown(GameKey::Jump));
    let a = m.finish_frame();
    assert!(a.jump && a.jump_pressed);
    m.handle(InputEvent::ButtonDown(PadButton::Jump));
    let b = m.finish_frame();
    assert!(b.jump && !b.jump_pressed);
    m.handle(InputEvent::KeyUp(GameKey::Jump));
    let c = m.finish_frame();
    assert!(c.jump && !c.jump_pressed, "the pad still holds jump");
    m.handle(InputEvent::ButtonUp(PadButton::Jump));
    let d = m.finish_frame();
    assert!(!d.jump && !d.jump_pressed);
    m.handle(InputEvent::KeyDown(GameKey::Jump));
    m.handle(InputEvent::KeyUp(GameKey::Jump));
    m.handle(InputEvent::KeyDown(GameKey::Jump));
    let e = m.finish_frame();
    assert!(e.jump && e.jump_pressed, "the latest event decides");
}

#[test]
fn a_latched_press_reaches_exactly_one_physics_step() {
    let mut latch = JumpLatch::new();
    let mut pressed = InputState::new();
    pressed.jump = true;
    pressed.jump_pressed = true;
    // A frame that renders without a physics step keeps the press.
    latch.note(&pressed);
    let mut held = InputState::new();
    held.jump = true;
    latch.note(&held);
    let first = latch.step_input(&held);
    assert!(first.jump && first.jump_pressed);
    let second = latch.step_input(&held);
    assert!(second.jump && !second.jump_pressed);
}
