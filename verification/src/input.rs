//! Player input: the per-frame `InputState`, the `InputSource` abstraction,
//! a queued source for scripted runs, and the merger that combines keyboard,
//! d-pad and analog stick into one state.
use vstd::prelude::*;
use std::collections::HashMap;

verus! {

/// What the player is doing this frame.
#[derive(Clone, Copy, PartialEq, Eq, Debug)]
pub struct InputState {
    pub up: bool,
    pub down: bool,
    pub left: bool,
    pub right: bool,
    pub jump: bool,
    /// The jump button went down this frame.
    pub jump_pressed: bool,
    /// The run button (Shift, or a shoulder button) is held.
    pub run: bool,
    pub quit: bool,
}

/// The state with nothing pressed.
pub open spec fn idle() -> InputState {
    InputState {
        up: false,
        down: false,
        left: false,
        right: false,
        jump: false,
        jump_pressed: false,
        run: false,
        quit: false,
    }
}

impl InputState {
    pub fn new() -> (r: Self)
        ensures
            r == idle(),
    {
        InputState {
            up: false,
            down: false,
            left: false,
            right: false,
            jump: false,
            jump_pressed: false,
            run: false,
            quit: false,
        }
    }
}

impl Default for InputState {
    fn default() -> (r: Self)
        ensures
            r == idle(),
    {
        InputState::new()
    }
}

/// A source of input, polled once per frame.
pub trait InputSource {
    /// Update and return the current input state.
    fn poll(&mut self) -> InputState;

    /// Whether the application should quit.
    fn should_quit(&self) -> bool;
}

/// Pre-programmed input for scripted runs: the state queued for each frame
/// number, and nothing pressed on the other frames.
pub struct QueuedInput {
    inputs: HashMap<usize, InputState>,
    current_frame: usize,
    default_state: InputState,
}

impl QueuedInput {
    /// The states queued, by frame number.
    pub closed spec fn queued(&self) -> Map<usize, InputState> {
        self.inputs@
    }

    /// The frame the next poll reads.
    pub closed spec fn frame(&self) -> usize {
        self.current_frame
    }

    /// The state returned for a frame with nothing queued.
    pub closed spec fn fallback(&self) -> InputState {
        self.default_state
    }

    pub fn new() -> (r: Self)
        ensures
            r.queued() == Map::<usize, InputState>::empty(),
            r.frame() == 0,
            r.fallback() == idle(),
    {
        broadcast use vstd::std_specs::hash::group_hash_axioms;

        QueuedInput { inputs: HashMap::new(), current_frame: 0, default_state: InputState::new() }
    }

    /// Queue an input state for a specific frame number (replacing any
    /// state queued for it before).
    pub fn queue_input(&mut self, frame: usize, state: InputState)
        ensures
            final(self).queued() == old(self).queued().insert(frame, state),
            final(self).frame() == old(self).frame(),
            final(self).fallback() == old(self).fallback(),
    {
        broadcast use vstd::std_specs::hash::group_hash_axioms;

        self.inputs.insert(frame, state);
    }

    /// The state for the current frame; the frame counter then advances
    /// (wrapping at `usize::MAX`).
    pub fn next_state(&mut self) -> (r: InputState)
        ensures
            r == (if old(self).queued().contains_key(old(self).frame()) {
                old(self).queued()[old(self).frame()]
            } else {
                old(self).fallback()
            }),
            final(self).frame() == (if old(self).frame() < usize::MAX {
                old(self).frame() + 1
            } else {
                0
            }),
            final(self).queued() == old(self).queued(),
            final(self).fallback() == old(self).fallback(),
    {
        broadcast use vstd::std_specs::hash::group_hash_axioms;

        let state = match self.inputs.get(&self.current_frame) {
            Some(s) => *s,
            None => self.default_state,
        };
        self.current_frame = if self.current_frame < usize::MAX {
            self.current_frame + 1
        } else {
            0
        };
        state
    }
}

impl InputSource for QueuedInput {
    fn poll(&mut self) -> (r: InputState)
        ensures
            r == (if old(self).queued().contains_key(old(self).frame()) {
                old(self).queued()[old(self).frame()]
            } else {
                old(self).fallback()
            }),
            final(self).frame() == (if old(self).frame() < usize::MAX {
                old(self).frame() + 1
            } else {
                0
            }),
            final(self).queued() == old(self).queued(),
    {
        self.next_state()
    }

    /// Scripted input never asks to quit.
    fn should_quit(&self) -> (r: bool)
        ensures
            !r,
    {
        false
    }
}

/// Directional state from a single source (keyboard, d-pad or stick).
#[derive(Clone, Copy, PartialEq, Eq, Debug)]
pub struct DirState {
    pub up: bool,
    pub down: bool,
    pub left: bool,
    pub right: bool,
}

/// A keyboard key as the game reads it (arrows and WASD both give the
/// directions; space jumps; either Shift runs).
#[derive(Clone, Copy, PartialEq, Eq, Debug)]
pub enum GameKey {
    Up,
    Down,
    Left,
    Right,
    Jump,
    Run,
    Escape,
    Other,
}

/// A controller button as the game reads it (any face button jumps, either
/// shoulder button runs).
#[derive(Clone, Copy, PartialEq, Eq, Debug)]
pub enum PadButton {
    DPadUp,
    DPadDown,
    DPadLeft,
    DPadRight,
    Jump,
    Run,
    Start,
    Other,
}

/// One input event, from any device.
#[derive(Clone, Copy, PartialEq, Eq, Debug)]
pub enum InputEvent {
    /// The window was closed.
    Quit,
    KeyDown(GameKey),
    KeyUp(GameKey),
    ButtonDown(PadButton),
    ButtonUp(PadButton),
    /// The left stick's horizontal axis moved to this value.
    StickX(i16),
    /// The left stick's vertical axis moved to this value.
    StickY(i16),
}

/// Analog sticks rest near zero but rarely exactly at it, so directions only
/// register past this magnitude.
pub const AXIS_DEADZONE: i16 = 8000;

/// Merges keyboard and controllers into one `InputState`. Each source's
/// directions are tracked separately, so one source releasing a direction
/// does not clear a direction another source still holds.
#[derive(Clone, Copy, PartialEq, Eq, Debug)]
pub struct InputMerger {
    pub keyboard: DirState,
    pub dpad: DirState,
    pub stick: DirState,
    pub keyboard_jump: bool,
    pub pad_jump: bool,
    pub keyboard_run: bool,
    pub pad_run: bool,
    /// Whether jump was held at the end of the previous frame.
    pub prev_jump: bool,
    pub quit: bool,
}

pub open spec fn no_dirs() -> DirState {
    DirState { up: false, down: false, left: false, right: false }
}

/// A source's directions after a press (`down`) or release of a direction.
pub open spec fn set_dir(d: DirState, key: GameKey, down: bool) -> DirState {
    match key {
        GameKey::Up => DirState { up: down, ..d },
        GameKey::Down => DirState { down: down, ..d },
        GameKey::Left => DirState { left: down, ..d },
        GameKey::Right => DirState { right: down, ..d },
        _ => d,
    }
}

/// The d-pad direction a button stands for, if any.
pub open spec fn pad_dir(b: PadButton) -> GameKey {
    match b {
        PadButton::DPadUp => GameKey::Up,
        PadButton::DPadDown => GameKey::Down,
        PadButton::DPadLeft => GameKey::Left,
        PadButton::DPadRight => GameKey::Right,
        _ => GameKey::Other,
    }
}

/// The merger after a key goes down (`down`) or up.
pub open spec fn key_spec(m: InputMerger, k: GameKey, down: bool) -> InputMerger {
    match k {
        GameKey::Escape => if down {
            InputMerger { quit: true, ..m }
        } else {
            m
        },
        GameKey::Jump => InputMerger { keyboard_jump: down, ..m },
        GameKey::Run => InputMerger { keyboard_run: down, ..m },
        _ => InputMerger { keyboard: set_dir(m.keyboard, k, down), ..m },
    }
}

/// The merger after a controller button goes down (`down`) or up.
pub open spec fn button_spec(m: InputMerger, b: PadButton, down: bool) -> InputMerger {
    match b {
        PadButton::Start => if down {
            InputMerger { quit: true, ..m }
        } else {
            m
        },
        PadButton::Jump => InputMerger { pad_jump: down, ..m },
        PadButton::Run => InputMerger { pad_run: down, ..m },
        _ => InputMerger { dpad: set_dir(m.dpad, pad_dir(b), down), ..m },
    }
}

/// The merger after one event.
pub open spec fn handle_spec(m: InputMerger, ev: InputEvent) -> InputMerger {
    match ev {
        InputEvent::Quit => InputMerger { quit: true, ..m },
        InputEvent::KeyDown(k) => key_spec(m, k, true),
        InputEvent::KeyUp(k) => key_spec(m, k, false),
        InputEvent::ButtonDown(b) => button_spec(m, b, true),
        InputEvent::ButtonUp(b) => button_spec(m, b, false),
        InputEvent::StickX(v) => InputMerger {
            stick: DirState { left: v < -8000, right: v > 8000, ..m.stick },
            ..m
        },
        InputEvent::StickY(v) => InputMerger {
            stick: DirState { up: v < -8000, down: v > 8000, ..m.stick },
            ..m
        },
    }
}

/// The state reported at the end of a frame: each direction, jump and run
/// is held when any source holds it, and a jump press is a jump held now but
/// not at the end of the previous frame.
pub open spec fn frame_spec(m: InputMerger) -> InputState {
    let jump = m.keyboard_jump || m.pad_jump;
    InputState {
        up: m.keyboard.up || m.dpad.up || m.stick.up,
        down: m.keyboard.down || m.dpad.down || m.stick.down,
        left: m.keyboard.left || m.dpad.left || m.stick.left,
        right: m.keyboard.right || m.dpad.right || m.stick.right,
        jump,
        jump_pressed: jump && !m.prev_jump,
        run: m.keyboard_run || m.pad_run,
        quit: m.quit,
    }
}

/// The merger once a frame has been reported.
pub open spec fn after_frame(m: InputMerger) -> InputMerger {
    InputMerger { prev_jump: m.keyboard_jump || m.pad_jump, ..m }
}

fn dir_after(d: DirState, key: GameKey, down: bool) -> (r: DirState)
    ensures
        r == set_dir(d, key, down),
{
    match key {
        GameKey::Up => DirState { up: down, ..d },
        GameKey::Down => DirState { down: down, ..d },
        GameKey::Left => DirState { left: down, ..d },
        GameKey::Right => DirState { right: down, ..d },
        _ => d,
    }
}

fn pad_dir_exec(b: PadButton) -> (r: GameKey)
    ensures
        r == pad_dir(b),
{
    match b {
        PadButton::DPadUp => GameKey::Up,
        PadButton::DPadDown => GameKey::Down,
        PadButton::DPadLeft => GameKey::Left,
        PadButton::DPadRight => GameKey::Right,
        _ => GameKey::Other,
    }
}

fn after_key(m: InputMerger, k: GameKey, down: bool) -> (r: InputMerger)
    ensures
        r == key_spec(m, k, down),
{
    match k {
        GameKey::Escape => if down {
            InputMerger { quit: true, ..m }
        } else {
            m
        },
        GameKey::Jump => InputMerger { keyboard_jump: down, ..m },
        GameKey::Run => InputMerger { keyboard_run: down, ..m },
        _ => InputMerger { keyboard: dir_after(m.keyboard, k, down), ..m },
    }
}

fn after_button(m: InputMerger, b: PadButton, down: bool) -> (r: InputMerger)
    ensures
        r == button_spec(m, b, down),
{
    match b {
        PadButton::Start => if down {
            InputMerger { quit: true, ..m }
        } else {
            m
        },
        PadButton::Jump => InputMerger { pad_jump: down, ..m },
        PadButton::Run => InputMerger { pad_run: down, ..m },
        _ => InputMerger { dpad: dir_after(m.dpad, pad_dir_exec(b), down), ..m },
    }
}

impl InputMerger {
    /// Nothing held on any source.
    pub fn new() -> (r: Self)
        ensures
            r == (InputMerger {
                keyboard: no_dirs(),
                dpad: no_dirs(),
                stick: no_dirs(),
                keyboard_jump: false,
                pad_jump: false,
                keyboard_run: false,
                pad_run: false,
                prev_jump: false,
                quit: false,
            }),
    {
        let none = DirState { up: false, down: false, left: false, right: false };
        InputMerger {
            keyboard: none,
            dpad: none,
            stick: none,
            keyboard_jump: false,
            pad_jump: false,
            keyboard_run: false,
            pad_run: false,
            prev_jump: false,
            quit: false,
        }
    }

    /// Take one event into account.
    pub fn handle(&mut self, ev: InputEvent)
        ensures
            *final(self) == handle_spec(*old(self), ev),
    {
        let m = *self;
        *self = match ev {
            InputEvent::Quit => InputMerger { quit: true, ..m },
            InputEvent::KeyDown(k) => after_key(m, k, true),
            InputEvent::KeyUp(k) => after_key(m, k, false),
            InputEvent::ButtonDown(b) => after_button(m, b, true),
            InputEvent::ButtonUp(b) => after_button(m, b, false),
            InputEvent::StickX(v) => InputMerger {
                stick: DirState { left: v < -AXIS_DEADZONE, right: v > AXIS_DEADZONE, ..m.stick },
                ..m
            },
            InputEvent::StickY(v) => InputMerger {
                stick: DirState { up: v < -AXIS_DEADZONE, down: v > AXIS_DEADZONE, ..m.stick },
                ..m
            },
        };
    }

    /// Report the merged state for this frame.
    pub fn finish_frame(&mut self) -> (r: InputState)
        ensures
            r == frame_spec(*old(self)),
            *final(self) == after_frame(*old(self)),
    {
        let jump = self.keyboard_jump || self.pad_jump;
        let state = InputState {
            up: self.keyboard.up || self.dpad.up || self.stick.up,
            down: self.keyboard.down || self.dpad.down || self.stick.down,
            left: self.keyboard.left || self.dpad.left || self.stick.left,
            right: self.keyboard.right || self.dpad.right || self.stick.right,
            jump,
            jump_pressed: jump && !self.prev_jump,
            run: self.keyboard_run || self.pad_run,
            quit: self.quit,
        };
        self.prev_jump = jump;
        state
    }

    pub fn should_quit(&self) -> (r: bool)
        ensures
            r == self.quit,
    {
        self.quit
    }
}

/// Releasing a direction on one source leaves it held while another source
/// still holds it.
pub proof fn law_release_keeps_other_sources(m: InputMerger, key: GameKey)
    requires
        key is Left,
        m.dpad.left || m.stick.left,
    ensures
        frame_spec(handle_spec(m, InputEvent::KeyUp(key))).left,
{
}

/// A held jump counts as pressed on one frame only: with no event in
/// between, the next frame never reports a fresh press.
pub proof fn law_jump_press_is_an_edge(m: InputMerger)
    ensures
        !frame_spec(after_frame(m)).jump_pressed,
        frame_spec(after_frame(m)).jump == frame_spec(m).jump,
{
}

/// A quit request is never withdrawn by a later event.
pub proof fn law_quit_is_sticky(m: InputMerger, ev: InputEvent)
    requires
        m.quit,
    ensures
        handle_spec(m, ev).quit,
        frame_spec(handle_spec(m, ev)).quit,
{
}

/// The merger after each event of `evs` in turn.
pub open spec fn handle_all(m: InputMerger, evs: Seq<InputEvent>) -> InputMerger
    decreases evs.len(),
{
    if evs.len() == 0 {
        m
    } else {
        handle_spec(handle_all(m, evs.drop_last()), evs.last())
    }
}

/// Whether the keyboard's jump key is down after `evs`: as its latest event
/// in `evs` left it, or `init` when `evs` has none.
pub open spec fn key_jump_after(evs: Seq<InputEvent>, init: bool) -> bool
    decreases evs.len(),
{
    if evs.len() == 0 {
        init
    } else if evs.last() == InputEvent::KeyDown(GameKey::Jump) {
        true
    } else if evs.last() == InputEvent::KeyUp(GameKey::Jump) {
        false
    } else {
        key_jump_after(evs.drop_last(), init)
    }
}

/// Whether a controller's jump button is down after `evs`: as its latest
/// event in `evs` left it, or `init` when `evs` has none.
pub open spec fn pad_jump_after(evs: Seq<InputEvent>, init: bool) -> bool
    decreases evs.len(),
{
    if evs.len() == 0 {
        init
    } else if evs.last() == InputEvent::ButtonDown(PadButton::Jump) {
        true
    } else if evs.last() == InputEvent::ButtonUp(PadButton::Jump) {
        false
    } else {
        pad_jump_after(evs.drop_last(), init)
    }
}

/// The events of several frames, one frame after another.
pub open spec fn all_events(frames: Seq<Seq<InputEvent>>) -> Seq<InputEvent>
    decreases frames.len(),
{
    if frames.len() == 0 {
        seq![]
    } else {
        all_events(frames.drop_last()) + frames.last()
    }
}

/// The merger after the first `k` frames of `frames` were handled and
/// reported.
pub open spec fn after_frames(m: InputMerger, frames: Seq<Seq<InputEvent>>, k: nat) -> InputMerger
    decreases k,
{
    if k == 0 {
        m
    } else {
        after_frame(handle_all(after_frames(m, frames, (k - 1) as nat), frames[k - 1]))
    }
}

/// The state reported for frame `k` of `frames`.
pub open spec fn report(m: InputMerger, frames: Seq<Seq<InputEvent>>, k: nat) -> InputState {
    frame_spec(handle_all(after_frames(m, frames, k), frames[k as int]))
}

proof fn lemma_handle_all(m: InputMerger, evs: Seq<InputEvent>)
    ensures
        handle_all(m, evs).keyboard_jump == key_jump_after(evs, m.keyboard_jump),
        handle_all(m, evs).pad_jump == pad_jump_after(evs, m.pad_jump),
        handle_all(m, evs).prev_jump == m.prev_jump,
    decreases evs.len(),
{
    if evs.len() > 0 {
        lemma_handle_all(m, evs.drop_last());
    }
}

proof fn lemma_key_jump_concat(a: Seq<InputEvent>, b: Seq<InputEvent>, init: bool)
    ensures
        key_jump_after(a + b, init) == key_jump_after(b, key_jump_after(a, init)),
        pad_jump_after(a + b, init) == pad_jump_after(b, pad_jump_after(a, init)),
    decreases b.len(),
{
    if b.len() == 0 {
        assert(a + b =~= a);
    } else {
        assert((a + b).drop_last() =~= a + b.drop_last());
        assert((a + b).last() == b.last());
        lemma_key_jump_concat(a, b.drop_last(), init);
    }
}

proof fn lemma_after_frames(m: InputMerger, frames: Seq<Seq<InputEvent>>, k: nat)
    requires
        k <= frames.len(),
    ensures
        after_frames(m, frames, k).keyboard_jump == key_jump_after(
            all_events(frames.take(k as int)),
            m.keyboard_jump,
        ),
        after_frames(m, frames, k).pad_jump == pad_jump_after(
            all_events(frames.take(k as int)),
            m.pad_jump,
        ),
        after_frames(m, frames, k).prev_jump == if k == 0 {
            m.prev_jump
        } else {
            report(m, frames, (k - 1) as nat).jump
        },
    decreases k,
{
    if k == 0 {
        assert(frames.take(0) =~= Seq::<Seq<InputEvent>>::empty());
    } else {
        let j = (k - 1) as nat;
        lemma_after_frames(m, frames, j);
        let prev = after_frames(m, frames, j);
        lemma_handle_all(prev, frames[j as int]);
        assert(frames.take(k as int).drop_last() =~= frames.take(j as int));
        lemma_key_jump_concat(all_events(frames.take(j as int)), frames[j as int], m.keyboard_jump);
        lemma_key_jump_concat(all_events(frames.take(j as int)), frames[j as int], m.pad_jump);
    }
}

/// Over any history of frames, the jump reported for a frame is held exactly
/// when the latest jump-key event so far was a key press or the latest
/// jump-button event so far was a button press (the starting merger's state
/// standing in where there was none), and a fresh press is reported exactly
/// when jump is held now but was not in the previous report (the starting
/// merger's previous jump before the first): one continuous hold reports a
/// press on one frame only.
pub proof fn law_jump_follows_event_history(
    m: InputMerger,
    frames: Seq<Seq<InputEvent>>,
    k: nat,
)
    requires
        k < frames.len(),
    ensures
        report(m, frames, k).jump == (key_jump_after(
            all_events(frames.take(k as int + 1)),
            m.keyboard_jump,
        ) || pad_jump_after(all_events(frames.take(k as int + 1)), m.pad_jump)),
        report(m, frames, k).jump_pressed == (report(m, frames, k).jump && !(if k == 0 {
            m.prev_jump
        } else {
            report(m, frames, (k - 1) as nat).jump
        })),
{
    lemma_after_frames(m, frames, k);
    lemma_after_frames(m, frames, k + 1);
    let st = after_frames(m, frames, k);
    lemma_handle_all(st, frames[k as int]);
}

/// The jump press carried from rendered frames to physics steps. Input is
/// sampled once per rendered frame but physics runs on its own clock, so a
/// frame may render without a step: a press is latched until a step consumes
/// it, so that no press is swallowed.
#[derive(Clone, Copy, PartialEq, Eq, Debug)]
pub struct JumpLatch {
    pub pending: bool,
}

/// Whether a press is pending once a frame's input has been noted.
pub open spec fn after_note(pending: bool, frame: InputState) -> bool {
    pending || frame.jump_pressed
}

/// The input a physics step of `frame` sees while `pending` is latched.
pub open spec fn step_view(pending: bool, frame: InputState) -> InputState {
    InputState { jump_pressed: pending, ..frame }
}

impl JumpLatch {
    /// No press pending.
    pub fn new() -> (r: Self)
        ensures
            !r.pending,
    {
        JumpLatch { pending: false }
    }

    /// Take the input sampled for a rendered frame into account.
    pub fn note(&mut self, frame: &InputState)
        ensures
            final(self).pending == after_note(old(self).pending, *frame),
    {
        self.pending = self.pending || frame.jump_pressed;
    }

    /// The input for one physics step of the frame: the frame's input with
    /// the latched press, which the step consumes.
    pub fn step_input(&mut self, frame: &InputState) -> (r: InputState)
        ensures
            r == step_view(old(self).pending, *frame),
            !final(self).pending,
    {
        let r = InputState { jump_pressed: self.pending, ..*frame };
        self.pending = false;
        r
    }
}

/// A press is not swallowed by a frame that renders without a physics step:
/// the first step of a later frame sees it, whatever that frame's own input,
/// and a second step of that frame sees none, the press being consumed.
pub proof fn law_latched_press_reaches_one_step(
    pending: bool,
    pressed: InputState,
    later: InputState,
)
    requires
        pressed.jump_pressed,
    ensures
        step_view(after_note(after_note(pending, pressed), later), later).jump_pressed,
        !step_view(false, later).jump_pressed,
{
}

/// Whether `k` is one of the four directions.
pub open spec fn is_direction(k: GameKey) -> bool {
    k is Up || k is Down || k is Left || k is Right
}

/// Whether a reported state holds direction `k`.
pub open spec fn holds_direction(s: InputState, k: GameKey) -> bool {
    match k {
        GameKey::Up => s.up,
        GameKey::Down => s.down,
        GameKey::Left => s.left,
        GameKey::Right => s.right,
        _ => false,
    }
}

/// Whether one source's directions hold `k`.
pub open spec fn source_holds(d: DirState, k: GameKey) -> bool {
    match k {
        GameKey::Up => d.up,
        GameKey::Down => d.down,
        GameKey::Left => d.left,
        GameKey::Right => d.right,
        _ => false,
    }
}

/// The d-pad button for a direction.
pub open spec fn dpad_button(k: GameKey) -> PadButton {
    match k {
        GameKey::Up => PadButton::DPadUp,
        GameKey::Down => PadButton::DPadDown,
        GameKey::Left => PadButton::DPadLeft,
        _ => PadButton::DPadRight,
    }
}

/// Pressing a direction, on the keyboard or on the d-pad, holds that same
/// direction in the next report and leaves the other three as they were;
/// releasing it leaves the others as they were too, and drops the direction
/// itself unless another source still holds it.
pub proof fn law_direction_press_holds_that_direction(m: InputMerger, k: GameKey, j: GameKey)
    requires
        is_direction(k),
        is_direction(j),
    ensures
        holds_direction(frame_spec(handle_spec(m, InputEvent::KeyDown(k))), k),
        holds_direction(frame_spec(handle_spec(m, InputEvent::ButtonDown(dpad_button(k)))), k),
        j != k ==> holds_direction(frame_spec(handle_spec(m, InputEvent::KeyDown(k))), j)
            == holds_direction(frame_spec(m), j),
        j != k ==> holds_direction(
            frame_spec(handle_spec(m, InputEvent::ButtonDown(dpad_button(k)))),
            j,
        ) == holds_direction(frame_spec(m), j),
        j != k ==> holds_direction(frame_spec(handle_spec(m, InputEvent::KeyUp(k))), j)
            == holds_direction(frame_spec(m), j),
        j != k ==> holds_direction(
            frame_spec(handle_spec(m, InputEvent::ButtonUp(dpad_button(k)))),
            j,
        ) == holds_direction(frame_spec(m), j),
        holds_direction(frame_spec(handle_spec(m, InputEvent::KeyUp(k))), k) == (source_holds(
            m.dpad,
            k,
        ) || source_holds(m.stick, k)),
        holds_direction(frame_spec(handle_spec(m, InputEvent::ButtonUp(dpad_button(k)))), k) == (
        source_holds(m.keyboard, k) || source_holds(m.stick, k)),
{
}

/// The stick holds a direction only past its dead zone of 8000 either side
/// of centre: a horizontal reading below -8000 holds left, above 8000 holds
/// right, and one within the dead zone holds neither (and likewise up and
/// down for a vertical reading). The jump and run keys and buttons hold jump
/// and run while down, whatever the other source does.
pub proof fn law_stick_dead_zone_and_buttons(m: InputMerger, v: i16)
    ensures
        handle_spec(m, InputEvent::StickX(v)).stick.left == (v < -8000),
        handle_spec(m, InputEvent::StickX(v)).stick.right == (v > 8000),
        handle_spec(m, InputEvent::StickY(v)).stick.up == (v < -8000),
        handle_spec(m, InputEvent::StickY(v)).stick.down == (v > 8000),
        handle_spec(m, InputEvent::StickX(v)).stick.up == m.stick.up,
        handle_spec(m, InputEvent::StickY(v)).stick.left == m.stick.left,
        frame_spec(handle_spec(m, InputEvent::KeyDown(GameKey::Jump))).jump,
        frame_spec(handle_spec(m, InputEvent::ButtonDown(PadButton::Jump))).jump,
        frame_spec(handle_spec(m, InputEvent::KeyDown(GameKey::Run))).run,
        frame_spec(handle_spec(m, InputEvent::ButtonDown(PadButton::Run))).run,
        !m.pad_jump ==> !frame_spec(handle_spec(m, InputEvent::KeyUp(GameKey::Jump))).jump,
        !m.keyboard_jump ==> !frame_spec(handle_spec(m, InputEvent::ButtonUp(PadButton::Jump))).jump,
        frame_spec(handle_spec(m, InputEvent::KeyDown(GameKey::Escape))).quit,
        frame_spec(handle_spec(m, InputEvent::ButtonDown(PadButton::Start))).quit,
{
}

} // verus!
