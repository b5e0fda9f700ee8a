use vstd::prelude::*;

verus! {

/// Pitch limit: a quarter turn, in microradians.
pub const PITCH_LIMIT: i64 = 1_570_796;

/// Angle change per pixel of mouse motion, in microradians (0.01 rad).
pub const ANGLE_PER_PIXEL: i64 = 10_000;

/// Speed factors, in quarters: 1.0, 2.0 and 0.25.
pub const SPEED_NORMAL: u32 = 4;
pub const SPEED_FAST: u32 = 8;
pub const SPEED_SLOW: u32 = 1;

/// Keys the camera reacts to; every other key is `Other`.
#[derive(Clone, Copy, Debug, PartialEq, Eq, Structural)]
pub enum Key {
    W,
    S,
    A,
    D,
    Space,
    Q,
    E,
    LControl,
    LShift,
    Other,
}

#[derive(Clone, Copy, Debug, PartialEq, Eq, Structural)]
pub enum MouseButton {
    Left,
    Right,
    Middle,
    Other,
}

/// The six movement intents.
#[derive(Clone, Copy, Debug, PartialEq, Eq, Structural)]
pub enum Direction {
    Forward,
    Backward,
    Left,
    Right,
    Up,
    Down,
}

/// A key press or release.
#[derive(Clone, Copy, Debug, PartialEq, Eq, Structural)]
pub enum KeyEvent {
    Down(Key),
    Up(Key),
}

/// Which movement direction a key drives, if any.
pub open spec fn key_direction(key: Key) -> Option<Direction> {
    match key {
        Key::W => Some(Direction::Forward),
        Key::S => Some(Direction::Backward),
        Key::A => Some(Direction::Left),
        Key::D => Some(Direction::Right),
        Key::Space | Key::Q => Some(Direction::Up),
        Key::E => Some(Direction::Down),
        _ => None,
    }
}

pub open spec fn is_modifier(key: Key) -> bool {
    key == Key::LControl || key == Key::LShift
}

pub open spec fn clamp_i64(v: int) -> i64 {
    if v > i64::MAX {
        i64::MAX
    } else if v < i64::MIN {
        i64::MIN
    } else {
        v as i64
    }
}

pub open spec fn clamp_pitch(v: int) -> i64 {
    if v > PITCH_LIMIT {
        PITCH_LIMIT
    } else if v < -PITCH_LIMIT {
        (-PITCH_LIMIT) as i64
    } else {
        v as i64
    }
}

/// Integer coefficients of the camera's look, side and up axes in the
/// movement of one frame, with the speed factor and the drag consumed.
#[derive(Clone, Copy, Debug, PartialEq, Eq, Structural)]
pub struct CameraMotion {
    /// +1 forward, -1 backward, 0 when both or neither are held.
    pub look: i32,
    /// +1 left, -1 right.
    pub side: i32,
    /// +1 up, -1 down.
    pub up: i32,
    /// Speed factor in quarters.
    pub speed_quarters: u32,
    /// Pending horizontal drag along the side axis, in hundredths of a unit.
    pub drag_side: i64,
    /// Pending vertical drag along the world Y axis, in hundredths of a unit.
    pub drag_up: i64,
    /// Pitch of the camera node, in microradians.
    pub pitch: i64,
    /// Yaw of the pivot node, in microradians.
    pub yaw: i64,
}

impl CameraMotion {
    /// Whether the movement keys contribute a nonzero vector (the three axes
    /// are orthonormal, so the sum vanishes only when all coefficients do).
    pub open spec fn moving(self) -> bool {
        self.look != 0 || self.side != 0 || self.up != 0
    }
}

/// Input intents and accumulators of the editor camera.
#[derive(Clone, Copy, Debug, PartialEq, Eq, Structural)]
pub struct InputState {
    pub yaw: i64,
    pub pitch: i64,
    pub rotate: bool,
    pub drag: bool,
    pub drag_side: i64,
    pub drag_up: i64,
    /// Movement keys held down: each key has its own state, so two keys
    /// that drive one direction are tracked apart.
    pub key_w: bool,
    pub key_s: bool,
    pub key_a: bool,
    pub key_d: bool,
    pub key_space: bool,
    pub key_q: bool,
    pub key_e: bool,
    pub speed_quarters: u32,
}

pub open spec fn axis(pos: bool, neg: bool) -> i32 {
    if pos && !neg {
        1
    } else if neg && !pos {
        -1i32
    } else {
        0
    }
}

impl InputState {
    pub open spec fn wf(self) -> bool {
        &&& -PITCH_LIMIT <= self.pitch <= PITCH_LIMIT
        &&& self.speed_quarters == SPEED_NORMAL || self.speed_quarters == SPEED_FAST
            || self.speed_quarters == SPEED_SLOW
    }

    /// Whether a movement key is held down (never for other keys).
    pub open spec fn held(self, key: Key) -> bool {
        match key {
            Key::W => self.key_w,
            Key::S => self.key_s,
            Key::A => self.key_a,
            Key::D => self.key_d,
            Key::Space => self.key_space,
            Key::Q => self.key_q,
            Key::E => self.key_e,
            _ => false,
        }
    }

    /// A direction is active while some key that drives it is held.
    pub open spec fn moving(self, d: Direction) -> bool {
        match d {
            Direction::Forward => self.key_w,
            Direction::Backward => self.key_s,
            Direction::Left => self.key_a,
            Direction::Right => self.key_d,
            Direction::Up => self.key_space || self.key_q,
            Direction::Down => self.key_e,
        }
    }

    pub open spec fn with_held(self, key: Key, on: bool) -> InputState {
        match key {
            Key::W => InputState { key_w: on, ..self },
            Key::S => InputState { key_s: on, ..self },
            Key::A => InputState { key_a: on, ..self },
            Key::D => InputState { key_d: on, ..self },
            Key::Space => InputState { key_space: on, ..self },
            Key::Q => InputState { key_q: on, ..self },
            Key::E => InputState { key_e: on, ..self },
            _ => self,
        }
    }

    /// State after a key goes down.
    pub open spec fn pressed(self, key: Key) -> InputState {
        match key_direction(key) {
            Some(_) => self.with_held(key, true),
            None => if key == Key::LControl {
                InputState { speed_quarters: SPEED_FAST, ..self }
            } else if key == Key::LShift {
                InputState { speed_quarters: SPEED_SLOW, ..self }
            } else {
                self
            },
        }
    }

    /// State after a key goes up.
    pub open spec fn released(self, key: Key) -> InputState {
        match key_direction(key) {
            Some(_) => self.with_held(key, false),
            None => if is_modifier(key) {
                InputState { speed_quarters: SPEED_NORMAL, ..self }
            } else {
                self
            },
        }
    }

    pub open spec fn after_key(self, e: KeyEvent) -> InputState {
        match e {
            KeyEvent::Down(k) => self.pressed(k),
            KeyEvent::Up(k) => self.released(k),
        }
    }

    /// State after a mouse button changes: `down` tells press from release.
    pub open spec fn after_button(self, button: MouseButton, down: bool) -> InputState {
        match button {
            MouseButton::Right => InputState { rotate: down, ..self },
            MouseButton::Middle => InputState { drag: down, ..self },
            _ => self,
        }
    }

    /// State after a mouse motion of (dx, dy) pixels.
    pub open spec fn after_mouse_move(self, dx: i32, dy: i32) -> InputState {
        let rotated = if self.rotate {
            InputState {
                yaw: clamp_i64(self.yaw - dx * ANGLE_PER_PIXEL),
                pitch: clamp_pitch(self.pitch + dy * ANGLE_PER_PIXEL),
                ..self
            }
        } else {
            self
        };
        if self.drag {
            InputState {
                drag_side: clamp_i64(rotated.drag_side - dx),
                drag_up: clamp_i64(rotated.drag_up - dy),
                ..rotated
            }
        } else {
            rotated
        }
    }

    /// The motion one frame applies.
    pub open spec fn motion(self) -> CameraMotion {
        CameraMotion {
            look: axis(self.moving(Direction::Forward), self.moving(Direction::Backward)),
            side: axis(self.moving(Direction::Left), self.moving(Direction::Right)),
            up: axis(self.moving(Direction::Up), self.moving(Direction::Down)),
            speed_quarters: self.speed_quarters,
            drag_side: self.drag_side,
            drag_up: self.drag_up,
            pitch: self.pitch,
            yaw: self.yaw,
        }
    }

    /// State after a frame has consumed the drag.
    pub open spec fn after_update(self) -> InputState {
        InputState { drag_side: 0, drag_up: 0, ..self }
    }

    /// At rest: no angle, no intent, no drag, normal speed.
    pub open spec fn new_spec() -> InputState {
        InputState {
            yaw: 0,
            pitch: 0,
            rotate: false,
            drag: false,
            drag_side: 0,
            drag_up: 0,
            key_w: false,
            key_s: false,
            key_a: false,
            key_d: false,
            key_space: false,
            key_q: false,
            key_e: false,
            speed_quarters: SPEED_NORMAL,
        }
    }

    #[verifier::when_used_as_spec(new_spec)]
    pub fn new() -> (r: InputState)
        ensures
            r == InputState::new_spec(),
            r.wf(),
            forall|d: Direction| !(#[trigger] r.moving(d)),
    {
        InputState {
            yaw: 0,
            pitch: 0,
            rotate: false,
            drag: false,
            drag_side: 0,
            drag_up: 0,
            key_w: false,
            key_s: false,
            key_a: false,
            key_d: false,
            key_space: false,
            key_q: false,
            key_e: false,
            speed_quarters: SPEED_NORMAL,
        }
    }

    fn set_held(&mut self, key: Key, on: bool) -> (handled: bool)
        ensures
            handled == key_direction(key).is_some(),
            *final(self) == old(self).with_held(key, on),
    {
        match key {
            Key::W => self.key_w = on,
            Key::S => self.key_s = on,
            Key::A => self.key_a = on,
            Key::D => self.key_d = on,
            Key::Space => self.key_space = on,
            Key::Q => self.key_q = on,
            Key::E => self.key_e = on,
            _ => return false,
        }
        true
    }

    /// Whether a movement key is held down.
    pub fn is_held(&self, key: Key) -> (r: bool)
        ensures
            r == self.held(key),
    {
        match key {
            Key::W => self.key_w,
            Key::S => self.key_s,
            Key::A => self.key_a,
            Key::D => self.key_d,
            Key::Space => self.key_space,
            Key::Q => self.key_q,
            Key::E => self.key_e,
            _ => false,
        }
    }

    /// Whether direction `d` is active.
    pub fn is_moving(&self, d: Direction) -> (r: bool)
        ensures
            r == self.moving(d),
    {
        match d {
            Direction::Forward => self.key_w,
            Direction::Backward => self.key_s,
            Direction::Left => self.key_a,
            Direction::Right => self.key_d,
            Direction::Up => self.key_space || self.key_q,
            Direction::Down => self.key_e,
        }
    }

    pub fn on_key_down(&mut self, key: Key)
        requires
            old(self).wf(),
        ensures
            *final(self) == old(self).pressed(key),
            final(self).wf(),
    {
        if !self.set_held(key, true) {
            match key {
                Key::LControl => self.speed_quarters = SPEED_FAST,
                Key::LShift => self.speed_quarters = SPEED_SLOW,
                _ => {},
            }
        }
    }

    pub fn on_key_up(&mut self, key: Key)
        requires
            old(self).wf(),
        ensures
            *final(self) == old(self).released(key),
            final(self).wf(),
    {
        if !self.set_held(key, false) {
            match key {
                Key::LControl | Key::LShift => self.speed_quarters = SPEED_NORMAL,
                _ => {},
            }
        }
    }

    pub fn on_mouse_button(&mut self, button: MouseButton, down: bool)
        requires
            old(self).wf(),
        ensures
            *final(self) == old(self).after_button(button, down),
            final(self).wf(),
    {
        match button {
            MouseButton::Right => self.rotate = down,
            MouseButton::Middle => self.drag = down,
            _ => {},
        }
    }

    pub fn on_mouse_move(&mut self, dx: i32, dy: i32)
        requires
            old(self).wf(),
        ensures
            *final(self) == old(self).after_mouse_move(dx, dy),
            final(self).wf(),
    {
        if self.rotate {
            self.yaw = saturate(self.yaw as i128 - dx as i128 * ANGLE_PER_PIXEL as i128);
            let pitch = self.pitch as i128 + dy as i128 * ANGLE_PER_PIXEL as i128;
            self.pitch = if pitch > PITCH_LIMIT as i128 {
                PITCH_LIMIT
            } else if pitch < -PITCH_LIMIT as i128 {
                -PITCH_LIMIT
            } else {
                pitch as i64
            };
        }
        if self.drag {
            self.drag_side = saturate(self.drag_side as i128 - dx as i128);
            self.drag_up = saturate(self.drag_up as i128 - dy as i128);
        }
    }

    /// Hands out this frame's motion and consumes the pending drag.
    pub fn update(&mut self) -> (m: CameraMotion)
        requires
            old(self).wf(),
        ensures
            m == old(self).motion(),
            *final(self) == old(self).after_update(),
            final(self).wf(),
    {
        let m = CameraMotion {
            look: signed_axis(self.key_w, self.key_s),
            side: signed_axis(self.key_a, self.key_d),
            up: signed_axis(self.key_space || self.key_q, self.key_e),
            speed_quarters: self.speed_quarters,
            drag_side: self.drag_side,
            drag_up: self.drag_up,
            pitch: self.pitch,
            yaw: self.yaw,
        };
        self.drag_side = 0;
        self.drag_up = 0;
        m
    }
}

fn saturate(v: i128) -> (r: i64)
    ensures
        r == clamp_i64(v as int),
{
    if v > i64::MAX as i128 {
        i64::MAX
    } else if v < i64::MIN as i128 {
        i64::MIN
    } else {
        v as i64
    }
}

fn signed_axis(pos: bool, neg: bool) -> (r: i32)
    ensures
        r == axis(pos, neg),
{
    if pos && !neg {
        1
    } else if neg && !pos {
        -1
    } else {
        0
    }
}

/// One input event as the camera sees it.
#[derive(Clone, Copy, Debug, PartialEq, Eq, Structural)]
pub enum InputEvent {
    Key(KeyEvent),
    Button(MouseButton, bool),
    MouseMove(i32, i32),
    Frame,
}

impl InputState {
    pub open spec fn after_event(self, e: InputEvent) -> InputState {
        match e {
            InputEvent::Key(k) => self.after_key(k),
            InputEvent::Button(b, down) => self.after_button(b, down),
            InputEvent::MouseMove(dx, dy) => self.after_mouse_move(dx, dy),
            InputEvent::Frame => self.after_update(),
        }
    }
}

/// The state reached from `s` by the events in order.
pub open spec fn apply_events(s: InputState, evs: Seq<InputEvent>) -> InputState
    decreases evs.len(),
{
    if evs.len() == 0 {
        s
    } else {
        apply_events(s, evs.drop_last()).after_event(evs.last())
    }
}

/// The event presses or releases `key`.
pub open spec fn touches(e: InputEvent, key: Key) -> bool {
    match e {
        InputEvent::Key(KeyEvent::Down(k)) => k == key,
        InputEvent::Key(KeyEvent::Up(k)) => k == key,
        _ => false,
    }
}

/// The event presses or releases a speed modifier.
pub open spec fn touches_speed(e: InputEvent) -> bool {
    match e {
        InputEvent::Key(KeyEvent::Down(k)) => is_modifier(k),
        InputEvent::Key(KeyEvent::Up(k)) => is_modifier(k),
        _ => false,
    }
}

/// The speed factor a modifier event sets.
pub open spec fn speed_set_by(e: InputEvent) -> u32 {
    match e {
        InputEvent::Key(KeyEvent::Down(Key::LControl)) => SPEED_FAST,
        InputEvent::Key(KeyEvent::Down(Key::LShift)) => SPEED_SLOW,
        _ => SPEED_NORMAL,
    }
}

/// Index `i` holds the last event of `evs` that presses or releases `key`.
pub open spec fn last_touching(evs: Seq<InputEvent>, key: Key, i: int) -> bool {
    &&& 0 <= i < evs.len()
    &&& touches(evs[i], key)
    &&& forall|j: int| i < j < evs.len() ==> !touches(#[trigger] evs[j], key)
}

/// After `evs`, from `s`, `key` is down: its last event was a press, or it
/// had no event and was down in `s`.
pub open spec fn down_after(s: InputState, evs: Seq<InputEvent>, key: Key) -> bool {
    (exists|i: int| last_touching(evs, key, i) && evs[i] == InputEvent::Key(KeyEvent::Down(key)))
    || ((forall|i: int| 0 <= i < evs.len() ==> !touches(#[trigger] evs[i], key)) && s.held(key))
}

/// Index `i` holds the last event of `evs` that touches the speed modifiers.
pub open spec fn last_speed_event(evs: Seq<InputEvent>, i: int) -> bool {
    &&& 0 <= i < evs.len()
    &&& touches_speed(evs[i])
    &&& forall|j: int| i < j < evs.len() ==> !touches_speed(#[trigger] evs[j])
}

/// Every event keeps the state well formed; in particular the pitch stays
/// within a quarter turn either way, whatever the mouse does.
pub proof fn lemma_events_keep_wf(s: InputState, evs: Seq<InputEvent>)
    requires
        s.wf(),
    ensures
        apply_events(s, evs).wf(),
        -PITCH_LIMIT <= apply_events(s, evs).pitch <= PITCH_LIMIT,
    decreases evs.len(),
{
    if evs.len() > 0 {
        lemma_events_keep_wf(s, evs.drop_last());
    }
}

/// A movement key is held exactly when its last event was a press; with no
/// event it keeps its initial state. Repeating a press or a release of it
/// therefore changes nothing.
pub proof fn lemma_key_follows_last_event(s: InputState, evs: Seq<InputEvent>, key: Key)
    requires
        key_direction(key) is Some,
    ensures
        apply_events(s, evs).held(key) == down_after(s, evs, key),
    decreases evs.len(),
{
    if evs.len() > 0 {
        let init = evs.drop_last();
        let n = evs.len() - 1;
        lemma_key_follows_last_event(s, init, key);
        if touches(evs[n], key) {
            if evs[n] == InputEvent::Key(KeyEvent::Down(key)) {
                assert(last_touching(evs, key, n));
            } else {
                assert forall|i: int| last_touching(evs, key, i) implies i == n by {}
            }
        } else {
            assert forall|i: int| last_touching(init, key, i) implies last_touching(evs, key, i) by {
                assert forall|j: int| i < j < evs.len() implies !touches(#[trigger] evs[j], key) by {
                    if j < n {
                        assert(init[j] == evs[j]);
                    }
                }
            }
            assert forall|i: int| last_touching(evs, key, i) implies last_touching(init, key, i) by {
                assert(init[i] == evs[i]);
                assert forall|j: int| i < j < init.len() implies !touches(#[trigger] init[j], key) by {
                    assert(init[j] == evs[j]);
                }
            }
            if forall|i: int| 0 <= i < init.len() ==> !touches(#[trigger] init[i], key) {
                assert forall|i: int| 0 <= i < evs.len() implies !touches(#[trigger] evs[i], key) by {
                    if i < n {
                        assert(init[i] == evs[i]);
                    }
                }
            }
            if forall|i: int| 0 <= i < evs.len() ==> !touches(#[trigger] evs[i], key) {
                assert forall|i: int| 0 <= i < init.len() implies !touches(#[trigger] init[i], key) by {
                    assert(init[i] == evs[i]);
                }
            }
            assert(apply_events(s, evs).held(key) == apply_events(s, init).held(key));
        }
    }
}

/// The active directions are exactly those driven by a key that is down:
/// a direction is active if and only if some key that drives it was last
/// pressed, not released (or, with no event, was held from the start).
pub proof fn lemma_direction_follows_held_keys(s: InputState, evs: Seq<InputEvent>, d: Direction)
    ensures
        apply_events(s, evs).moving(d) <==> exists|k: Key| key_direction(k) == Some(d) && #[trigger] down_after(s, evs, k),
{
    let t = apply_events(s, evs);
    if t.moving(d) {
        let k = match d {
            Direction::Forward => Key::W,
            Direction::Backward => Key::S,
            Direction::Left => Key::A,
            Direction::Right => Key::D,
            Direction::Up => if t.key_space {
                Key::Space
            } else {
                Key::Q
            },
            Direction::Down => Key::E,
        };
        lemma_key_follows_last_event(s, evs, k);
        assert(key_direction(k) == Some(d) && down_after(s, evs, k));
    }
    if exists|k: Key| key_direction(k) == Some(d) && #[trigger] down_after(s, evs, k) {
        let k = choose|k: Key| key_direction(k) == Some(d) && #[trigger] down_after(s, evs, k);
        lemma_key_follows_last_event(s, evs, k);
    }
}

/// The speed factor is the one the most recent modifier press or release
/// set: 2.0 after a control press, 0.25 after a shift press, 1.0 after the
/// release of either; with no modifier event it keeps its initial value.
pub proof fn lemma_speed_follows_last_modifier(s: InputState, evs: Seq<InputEvent>)
    ensures
        (exists|i: int| last_speed_event(evs, i)
            && apply_events(s, evs).speed_quarters == speed_set_by(evs[i]))
        || ((forall|i: int| 0 <= i < evs.len() ==> !touches_speed(#[trigger] evs[i]))
            && apply_events(s, evs).speed_quarters == s.speed_quarters),
    decreases evs.len(),
{
    if evs.len() > 0 {
        let init = evs.drop_last();
        let n = evs.len() - 1;
        lemma_speed_follows_last_modifier(s, init);
        if touches_speed(evs[n]) {
            assert(last_speed_event(evs, n));
        } else {
            assert(apply_events(s, evs).speed_quarters == apply_events(s, init).speed_quarters);
            if exists|i: int| last_speed_event(init, i)
                && apply_events(s, init).speed_quarters == speed_set_by(init[i]) {
                let i = choose|i: int| last_speed_event(init, i)
                    && apply_events(s, init).speed_quarters == speed_set_by(init[i]);
                assert(init[i] == evs[i]);
                assert forall|j: int| i < j < evs.len() implies !touches_speed(#[trigger] evs[j]) by {
                    if j < n {
                        assert(init[j] == evs[j]);
                    }
                }
                assert(last_speed_event(evs, i));
            } else {
                assert forall|i: int| 0 <= i < evs.len() implies !touches_speed(#[trigger] evs[i]) by {
                    if i < n {
                        assert(init[i] == evs[i]);
                    }
                }
            }
        }
    }
}

} // verus!
