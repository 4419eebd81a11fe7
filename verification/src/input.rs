//! Keyboard and mouse state, folded from windowing events.
//!
//! The shell turns raw window events into `InputEvent` values; the
//! state machine here is what gameplay code reads.

use vstd::prelude::*;

verus! {

#[derive(PartialEq, Eq, Clone, Copy, Debug, Structural)]
pub enum Key {
    Forward,
    Backward,
    Left,
    Right,
    LookAround,
}

/// A key's state across frames: `Pressed` and `Released` last for the
/// frame of the transition, `Down` and `Up` for the steady states.
#[derive(PartialEq, Eq, Clone, Copy, Debug, Structural)]
pub enum KeyState {
    Up,
    Pressed,
    Down,
    Released,
}

impl Default for KeyState {
    fn default() -> (r: KeyState)
        ensures
            r == KeyState::Up,
    {
        KeyState::Up
    }
}

#[derive(PartialEq, Eq, Clone, Copy, Debug, Structural)]
pub enum MouseButton {
    Left,
    Right,
    Middle,
    Other,
}

/// One decoded window event.
#[derive(PartialEq, Eq, Clone, Copy, Debug, Structural)]
pub enum InputEvent {
    Keyboard { scancode: u32, pressed: bool },
    Mouse { button: MouseButton, pressed: bool },
    MouseMotion { dx: i64, dy: i64 },
}

/// Index of each key in the state list.
pub open spec fn spec_key_index(k: Key) -> int {
    match k {
        Key::Forward => 0,
        Key::Backward => 1,
        Key::Left => 2,
        Key::Right => 3,
        Key::LookAround => 4,
    }
}

/// The key a keyboard scancode maps to.
pub open spec fn spec_key_from_scancode(scancode: u32) -> Option<Key> {
    if scancode == 13 {
        Some(Key::Forward)
    } else if scancode == 0 {
        Some(Key::Left)
    } else if scancode == 1 {
        Some(Key::Backward)
    } else if scancode == 2 {
        Some(Key::Right)
    } else {
        None
    }
}

/// The key a mouse button maps to.
pub open spec fn spec_key_from_mouse_button(b: MouseButton) -> Option<Key> {
    match b {
        MouseButton::Right => Some(Key::LookAround),
        _ => None,
    }
}

/// A press lands only on a key that is up.
pub open spec fn spec_press(s: KeyState) -> KeyState {
    match s {
        KeyState::Up | KeyState::Released => KeyState::Pressed,
        _ => s,
    }
}

/// A release lands only on a key that is down.
pub open spec fn spec_release(s: KeyState) -> KeyState {
    match s {
        KeyState::Down | KeyState::Pressed => KeyState::Released,
        _ => s,
    }
}

/// What a frame boundary does to one key's state.
pub open spec fn spec_frame_step(s: KeyState) -> KeyState {
    match s {
        KeyState::Pressed => KeyState::Down,
        KeyState::Released => KeyState::Up,
        _ => s,
    }
}

/// 2^32: magnitude cap on a single mouse motion delta.
pub const MOTION_LIM: i64 = 0x1_0000_0000;

/// 2^62: magnitude cap on the accumulated per-frame mouse delta.
pub const DELTA_LIM: i64 = 0x4000_0000_0000_0000;

pub struct Input {
    pub key_states: Vec<KeyState>,
    pub delta_mouse: (i64, i64),
}

impl Input {
    /// Five key slots with in-range accumulated motion.
    pub open spec fn wf(self) -> bool {
        &&& self.key_states@.len() == 5
        &&& -DELTA_LIM <= self.delta_mouse.0 <= DELTA_LIM
        &&& -DELTA_LIM <= self.delta_mouse.1 <= DELTA_LIM
    }

    /// Everything up, no motion.
    pub fn new() -> (r: Input)
        ensures
            r.wf(),
            forall|k: Key| r.key_states@[spec_key_index(k)] == KeyState::Up,
            r.delta_mouse == (0i64, 0i64),
    {
        let mut ks: Vec<KeyState> = Vec::new();
        ks.push(KeyState::Up);
        ks.push(KeyState::Up);
        ks.push(KeyState::Up);
        ks.push(KeyState::Up);
        ks.push(KeyState::Up);
        Input { key_states: ks, delta_mouse: (0, 0) }
    }

    /// Advances the frame boundary: edge states settle into their
    /// steady states and the mouse delta resets.
    pub fn new_frame(&mut self)
        requires
            old(self).wf(),
        ensures
            final(self).wf(),
            forall|k: Key| final(self).key_states@[spec_key_index(k)]
                == spec_frame_step(old(self).key_states@[#[trigger] spec_key_index(k)]),
            final(self).delta_mouse == (0i64, 0i64),
    {
        let mut i: usize = 0;
        while i < 5
            invariant
                old(self).wf(),
                self.key_states@.len() == 5,
                i <= 5,
                forall|j: int| 0 <= j < i
                    ==> self.key_states@[j] == spec_frame_step(old(self).key_states@[j]),
                forall|j: int| i <= j < 5
                    ==> self.key_states@[j] == old(self).key_states@[j],
                self.delta_mouse == old(self).delta_mouse,
            decreases 5 - i,
        {
            let s = self.key_states[i];
            let ns = match s {
                KeyState::Pressed => KeyState::Down,
                KeyState::Released => KeyState::Up,
                _ => s,
            };
            self.key_states.set(i, ns);
            i += 1;
        }
        self.delta_mouse = (0, 0);
        proof {
            assert forall|k: Key| self.key_states@[spec_key_index(k)]
                == spec_frame_step(old(self).key_states@[#[trigger] spec_key_index(k)]) by {
                assert(0 <= spec_key_index(k) < 5);
            }
        }
    }

    /// Folds one decoded event into the state.
    pub fn consume_event(&mut self, event: InputEvent)
        requires
            old(self).wf(),
            event matches InputEvent::MouseMotion { dx, dy }
                ==> -MOTION_LIM <= dx <= MOTION_LIM && -MOTION_LIM <= dy <= MOTION_LIM
                    && -(DELTA_LIM - MOTION_LIM) <= old(self).delta_mouse.0 <= DELTA_LIM - MOTION_LIM
                    && -(DELTA_LIM - MOTION_LIM) <= old(self).delta_mouse.1 <= DELTA_LIM - MOTION_LIM,
        ensures
            final(self).wf(),
            match event {
                InputEvent::Keyboard { scancode, pressed } => {
                    &&& final(self).delta_mouse == old(self).delta_mouse
                    &&& match spec_key_from_scancode(scancode) {
                        Some(k) => {
                            &&& final(self).key_states@[spec_key_index(k)] == (if pressed {
                                spec_press(old(self).key_states@[spec_key_index(k)])
                            } else {
                                spec_release(old(self).key_states@[spec_key_index(k)])
                            })
                            &&& forall|k2: Key| k2 != k
                                ==> final(self).key_states@[#[trigger] spec_key_index(k2)]
                                    == old(self).key_states@[spec_key_index(k2)]
                        }
                        None => final(self).key_states@ == old(self).key_states@,
                    }
                }
                InputEvent::Mouse { button, pressed } => {
                    &&& final(self).delta_mouse == old(self).delta_mouse
                    &&& match spec_key_from_mouse_button(button) {
                        Some(k) => {
                            &&& final(self).key_states@[spec_key_index(k)] == (if pressed {
                                spec_press(old(self).key_states@[spec_key_index(k)])
                            } else {
                                spec_release(old(self).key_states@[spec_key_index(k)])
                            })
                            &&& forall|k2: Key| k2 != k
                                ==> final(self).key_states@[#[trigger] spec_key_index(k2)]
                                    == old(self).key_states@[spec_key_index(k2)]
                        }
                        None => final(self).key_states@ == old(self).key_states@,
                    }
                }
                InputEvent::MouseMotion { dx, dy } => {
                    &&& final(self).key_states@ == old(self).key_states@
                    &&& final(self).delta_mouse.0 == old(self).delta_mouse.0 + dx
                    &&& final(self).delta_mouse.1 == old(self).delta_mouse.1 + dy
                }
            },
    {
        match event {
            InputEvent::Keyboard { scancode, pressed } => {
                if let Some(key) = self.key_from_scancode(scancode) {
                    self.apply_key(key, pressed);
                }
            }
            InputEvent::Mouse { button, pressed } => {
                if let Some(key) = self.key_from_mouse_button(button) {
                    self.apply_key(key, pressed);
                }
            }
            InputEvent::MouseMotion { dx, dy } => {
                self.delta_mouse = (self.delta_mouse.0 + dx, self.delta_mouse.1 + dy);
            }
        }
    }

    /// A key counts as down while pressed or held.
    pub fn is_key_down(&self, key: Key) -> (r: bool)
        requires
            self.wf(),
        ensures
            r == (self.key_states@[spec_key_index(key)] == KeyState::Pressed
                || self.key_states@[spec_key_index(key)] == KeyState::Down),
    {
        let s = self.key_states[Self::key_index(key)];
        match s {
            KeyState::Pressed | KeyState::Down => true,
            _ => false,
        }
    }

    /// Mouse motion accumulated since the last frame boundary.
    pub fn delta_mouse(&self) -> (r: (i64, i64))
        ensures
            r == self.delta_mouse,
    {
        self.delta_mouse
    }

    fn key_index(key: Key) -> (r: usize)
        ensures
            r == spec_key_index(key),
            r < 5,
    {
        match key {
            Key::Forward => 0,
            Key::Backward => 1,
            Key::Left => 2,
            Key::Right => 3,
            Key::LookAround => 4,
        }
    }

    fn key_from_scancode(&self, scancode: u32) -> (r: Option<Key>)
        ensures
            r == spec_key_from_scancode(scancode),
    {
        match scancode {
            13 => Some(Key::Forward),
            0 => Some(Key::Left),
            1 => Some(Key::Backward),
            2 => Some(Key::Right),
            _ => None,
        }
    }

    fn key_from_mouse_button(&self, mouse_button: MouseButton) -> (r: Option<Key>)
        ensures
            r == spec_key_from_mouse_button(mouse_button),
    {
        match mouse_button {
            MouseButton::Right => Some(Key::LookAround),
            _ => None,
        }
    }

    fn apply_key(&mut self, key: Key, pressed: bool)
        requires
            old(self).wf(),
        ensures
            final(self).wf(),
            final(self).delta_mouse == old(self).delta_mouse,
            final(self).key_states@[spec_key_index(key)] == (if pressed {
                spec_press(old(self).key_states@[spec_key_index(key)])
            } else {
                spec_release(old(self).key_states@[spec_key_index(key)])
            }),
            forall|k2: Key| k2 != key
                ==> final(self).key_states@[#[trigger] spec_key_index(k2)]
                    == old(self).key_states@[spec_key_index(k2)],
    {
        let i = Self::key_index(key);
        let s = self.key_states[i];
        let ns = if pressed {
            match s {
                KeyState::Up | KeyState::Released => KeyState::Pressed,
                _ => s,
            }
        } else {
            match s {
                KeyState::Down | KeyState::Pressed => KeyState::Released,
                _ => s,
            }
        };
        self.key_states.set(i, ns);
        proof {
            assert forall|k2: Key| k2 != key
                implies self.key_states@[#[trigger] spec_key_index(k2)]
                    == old(self).key_states@[spec_key_index(k2)] by {
                assert(spec_key_index(k2) != spec_key_index(key));
            }
        }
    }
}

} // verus!
