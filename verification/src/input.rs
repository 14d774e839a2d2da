//! Reduction of raw key and mouse events to what one frame of the
//! simulation reads: which keys are held, which were tapped since the last
//! frame, and whether the mouse was pressed, is dragging or ended a drag.
//!
//! Time comes in from outside, as milliseconds on any clock that does not
//! run backwards.
use crate::space::{vec2, ScreenSpace, Vec2};
use vstd::prelude::*;

verus! {

/// How long after an accepted tap further presses of the same key are ignored.
pub const KEY_COOLDOWN_MS: u64 = 100;

/// How far, in window pixels, the cursor must be from where the button went
/// down for the gesture to count as a drag.
pub const MOUSE_DRAG_THRESHOLD: i64 = 4;

/// The number of keys the simulation listens to.
pub const KEY_COUNT: usize = 13;

/// The keys the simulation listens to.
#[derive(Debug, Clone, Copy, PartialEq, Eq, Structural)]
pub enum Key {
    Space,
    Tab,
    ArrowUp,
    ArrowDown,
    ArrowRight,
    KeyA,
    KeyC,
    KeyD,
    KeyR,
    KeyS,
    KeyW,
    Minus,
    Equal,
}

impl Key {
    /// The place of this key in the per-key tables of [`InputData`].
    pub open spec fn slot(self) -> int {
        match self {
            Key::Space => 0,
            Key::Tab => 1,
            Key::ArrowUp => 2,
            Key::ArrowDown => 3,
            Key::ArrowRight => 4,
            Key::KeyA => 5,
            Key::KeyC => 6,
            Key::KeyD => 7,
            Key::KeyR => 8,
            Key::KeyS => 9,
            Key::KeyW => 10,
            Key::Minus => 11,
            Key::Equal => 12,
        }
    }

    pub fn index(self) -> (i: usize)
        ensures
            i == self.slot(),
            i < KEY_COUNT,
    {
        match self {
            Key::Space => 0,
            Key::Tab => 1,
            Key::ArrowUp => 2,
            Key::ArrowDown => 3,
            Key::ArrowRight => 4,
            Key::KeyA => 5,
            Key::KeyC => 6,
            Key::KeyD => 7,
            Key::KeyR => 8,
            Key::KeyS => 9,
            Key::KeyW => 10,
            Key::Minus => 11,
            Key::Equal => 12,
        }
    }
}

/// Distinct keys have distinct slots, all below [`KEY_COUNT`].
pub proof fn key_slots_are_distinct(a: Key, b: Key)
    ensures
        0 <= a.slot() < KEY_COUNT,
        a.slot() == b.slot() ==> a == b,
{
}

/// What is known of one key.
pub struct KeyState {
    /// Whether the key is down, as far as accepted presses tell.
    pub held: bool,
    /// Whether a press was accepted since the last frame ended.
    pub tapped: bool,
    /// When the last press was accepted.
    pub last_tap: u64,
}

/// What can happen to one key.
pub enum KeySignal {
    /// The key went down, or the system repeated it, at the given time.
    Press(u64),
    /// The key went up.
    Release,
    /// A frame ended.
    FrameEnd,
}

impl KeyState {
    /// Whether a press at `now` counts: more than the cooldown has passed
    /// since the last press that counted.
    pub open spec fn accepts(self, now: u64) -> bool {
        now - self.last_tap > KEY_COOLDOWN_MS
    }

    /// The state that follows `signal`.
    pub open spec fn after(self, signal: KeySignal) -> KeyState {
        match signal {
            KeySignal::Press(now) => if self.accepts(now) {
                KeyState { held: true, tapped: true, last_tap: now }
            } else {
                self
            },
            KeySignal::Release => KeyState { held: false, ..self },
            KeySignal::FrameEnd => KeyState { tapped: false, ..self },
        }
    }

    /// The state that follows a run of signals.
    pub open spec fn after_all(self, signals: Seq<KeySignal>) -> KeyState
        decreases signals.len(),
    {
        if signals.len() == 0 {
            self
        } else {
            self.after_all(signals.drop_last()).after(signals.last())
        }
    }

    /// How many taps a run of signals gives: the presses in it that count.
    pub open spec fn taps(self, signals: Seq<KeySignal>) -> nat
        decreases signals.len(),
    {
        if signals.len() == 0 {
            0
        } else {
            let before = self.after_all(signals.drop_last());
            let earlier = self.taps(signals.drop_last());
            match signals.last() {
                KeySignal::Press(now) => if before.accepts(now) {
                    earlier + 1
                } else {
                    earlier
                },
                _ => earlier,
            }
        }
    }
}

/// Whether `signal` belongs to a key that stays down through the cooldown
/// that began at `start`: a repeated press within the cooldown, or the end
/// of a frame.
pub open spec fn is_hold_signal(signal: KeySignal, start: u64) -> bool {
    match signal {
        KeySignal::Press(now) => start <= now <= start + KEY_COOLDOWN_MS,
        KeySignal::Release => false,
        KeySignal::FrameEnd => true,
    }
}

/// Whether a frame ends somewhere in `signals`.
pub open spec fn has_frame_end(signals: Seq<KeySignal>) -> bool {
    exists|i: int| 0 <= i < signals.len() && signals[i] == KeySignal::FrameEnd
}

/// A key that is pressed and then held gives one tap, however many frames
/// go by and however often the system repeats the press, until the cooldown
/// is over. The tap is seen up to the end of the frame in which it fell.
pub proof fn held_key_taps_once(key: KeyState, start: u64, hold: Seq<KeySignal>)
    requires
        key.accepts(start),
        forall|i: int| 0 <= i < hold.len() ==> is_hold_signal(#[trigger] hold[i], start),
    ensures
        key.taps(seq![KeySignal::Press(start)] + hold) == 1,
        key.after_all(seq![KeySignal::Press(start)] + hold).held,
        key.after_all(seq![KeySignal::Press(start)] + hold).last_tap == start,
        key.after_all(seq![KeySignal::Press(start)] + hold).tapped <==> !has_frame_end(hold),
    decreases hold.len(),
{
    let first = seq![KeySignal::Press(start)];
    let all = first + hold;
    if hold.len() == 0 {
        assert(all =~= first);
        assert(first.drop_last() =~= Seq::<KeySignal>::empty());
        assert(key.after_all(first.drop_last()) == key);
        assert(key.taps(first.drop_last()) == 0);
    } else {
        let shorter = hold.drop_last();
        assert(all.drop_last() =~= first + shorter);
        assert(all.last() == hold.last());
        held_key_taps_once(key, start, shorter);
        assert(is_hold_signal(hold[hold.len() - 1], start));
        if has_frame_end(shorter) {
            let i = choose|i: int| 0 <= i < shorter.len() && shorter[i] == KeySignal::FrameEnd;
            assert(hold[i] == KeySignal::FrameEnd);
        }
        if has_frame_end(hold) && hold.last() != KeySignal::FrameEnd {
            let i = choose|i: int| 0 <= i < hold.len() && hold[i] == KeySignal::FrameEnd;
            assert(shorter[i] == KeySignal::FrameEnd);
        }
    }
}

/// Once the cooldown is over, the next press of a held key counts again.
pub proof fn held_key_taps_again(key: KeyState, start: u64, hold: Seq<KeySignal>, now: u64)
    requires
        key.accepts(start),
        forall|i: int| 0 <= i < hold.len() ==> is_hold_signal(#[trigger] hold[i], start),
        now > start + KEY_COOLDOWN_MS,
    ensures
        key.taps((seq![KeySignal::Press(start)] + hold).push(KeySignal::Press(now))) == 2,
{
    let all = seq![KeySignal::Press(start)] + hold;
    held_key_taps_once(key, start, hold);
    assert(all.push(KeySignal::Press(now)).drop_last() =~= all);
}

/// Where the cursor was when something happened to the mouse button.
#[derive(Debug, Clone, Copy)]
pub struct MouseMark {
    pub pos: Vec2<i32, ScreenSpace>,
}

/// The input state that a frame of the simulation reads.
pub struct InputData {
    /// Where the cursor is.
    pub mouse: Vec2<i32, ScreenSpace>,
    pub keys_held: [bool; KEY_COUNT],
    /// Set by an accepted press, cleared when the frame ends.
    pub keys_tapped: [bool; KEY_COUNT],
    /// When the last press of each key was accepted.
    pub tap_cooldowns: [u64; KEY_COUNT],
    pub mouse_down: bool,
    /// Where the button last went down.
    pub mouse_pressed: MouseMark,
    /// Where the button last went up.
    pub mouse_released: MouseMark,
    /// Whether the button went down since the last frame ended.
    pub press_edge: bool,
    /// Whether the button went up since the last frame ended.
    pub release_edge: bool,
}

/// Whether two cursor positions lie further apart than the drag threshold.
pub open spec fn moved_beyond_threshold(
    from: Vec2<i32, ScreenSpace>,
    to: Vec2<i32, ScreenSpace>,
) -> bool {
    (to.x - from.x) * (to.x - from.x) + (to.y - from.y) * (to.y - from.y) > MOUSE_DRAG_THRESHOLD
        * MOUSE_DRAG_THRESHOLD
}

fn has_moved_beyond_threshold(from: Vec2<i32, ScreenSpace>, to: Vec2<i32, ScreenSpace>) -> (b:
    bool)
    ensures
        b == moved_beyond_threshold(from, to),
{
    let dx: i128 = to.x as i128 - from.x as i128;
    let dy: i128 = to.y as i128 - from.y as i128;
    assert(0 <= dx * dx <= 0x1_0000_0000 * 0x1_0000_0000) by (nonlinear_arith)
        requires
            -0x1_0000_0000 <= dx <= 0x1_0000_0000,
    ;
    assert(0 <= dy * dy <= 0x1_0000_0000 * 0x1_0000_0000) by (nonlinear_arith)
        requires
            -0x1_0000_0000 <= dy <= 0x1_0000_0000,
    ;
    let limit: i128 = MOUSE_DRAG_THRESHOLD as i128;
    assert(limit * limit == 16) by (nonlinear_arith)
        requires
            limit == 4,
    ;
    dx * dx + dy * dy > limit * limit
}

impl InputData {
    /// What is known of `key`.
    pub open spec fn key(self, key: Key) -> KeyState {
        KeyState {
            held: self.keys_held[key.slot()],
            tapped: self.keys_tapped[key.slot()],
            last_tap: self.tap_cooldowns[key.slot()],
        }
    }

    /// Whether the two states differ at most in what they know of keys.
    pub open spec fn same_mouse(self, other: InputData) -> bool {
        &&& self.mouse == other.mouse
        &&& self.mouse_down == other.mouse_down
        &&& self.mouse_pressed == other.mouse_pressed
        &&& self.mouse_released == other.mouse_released
        &&& self.press_edge == other.press_edge
        &&& self.release_edge == other.release_edge
    }

    /// Whether the button is down and the cursor has left the place where it went down.
    pub open spec fn dragging(self) -> bool {
        self.mouse_down && moved_beyond_threshold(self.mouse_pressed.pos, self.mouse)
    }

    /// Whether a drag ended since the last frame: the button went up away
    /// from the place where it went down.
    pub open spec fn dragged(self) -> bool {
        self.release_edge && moved_beyond_threshold(
            self.mouse_pressed.pos,
            self.mouse_released.pos,
        )
    }

    /// The state before any event: no key held or tapped, the button up,
    /// the cursor in the corner. Every key starts its cooldown at `now`.
    pub fn new(now: u64) -> (inputs: Self)
        ensures
            forall|k: Key|
                inputs.key(k) == (KeyState { held: false, tapped: false, last_tap: now }),
            forall|i: int|
                0 <= i < KEY_COUNT ==> !inputs.keys_held[i] && !inputs.keys_tapped[i]
                    && inputs.tap_cooldowns[i] == now,
            inputs.mouse.x == 0 && inputs.mouse.y == 0,
            !inputs.mouse_down,
            !inputs.press_edge,
            !inputs.release_edge,
            inputs.mouse_pressed.pos == inputs.mouse,
            inputs.mouse_released.pos == inputs.mouse,
    {
        let origin: Vec2<i32, ScreenSpace> = vec2(0, 0);
        InputData {
            mouse: origin,
            keys_held: [false;KEY_COUNT],
            keys_tapped: [false;KEY_COUNT],
            tap_cooldowns: [now;KEY_COUNT],
            mouse_down: false,
            mouse_pressed: MouseMark { pos: origin },
            mouse_released: MouseMark { pos: origin },
            press_edge: false,
            release_edge: false,
        }
    }

    /// Takes in a key going down (or being repeated) or up at time `now`.
    ///
    /// A press counts only if more than the cooldown has passed since the
    /// last press of this key that counted; otherwise it changes nothing. A
    /// release always clears `held`.
    pub fn register_key(&mut self, key: Key, pressed: bool, now: u64)
        ensures
            final(self).key(key) == old(self).key(key).after(
                if pressed {
                    KeySignal::Press(now)
                } else {
                    KeySignal::Release
                },
            ),
            forall|k: Key| k != key ==> final(self).key(k) == old(self).key(k),
            final(self).same_mouse(*old(self)),
    {
        let i = key.index();
        proof {
            assert forall|k: Key| k != key implies k.slot() != key.slot() by {
                key_slots_are_distinct(k, key);
            }
        }
        if pressed {
            let last = self.tap_cooldowns[i];
            if now > last && now - last > KEY_COOLDOWN_MS {
                self.keys_held[i] = true;
                self.keys_tapped[i] = true;
                self.tap_cooldowns[i] = now;
            }
        } else {
            self.keys_held[i] = false;
        }
    }

    /// Whether `key` was tapped since the last frame ended.
    pub fn is_pressed(&self, key: Key) -> (b: bool)
        ensures
            b == self.key(key).tapped,
    {
        self.keys_tapped[key.index()]
    }

    /// Whether `key` is held down.
    pub fn is_held(&self, key: Key) -> (b: bool)
        ensures
            b == self.key(key).held,
    {
        self.keys_held[key.index()]
    }

    /// Takes in a move of the cursor.
    pub fn register_cursor(&mut self, pos: Vec2<i32, ScreenSpace>)
        ensures
            *final(self) == (InputData { mouse: pos, ..*old(self) }),
    {
        self.mouse = pos;
    }

    /// Takes in the mouse button going down or up. A button that goes down
    /// after being up marks the cursor's place as the start of a gesture; one
    /// that goes up after being down marks it as the end.
    pub fn register_mouse_button(&mut self, pressed: bool)
        ensures
            final(self).mouse_down == pressed,
            pressed && !old(self).mouse_down ==> *final(self) == (InputData {
                mouse_down: true,
                press_edge: true,
                mouse_pressed: MouseMark { pos: old(self).mouse },
                ..*old(self)
            }),
            !pressed && old(self).mouse_down ==> *final(self) == (InputData {
                mouse_down: false,
                release_edge: true,
                mouse_released: MouseMark { pos: old(self).mouse },
                ..*old(self)
            }),
            pressed == old(self).mouse_down ==> *final(self) == *old(self),
    {
        if pressed && !self.mouse_down {
            self.press_edge = true;
            self.mouse_pressed = MouseMark { pos: self.mouse };
        } else if !pressed && self.mouse_down {
            self.release_edge = true;
            self.mouse_released = MouseMark { pos: self.mouse };
        }
        self.mouse_down = pressed;
    }

    /// Whether the button went down since the last frame ended.
    pub fn was_mouse_pressed(&self) -> (b: bool)
        ensures
            b == self.press_edge,
    {
        self.press_edge
    }

    /// Whether the button went up since the last frame ended.
    pub fn was_mouse_released(&self) -> (b: bool)
        ensures
            b == self.release_edge,
    {
        self.release_edge
    }

    /// Whether a drag is under way.
    pub fn is_mouse_dragging(&self) -> (b: bool)
        ensures
            b == self.dragging(),
    {
        self.mouse_down && has_moved_beyond_threshold(self.mouse_pressed.pos, self.mouse)
    }

    /// Whether a drag ended since the last frame ended.
    pub fn was_mouse_dragging(&self) -> (b: bool)
        ensures
            b == self.dragged(),
    {
        self.release_edge && has_moved_beyond_threshold(
            self.mouse_pressed.pos,
            self.mouse_released.pos,
        )
    }

    /// Ends the frame: forgets the taps and the button's edges. What is held
    /// stays held, and every cooldown runs on.
    pub fn end_frame(&mut self)
        ensures
            forall|k: Key| final(self).key(k) == old(self).key(k).after(KeySignal::FrameEnd),
            *final(self) == (InputData {
                keys_tapped: final(self).keys_tapped,
                press_edge: false,
                release_edge: false,
                ..*old(self)
            }),
    {
        self.keys_tapped = [false;KEY_COUNT];
        self.press_edge = false;
        self.release_edge = false;
    }
}

} // verus!
