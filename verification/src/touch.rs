//! Touch input: decoding of raw `input_event` records and the gesture state
//! machine that turns finger down/move/up reports into discrete gestures:
//!
//! - `Press`  : finger went down (use for visual feedback only).
//! - `Release`: finger went up without qualifying as a tap.
//! - `Tap`    : short press (< TAP_MAX_MS) with little movement.
//! - `LongPress`: held still for LONG_PRESS_MS while pressed.
//! - `Drag`   : finger moved more than DRAG_THRESHOLD_PX while pressed.
//!
//! All timing is in milliseconds. Reading the device and delivering the
//! gestures is done by the caller; each step here takes one report and
//! returns the gesture to deliver, if any.

use vstd::prelude::*;
use crate::config::{H, W};
use crate::textutil::{chars_eq_str, contains_chars, contains_seq, str_chars, trim, trim_chars};

verus! {

pub const EVENT_SIZE: usize = 24;
pub const EV_KEY: u16 = 1;
pub const EV_ABS: u16 = 3;
pub const BTN_TOUCH: u16 = 330;
pub const ABS_X: u16 = 0;
pub const ABS_Y: u16 = 1;

/// High-level touch action produced by the gesture state machine.
#[derive(Clone, Copy, Debug, PartialEq, Eq)]
pub enum TouchKind {
    /// Finger went down. Pages should use this only for visual feedback.
    Press,
    /// Finger went up and did not qualify as a tap.
    Release,
    /// Short press + little movement + release. This is the "click" action.
    Tap,
    /// Held still for `LONG_PRESS_MS` while pressed.
    LongPress,
    /// Finger moved while pressed. `dx`/`dy` are in screen pixels since the
    /// previously delivered `Drag` for this gesture.
    Drag { dx: i32, dy: i32 },
}

#[derive(Clone, Copy, Debug, PartialEq, Eq)]
pub struct TouchEvent {
    pub x: i32,
    pub y: i32,
    pub kind: TouchKind,
    /// Monotonic millisecond timestamp from the input subsystem.
    pub timestamp_ms: u64,
}

impl TouchEvent {
    /// Convenience helper for hit tests that want to accept both tap and
    /// long-press as activation.
    pub fn is_activate(&self) -> (r: bool)
        ensures
            r == (self.kind is Tap || self.kind is LongPress),
    {
        match self.kind {
            TouchKind::Tap | TouchKind::LongPress => true,
            _ => false,
        }
    }
}

// ---------------------------------------------------------------------------
// Timing and gesture thresholds (all milliseconds / pixels).
// ---------------------------------------------------------------------------

pub const TAP_MAX_MS: u64 = 200;
pub const LONG_PRESS_MS: u64 = 500;
/// Movement larger than this converts a press into a drag.
pub const DRAG_THRESHOLD_PX: i32 = 10;
/// Once dragging, only emit a Drag event after accumulating this many pixels.
pub const DRAG_SAMPLE_PX: i32 = 8;
/// Polling interval for long-press detection.
pub const STATE_MACHINE_TICK_MS: u64 = 50;

// ---------------------------------------------------------------------------
// Raw event records.
// ---------------------------------------------------------------------------

pub open spec fn le_u16(b0: u8, b1: u8) -> nat {
    b0 as nat + (b1 as nat) * 256
}

pub open spec fn le_u32(b: Seq<u8>, o: int) -> nat {
    b[o] as nat + (b[o + 1] as nat) * 0x100 + (b[o + 2] as nat) * 0x1_0000 + (b[o + 3] as nat)
        * 0x100_0000
}

pub open spec fn le_u64(b: Seq<u8>, o: int) -> nat {
    le_u32(b, o) + le_u32(b, o + 4) * 0x1_0000_0000
}

/// Integer division rounding toward zero (Rust's `/` on signed integers).
pub open spec fn div_trunc(a: int, d: int) -> int {
    if a >= 0 {
        a / d
    } else {
        -((-a) / d)
    }
}

/// Decoded `input_event`: (timestamp in ms, type, code, value) for a record of
/// at least 24 bytes laid out as `sec: i64, usec: i64, type: u16, code: u16,
/// value: i32`, little endian. The millisecond timestamp wraps like the
/// platform's 64-bit arithmetic.
pub open spec fn event_fields(b: Seq<u8>) -> (u64, u16, u16, i32) {
    let sec = le_u64(b, 0) as i64;
    let usec = le_u64(b, 8) as i64;
    (
        (sec * 1000 + div_trunc(usec as int, 1000)) as u64,
        le_u16(b[16], b[17]) as u16,
        le_u16(b[18], b[19]) as u16,
        le_u32(b, 20) as i32,
    )
}

fn read_le_u32(buf: &[u8], o: usize) -> (r: u32)
    requires
        o + 4 <= buf@.len(),
    ensures
        r as nat == le_u32(buf@, o as int),
{
    let v = buf[o] as u32 + (buf[o + 1] as u32) * 0x100 + (buf[o + 2] as u32) * 0x1_0000
        + (buf[o + 3] as u32) * 0x100_0000;
    v
}

fn read_le_u64(buf: &[u8], o: usize) -> (r: u64)
    requires
        o + 8 <= buf@.len(),
    ensures
        r as nat == le_u64(buf@, o as int),
{
    let len = buf.len();
    assert(o + 4 <= len);
    let lo = read_le_u32(buf, o) as u64;
    let hi = read_le_u32(buf, o + 4) as u64;
    lo + hi * 0x1_0000_0000
}

/// Decode one raw input record; `None` when fewer than 24 bytes are given.
pub fn parse_event(buf: &[u8]) -> (r: Option<(u64, u16, u16, i32)>)
    ensures
        buf@.len() < EVENT_SIZE ==> r is None,
        buf@.len() >= EVENT_SIZE ==> r == Some(event_fields(buf@)),
{
    if buf.len() < EVENT_SIZE {
        return None;
    }
    let sec = read_le_u64(buf, 0) as i64;
    let usec = read_le_u64(buf, 8) as i64;
    let ev_type = (buf[16] as u16) + (buf[17] as u16) * 256;
    let code = (buf[18] as u16) + (buf[19] as u16) * 256;
    let value = read_le_u32(buf, 20) as i32;
    let q: i128 = if usec >= 0 {
        (usec as i128) / 1000
    } else {
        0 - ((0 - (usec as i128)) / 1000)
    };
    let total: i128 = (sec as i128) * 1000 + q;
    let timestamp_ms = total as u64;
    Some((timestamp_ms, ev_type, code, value))
}

/// A device node whose path names the calibrated virtual touchscreen
/// delivers screen coordinates already.
pub fn is_fixed_device_path(path: &str) -> (r: bool)
    ensures
        r == contains_seq(path@, "touchscreen-fixed"@),
{
    contains_chars(&str_chars(path), &str_chars("touchscreen-fixed"))
}

/// The input device named `name` (the contents of its `device/name` file)
/// is the calibrated virtual touchscreen.
pub fn is_fixed_device_name(name: &str) -> (r: bool)
    ensures
        r == (trim(name@) == "Touchscreen-Fixed"@),
{
    chars_eq_str(&trim_chars(&str_chars(name)), "Touchscreen-Fixed")
}

/// Clamp a point to the screen.
pub fn clamp_screen(x: i32, y: i32) -> (r: (i32, i32))
    ensures
        r.0 == if x < 0 {
            0
        } else if x > W - 1 {
            (W - 1) as i32
        } else {
            x
        },
        r.1 == if y < 0 {
            0
        } else if y > H - 1 {
            (H - 1) as i32
        } else {
            y
        },
{
    let mx = (W - 1) as i32;
    let my = (H - 1) as i32;
    let cx = if x < 0 {
        0
    } else if x > mx {
        mx
    } else {
        x
    };
    let cy = if y < 0 {
        0
    } else if y > my {
        my
    } else {
        y
    };
    (cx, cy)
}

/// Finger report derived from the raw event stream.
#[derive(Clone, Copy, Debug, PartialEq, Eq)]
pub enum HwKind {
    Down,
    Move,
    Up,
}

/// Decoder of the raw event stream: tracks the last absolute coordinates and
/// whether the finger is down.
#[derive(Clone, Copy, Debug)]
pub struct HwDecoder {
    pub raw_x: i32,
    pub raw_y: i32,
    pub pressed: bool,
}

impl HwDecoder {
    pub fn new() -> (d: Self)
        ensures
            d.raw_x == 0 && d.raw_y == 0 && !d.pressed,
    {
        HwDecoder { raw_x: 0, raw_y: 0, pressed: false }
    }

    /// Feed one decoded event. A touch key event reports the finger going
    /// down or up at the last coordinates; an absolute X/Y event updates the
    /// coordinates and, while pressed, reports a move. The coordinates in the
    /// report are raw (not yet calibrated).
    pub fn feed(&mut self, ev_type: u16, code: u16, value: i32, timestamp_ms: u64) -> (r: Option<
        (HwKind, i32, i32, u64),
    >)
        ensures
            ev_type == EV_KEY && code == BTN_TOUCH ==> {
                &&& final(self).pressed == (value != 0)
                &&& final(self).raw_x == old(self).raw_x && final(self).raw_y == old(self).raw_y
                &&& r == Some(
                    (
                        if value != 0 {
                            HwKind::Down
                        } else {
                            HwKind::Up
                        },
                        old(self).raw_x,
                        old(self).raw_y,
                        timestamp_ms,
                    ),
                )
            },
            ev_type == EV_ABS ==> {
                &&& final(self).pressed == old(self).pressed
                &&& final(self).raw_x == if code == ABS_X {
                    value
                } else {
                    old(self).raw_x
                }
                &&& final(self).raw_y == if code == ABS_Y {
                    value
                } else {
                    old(self).raw_y
                }
                &&& r == if old(self).pressed {
                    Some((HwKind::Move, final(self).raw_x, final(self).raw_y, timestamp_ms))
                } else {
                    None
                }
            },
            !(ev_type == EV_KEY && code == BTN_TOUCH) && ev_type != EV_ABS ==> {
                &&& r is None
                &&& *final(self) == *old(self)
            },
    {
        if ev_type == EV_KEY && code == BTN_TOUCH {
            self.pressed = value != 0;
            if self.pressed {
                Some((HwKind::Down, self.raw_x, self.raw_y, timestamp_ms))
            } else {
                Some((HwKind::Up, self.raw_x, self.raw_y, timestamp_ms))
            }
        } else if ev_type == EV_ABS {
            if code == ABS_X {
                self.raw_x = value;
            } else if code == ABS_Y {
                self.raw_y = value;
            }
            if self.pressed {
                Some((HwKind::Move, self.raw_x, self.raw_y, timestamp_ms))
            } else {
                None
            }
        } else {
            None
        }
    }
}

// ---------------------------------------------------------------------------
// Gesture state machine.
// ---------------------------------------------------------------------------

#[derive(Clone, Copy, Debug, PartialEq, Eq)]
pub enum State {
    Idle,
    Pressed {
        origin_x: i32,
        origin_y: i32,
        last_x: i32,
        last_y: i32,
        start_ms: u64,
        long_sent: bool,
    },
    Dragging { last_sent_x: i32, last_sent_y: i32 },
}

pub open spec fn abs_i(a: int) -> int {
    if a < 0 {
        -a
    } else {
        a
    }
}

/// Chebyshev distance between two points.
pub open spec fn cheb(x: int, y: int, ox: int, oy: int) -> int {
    if abs_i(x - ox) >= abs_i(y - oy) {
        abs_i(x - ox)
    } else {
        abs_i(y - oy)
    }
}

pub open spec fn ev(x: i32, y: i32, kind: TouchKind, t: u64) -> TouchEvent {
    TouchEvent { x, y, kind, timestamp_ms: t }
}

/// Transition on finger down.
pub open spec fn down_step(s: State, x: i32, y: i32, t: u64) -> (State, Option<TouchEvent>) {
    (
        State::Pressed { origin_x: x, origin_y: y, last_x: x, last_y: y, start_ms: t, long_sent: false },
        Some(ev(x, y, TouchKind::Press, t)),
    )
}

/// Transition on finger movement.
pub open spec fn move_step(s: State, x: i32, y: i32, t: u64) -> (State, Option<TouchEvent>) {
    match s {
        State::Idle => (s, None),
        State::Pressed { origin_x, origin_y, last_x, last_y, start_ms, long_sent } => {
            if cheb(x as int, y as int, origin_x as int, origin_y as int) > DRAG_THRESHOLD_PX {
                (
                    State::Dragging { last_sent_x: x, last_sent_y: y },
                    Some(ev(x, y, TouchKind::Drag { dx: (x - last_x) as i32, dy: (y - last_y) as i32 }, t)),
                )
            } else {
                (State::Pressed { origin_x, origin_y, last_x: x, last_y: y, start_ms, long_sent }, None)
            }
        },
        State::Dragging { last_sent_x, last_sent_y } => {
            if abs_i(x - last_sent_x) >= DRAG_SAMPLE_PX || abs_i(y - last_sent_y) >= DRAG_SAMPLE_PX {
                (
                    State::Dragging { last_sent_x: x, last_sent_y: y },
                    Some(
                        ev(x, y, TouchKind::Drag { dx: (x - last_sent_x) as i32, dy: (y - last_sent_y) as i32 }, t),
                    ),
                )
            } else {
                (s, None)
            }
        },
    }
}

pub open spec fn sat_sub(a: u64, b: u64) -> u64 {
    if a >= b {
        (a - b) as u64
    } else {
        0
    }
}

/// Transition on finger up.
pub open spec fn up_step(s: State, x: i32, y: i32, t: u64) -> (State, Option<TouchEvent>) {
    match s {
        State::Idle => (State::Idle, None),
        State::Pressed { origin_x, origin_y, start_ms, .. } => {
            if cheb(x as int, y as int, origin_x as int, origin_y as int) <= DRAG_THRESHOLD_PX
                && sat_sub(t, start_ms) < TAP_MAX_MS {
                (State::Idle, Some(ev(x, y, TouchKind::Tap, t)))
            } else {
                (State::Idle, Some(ev(x, y, TouchKind::Release, t)))
            }
        },
        State::Dragging { .. } => (State::Idle, Some(ev(x, y, TouchKind::Release, t))),
    }
}

/// Transition on the periodic tick.
pub open spec fn tick_step(s: State, now: u64) -> (State, Option<TouchEvent>) {
    match s {
        State::Pressed { origin_x, origin_y, start_ms, long_sent, .. } => {
            if !long_sent && sat_sub(now, start_ms) >= LONG_PRESS_MS {
                (
                    State::Pressed {
                        origin_x,
                        origin_y,
                        last_x: origin_x,
                        last_y: origin_y,
                        start_ms,
                        long_sent: true,
                    },
                    Some(ev(origin_x, origin_y, TouchKind::LongPress, now)),
                )
            } else {
                (s, None)
            }
        },
        _ => (s, None),
    }
}

fn abs_i64(a: i64) -> (r: i64)
    requires
        a > i64::MIN,
    ensures
        r == abs_i(a as int),
{
    if a < 0 {
        -a
    } else {
        a
    }
}

/// Gesture state machine. Each step returns the gesture to deliver, if any.
pub struct StateMachine {
    pub state: State,
}

impl StateMachine {
    pub fn new() -> (m: Self)
        ensures
            m.state == State::Idle,
    {
        StateMachine { state: State::Idle }
    }

    /// Finger down at `(x, y)`: start a press and report `Press`.
    pub fn on_down(&mut self, x: i32, y: i32, timestamp_ms: u64) -> (r: Option<TouchEvent>)
        ensures
            (final(self).state, r) == down_step(old(self).state, x, y, timestamp_ms),
    {
        self.state = State::Pressed {
            origin_x: x,
            origin_y: y,
            last_x: x,
            last_y: y,
            start_ms: timestamp_ms,
            long_sent: false,
        };
        Some(TouchEvent { x, y, kind: TouchKind::Press, timestamp_ms })
    }

    /// Finger moved to `(x, y)`. A press becomes a drag once the finger is
    /// more than `DRAG_THRESHOLD_PX` from where it went down; while dragging,
    /// a `Drag` is reported each time the finger moved `DRAG_SAMPLE_PX` from
    /// the last reported point.
    pub fn on_move(&mut self, x: i32, y: i32, timestamp_ms: u64) -> (r: Option<TouchEvent>)
        ensures
            (final(self).state, r) == move_step(old(self).state, x, y, timestamp_ms),
    {
        match self.state {
            State::Idle => None,
            State::Pressed { origin_x, origin_y, last_x, last_y, start_ms, long_sent } => {
                let dx = abs_i64(x as i64 - origin_x as i64);
                let dy = abs_i64(y as i64 - origin_y as i64);
                let m = if dx >= dy { dx } else { dy };
                if m > DRAG_THRESHOLD_PX as i64 {
                    self.state = State::Dragging { last_sent_x: x, last_sent_y: y };
                    let ddx = (x as i64 - last_x as i64) as i32;
                    let ddy = (y as i64 - last_y as i64) as i32;
                    Some(TouchEvent { x, y, kind: TouchKind::Drag { dx: ddx, dy: ddy }, timestamp_ms })
                } else {
                    self.state = State::Pressed {
                        origin_x,
                        origin_y,
                        last_x: x,
                        last_y: y,
                        start_ms,
                        long_sent,
                    };
                    None
                }
            },
            State::Dragging { last_sent_x, last_sent_y } => {
                let ax = abs_i64(x as i64 - last_sent_x as i64);
                let ay = abs_i64(y as i64 - last_sent_y as i64);
                if ax >= DRAG_SAMPLE_PX as i64 || ay >= DRAG_SAMPLE_PX as i64 {
                    self.state = State::Dragging { last_sent_x: x, last_sent_y: y };
                    let ddx = (x as i64 - last_sent_x as i64) as i32;
                    let ddy = (y as i64 - last_sent_y as i64) as i32;
                    Some(TouchEvent { x, y, kind: TouchKind::Drag { dx: ddx, dy: ddy }, timestamp_ms })
                } else {
                    None
                }
            },
        }
    }

    /// Finger up at `(x, y)`: a short press with little movement is a `Tap`,
    /// anything else a `Release`. The machine returns to idle.
    pub fn on_up(&mut self, x: i32, y: i32, timestamp_ms: u64) -> (r: Option<TouchEvent>)
        ensures
            (final(self).state, r) == up_step(old(self).state, x, y, timestamp_ms),
    {
        let r = match self.state {
            State::Idle => None,
            State::Pressed { origin_x, origin_y, start_ms, .. } => {
                let duration = timestamp_ms.saturating_sub(start_ms);
                let dx = abs_i64(x as i64 - origin_x as i64);
                let dy = abs_i64(y as i64 - origin_y as i64);
                let m = if dx >= dy { dx } else { dy };
                let moved = m > DRAG_THRESHOLD_PX as i64;
                if !moved && duration < TAP_MAX_MS {
                    Some(TouchEvent { x, y, kind: TouchKind::Tap, timestamp_ms })
                } else {
                    Some(TouchEvent { x, y, kind: TouchKind::Release, timestamp_ms })
                }
            },
            State::Dragging { .. } => Some(
                TouchEvent { x, y, kind: TouchKind::Release, timestamp_ms },
            ),
        };
        self.state = State::Idle;
        r
    }

    /// Periodic tick: a press held for `LONG_PRESS_MS` reports `LongPress`
    /// once, at the point where the finger went down.
    pub fn on_tick(&mut self, now_ms: u64) -> (r: Option<TouchEvent>)
        ensures
            (final(self).state, r) == tick_step(old(self).state, now_ms),
    {
        if let State::Pressed { origin_x, origin_y, start_ms, long_sent, .. } = self.state {
            if !long_sent && now_ms.saturating_sub(start_ms) >= LONG_PRESS_MS {
                self.state = State::Pressed {
                    origin_x,
                    origin_y,
                    last_x: origin_x,
                    last_y: origin_y,
                    start_ms,
                    long_sent: true,
                };
                return Some(TouchEvent { x: origin_x, y: origin_y, kind: TouchKind::LongPress, timestamp_ms: now_ms });
            }
        }
        None
    }
}

// ---------------------------------------------------------------------------
// Laws of the gesture machine.
// ---------------------------------------------------------------------------

/// A press released without intermediate moves or ticks is a tap exactly when
/// it lasted less than `TAP_MAX_MS` and ended within `DRAG_THRESHOLD_PX` of
/// where it started; otherwise it is a release. Either way the machine is idle
/// again.
pub proof fn law_press_then_release(s: State, x0: i32, y0: i32, t0: u64, x1: i32, y1: i32, t1: u64)
    ensures
        ({
            let (s1, e1) = down_step(s, x0, y0, t0);
            let (s2, e2) = up_step(s1, x1, y1, t1);
            &&& e1 == Some(ev(x0, y0, TouchKind::Press, t0))
            &&& s2 == State::Idle
            &&& e2 == Some(
                ev(
                    x1,
                    y1,
                    if cheb(x1 as int, y1 as int, x0 as int, y0 as int) <= DRAG_THRESHOLD_PX
                        && sat_sub(t1, t0) < TAP_MAX_MS {
                        TouchKind::Tap
                    } else {
                        TouchKind::Release
                    },
                    t1,
                ),
            )
        }),
{
}

/// A long press is reported at most once per press: after a tick has
/// reported it, further ticks report nothing.
pub proof fn law_long_press_once(s: State, now: u64, later: u64)
    ensures
        ({
            let (s1, e1) = tick_step(s, now);
            e1 is Some ==> tick_step(s1, later).1 is None
        }),
{
}

/// Every finger-up reports at most one gesture and leaves the machine idle; a
/// finger-up while idle reports nothing.
pub proof fn law_up_resets(s: State, x: i32, y: i32, t: u64)
    ensures
        up_step(s, x, y, t).0 == State::Idle,
        (up_step(s, x, y, t).1 is None) == (s == State::Idle),
{
}

/// Moves and ticks never report anything while no finger is down.
pub proof fn law_idle_is_silent(x: i32, y: i32, t: u64)
    ensures
        move_step(State::Idle, x, y, t) == (State::Idle, None::<TouchEvent>),
        tick_step(State::Idle, t) == (State::Idle, None::<TouchEvent>),
{
}

/// Once a press has turned into a drag it never becomes a press again until
/// the finger is lifted: moves and ticks keep it dragging.
pub proof fn law_drag_is_sticky(lx: i32, ly: i32, x: i32, y: i32, t: u64)
    ensures
        move_step(State::Dragging { last_sent_x: lx, last_sent_y: ly }, x, y, t).0 is Dragging,
        tick_step(State::Dragging { last_sent_x: lx, last_sent_y: ly }, t).0 is Dragging,
{
}


/// While dragging, a move that takes the finger `DRAG_SAMPLE_PX` or more from
/// the last reported point on either axis alone reports a `Drag` by exactly
/// that offset and makes the new point the reference; a move that stays
/// closer on both axes reports nothing and keeps the reference.
pub proof fn law_drag_samples_each_axis(lx: i32, ly: i32, x: i32, y: i32, t: u64)
    ensures
        (x - lx >= DRAG_SAMPLE_PX || lx - x >= DRAG_SAMPLE_PX || y - ly >= DRAG_SAMPLE_PX || ly - y
            >= DRAG_SAMPLE_PX) ==> move_step(State::Dragging { last_sent_x: lx, last_sent_y: ly }, x, y, t)
            == (
            State::Dragging { last_sent_x: x, last_sent_y: y },
            Some(
                TouchEvent {
                    x,
                    y,
                    kind: TouchKind::Drag { dx: (x - lx) as i32, dy: (y - ly) as i32 },
                    timestamp_ms: t,
                },
            ),
        ),
        (-DRAG_SAMPLE_PX < x - lx < DRAG_SAMPLE_PX && -DRAG_SAMPLE_PX < y - ly < DRAG_SAMPLE_PX)
            ==> move_step(State::Dragging { last_sent_x: lx, last_sent_y: ly }, x, y, t) == (
            State::Dragging { last_sent_x: lx, last_sent_y: ly },
            None::<TouchEvent>,
        ),
{
}

} // verus!
