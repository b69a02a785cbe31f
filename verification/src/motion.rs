//! Movement mode — the pointer under the keyboard, with the buttons on the
//! other hand.
//!
//! `hjkl` corrects the position a few pixels at a time, `s` makes that a
//! sweep, and the left hand carries every button: `f` click, `d` double, `g`
//! triple, `a` middle, `r` right.
//!
//! **`f` is the left button** — its press sends the button down and its
//! release sends it up, so a tap is a click and a hold is a drag.
//!
//! **Motion is a 90 Hz tick and not key repeat.** A press moves once
//! immediately, and a key still held runs the tick. One move per tick however
//! many keys are down — diagonals are the vector sum and cost the same one
//! request.
//!
//! **The slow speed does not accelerate.** A correction speed that changes
//! while it is held is a correction nobody can aim. `s` is where fast lives,
//! and only `s` accelerates.
//!
//! The machine is given events and returns commands: it reads no clock and
//! has never heard of the broker.
use vstd::prelude::*;

use crate::detect::rect::Rect;
use crate::free::{Dir, Nanos};
use crate::num;

verus! {

/// The buttons movement mode can send.
#[derive(Debug, Clone, Copy, PartialEq, Eq, Structural)]
pub enum Button {
    Left,
    Middle,
    Right,
}

/// A key movement mode understands. Everything else is ignored, silently and
/// on purpose: a mode that reacted to keys it has no meaning for would be a
/// mode that cannot be typed near.
#[derive(Debug, Clone, Copy, PartialEq, Eq, Structural)]
pub enum Key {
    /// `hjkl`. Held is the normal case, not the exception.
    Move(Dir),
    /// `s` — while held, move fast.
    Fast,
    /// `f` — the left button itself. Tap to click, hold to drag or select.
    LeftButton,
    /// `d`
    DoubleClick,
    /// `g`
    TripleClick,
    /// `a` — **the wheel itself**. Tap it and it is a wheel click; hold it
    /// and turn with `hjkl` and it scrolls.
    Wheel,
    /// `r`
    RightClick,
    /// `Tab`, right Alt, or Escape.
    Leave,
}

impl Key {
    /// The key a keysym name stands for. **Right Alt is two names**: `Alt_R`
    /// on a plain US layout, `ISO_Level3_Shift` on any layout with a third
    /// level.
    pub open spec fn named(name: Seq<char>) -> Option<Key> {
        if name == "h"@ {
            Some(Key::Move(Dir::Left))
        } else if name == "j"@ {
            Some(Key::Move(Dir::Down))
        } else if name == "k"@ {
            Some(Key::Move(Dir::Up))
        } else if name == "l"@ {
            Some(Key::Move(Dir::Right))
        } else if name == "s"@ {
            Some(Key::Fast)
        } else if name == "f"@ {
            Some(Key::LeftButton)
        } else if name == "d"@ {
            Some(Key::DoubleClick)
        } else if name == "g"@ {
            Some(Key::TripleClick)
        } else if name == "a"@ {
            Some(Key::Wheel)
        } else if name == "r"@ {
            Some(Key::RightClick)
        } else if name == "Tab"@ || name == "Escape"@ || name == "Alt_R"@ || name
            == "ISO_Level3_Shift"@ {
            Some(Key::Leave)
        } else {
            None
        }
    }

    /// From the keysym *name* the compositor reports: a name survives a
    /// modifier or a dead key where a character does not.
    pub fn from_name(name: &str) -> (k: Option<Self>)
        ensures
            k == Key::named(name@),
    {
        if name.eq("h") {
            Some(Key::Move(Dir::Left))
        } else if name.eq("j") {
            Some(Key::Move(Dir::Down))
        } else if name.eq("k") {
            Some(Key::Move(Dir::Up))
        } else if name.eq("l") {
            Some(Key::Move(Dir::Right))
        } else if name.eq("s") {
            Some(Key::Fast)
        } else if name.eq("f") {
            Some(Key::LeftButton)
        } else if name.eq("d") {
            Some(Key::DoubleClick)
        } else if name.eq("g") {
            Some(Key::TripleClick)
        } else if name.eq("a") {
            Some(Key::Wheel)
        } else if name.eq("r") {
            Some(Key::RightClick)
        } else if name.eq("Tab") || name.eq("Escape") || name.eq("Alt_R") || name.eq(
            "ISO_Level3_Shift",
        ) {
            Some(Key::Leave)
        } else {
            None
        }
    }

    /// A place for each key. `Move` has four of them: the directions are held
    /// independently and a diagonal is two keys down at once.
    pub open spec fn place(self) -> int {
        match self {
            Key::Move(Dir::Up) => 0,
            Key::Move(Dir::Down) => 1,
            Key::Move(Dir::Left) => 2,
            Key::Move(Dir::Right) => 3,
            Key::Fast => 4,
            Key::LeftButton => 5,
            Key::DoubleClick => 6,
            Key::TripleClick => 7,
            Key::Wheel => 8,
            Key::RightClick => 9,
            Key::Leave => 10,
        }
    }

    fn bit(self) -> (i: usize)
        ensures
            i == self.place(),
            i < 11,
    {
        match self {
            Key::Move(Dir::Up) => 0,
            Key::Move(Dir::Down) => 1,
            Key::Move(Dir::Left) => 2,
            Key::Move(Dir::Right) => 3,
            Key::Fast => 4,
            Key::LeftButton => 5,
            Key::DoubleClick => 6,
            Key::TripleClick => 7,
            Key::Wheel => 8,
            Key::RightClick => 9,
            Key::Leave => 10,
        }
    }
}

/// What happened. `Tick` is the clock; the other two are the keyboard.
#[derive(Debug, Clone, Copy, PartialEq, Eq, Structural)]
pub enum Ev {
    Down(Key),
    Up(Key),
    Tick,
}

/// What to do about it. One `MoveTo` is one request; `Click` is one batch.
#[derive(Debug, Clone, Copy, PartialEq, Eq, Structural)]
pub enum Cmd {
    MoveTo(i32, i32),
    /// The button goes down and stays down — a drag has started.
    Press(Button),
    Release(Button),
    /// A complete click, `times` of them. `times` is 2 or 3 for `d` and `g`.
    Click { button: Button, times: u8 },
    /// Wheel notches: `v` positive is up, `h` positive is right.
    Scroll { v: i32, h: i32 },
    /// The mode is over. Never emitted while a button is still down —
    /// see [`Motion::leave`].
    Leave,
}

/// The numbers the feel is made of, separated from the machine so that they
/// can be tuned without touching a line of logic.
#[derive(Debug)]
pub struct Params {
    /// How often the tick fires while a direction is held. 90 Hz is
    /// 11.111 ms.
    pub tick: Nanos,
    /// The slow step, in pixels, and it is constant. **1 px is the floor and
    /// the whole point**: it is the finest correction that can be expressed.
    pub slow_step: i32,
    /// The steps of a fast sweep, one per tick, in pixels; the last one
    /// repeats for as long as the sweep goes on.
    pub fast_steps: Vec<i32>,
    /// Ticks between wheel notches while `a` is held.
    pub scroll_slow_ticks: u32,
    /// Ticks between notches with `s` also held.
    pub scroll_fast_ticks: u32,
}

impl Params {
    /// A sweep has a first step.
    pub open spec fn wf(self) -> bool {
        self.fast_steps@.len() > 0
    }
}

impl Clone for Params {
    fn clone(&self) -> (p: Self)
        ensures
            p.tick == self.tick,
            p.slow_step == self.slow_step,
            p.fast_steps@ == self.fast_steps@,
            p.scroll_slow_ticks == self.scroll_slow_ticks,
            p.scroll_fast_ticks == self.scroll_fast_ticks,
    {
        Params { fast_steps: self.fast_steps.clone(), ..*self }
    }
}

impl Default for Params {
    /// A sweep starts at 240 px/s and grows by 4.6% a tick to 1200 px/s, in
    /// about 0.4 s: 2.667 px growing to 13.333 px, each step to the nearest
    /// pixel.
    fn default() -> (p: Self)
        ensures
            p.wf(),
            p.tick == 11_111_000,
            p.slow_step == 1,
            p.fast_steps@ =~= seq![
                3i32, 3, 3, 3, 3, 3, 3, 4, 4, 4, 4, 4, 5, 5, 5, 5, 5, 6, 6, 6, 7, 7, 7, 8, 8, 8,
                9, 9, 9, 10, 10, 11, 11, 12, 12, 13,
            ],
            p.scroll_slow_ticks == 12,
            p.scroll_fast_ticks == 3,
    {
        Params {
            tick: 11_111_000,
            slow_step: 1,
            fast_steps: vec![
                3i32, 3, 3, 3, 3, 3, 3, 4, 4, 4, 4, 4, 5, 5, 5, 5, 5, 6, 6, 6, 7, 7, 7, 8, 8, 8,
                9, 9, 9, 10, 10, 11, 11, 12, 12, 13,
            ],
            scroll_slow_ticks: 12,
            scroll_fast_ticks: 3,
        }
    }
}

// ---------------------------------------------------------------------------
// What the machine does
// ---------------------------------------------------------------------------

/// `s` is the nearest whole number to `step / √2`, and at least 1.
pub open spec fn is_diagonal(step: int, s: int) -> bool {
    if step <= 1 {
        s == 1
    } else {
        s >= 1 && (2 * s - 1) * (2 * s - 1) < 2 * (step * step) < (2 * s + 1) * (2 * s + 1)
    }
}

/// The step along each axis of a diagonal. At full step on both axes a
/// diagonal would be √2 times faster than a straight line, which reads as the
/// pointer speeding up when a key is added.
pub open spec fn diagonal(step: int) -> int {
    choose|s: int| is_diagonal(step, s)
}

/// All there is to know of the mode.
pub struct MotionState {
    pub x: int,
    pub y: int,
    pub bounds: Rect,
    pub tick: Nanos,
    pub slow_step: int,
    pub fast_steps: Seq<i32>,
    pub scroll_slow_ticks: int,
    pub scroll_fast_ticks: int,
    /// Which keys are physically down, at [`Key::place`].
    pub keys_down: Seq<bool>,
    /// `s` is held.
    pub fast: bool,
    /// `f` is down, so the left button is down and this is a drag.
    pub dragging: bool,
    /// The sweep's current step, counted from the first. Reset by anything
    /// that changes what is being asked for.
    pub ramp: int,
    /// `a` is down, so `hjkl` turn the wheel instead of moving the pointer.
    pub wheel: bool,
    /// Whether this press of `a` has actually scrolled anything. It decides
    /// what the *release* means.
    pub wheel_used: bool,
    /// Ticks since the last notch.
    pub since_notch: int,
    pub over: bool,
}

impl MotionState {
    pub open spec fn wf(self) -> bool {
        &&& self.bounds.ends_fit()
        &&& self.bounds.confines(self.x, self.y)
        &&& num::fits(self.slow_step)
        &&& 0 <= self.ramp < self.fast_steps.len()
        &&& self.keys_down.len() == 11
        &&& 0 <= self.since_notch < u32::MAX
        &&& 0 <= self.scroll_slow_ticks <= u32::MAX
        &&& 0 <= self.scroll_fast_ticks <= u32::MAX
    }

    pub open spec fn is_down(self, k: Key) -> bool {
        self.keys_down[k.place()]
    }

    /// A direction is held.
    pub open spec fn moving(self) -> bool {
        self.is_down(Key::Move(Dir::Up)) || self.is_down(Key::Move(Dir::Down)) || self.is_down(
            Key::Move(Dir::Left),
        ) || self.is_down(Key::Move(Dir::Right))
    }

    /// One if the direction is held.
    pub open spec fn pull(self, d: Dir) -> int {
        if self.is_down(Key::Move(d)) {
            1
        } else {
            0
        }
    }

    /// Where the held directions point, sideways. Opposite keys cancel.
    pub open spec fn vx(self) -> int {
        self.pull(Dir::Right) - self.pull(Dir::Left)
    }

    /// Where the held directions point, up and down.
    pub open spec fn vy(self) -> int {
        self.pull(Dir::Down) - self.pull(Dir::Up)
    }

    /// How far one step goes along each axis it goes along.
    pub open spec fn step(self) -> int {
        let straight = if self.fast {
            self.fast_steps[self.ramp] as int
        } else {
            self.slow_step
        };
        if self.vx() != 0 && self.vy() != 0 {
            diagonal(straight)
        } else {
            straight
        }
    }

    /// Where one step leads.
    pub open spec fn next_x(self) -> int {
        num::clamped(self.x + self.vx() * self.step(), self.bounds.x as int, self.bounds.last_x())
    }

    pub open spec fn next_y(self) -> int {
        num::clamped(self.y + self.vy() * self.step(), self.bounds.y as int, self.bounds.last_y())
    }

    /// One step in the direction held. Nothing is sent when the pointer is
    /// already against the edge it is being pushed at.
    pub open spec fn stepped(self) -> (MotionState, Seq<Cmd>) {
        if (self.vx() == 0 && self.vy() == 0) || (self.next_x() == self.x && self.next_y()
            == self.y) {
            (self, Seq::empty())
        } else {
            (
                MotionState { x: self.next_x(), y: self.next_y(), ..self },
                seq![Cmd::MoveTo(self.next_x() as i32, self.next_y() as i32)],
            )
        }
    }

    /// One wheel notch in the direction held. The pointer does not move.
    /// Screen-down is positive and wheel-down is negative.
    pub open spec fn notched(self) -> (MotionState, Seq<Cmd>) {
        if self.vx() == 0 && self.vy() == 0 {
            (self, Seq::empty())
        } else {
            (
                MotionState { wheel_used: true, ..self },
                seq![Cmd::Scroll { v: (-self.vy()) as i32, h: self.vx() as i32 }],
            )
        }
    }

    /// The mode ends: anything still held is let go of first. A wheel still
    /// held is *not* a wheel click.
    pub open spec fn left(self) -> (MotionState, Seq<Cmd>) {
        if self.over {
            (self, Seq::empty())
        } else {
            (
                MotionState {
                    over: true,
                    wheel: false,
                    wheel_used: false,
                    dragging: false,
                    ..self
                },
                if self.dragging {
                    seq![Cmd::Release(Button::Left), Cmd::Leave]
                } else {
                    seq![Cmd::Leave]
                },
            )
        }
    }

    /// With `k` marked as down or up.
    pub open spec fn marked(self, k: Key, is_down: bool) -> MotionState {
        MotionState { keys_down: self.keys_down.update(k.place(), is_down), ..self }
    }

    /// What the press of a key does, once it is marked as down.
    pub open spec fn pressed(self, k: Key) -> (MotionState, Seq<Cmd>) {
        match k {
            // The press moves once, immediately, at the first step; with the
            // wheel held it turns the wheel by one notch instead.
            Key::Move(_) => if self.wheel {
                MotionState { ramp: 0, since_notch: 0, ..self }.notched()
            } else {
                MotionState { ramp: 0, ..self }.stepped()
            },
            Key::Fast => (MotionState { fast: true, ramp: 0, ..self }, Seq::empty()),
            Key::LeftButton => if self.dragging {
                (self, Seq::empty())
            } else {
                (MotionState { dragging: true, ..self }, seq![Cmd::Press(Button::Left)])
            },
            Key::DoubleClick => (self, seq![Cmd::Click { button: Button::Left, times: 2 }]),
            Key::TripleClick => (self, seq![Cmd::Click { button: Button::Left, times: 3 }]),
            // Nothing happens on the press: what `a` meant is decided by its
            // release.
            Key::Wheel => (
                MotionState { wheel: true, wheel_used: false, since_notch: 0, ..self },
                Seq::empty(),
            ),
            Key::RightClick => (self, seq![Cmd::Click { button: Button::Right, times: 1 }]),
            Key::Leave => self.left(),
        }
    }

    /// What the release of a key does, once it is marked as up.
    pub open spec fn released(self, k: Key) -> (MotionState, Seq<Cmd>) {
        match k {
            Key::Move(_) => (MotionState { ramp: 0, ..self }, Seq::empty()),
            Key::Fast => (MotionState { fast: false, ramp: 0, ..self }, Seq::empty()),
            // A wheel that was turned has done its work; one that was only
            // pressed is a wheel click.
            Key::Wheel => (
                MotionState { wheel: false, ..self },
                if self.wheel && !self.wheel_used {
                    seq![Cmd::Click { button: Button::Middle, times: 1 }]
                } else {
                    Seq::empty()
                },
            ),
            Key::LeftButton => self.drag_released(),
            _ => (self, Seq::empty()),
        }
    }

    /// The left button comes up, if it was down.
    pub open spec fn drag_released(self) -> (MotionState, Seq<Cmd>) {
        (
            MotionState { dragging: false, ..self },
            if self.dragging {
                seq![Cmd::Release(Button::Left)]
            } else {
                Seq::empty()
            },
        )
    }

    /// How many ticks go by from one notch to the next.
    pub open spec fn notch_every(self) -> int {
        num::larger(
            if self.fast {
                self.scroll_fast_ticks
            } else {
                self.scroll_slow_ticks
            },
            1,
        )
    }

    /// What the clock does: nothing with no direction held; a notch when one
    /// is due with the wheel held; else a step, after which a sweep is one
    /// step faster.
    pub open spec fn ticked(self) -> (MotionState, Seq<Cmd>) {
        if !self.moving() {
            (self, Seq::empty())
        } else if self.wheel {
            if self.since_notch + 1 < self.notch_every() {
                (MotionState { since_notch: self.since_notch + 1, ..self }, Seq::empty())
            } else {
                MotionState { since_notch: 0, ..self }.notched()
            }
        } else {
            let (next, cmds) = self.stepped();
            if self.fast {
                (
                    MotionState {
                        ramp: num::smaller(self.ramp + 1, self.fast_steps.len() - 1),
                        ..next
                    },
                    cmds,
                )
            } else {
                (next, cmds)
            }
        }
    }

    /// The whole machine. Nothing happens once the mode is over, and a key
    /// that is down already is repeating, which is not a press.
    pub open spec fn after(self, ev: Ev) -> (MotionState, Seq<Cmd>) {
        if self.over {
            (self, Seq::empty())
        } else {
            match ev {
                Ev::Down(k) => if self.is_down(k) {
                    (self, Seq::empty())
                } else {
                    self.marked(k, true).pressed(k)
                },
                Ev::Up(k) => self.marked(k, false).released(k),
                Ev::Tick => self.ticked(),
            }
        }
    }

    /// As it is before a repair lets go of `k`: a wheel whose release was
    /// lost counts as turned, so that letting go of it is no click.
    pub open spec fn forgiven(self, k: Key) -> MotionState {
        if k == Key::Wheel {
            MotionState { wheel_used: true, ..self }
        } else {
            self
        }
    }

    /// After a lost release of `k` was noticed.
    pub open spec fn after_lost(self, k: Key) -> (MotionState, Seq<Cmd>) {
        if self.over || !self.is_down(k) {
            (self, Seq::empty())
        } else {
            self.forgiven(k).marked(k, false).released(k)
        }
    }

    /// After a fresh press of `k`, with its last release lost if it was down.
    pub open spec fn after_repress(self, k: Key) -> (MotionState, Seq<Cmd>) {
        if self.over || !self.is_down(k) {
            self.after(Ev::Down(k))
        } else {
            let (up, first) = self.forgiven(k).marked(k, false).released(k);
            let (next, second) = up.marked(k, true).pressed(k);
            (next, first + second)
        }
    }

    /// After the drag was ended from outside.
    pub open spec fn after_release_drag(self) -> (MotionState, Seq<Cmd>) {
        if self.over {
            (self, Seq::empty())
        } else {
            self.drag_released()
        }
    }
}

// ---------------------------------------------------------------------------
// The machine
// ---------------------------------------------------------------------------

/// The mode. Constructed at the point the label put the pointer on.
#[derive(Debug)]
pub struct Motion {
    x: i32,
    y: i32,
    bounds: Rect,
    params: Params,
    fast: bool,
    dragging: bool,
    ramp: usize,
    wheel: bool,
    wheel_used: bool,
    since_notch: u32,
    /// **A held key repeats, and a repeat is not a press.** Nine in ten of
    /// the presses that arrive are the keyboard repeating a key nobody has
    /// let go of; the guard is here and not in each key's own handling,
    /// because that is a fact about keyboards.
    keys_down: [bool; 11],
    over: bool,
}

impl View for Motion {
    type V = MotionState;

    closed spec fn view(&self) -> MotionState {
        MotionState {
            x: self.x as int,
            y: self.y as int,
            bounds: self.bounds,
            tick: self.params.tick,
            slow_step: self.params.slow_step as int,
            fast_steps: self.params.fast_steps@,
            scroll_slow_ticks: self.params.scroll_slow_ticks as int,
            scroll_fast_ticks: self.params.scroll_fast_ticks as int,
            keys_down: self.keys_down@,
            fast: self.fast,
            dragging: self.dragging,
            ramp: self.ramp as int,
            wheel: self.wheel,
            wheel_used: self.wheel_used,
            since_notch: self.since_notch as int,
            over: self.over,
        }
    }
}

impl Clone for Motion {
    fn clone(&self) -> (m: Self)
        ensures
            m@ == self@,
    {
        Motion { params: self.params.clone(), ..*self }
    }
}

impl Motion {
    /// The starting position is clamped rather than trusted: the compositor's
    /// idea of where the pointer is can predate a monitor being unplugged.
    pub fn new(pos: (i32, i32), bounds: Rect, params: Params) -> (m: Self)
        requires
            params.wf(),
            bounds.ends_fit(),
        ensures
            m@.wf(),
            bounds.x <= pos.0 < bounds.x + bounds.w ==> m@.x == pos.0,
            bounds.y <= pos.1 < bounds.y + bounds.h ==> m@.y == pos.1,
            pos.0 < bounds.x || bounds.w <= 0 ==> m@.x == bounds.x,
            pos.1 < bounds.y || bounds.h <= 0 ==> m@.y == bounds.y,
            0 < bounds.w <= pos.0 - bounds.x ==> m@.x == bounds.x + bounds.w - 1,
            0 < bounds.h <= pos.1 - bounds.y ==> m@.y == bounds.y + bounds.h - 1,
            m@ == (MotionState {
                x: num::clamped(pos.0 as int, bounds.x as int, bounds.last_x()),
                y: num::clamped(pos.1 as int, bounds.y as int, bounds.last_y()),
                bounds,
                tick: params.tick,
                slow_step: params.slow_step as int,
                fast_steps: params.fast_steps@,
                scroll_slow_ticks: params.scroll_slow_ticks as int,
                scroll_fast_ticks: params.scroll_fast_ticks as int,
                keys_down: Seq::new(11, |i: int| false),
                fast: false,
                dragging: false,
                ramp: 0,
                wheel: false,
                wheel_used: false,
                since_notch: 0,
                over: false,
            }),
    {
        let (x, y) = bounds.confine(pos.0 as i64, pos.1 as i64);
        let m: Motion = Motion {
            x,
            y,
            bounds,
            params,
            fast: false,
            dragging: false,
            ramp: 0,
            wheel: false,
            wheel_used: false,
            since_notch: 0,
            keys_down: [false; 11],
            over: false,
        };
        assert(m@.keys_down =~= Seq::new(11, |i: int| false));
        m
    }

    pub fn pos(&self) -> (p: (i32, i32))
        ensures
            p.0 == self@.x,
            p.1 == self@.y,
    {
        (self.x, self.y)
    }

    /// Whether a button is currently down. The daemon asks before it decides
    /// what a lost grab means.
    pub fn dragging(&self) -> (r: bool)
        ensures
            r == self@.dragging,
    {
        self.dragging
    }

    pub fn finished(&self) -> (r: bool)
        ensures
            r == self@.over,
    {
        self.over
    }

    /// Whether this machine believes `k` is being held down.
    ///
    /// The driver's question, not the mode's: it is how a bare press of a key
    /// that is already down gets read as a lost release rather than silently
    /// dropped ([`Motion::repress`]).
    pub fn is_down(&self, k: Key) -> (r: bool)
        ensures
            r == self@.is_down(k),
    {
        self.keys_down[k.bit()]
    }

    /// Whether `a` is held, so `hjkl` are turning the wheel rather than
    /// moving the pointer.
    pub fn scrolling(&self) -> (r: bool)
        ensures
            r == self@.wheel,
    {
        self.wheel
    }

    /// How long until the next tick is due, or `None` when nothing is held
    /// and the mode should sleep.
    pub fn wants_tick(&self) -> (t: Option<Nanos>)
        ensures
            t == (if self@.over || !self@.moving() {
                None
            } else {
                Some(self@.tick)
            }),
    {
        if self.over || !self.moving() {
            None
        } else {
            Some(self.params.tick)
        }
    }

    fn moving(&self) -> (r: bool)
        ensures
            r == self@.moving(),
    {
        self.keys_down[0] || self.keys_down[1] || self.keys_down[2] || self.keys_down[3]
    }

    /// The direction being asked for. Opposite keys held at once cancel.
    fn vector(&self) -> (v: (i32, i32))
        ensures
            v.0 == self@.vx(),
            v.1 == self@.vy(),
            -1 <= v.0 <= 1,
            -1 <= v.1 <= 1,
    {
        let mut vx: i32 = 0;
        let mut vy: i32 = 0;
        if self.keys_down[0] {
            vy = vy - 1;
        }
        if self.keys_down[1] {
            vy = vy + 1;
        }
        if self.keys_down[2] {
            vx = vx - 1;
        }
        if self.keys_down[3] {
            vx = vx + 1;
        }
        (vx, vy)
    }

    /// Drive the machine.
    pub fn event(&mut self, ev: Ev) -> (cmds: Vec<Cmd>)
        requires
            old(self)@.wf(),
        ensures
            (final(self)@, cmds@) == old(self)@.after(ev),
            final(self)@.wf(),
    {
        if self.over {
            return Vec::new();
        }
        match ev {
            Ev::Down(k) => {
                if self.is_down(k) {
                    return Vec::new();
                }
                self.mark(k, true);
                self.down(k)
            },
            Ev::Up(k) => {
                self.mark(k, false);
                self.up(k)
            },
            Ev::Tick => self.tick(),
        }
    }

    fn mark(&mut self, k: Key, is_down: bool)
        requires
            old(self)@.wf(),
        ensures
            final(self)@ == old(self)@.marked(k, is_down),
            final(self)@.wf(),
    {
        let at: usize = k.bit();
        self.keys_down[at] = is_down;
        assert(self@.keys_down =~= old(self)@.keys_down.update(k.place(), is_down));
    }

    fn down(&mut self, k: Key) -> (cmds: Vec<Cmd>)
        requires
            old(self)@.wf(),
        ensures
            (final(self)@, cmds@) == old(self)@.pressed(k),
            final(self)@.wf(),
    {
        match k {
            Key::Move(_) => {
                self.ramp = 0;
                if self.wheel {
                    self.since_notch = 0;
                    return self.notch();
                }
                self.step_now()
            },
            Key::Fast => {
                self.fast = true;
                self.ramp = 0;
                Vec::new()
            },
            Key::LeftButton => {
                if self.dragging {
                    return Vec::new();
                }
                self.dragging = true;
                vec![Cmd::Press(Button::Left)]
            },
            Key::DoubleClick => vec![Cmd::Click { button: Button::Left, times: 2 }],
            Key::TripleClick => vec![Cmd::Click { button: Button::Left, times: 3 }],
            Key::Wheel => {
                self.wheel = true;
                self.wheel_used = false;
                self.since_notch = 0;
                Vec::new()
            },
            Key::RightClick => vec![Cmd::Click { button: Button::Right, times: 1 }],
            Key::Leave => self.leave(),
        }
    }

    fn up(&mut self, k: Key) -> (cmds: Vec<Cmd>)
        requires
            old(self)@.wf(),
        ensures
            (final(self)@, cmds@) == old(self)@.released(k),
            final(self)@.wf(),
    {
        match k {
            Key::Move(_) => {
                self.ramp = 0;
                Vec::new()
            },
            Key::Fast => {
                self.fast = false;
                self.ramp = 0;
                Vec::new()
            },
            Key::Wheel => {
                if !self.wheel {
                    return Vec::new();
                }
                self.wheel = false;
                if self.wheel_used {
                    // Clicking now would end every scroll with a middle
                    // click, which in a browser is a new tab or a paste.
                    return Vec::new();
                }
                vec![Cmd::Click { button: Button::Middle, times: 1 }]
            },
            Key::LeftButton => {
                if !self.dragging {
                    return Vec::new();
                }
                self.dragging = false;
                vec![Cmd::Release(Button::Left)]
            },
            _ => Vec::new(),
        }
    }

    fn tick(&mut self) -> (cmds: Vec<Cmd>)
        requires
            old(self)@.wf(),
        ensures
            (final(self)@, cmds@) == old(self)@.ticked(),
            final(self)@.wf(),
    {
        if !self.moving() {
            return Vec::new();
        }
        if self.wheel {
            let every: u32 = if self.fast {
                self.params.scroll_fast_ticks
            } else {
                self.params.scroll_slow_ticks
            };
            let due: u32 = self.since_notch + 1;
            if due < every {
                self.since_notch = due;
                return Vec::new();
            }
            self.since_notch = 0;
            return self.notch();
        }
        let cmds: Vec<Cmd> = self.step_now();
        if self.fast && self.ramp < self.params.fast_steps.len() - 1 {
            self.ramp = self.ramp + 1;
        }
        cmds
    }

    /// One wheel notch in whatever direction is held.
    fn notch(&mut self) -> (cmds: Vec<Cmd>)
        requires
            old(self)@.wf(),
        ensures
            (final(self)@, cmds@) == old(self)@.notched(),
            final(self)@.wf(),
    {
        let (vx, vy) = self.vector();
        if vx == 0 && vy == 0 {
            return Vec::new();
        }
        self.wheel_used = true;
        let v: i32 = -vy;
        vec![Cmd::Scroll { v, h: vx }]
    }

    /// One step in the direction currently held.
    fn step_now(&mut self) -> (cmds: Vec<Cmd>)
        requires
            old(self)@.wf(),
        ensures
            (final(self)@, cmds@) == old(self)@.stepped(),
            final(self)@.wf(),
    {
        let (vx, vy) = self.vector();
        if vx == 0 && vy == 0 {
            return Vec::new();
        }
        let mut step: i32 = if self.fast {
            self.params.fast_steps[self.ramp]
        } else {
            self.params.slow_step
        };
        if vx != 0 && vy != 0 {
            step = diagonal_step(step);
        }
        proof {
            lemma_unit_times(vx as int, step as int);
            lemma_unit_times(vy as int, step as int);
        }
        let x: i64 = self.x as i64 + vx as i64 * step as i64;
        let y: i64 = self.y as i64 + vy as i64 * step as i64;
        let (next_x, next_y) = self.bounds.confine(x, y);
        if next_x == self.x && next_y == self.y {
            return Vec::new();
        }
        self.x = next_x;
        self.y = next_y;
        vec![Cmd::MoveTo(next_x, next_y)]
    }

    /// A fresh press of a key this machine already believes is held: its
    /// release was lost, and this is the repair.
    ///
    /// **Only ever call this on positive evidence**: the keyboard's own
    /// repeats must be told apart from presses. Otherwise a held key would
    /// click at its repeat rate, which is why [`Motion::event`] drops the
    /// duplicate.
    ///
    /// Let go, then press again — with one exception. `a` releasing without
    /// having scrolled is a **middle click**, and a paste or a new tab that
    /// nobody asked for is the worse outcome: the lost release of `a` is
    /// worth one wheel click too few, never one too many.
    pub fn repress(&mut self, k: Key) -> (cmds: Vec<Cmd>)
        requires
            old(self)@.wf(),
        ensures
            (final(self)@, cmds@) == old(self)@.after_repress(k),
            final(self)@.wf(),
    {
        if self.over || !self.is_down(k) {
            return self.event(Ev::Down(k));
        }
        if k == Key::Wheel {
            self.wheel_used = true;
        }
        self.mark(k, false);
        let mut out: Vec<Cmd> = self.up(k);
        self.mark(k, true);
        let mut pressed: Vec<Cmd> = self.down(k);
        out.append(&mut pressed);
        out
    }

    /// A key this machine believes is held has been found not to be — its
    /// release was lost and nothing is going to press it again. Let go of
    /// it, and only that.
    ///
    /// **`a` is the exception, for [`Motion::repress`]'s reason**: one wheel
    /// click too few, never one too many.
    pub fn lost(&mut self, k: Key) -> (cmds: Vec<Cmd>)
        requires
            old(self)@.wf(),
        ensures
            (final(self)@, cmds@) == old(self)@.after_lost(k),
            final(self)@.wf(),
    {
        if self.over || !self.is_down(k) {
            return Vec::new();
        }
        if k == Key::Wheel {
            self.wheel_used = true;
        }
        self.mark(k, false);
        self.up(k)
    }

    /// End a drag without ending the mode, because something outside already
    /// did: the broker releases a button held for too long on its own, and
    /// the next release of `f` would then be unpaired.
    pub fn release_drag(&mut self) -> (cmds: Vec<Cmd>)
        requires
            old(self)@.wf(),
        ensures
            (final(self)@, cmds@) == old(self)@.after_release_drag(),
            final(self)@.wf(),
    {
        if !self.dragging || self.over {
            return Vec::new();
        }
        self.dragging = false;
        vec![Cmd::Release(Button::Left)]
    }

    /// Leave, releasing anything still held. **`Release` before `Leave`,
    /// unconditionally**: a stuck left button on a live desktop is selecting
    /// text and dragging files invisibly.
    pub fn leave(&mut self) -> (cmds: Vec<Cmd>)
        requires
            old(self)@.wf(),
        ensures
            (final(self)@, cmds@) == old(self)@.left(),
            final(self)@.wf(),
    {
        if self.over {
            return Vec::new();
        }
        self.over = true;
        self.wheel = false;
        self.wheel_used = false;
        let mut out: Vec<Cmd> = Vec::new();
        if self.dragging {
            self.dragging = false;
            out.push(Cmd::Release(Button::Left));
        }
        out.push(Cmd::Leave);
        out
    }
}

proof fn lemma_unit_times(v: int, step: int)
    requires
        -1 <= v <= 1,
    ensures
        v * step == (if v == 0 {
            0
        } else if v == 1 {
            step
        } else {
            -step
        }),
{
    assert(v == 0 || v == 1 || v == -1);
    assert(0 * step == 0 && 1 * step == step && (-1) * step == -step) by (nonlinear_arith);
}

/// The nearest whole number to `step / √2`, at least 1.
fn diagonal_step(step: i32) -> (s: i32)
    ensures
        s == diagonal(step as int),
{
    if step <= 1 {
        assert(is_diagonal(step as int, 1));
        return 1;
    }
    let n: i128 = step as i128;
    proof {
        assert(0 <= n * n <= 0x7fff_ffff * 0x7fff_ffff) by (nonlinear_arith)
            requires
                0 <= n <= 0x7fff_ffff,
        ;
    }
    let twice: i128 = 2 * (n * n);
    // The least s whose (2s + 1)² is over 2·step².
    let mut lo: i128 = 0;
    let mut hi: i128 = n;
    proof {
        assert((2 * lo + 1) * (2 * lo + 1) == 1) by (nonlinear_arith)
            requires
                lo == 0,
        ;
        assert((2 * n + 1) * (2 * n + 1) > 2 * (n * n)) by (nonlinear_arith)
            requires
                n >= 2,
        ;
        assert(2 * (n * n) > 1) by (nonlinear_arith)
            requires
                n >= 2,
        ;
    }
    while hi - lo > 1
        invariant
            0 <= lo < hi <= n <= 0x7fff_ffff,
            twice == 2 * (n * n),
            (2 * hi + 1) * (2 * hi + 1) > twice,
            (2 * lo + 1) * (2 * lo + 1) <= twice,
        decreases hi - lo,
    {
        let mid: i128 = lo + (hi - lo) / 2;
        proof {
            assert((2 * mid + 1) * (2 * mid + 1) <= 0xffff_ffff * 0xffff_ffff) by (nonlinear_arith)
                requires
                    0 <= mid <= 0x7fff_ffff,
            ;
        }
        let square: i128 = (2 * mid + 1) * (2 * mid + 1);
        if square > twice {
            hi = mid;
        } else {
            lo = mid;
        }
    }
    proof {
        assert((2 * lo + 1) * (2 * lo + 1) != 2 * (n * n)) by {
            lemma_odd_square(lo as int);
        }
        assert(lo + 1 == hi);
        assert((2 * hi - 1) * (2 * hi - 1) == (2 * lo + 1) * (2 * lo + 1)) by (nonlinear_arith)
            requires
                lo + 1 == hi,
        ;
        assert(is_diagonal(step as int, hi as int));
        lemma_diagonal_unique(step as int, hi as int, diagonal(step as int));
    }
    hi as i32
}

proof fn lemma_odd_square(k: int)
    ensures
        (2 * k + 1) * (2 * k + 1) % 2 == 1,
{
    assert((2 * k + 1) * (2 * k + 1) == 2 * (2 * (k * k) + 2 * k) + 1) by (nonlinear_arith);
}

/// There is one nearest whole number.
proof fn lemma_diagonal_unique(step: int, a: int, b: int)
    requires
        is_diagonal(step, a),
        is_diagonal(step, b),
    ensures
        a == b,
{
    if step > 1 {
        if a < b {
            lemma_squares_grow(2 * a + 1, 2 * b - 1);
        } else if b < a {
            lemma_squares_grow(2 * b + 1, 2 * a - 1);
        }
    }
}

proof fn lemma_squares_grow(p: int, q: int)
    requires
        0 <= p <= q,
    ensures
        p * p <= q * q,
{
    assert(p * p <= q * q) by (nonlinear_arith)
        requires
            0 <= p <= q,
    ;
}

// ---------------------------------------------------------------------------
// Laws
// ---------------------------------------------------------------------------

/// What happens to the machine from outside.
pub enum Input {
    Event(Ev),
    Repress(Key),
    Lost(Key),
    ReleaseDrag,
    Leave,
}

impl MotionState {
    /// The machine's answer to any input at all.
    pub open spec fn answer(self, input: Input) -> (MotionState, Seq<Cmd>) {
        match input {
            Input::Event(ev) => self.after(ev),
            Input::Repress(k) => self.after_repress(k),
            Input::Lost(k) => self.after_lost(k),
            Input::ReleaseDrag => self.after_release_drag(),
            Input::Leave => self.left(),
        }
    }
}

/// Whether the left button is down after `cmds`, if every press in them finds
/// it up, every release finds it down, and the mode is never left with it
/// down.
pub open spec fn paired(down: bool, cmds: Seq<Cmd>) -> Option<bool>
    decreases cmds.len(),
{
    if cmds.len() == 0 {
        Some(down)
    } else {
        match (paired(down, cmds.drop_last()), cmds.last()) {
            (None, _) => None,
            (Some(d), Cmd::Press(_)) => if d {
                None
            } else {
                Some(true)
            },
            (Some(d), Cmd::Release(_)) => if d {
                Some(false)
            } else {
                None
            },
            (Some(d), Cmd::Leave) => if d {
                None
            } else {
                Some(false)
            },
            (Some(d), _) => Some(d),
        }
    }
}

/// Every answer keeps the machine well-formed: in particular the pointer
/// never leaves its bounds, whatever arrives.
pub proof fn the_pointer_stays_inside(s: MotionState, input: Input)
    requires
        s.wf(),
    ensures
        s.answer(input).0.wf(),
        s.answer(input).0.bounds == s.bounds,
{
    match input {
        Input::Event(Ev::Down(k)) => {
            lemma_pressed_wf(s.marked(k, true), k);
        },
        Input::Event(Ev::Up(k)) => {
            lemma_released_wf(s.marked(k, false), k);
        },
        Input::Event(Ev::Tick) => {},
        Input::Repress(k) => {
            let up = s.forgiven(k).marked(k, false);
            lemma_released_wf(up, k);
            lemma_pressed_wf(up.released(k).0.marked(k, true), k);
            lemma_pressed_wf(s.marked(k, true), k);
        },
        Input::Lost(k) => {
            lemma_released_wf(s.forgiven(k).marked(k, false), k);
        },
        Input::ReleaseDrag => {},
        Input::Leave => {},
    }
}

proof fn lemma_pressed_wf(s: MotionState, k: Key)
    requires
        s.wf(),
    ensures
        s.pressed(k).0.wf(),
        s.pressed(k).0.bounds == s.bounds,
{
}

proof fn lemma_released_wf(s: MotionState, k: Key)
    requires
        s.wf(),
    ensures
        s.released(k).0.wf(),
        s.released(k).0.bounds == s.bounds,
{
}

/// Presses and releases pair up, whatever arrives: a button never goes down
/// twice or up twice, and the mode is never left with one down. What the
/// machine says of the button is how the commands leave it.
pub proof fn presses_and_releases_pair_up(s: MotionState, input: Input)
    requires
        s.wf(),
    ensures
        paired(s.dragging, s.answer(input).1) == Some(s.answer(input).0.dragging),
{
    reveal_with_fuel(paired, 4);
    let cmds = s.answer(input).1;
    if cmds.len() == 1 {
        assert(cmds.drop_last() =~= Seq::empty());
    }
    if cmds.len() == 2 {
        assert(cmds.drop_last().drop_last() =~= Seq::empty());
        assert(cmds.drop_last().last() == cmds[0]);
    }
    if let Input::Repress(k) = input {
        if !s.over && s.is_down(k) {
            let (up, first) = s.forgiven(k).marked(k, false).released(k);
            let (next, second) = up.marked(k, true).pressed(k);
            if first.len() == 0 {
                assert(cmds =~= second);
            }
            if second.len() == 0 {
                assert(cmds =~= first);
            }
        }
    }
}

/// Letting go comes before leaving, unconditionally: the commands end with
/// `Leave`, and a button that was down is released just before.
pub proof fn release_comes_before_leave(s: MotionState)
    requires
        !s.over,
    ensures
        s.left().1.last() == Cmd::Leave,
        s.dragging ==> s.left().1 =~= seq![Cmd::Release(Button::Left), Cmd::Leave],
        !s.dragging ==> s.left().1 =~= seq![Cmd::Leave],
        s.left().0.over,
        !s.left().0.dragging,
{
}

/// Nothing happens once the mode is over.
pub proof fn nothing_after_the_end(s: MotionState, input: Input)
    requires
        s.over,
    ensures
        s.answer(input) == (s, Seq::<Cmd>::empty()),
{
}

/// A held key repeating is not a press: no key does anything twice without
/// coming up in between.
pub proof fn a_repeat_is_not_a_press(s: MotionState, k: Key)
    requires
        s.is_down(k),
    ensures
        s.after(Ev::Down(k)) == (s, Seq::<Cmd>::empty()),
{
}

/// An idle tick produces no command at all, and none is asked for.
pub proof fn an_idle_tick_is_silent(s: MotionState)
    requires
        !s.moving(),
    ensures
        s.after(Ev::Tick) == (s, Seq::<Cmd>::empty()),
{
}

/// Pressed and let go of without a turn in between, the wheel is one middle
/// click; once it has turned it is none.
pub proof fn a_wheel_clicks_only_unturned(s: MotionState)
    requires
        s.wf(),
        !s.over,
        !s.is_down(Key::Wheel),
    ensures
        s.after(Ev::Down(Key::Wheel)).1 =~= Seq::empty(),
        s.after(Ev::Down(Key::Wheel)).0.after(Ev::Up(Key::Wheel)).1 =~= seq![
            Cmd::Click { button: Button::Middle, times: 1 },
        ],
        forall|t: MotionState|
            t.wheel_used ==> (#[trigger] t.after(Ev::Up(Key::Wheel))).1 =~= Seq::<Cmd>::empty(),
{
}

/// With the wheel held a direction scrolls and never moves the pointer.
pub proof fn a_held_wheel_never_moves_the_pointer(s: MotionState, ev: Ev)
    requires
        s.wf(),
        s.wheel,
    ensures
        s.after(ev).0.x == s.x,
        s.after(ev).0.y == s.y,
        forall|i: int| 0 <= i < s.after(ev).1.len() ==> !(#[trigger] s.after(ev).1[i] is MoveTo),
{
}

/// A repair never clicks the wheel.
pub proof fn a_repair_never_clicks_the_wheel(s: MotionState)
    requires
        s.wf(),
        s.is_down(Key::Wheel),
    ensures
        s.after_lost(Key::Wheel).1 =~= Seq::empty(),
        s.after_repress(Key::Wheel).1 =~= Seq::empty(),
        !s.after_lost(Key::Wheel).0.wheel || s.over,
{
}

/// A press and a release of `f` are a press and a release of the button,
/// whatever else is held: a tap is a click and a hold is a drag.
pub proof fn f_is_the_left_button(s: MotionState)
    requires
        s.wf(),
        !s.over,
        !s.is_down(Key::LeftButton),
        !s.dragging,
    ensures
        s.after(Ev::Down(Key::LeftButton)).1 =~= seq![Cmd::Press(Button::Left)],
        s.after(Ev::Down(Key::LeftButton)).0.dragging,
        forall|t: MotionState|
            !t.over && t.dragging ==> (#[trigger] t.after(Ev::Up(Key::LeftButton))).1 =~= seq![
                Cmd::Release(Button::Left),
            ],
{
}

/// A move says where the pointer now is, and it is never sent for nothing.
pub proof fn a_move_says_where_the_pointer_is(s: MotionState, ev: Ev, i: int)
    requires
        s.wf(),
        0 <= i < s.after(ev).1.len(),
        s.after(ev).1[i] is MoveTo,
    ensures
        s.after(ev).1[i] == Cmd::MoveTo(s.after(ev).0.x as i32, s.after(ev).0.y as i32),
        s.after(ev).0.x != s.x || s.after(ev).0.y != s.y,
        s.after(ev).1.len() == 1,
{
}

/// The slow speed does not accelerate, and a sweep starts over whenever a
/// direction or `s` goes down or up.
pub proof fn only_a_sweep_accelerates(s: MotionState, k: Key)
    requires
        s.wf(),
        !s.over,
    ensures
        !s.fast ==> s.after(Ev::Tick).0.ramp == s.ramp,
        (k is Move || k is Fast) ==> s.after(Ev::Up(k)).0.ramp == 0,
        (k is Move || k is Fast) && !s.is_down(k) ==> s.after(Ev::Down(k)).0.ramp == 0,
        !s.fast && s.vx() != 0 && s.vy() == 0 ==> s.step() == s.slow_step,
{
}

} // verus!
