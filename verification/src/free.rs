//! Free mode — driving the pointer by hand when there is nothing to hint.
//!
//! `hjkl`, and the pointer goes where it is pushed. One move per key press:
//! key repeat stays inside the broker's rate limit, and one move is one
//! request.
//!
//! **Reach comes from acceleration, not frequency.** A fixed step cannot be
//! both precise and fast, so consecutive presses in the same direction grow
//! the step geometrically and anything else resets it — a tap is a tap, a
//! held key is a sweep, and nobody chooses a mode to get either.
use vstd::prelude::*;

use crate::detect::rect::Rect;
use crate::num;
use crate::num::Ratio;

verus! {

/// A length of time, in nanoseconds.
pub type Nanos = u64;

/// `hjkl` — vim's four, and shared with movement mode.
#[derive(Debug, Clone, Copy, PartialEq, Eq, Structural)]
pub enum Dir {
    Up,
    Down,
    Left,
    Right,
}

impl Dir {
    /// How far a step of one goes to the right.
    pub open spec fn dx(self) -> int {
        match self {
            Dir::Left => -1,
            Dir::Right => 1,
            _ => 0,
        }
    }

    /// How far a step of one goes down.
    pub open spec fn dy(self) -> int {
        match self {
            Dir::Up => -1,
            Dir::Down => 1,
            _ => 0,
        }
    }

    /// The keys, so that everything spells them the same way.
    pub fn from_key(c: char) -> (d: Option<Self>)
        ensures
            d == (if c == 'k' {
                Some(Dir::Up)
            } else if c == 'j' {
                Some(Dir::Down)
            } else if c == 'h' {
                Some(Dir::Left)
            } else if c == 'l' {
                Some(Dir::Right)
            } else {
                None
            }),
    {
        match c {
            'k' => Some(Dir::Up),
            'j' => Some(Dir::Down),
            'h' => Some(Dir::Left),
            'l' => Some(Dir::Right),
            _ => None,
        }
    }

    fn delta(self) -> (d: (i64, i64))
        ensures
            d.0 == self.dx(),
            d.1 == self.dy(),
    {
        match self {
            Dir::Up => (0, -1),
            Dir::Down => (0, 1),
            Dir::Left => (-1, 0),
            Dir::Right => (1, 0),
        }
    }
}

/// How free mode accelerates.
#[derive(Debug, Clone, Copy)]
pub struct Params {
    /// The first step of a run, in pixels. Small enough to land on a
    /// checkbox without overshooting.
    pub base: i32,
    /// What each consecutive press in the same direction multiplies the
    /// step by.
    pub growth: Ratio,
    /// The largest single step. Bounded so a long run cannot leave the
    /// screen in one press and lose the user entirely.
    pub cap: i32,
    /// A gap longer than this ends the run and resets to `base`. This is
    /// what makes a deliberate tap always precise, however fast the
    /// previous sweep was going.
    pub reset_after: Nanos,
}

impl Params {
    /// The growth factor is a number.
    pub open spec fn wf(self) -> bool {
        self.growth.whole > 0
    }

    /// The step that follows a step in the same direction.
    pub open spec fn grown(self, step: int) -> int {
        num::smaller(
            num::clamped(
                num::rounded(step * self.growth.part, self.growth.whole as int),
                i32::MIN as int,
                i32::MAX as int,
            ),
            self.cap as int,
        )
    }
}

impl Default for Params {
    /// Chosen against a 1920×1080 screen: 8 px lands on anything clickable,
    /// and growing by half each time crosses the full width in about
    /// fourteen presses, under half a second at the usual repeat rate.
    fn default() -> (p: Self)
        ensures
            p.wf(),
            p.base == 8,
            p.growth == (Ratio { part: 3, whole: 2 }),
            p.cap == 256,
            p.reset_after == 300_000_000,
    {
        Params { base: 8, growth: Ratio { part: 3, whole: 2 }, cap: 256, reset_after: 300_000_000 }
    }
}

/// The pointer, and how fast it is currently going.
#[derive(Debug, Clone, Copy)]
pub struct Free {
    pos: (i32, i32),
    bounds: Rect,
    params: Params,
    run: Option<(Dir, i32)>,
}

/// Where the pointer is, what confines it, and the run it is in.
pub struct FreeState {
    pub x: int,
    pub y: int,
    pub bounds: Rect,
    pub params: Params,
    /// The direction and length of the last step, if there was one.
    pub run: Option<(Dir, i32)>,
}

impl FreeState {
    /// The step the next press takes: grown from the last one when that went
    /// the same way and is recent, the base step otherwise.
    pub open spec fn step(self, dir: Dir, since_last: Nanos) -> int {
        match self.run {
            Some((d, step)) => if d == dir && since_last <= self.params.reset_after {
                self.params.grown(step as int)
            } else {
                self.params.base as int
            },
            None => self.params.base as int,
        }
    }

    /// After a press.
    pub open spec fn nudged(self, dir: Dir, since_last: Nanos) -> FreeState {
        let step = self.step(dir, since_last);
        FreeState {
            x: num::clamped(
                self.x + dir.dx() * step,
                self.bounds.x as int,
                self.bounds.last_x(),
            ),
            y: num::clamped(
                self.y + dir.dy() * step,
                self.bounds.y as int,
                self.bounds.last_y(),
            ),
            run: Some((dir, step as i32)),
            ..self
        }
    }

    /// The pointer is where it may be.
    pub open spec fn wf(self) -> bool {
        &&& self.params.wf()
        &&& self.bounds.ends_fit()
        &&& self.bounds.confines(self.x, self.y)
    }
}

impl View for Free {
    type V = FreeState;

    closed spec fn view(&self) -> FreeState {
        FreeState {
            x: self.pos.0 as int,
            y: self.pos.1 as int,
            bounds: self.bounds,
            params: self.params,
            run: self.run,
        }
    }
}

impl Free {
    /// Start at `pos`, confined to `bounds`. The starting position is
    /// clamped rather than trusted: the compositor's idea of where the
    /// pointer is can predate a monitor being unplugged.
    pub fn new(pos: (i32, i32), bounds: Rect, params: Params) -> (f: Self)
        requires
            params.wf(),
            bounds.ends_fit(),
        ensures
            f@ == (FreeState {
                x: num::clamped(pos.0 as int, bounds.x as int, bounds.last_x()),
                y: num::clamped(pos.1 as int, bounds.y as int, bounds.last_y()),
                bounds,
                params,
                run: None,
            }),
            f@.wf(),
            bounds.x <= pos.0 < bounds.x + bounds.w ==> f@.x == pos.0,
            bounds.y <= pos.1 < bounds.y + bounds.h ==> f@.y == pos.1,
            pos.0 < bounds.x || bounds.w <= 0 ==> f@.x == bounds.x,
            pos.1 < bounds.y || bounds.h <= 0 ==> f@.y == bounds.y,
            0 < bounds.w <= pos.0 - bounds.x ==> f@.x == bounds.x + bounds.w - 1,
            0 < bounds.h <= pos.1 - bounds.y ==> f@.y == bounds.y + bounds.h - 1,
    {
        let inside: (i32, i32) = bounds.confine(pos.0 as i64, pos.1 as i64);
        Free { pos: inside, bounds, params, run: None }
    }

    pub fn pos(&self) -> (p: (i32, i32))
        ensures
            p.0 == self@.x,
            p.1 == self@.y,
    {
        self.pos
    }

    /// The step the *next* press in `dir` would take. Exposed because it is
    /// the only interesting internal state and a user who cannot see it
    /// cannot learn the acceleration.
    pub fn next_step(&self, dir: Dir, since_last: Nanos) -> (step: i32)
        requires
            self@.wf(),
        ensures
            step == self@.step(dir, since_last),
    {
        match self.run {
            Some((d, step)) => {
                if d == dir && since_last <= self.params.reset_after {
                    num::scale(step, self.params.growth).min(self.params.cap)
                } else {
                    self.params.base
                }
            },
            None => self.params.base,
        }
    }

    /// Move, and return where the pointer now is.
    ///
    /// `since_last` is the gap since the previous nudge — passed in rather
    /// than read from a clock.
    pub fn nudge(&mut self, dir: Dir, since_last: Nanos) -> (p: (i32, i32))
        requires
            old(self)@.wf(),
        ensures
            final(self)@ == old(self)@.nudged(dir, since_last),
            final(self)@.wf(),
            p.0 == final(self)@.x,
            p.1 == final(self)@.y,
    {
        let step: i32 = self.next_step(dir, since_last);
        let (dx, dy) = dir.delta();
        let x: i64 = self.pos.0 as i64 + dx * step as i64;
        let y: i64 = self.pos.1 as i64 + dy * step as i64;
        self.pos = self.bounds.confine(x, y);
        self.run = Some((dir, step));
        self.pos
    }
}

/// The pointer never leaves its bounds, whatever is pressed.
pub proof fn nudging_stays_inside(s: FreeState, dir: Dir, since_last: Nanos)
    requires
        s.wf(),
    ensures
        s.nudged(dir, since_last).wf(),
        s.nudged(dir, since_last).bounds == s.bounds,
{
}

/// A pause or a change of direction makes the next press precise again,
/// however fast the sweep was.
pub proof fn a_new_run_starts_at_the_base_step(s: FreeState, dir: Dir, since_last: Nanos)
    requires
        s.run is None || (s.run->0).0 != dir || since_last > s.params.reset_after,
    ensures
        s.step(dir, since_last) == s.params.base,
{
}

/// No step of a run is longer than the cap.
pub proof fn a_growing_step_is_capped(s: FreeState, dir: Dir, since_last: Nanos)
    ensures
        s.step(dir, since_last) <= s.params.cap || s.step(dir, since_last) == s.params.base,
{
}

/// What [`Free::next_step`] announces is how far the pointer goes, up to
/// where its bounds stop it.
pub proof fn next_step_is_what_nudge_does(s: FreeState, dir: Dir, since_last: Nanos)
    requires
        s.wf(),
        s.bounds.confines(
            s.x + dir.dx() * s.step(dir, since_last),
            s.y + dir.dy() * s.step(dir, since_last),
        ),
    ensures
        s.nudged(dir, since_last).x - s.x == dir.dx() * s.step(dir, since_last),
        s.nudged(dir, since_last).y - s.y == dir.dy() * s.step(dir, since_last),
{
}

} // verus!
