//! What detection produces, and where it came from.
use vstd::prelude::*;
use vstd::string::*;

use crate::a11y::role::Role;
use crate::num;
use crate::text;

verus! {

/// A rectangle **in window-relative pixels**.
///
/// There is no screen-coordinate rectangle here, and that is not an omission:
/// adding the window origin is the compositor's job. A type of its own is the
/// cheapest way to stop a window-relative number being passed to something
/// that wants a screen one.
#[derive(Debug, Clone, Copy, PartialEq, Eq, Structural)]
pub struct WindowRect {
    pub x: i32,
    pub y: i32,
    pub w: i32,
    pub h: i32,
}

impl WindowRect {
    /// The right edge, exclusive, held to the range of the coordinates.
    pub open spec fn right(self) -> int {
        num::sat_add(self.x as int, self.w as int)
    }

    /// The bottom edge, exclusive, held to the range of the coordinates.
    pub open spec fn bottom(self) -> int {
        num::sat_add(self.y as int, self.h as int)
    }

    /// Half-open: a pixel on the right or bottom edge is *not* inside.
    pub open spec fn covers(self, px: int, py: int) -> bool {
        self.x <= px < self.right() && self.y <= py < self.bottom()
    }

    /// Width times height, the sign of a negative side included.
    pub open spec fn size(self) -> int {
        self.w * self.h
    }

    /// The horizontal middle, rounded towards the left edge.
    pub open spec fn middle_x(self) -> int {
        self.x + num::half(self.w as int)
    }

    /// The vertical middle, rounded towards the top edge.
    pub open spec fn middle_y(self) -> int {
        self.y + num::half(self.h as int)
    }

    /// The rectangle in words.
    pub open spec fn words(self) -> Seq<char> {
        text::signed_decimal(self.x as int) + ","@ + text::signed_decimal(self.y as int) + " "@
            + text::signed_decimal(self.w as int) + "x"@ + text::signed_decimal(self.h as int)
    }

    pub fn new(x: i32, y: i32, w: i32, h: i32) -> (r: Self)
        ensures
            r == (WindowRect { x, y, w, h }),
    {
        WindowRect { x, y, w, h }
    }

    /// `i64` because a degenerate rect can carry `i32::MIN` and this must not
    /// be the thing that fails on it.
    pub fn area(&self) -> (a: i64)
        ensures
            a == self.size(),
    {
        proof {
            let (w, h) = (self.w as int, self.h as int);
            assert(-0x4000_0000_0000_0000 <= w * h <= 0x4000_0000_0000_0000) by (nonlinear_arith)
                requires
                    -0x8000_0000 <= w <= 0x7fff_ffff,
                    -0x8000_0000 <= h <= 0x7fff_ffff,
            ;
        }
        self.w as i64 * self.h as i64
    }

    /// The point that would be clicked.
    pub fn centre(&self) -> (c: (i32, i32))
        requires
            num::fits(self.middle_x()),
            num::fits(self.middle_y()),
        ensures
            c.0 == self.middle_x(),
            c.1 == self.middle_y(),
    {
        (self.x + self.w / 2, self.y + self.h / 2)
    }

    /// The same point, whatever the rectangle holds.
    pub(crate) fn middle(&self) -> (c: (i64, i64))
        ensures
            c.0 == self.middle_x(),
            c.1 == self.middle_y(),
    {
        (self.x as i64 + (self.w / 2) as i64, self.y as i64 + (self.h / 2) as i64)
    }

    /// The rectangle in words: `x,y wxh`.
    pub fn describe(&self) -> (s: String)
        ensures
            s@ == self.words(),
    {
        let mut s: String = String::new();
        text::push_signed(&mut s, self.x as i64);
        s.append(",");
        text::push_signed(&mut s, self.y as i64);
        s.append(" ");
        text::push_signed(&mut s, self.w as i64);
        s.append("x");
        text::push_signed(&mut s, self.h as i64);
        assert(s@ =~= self.words());
        s
    }
}

impl From<(i32, i32, i32, i32)> for WindowRect {
    fn from(r: (i32, i32, i32, i32)) -> (w: Self) {
        WindowRect { x: r.0, y: r.1, w: r.2, h: r.3 }
    }
}

impl vstd::std_specs::convert::FromSpecImpl<(i32, i32, i32, i32)> for WindowRect {
    open spec fn obeys_from_spec() -> bool {
        true
    }

    open spec fn from_spec(r: (i32, i32, i32, i32)) -> Self {
        WindowRect { x: r.0, y: r.1, w: r.2, h: r.3 }
    }
}

/// Where an accessible object lives: the connection that published it, and
/// its path there. A reference to nothing has no connection.
#[derive(Debug)]
pub struct Object {
    pub name: Option<String>,
    pub path: String,
}

/// An [`Object`], its texts as their characters.
pub struct ObjectView {
    pub name: Option<Seq<char>>,
    pub path: Seq<char>,
}

/// The characters of a text that may be missing.
pub open spec fn text_of(s: Option<String>) -> Option<Seq<char>> {
    match s {
        Some(s) => Some(s@),
        None => None,
    }
}

/// A text that may be missing, or else an empty one.
pub open spec fn or_empty(s: Option<Seq<char>>) -> Seq<char> {
    match s {
        Some(s) => s,
        None => Seq::empty(),
    }
}

/// A text that may be missing, or else an empty one.
pub(crate) fn owned_or_empty(s: &Option<String>) -> (r: String)
    ensures
        r@ == or_empty(text_of(*s)),
{
    match s {
        Some(s) => s.clone(),
        None => String::new(),
    }
}

impl View for Object {
    type V = ObjectView;

    open spec fn view(&self) -> ObjectView {
        ObjectView { name: text_of(self.name), path: self.path@ }
    }
}

impl Clone for Object {
    fn clone(&self) -> (o: Self)
        ensures
            o@ == self@,
    {
        let name: Option<String> = match &self.name {
            Some(s) => Some(s.clone()),
            None => None,
        };
        Object { name, path: self.path.clone() }
    }
}

/// Which mechanism produced a target.
///
/// It is what makes a dump debuggable, and what tells validation how much it
/// can trust a node.
#[derive(Debug, Clone, Copy, PartialEq, Eq, Structural)]
pub enum Provenance {
    /// The live tree mirror — a lookup, no round trip. The normal path once
    /// the window has been activated.
    Mirror,
    /// One `Collection` query: the fast path.
    Collection,
    /// The application's cache, filtered here.
    Cache,
    /// A recursive walk. The reference the others are checked against.
    Walk,
}

impl Provenance {
    pub fn as_str(self) -> (s: &'static str)
        ensures
            s@ == match self {
                Provenance::Mirror => "mirror"@,
                Provenance::Collection => "collection"@,
                Provenance::Cache => "cache"@,
                Provenance::Walk => "walk"@,
            },
    {
        match self {
            Provenance::Mirror => "mirror",
            Provenance::Collection => "collection",
            Provenance::Cache => "cache",
            Provenance::Walk => "walk",
        }
    }
}

/// How the focused window was identified.
#[derive(Debug, Clone, Copy, PartialEq, Eq, Structural)]
pub enum FocusSource {
    /// A cached `window:activate`.
    Activate,
    /// `STATE_ACTIVE` on the frame. Never seen on some desktops; it is the
    /// only thing that works before the first activation is seen.
    ActiveState,
    /// By name alone: a testing affordance, or a guess.
    Named,
    /// The compositor said so, matched back onto the accessibility tree by
    /// process and title.
    Compositor,
}

impl FocusSource {
    pub fn as_str(self) -> (s: &'static str)
        ensures
            s@ == match self {
                FocusSource::Activate => "window:activate"@,
                FocusSource::ActiveState => "STATE_ACTIVE"@,
                FocusSource::Named => "--window"@,
                FocusSource::Compositor => "compositor"@,
            },
    {
        match self {
            FocusSource::Activate => "window:activate",
            FocusSource::ActiveState => "STATE_ACTIVE",
            FocusSource::Named => "--window",
            FocusSource::Compositor => "compositor",
        }
    }
}

/// The application window detection is scoped to.
#[derive(Debug)]
pub struct Frame {
    /// How this window was decided to be the focused one.
    pub focus: FocusSource,
    /// Whether the pid → connection memo answered, or the bus had to be
    /// walked application by application.
    pub pid_memo: bool,
    /// Whether the *title* memo answered instead.
    pub title_memo: bool,
    /// The application's accessible name.
    pub app: String,
    /// The window's own accessible name, i.e. usually its title.
    pub title: String,
    /// `Frame` for an ordinary window; the shell's toplevel is a `Window`.
    pub role: Role,
    /// Bus name of the owning application.
    pub bus_name: String,
    /// Object path of the frame within that application.
    pub path: String,
    /// The frame's own bounds. Window-relative, so `x`/`y` are near-zero and
    /// carry no information; `w`/`h` are the window size. See [`Self::clip`].
    pub bounds: WindowRect,
}

/// A [`Frame`], its texts as their characters.
pub struct FrameView {
    pub focus: FocusSource,
    pub pid_memo: bool,
    pub title_memo: bool,
    pub app: Seq<char>,
    pub title: Seq<char>,
    pub role: Role,
    pub bus_name: Seq<char>,
    pub path: Seq<char>,
    pub bounds: WindowRect,
}

impl View for Frame {
    type V = FrameView;

    open spec fn view(&self) -> FrameView {
        FrameView {
            focus: self.focus,
            pid_memo: self.pid_memo,
            title_memo: self.title_memo,
            app: self.app@,
            title: self.title@,
            role: self.role,
            bus_name: self.bus_name@,
            path: self.path@,
            bounds: self.bounds,
        }
    }
}

impl Clone for Frame {
    fn clone(&self) -> (f: Self)
        ensures
            f@ == self@,
    {
        Frame {
            app: self.app.clone(),
            title: self.title.clone(),
            bus_name: self.bus_name.clone(),
            path: self.path.clone(),
            ..*self
        }
    }
}

impl FrameView {
    /// The rectangle targets must fall inside, where there is one to be
    /// trusted: that of a real application frame with an inside.
    pub open spec fn boundary(self) -> Option<WindowRect> {
        if self.role == Role::Frame && self.bounds.w > 0 && self.bounds.h > 0 {
            Some(self.bounds)
        } else {
            None
        }
    }
}

impl Frame {
    /// The rectangle targets must fall inside, or `None` when this toplevel
    /// has no trustworthy one.
    ///
    /// The shell's stage reports the size of one of its buttons, not of the
    /// screen it covers; clipping to that would throw away the only
    /// actionable thing the shell has. So the clip is trusted only for a real
    /// application frame.
    pub fn clip(&self) -> (c: Option<WindowRect>)
        ensures
            c == self@.boundary(),
    {
        if self.role == Role::Frame && self.bounds.w > 0 && self.bounds.h > 0 {
            Some(self.bounds)
        } else {
            None
        }
    }
}

/// One clickable thing.
#[derive(Debug)]
pub struct Target {
    pub role: Role,
    /// May be empty: labels go by position, not by name.
    pub name: String,
    pub bounds: WindowRect,
    pub provenance: Provenance,
    /// Identity for re-validation before the click.
    pub bus_name: String,
    pub path: String,
}

/// A [`Target`], its texts as their characters.
pub struct TargetView {
    pub role: Role,
    pub name: Seq<char>,
    pub bounds: WindowRect,
    pub provenance: Provenance,
    pub bus_name: Seq<char>,
    pub path: Seq<char>,
}

impl View for Target {
    type V = TargetView;

    open spec fn view(&self) -> TargetView {
        TargetView {
            role: self.role,
            name: self.name@,
            bounds: self.bounds,
            provenance: self.provenance,
            bus_name: self.bus_name@,
            path: self.path@,
        }
    }
}

impl Clone for Target {
    fn clone(&self) -> (t: Self)
        ensures
            t@ == self@,
    {
        Target {
            name: self.name.clone(),
            bus_name: self.bus_name.clone(),
            path: self.path.clone(),
            ..*self
        }
    }
}

} // verus!
