//! Where a badge is drawn, and where the click lands.
//!
//! A label drawn on the target's centre hides the target, so the badge sits
//! *beside* the click point, near enough to read as its label and far enough
//! to leave the target visible.
//!
//! **The click lands at the target's centre.** The badge follows the free
//! side, the click does not move at all: a click that does not depend on
//! where the badge was pushed cannot drift when the badge is pushed somewhere
//! else.
use vstd::prelude::*;

use crate::detect::rect::Rect;
use crate::num;

verus! {

/// The badge's drawn size in pixels: two monospace characters with padding
/// and border, as the shell half draws them.
pub const BADGE_W: i32 = 28;

pub const BADGE_H: i32 = 22;

/// How far the badge overlaps the target's edge, on a target small enough
/// for that to be the binding constraint.
pub const INSET: i32 = 8;

/// The furthest a hugging badge's near edge may sit from the click point.
///
/// Measured from the bounding box alone the gap would be `w/2 - INSET`: 10 px
/// on a 36 px button and 950 px on a full-screen target. Capping it leaves
/// every target up to 36 px where it was and stops the badge walking away
/// from its own dot on everything larger.
pub const GAP_MAX: i32 = 10;

/// Which side of the target the badge sits on.
///
/// Four, not two: a row of toolbar buttons 34 px apart cannot hold 28 px
/// badges side by side, and above and below are where the room is.
#[derive(Debug, Clone, Copy, PartialEq, Eq, Structural)]
pub enum Side {
    /// Badge to the left of the target — the first choice, because the eye
    /// reads left to right and the badge is read first.
    Left,
    /// Badge to the right of the target.
    Right,
    /// Badge above the target.
    Above,
    /// Badge below the target.
    Below,
}

impl Side {
    /// The order they are tried in. Left first, then right, then the
    /// verticals — a horizontal row is the crowded case, so the escape from
    /// it should be vertical.
    pub const PREFERENCE: [Side; 4] = [Side::Left, Side::Right, Side::Above, Side::Below];
}

/// How far out from the click point a badge is placed.
///
/// `Hug` is where a badge belongs. `Edge` is an outer ring for the crowded
/// case: **nested targets share a centre**, so all four hugged sides give
/// them the same four rectangles.
#[derive(Debug, Clone, Copy, PartialEq, Eq, Structural)]
pub enum Ring {
    /// Beside the dot, at most `GAP_MAX` from it.
    Hug,
    /// Beside the bounding box, overlapping it by `INSET`.
    Edge,
}

/// A badge rectangle and the point to click, in the same coordinate space as
/// the bounds they were computed from.
#[derive(Debug, Clone, Copy, PartialEq, Eq, Structural)]
pub struct Placement {
    /// Top-left of the badge, `BADGE_W` x `BADGE_H`.
    pub badge_x: i32,
    pub badge_y: i32,
    /// The point that will actually be injected: the target's centre,
    /// whichever side the badge ended up on.
    pub click_x: i32,
    pub click_y: i32,
    pub side: Side,
}

// ---------------------------------------------------------------------------
// Where badges go
// ---------------------------------------------------------------------------

/// How far the badge's near edge is from the dot, along a side `len` long.
/// Never past the target's own middle.
pub open spec fn gap(len: int, ring: Ring) -> int {
    let inset = num::smaller(INSET as int, num::larger(num::half(len), 1));
    let room = num::larger(num::half(len) - inset, 0);
    match ring {
        Ring::Hug => num::smaller(room, GAP_MAX as int),
        Ring::Edge => room,
    }
}

/// A position for a badge.
pub struct Spot {
    pub x: int,
    pub y: int,
    pub side: Side,
}

/// The badge hangs off the click point, and is centred on the other axis.
pub open spec fn spot(r: Rect, side: Side, ring: Ring) -> Spot {
    let (cx, cy) = (r.middle_x(), r.middle_y());
    let (gap_x, gap_y) = (gap(r.w as int, ring), gap(r.h as int, ring));
    match side {
        Side::Left => Spot { x: cx - gap_x - BADGE_W, y: cy - 11, side },
        Side::Right => Spot { x: cx + gap_x, y: cy - 11, side },
        Side::Above => Spot { x: cx - 14, y: cy - gap_y - BADGE_H, side },
        Side::Below => Spot { x: cx - 14, y: cy + gap_y, side },
    }
}

impl Spot {
    /// Whether the badge's corner is a pair of coordinates.
    pub open spec fn fits(self) -> bool {
        num::fits(self.x) && num::fits(self.y)
    }

    /// The whole badge is on a screen of that size.
    pub open spec fn on_screen(self, screen: (i32, i32)) -> bool {
        0 <= self.x && 0 <= self.y && self.x + BADGE_W <= screen.0 && self.y + BADGE_H <= screen.1
    }

    /// The badge overlaps that of `p`.
    pub open spec fn overlaps(self, p: Placement) -> bool {
        self.x < p.badge_x + BADGE_W && p.badge_x < self.x + BADGE_W && self.y < p.badge_y
            + BADGE_H && p.badge_y < self.y + BADGE_H
    }

    /// The badge overlaps none of `placed`.
    pub open spec fn clear(self, placed: Seq<Placement>) -> bool {
        forall|i: int| 0 <= i < placed.len() ==> !self.overlaps(#[trigger] placed[i])
    }

    /// The placement of a target whose badge is here.
    pub open spec fn placement(self, r: Rect) -> Placement {
        Placement {
            badge_x: self.x as i32,
            badge_y: self.y as i32,
            click_x: r.middle_x() as i32,
            click_y: r.middle_y() as i32,
            side: self.side,
        }
    }
}

impl Placement {
    /// Where the badge is.
    pub open spec fn spot(self) -> Spot {
        Spot { x: self.badge_x as int, y: self.badge_y as int, side: self.side }
    }
}

/// The eight positions in the order they are tried: the four sides hugging
/// the dot, then the four at the edge of the box.
pub open spec fn candidate(r: Rect, k: int) -> Spot {
    spot(
        r,
        if k % 4 == 0 {
            Side::Left
        } else if k % 4 == 1 {
            Side::Right
        } else if k % 4 == 2 {
            Side::Above
        } else {
            Side::Below
        },
        if k < 4 {
            Ring::Hug
        } else {
            Ring::Edge
        },
    )
}

/// Position `k` is on screen and clear of what is placed.
pub open spec fn is_clear(r: Rect, screen: (i32, i32), placed: Seq<Placement>, k: int) -> bool {
    0 <= k < 8 && candidate(r, k).on_screen(screen) && candidate(r, k).clear(placed)
}

/// Position `k` is on screen.
pub open spec fn is_shown(r: Rect, screen: (i32, i32), k: int) -> bool {
    0 <= k < 8 && candidate(r, k).on_screen(screen)
}

/// `s` is where the target's badge goes: the first position that is on screen
/// and clear of everything already placed; failing that the first one on
/// screen; failing that, to the left of the dot.
pub open spec fn is_choice(r: Rect, screen: (i32, i32), placed: Seq<Placement>, s: Spot) -> bool {
    if exists|k: int| #[trigger] is_clear(r, screen, placed, k) {
        exists|k: int| #[trigger]
            is_clear(r, screen, placed, k) && s == candidate(r, k) && forall|j: int|
                0 <= j < k ==> !#[trigger] is_clear(r, screen, placed, j)
    } else if exists|k: int| #[trigger] is_shown(r, screen, k) {
        exists|k: int| #[trigger]
            is_shown(r, screen, k) && s == candidate(r, k) && forall|j: int|
                0 <= j < k ==> !#[trigger] is_shown(r, screen, j)
    } else {
        s == candidate(r, 0)
    }
}

/// A box as a rectangle.
pub open spec fn boxed(b: (i32, i32, i32, i32)) -> Rect {
    Rect { x: b.0, y: b.1, w: b.2, h: b.3 }
}

/// The target's centre and its first position are coordinates.
pub open spec fn placeable(r: Rect) -> bool {
    num::fits(r.middle_x()) && num::fits(r.middle_y()) && candidate(r, 0).fits()
}

// ---------------------------------------------------------------------------
// Placing
// ---------------------------------------------------------------------------

impl Placement {
    pub fn badge(&self) -> (b: (i32, i32, i32, i32))
        ensures
            b == (self.badge_x, self.badge_y, BADGE_W, BADGE_H),
    {
        (self.badge_x, self.badge_y, BADGE_W, BADGE_H)
    }

    pub fn click(&self) -> (c: (i32, i32))
        ensures
            c == (self.click_x, self.click_y),
    {
        (self.click_x, self.click_y)
    }
}

/// Place a badge beside a target's bounds.
///
/// `room_on_left` is the caller's answer to "is there screen to the left of
/// this target", which only the caller can know: these bounds are
/// window-relative and the screen edge is not.
pub fn place(x: i32, y: i32, w: i32, h: i32, room_on_left: bool) -> (p: Placement)
    requires
        num::fits((Rect { x, y, w, h }).middle_x()),
        num::fits((Rect { x, y, w, h }).middle_y()),
        spot(
            (Rect { x, y, w, h }),
            if room_on_left {
                Side::Left
            } else {
                Side::Right
            },
            Ring::Hug,
        ).fits(),
    ensures
        p == spot(
            (Rect { x, y, w, h }),
            if room_on_left {
                Side::Left
            } else {
                Side::Right
            },
            Ring::Hug,
        ).placement((Rect { x, y, w, h })),
{
    on_side(
        x,
        y,
        w,
        h,
        if room_on_left {
            Side::Left
        } else {
            Side::Right
        },
    )
}

/// The placement a target would get on a given side, hugging its click point.
pub fn on_side(x: i32, y: i32, w: i32, h: i32, side: Side) -> (p: Placement)
    requires
        num::fits((Rect { x, y, w, h }).middle_x()),
        num::fits((Rect { x, y, w, h }).middle_y()),
        spot((Rect { x, y, w, h }), side, Ring::Hug).fits(),
    ensures
        p == spot((Rect { x, y, w, h }), side, Ring::Hug).placement((Rect { x, y, w, h })),
{
    let r: Rect = Rect { x, y, w, h };
    let (cx, cy) = r.centre();
    let (badge_x, badge_y) = on_ring(r, side, Ring::Hug);
    Placement { badge_x: badge_x as i32, badge_y: badge_y as i32, click_x: cx, click_y: cy, side }
}

fn gap_along(len: i32, ring: Ring) -> (g: i64)
    ensures
        g == gap(len as int, ring),
        0 <= g <= i32::MAX,
{
    let middle: i64 = (len / 2) as i64;
    let inset: i64 = if middle < 1 {
        1
    } else if middle < INSET as i64 {
        middle
    } else {
        INSET as i64
    };
    let room: i64 = if middle > inset {
        middle - inset
    } else {
        0
    };
    match ring {
        Ring::Hug => if room < GAP_MAX as i64 {
            room
        } else {
            GAP_MAX as i64
        },
        Ring::Edge => room,
    }
}

/// The corner of the badge on a given side and ring.
fn on_ring(r: Rect, side: Side, ring: Ring) -> (corner: (i64, i64))
    requires
        num::fits(r.middle_x()),
        num::fits(r.middle_y()),
    ensures
        corner.0 == spot(r, side, ring).x,
        corner.1 == spot(r, side, ring).y,
{
    let (mx, my) = r.centre();
    let (cx, cy): (i64, i64) = (mx as i64, my as i64);
    let gap_x: i64 = gap_along(r.w, ring);
    let gap_y: i64 = gap_along(r.h, ring);
    match side {
        Side::Left => (cx - gap_x - BADGE_W as i64, cy - 11),
        Side::Right => (cx + gap_x, cy - 11),
        Side::Above => (cx - 14, cy - gap_y - BADGE_H as i64),
        Side::Below => (cx - 14, cy + gap_y),
    }
}

/// Do two badges overlap?
pub fn collides(a: &Placement, b: &Placement) -> (r: bool)
    ensures
        r == a.spot().overlaps(*b),
{
    corner_collides(a.badge_x as i64, a.badge_y as i64, b)
}

fn corner_collides(x: i64, y: i64, b: &Placement) -> (r: bool)
    requires
        -0x1_0000_0000 <= x <= 0x1_0000_0000,
        -0x1_0000_0000 <= y <= 0x1_0000_0000,
    ensures
        r == (Spot { x: x as int, y: y as int, side: Side::Left }).overlaps(*b),
{
    let (w, h): (i64, i64) = (BADGE_W as i64, BADGE_H as i64);
    let (bx, by): (i64, i64) = (b.badge_x as i64, b.badge_y as i64);
    x < bx + w && bx < x + w && y < by + h && by < y + h
}

fn any_collides(x: i64, y: i64, placed: &Vec<Placement>) -> (r: bool)
    requires
        -0x1_0000_0000 <= x <= 0x1_0000_0000,
        -0x1_0000_0000 <= y <= 0x1_0000_0000,
    ensures
        r == !(Spot { x: x as int, y: y as int, side: Side::Left }).clear(placed@),
{
    let ghost s = Spot { x: x as int, y: y as int, side: Side::Left };
    let mut i: usize = 0;
    while i < placed.len()
        invariant
            i <= placed@.len(),
            s == (Spot { x: x as int, y: y as int, side: Side::Left }),
            -0x1_0000_0000 <= x <= 0x1_0000_0000,
            -0x1_0000_0000 <= y <= 0x1_0000_0000,
            forall|j: int| 0 <= j < i ==> !s.overlaps(#[trigger] placed@[j]),
        decreases placed.len() - i,
    {
        if corner_collides(x, y, &placed[i]) {
            assert(s.overlaps(placed@[i as int]));
            return true;
        }
        i = i + 1;
    }
    false
}

/// The placement of one more target.
fn choose_spot(r: Rect, screen: (i32, i32), placed: &Vec<Placement>) -> (p: Placement)
    requires
        placeable(r),
    ensures
        is_choice(r, screen, placed@, p.spot()),
        p == p.spot().placement(r),
{
    let (cx, cy) = r.centre();
    let mut fallback: Option<Placement> = None;
    let ghost mut shown: int = 0;
    let mut k: usize = 0;
    while k < 8
        invariant
            k <= 8,
            placeable(r),
            cx == r.middle_x(),
            cy == r.middle_y(),
            forall|j: int| 0 <= j < k ==> !#[trigger] is_clear(r, screen, placed@, j),
            fallback is None ==> forall|j: int| 0 <= j < k ==> !#[trigger] is_shown(r, screen, j),
            fallback is Some ==> {
                &&& shown < k
                &&& is_shown(r, screen, shown)
                &&& forall|j: int| 0 <= j < shown ==> !#[trigger] is_shown(r, screen, j)
                &&& fallback->0.spot() == candidate(r, shown)
                &&& fallback->0 == candidate(r, shown).placement(r)
            },
        decreases 8 - k,
    {
        let ring: Ring = if k < 4 {
            Ring::Hug
        } else {
            Ring::Edge
        };
        let side: Side = Side::PREFERENCE[k % 4];
        let (x, y) = on_ring(r, side, ring);
        proof {
            assert(candidate(r, k as int) == spot(r, side, ring));
        }
        let on_screen: bool = x >= 0 && y >= 0 && x + BADGE_W as i64 <= screen.0 as i64 && y
            + BADGE_H as i64 <= screen.1 as i64;
        if on_screen {
            let p: Placement = Placement {
                badge_x: x as i32,
                badge_y: y as i32,
                click_x: cx,
                click_y: cy,
                side,
            };
            assert(is_shown(r, screen, k as int));
            let crowded: bool = any_collides(x, y, placed);
            proof {
                let at_left = Spot { x: x as int, y: y as int, side: Side::Left };
                assert forall|j: int| 0 <= j < placed@.len() implies at_left.overlaps(
                    #[trigger] placed@[j],
                ) == candidate(r, k as int).overlaps(placed@[j]) by {}
                if crowded {
                    let j = choose|j: int|
                        0 <= j < placed@.len() && at_left.overlaps(#[trigger] placed@[j]);
                    assert(candidate(r, k as int).overlaps(placed@[j]));
                }
            }
            if !crowded {
                assert(is_clear(r, screen, placed@, k as int));
                return p;
            }
            if fallback.is_none() {
                fallback = Some(p);
                proof {
                    shown = k as int;
                }
            }
        }
        k = k + 1;
    }
    assert(!(exists|j: int| #[trigger] is_clear(r, screen, placed@, j)));
    match fallback {
        Some(p) => p,
        None => {
            assert(!(exists|j: int| #[trigger] is_shown(r, screen, j)));
            on_side(r.x, r.y, r.w, r.h, Side::Left)
        },
    }
}

/// Place a whole set of badges so that **no two overlap**.
///
/// Targets are taken in the order given — which is label order, so the
/// result is deterministic for a given set. If all eight positions of a
/// target collide, the first that is on screen is used: a badge that overlaps
/// is still better than a target with no badge at all.
///
/// A badge's *position* depends on its neighbours, so adding a target can
/// move a badge that was already there. The **label** does not move, and the
/// label is what the hand types.
pub fn place_all(bounds: &[(i32, i32, i32, i32)], screen: (i32, i32)) -> (placed: Vec<Placement>)
    requires
        forall|i: int| 0 <= i < bounds@.len() ==> placeable(boxed(#[trigger] bounds@[i])),
    ensures
        placed@.len() == bounds@.len(),
        forall|i: int|
            0 <= i < bounds@.len() ==> {
                &&& is_choice(
                    boxed(bounds@[i]),
                    screen,
                    placed@.take(i),
                    (#[trigger] placed@[i]).spot(),
                )
                &&& placed@[i] == placed@[i].spot().placement(boxed(bounds@[i]))
            },
{
    let mut placed: Vec<Placement> = Vec::new();
    let mut n: usize = 0;
    while n < bounds.len()
        invariant
            n <= bounds@.len(),
            placed@.len() == n,
            forall|i: int| 0 <= i < bounds@.len() ==> placeable(boxed(#[trigger] bounds@[i])),
            forall|i: int|
                0 <= i < n ==> {
                    &&& is_choice(
                        boxed(bounds@[i]),
                        screen,
                        placed@.take(i),
                        (#[trigger] placed@[i]).spot(),
                    )
                    &&& placed@[i] == placed@[i].spot().placement(boxed(bounds@[i]))
                },
        decreases bounds.len() - n,
    {
        let (x, y, w, h) = bounds[n];
        let ghost before = placed@;
        let p: Placement = choose_spot(Rect { x, y, w, h }, screen, &placed);
        placed.push(p);
        proof {
            assert(placed@.take(n as int) =~= before);
            assert forall|i: int| 0 <= i < n implies placed@.take(i) =~= before.take(i)
                && #[trigger] placed@[i] == before[i] by {}
        }
        n = n + 1;
    }
    placed
}

// ---------------------------------------------------------------------------
// Laws
// ---------------------------------------------------------------------------

/// How far the dot is from the nearest edge of a badge along one axis.
pub open spec fn axis_gap(badge: int, size: int, dot: int) -> int {
    num::larger(num::larger(badge - dot, dot - (badge + size)), 0)
}

/// How far a target's dot is from a badge. Zero when it is inside.
pub open spec fn gap_to_dot(s: Spot, r: Rect) -> int {
    num::larger(
        axis_gap(s.x, BADGE_W as int, r.middle_x()),
        axis_gap(s.y, BADGE_H as int, r.middle_y()),
    )
}

/// No hugging badge is far from the dot it labels, however large the target.
pub proof fn a_hugging_badge_is_near_its_dot(r: Rect, side: Side)
    ensures
        gap_to_dot(spot(r, side, Ring::Hug), r) <= GAP_MAX,
{
}

/// On a target of up to 36 px the two rings are one: hugging moves nothing
/// small.
pub proof fn small_targets_have_one_ring(r: Rect, side: Side)
    requires
        r.w <= 2 * (INSET + GAP_MAX) + 1,
        r.h <= 2 * (INSET + GAP_MAX) + 1,
    ensures
        spot(r, side, Ring::Hug) == spot(r, side, Ring::Edge),
{
}

/// Where a badge is pushed never moves the click: it is the target's centre,
/// and inside a target that has an inside.
pub proof fn the_click_is_the_centre(r: Rect, s: Spot)
    requires
        num::fits(r.middle_x()),
        num::fits(r.middle_y()),
    ensures
        s.placement(r).click_x == r.middle_x(),
        s.placement(r).click_y == r.middle_y(),
        r.w > 0 ==> r.x <= s.placement(r).click_x < r.x + r.w,
        r.h > 0 ==> r.y <= s.placement(r).click_y < r.y + r.h,
{
}

/// One target's badge is where the same target's badge always is: the choice
/// is determined.
pub proof fn placement_is_deterministic(
    r: Rect,
    screen: (i32, i32),
    placed: Seq<Placement>,
    s: Spot,
    t: Spot,
)
    requires
        is_choice(r, screen, placed, s),
        is_choice(r, screen, placed, t),
    ensures
        s == t,
{
    if exists|k: int| #[trigger] is_clear(r, screen, placed, k) {
        let a = choose|k: int| #[trigger]
            is_clear(r, screen, placed, k) && s == candidate(r, k) && forall|j: int|
                0 <= j < k ==> !#[trigger] is_clear(r, screen, placed, j);
        let b = choose|k: int| #[trigger]
            is_clear(r, screen, placed, k) && t == candidate(r, k) && forall|j: int|
                0 <= j < k ==> !#[trigger] is_clear(r, screen, placed, j);
        assert(a == b);
    } else if exists|k: int| #[trigger] is_shown(r, screen, k) {
        let a = choose|k: int| #[trigger]
            is_shown(r, screen, k) && s == candidate(r, k) && forall|j: int|
                0 <= j < k ==> !#[trigger] is_shown(r, screen, j);
        let b = choose|k: int| #[trigger]
            is_shown(r, screen, k) && t == candidate(r, k) && forall|j: int|
                0 <= j < k ==> !#[trigger] is_shown(r, screen, j);
        assert(a == b);
    }
}

/// No two badges overlap, as long as each target has a position left that is
/// on screen and clear of the badges before it.
pub proof fn no_two_badges_overlap(
    bounds: Seq<(i32, i32, i32, i32)>,
    screen: (i32, i32),
    placed: Seq<Placement>,
    i: int,
    j: int,
)
    requires
        placed.len() == bounds.len(),
        forall|k: int|
            0 <= k < bounds.len() ==> is_choice(
                boxed(bounds[k]),
                screen,
                placed.take(k),
                (#[trigger] placed[k]).spot(),
            ),
        forall|k: int|
            0 <= k < bounds.len() ==> exists|c: int|
                is_clear(boxed(#[trigger] bounds[k]), screen, placed.take(k), c),
        0 <= i < placed.len(),
        0 <= j < placed.len(),
        i != j,
    ensures
        !placed[i].spot().overlaps(placed[j]),
{
    let (a, b) = if i < j {
        (i, j)
    } else {
        (j, i)
    };
    assert(is_choice(boxed(bounds[b]), screen, placed.take(b), placed[b].spot()));
    let c = choose|c: int| is_clear(boxed(bounds[b]), screen, placed.take(b), c);
    assert(is_clear(boxed(bounds[b]), screen, placed.take(b), c));
    assert(placed[b].spot().clear(placed.take(b)));
    assert(placed.take(b)[a] == placed[a]);
    assert(!placed[b].spot().overlaps(placed[a]));
}

/// A badge is never drawn off the screen when the target has a position on
/// it.
pub proof fn a_badge_is_on_screen_when_it_can_be(
    r: Rect,
    screen: (i32, i32),
    placed: Seq<Placement>,
    s: Spot,
    k: int,
)
    requires
        is_choice(r, screen, placed, s),
        is_shown(r, screen, k),
    ensures
        s.on_screen(screen),
{
}

} // verus!
