//! Rectangles, badges and covered pixels, counted pixel by pixel.
use vstd::prelude::*;

use crate::detect::rect;
use crate::detect::rect::Rect;
use crate::num;
use crate::occlude;
use crate::place;
use crate::place::{Placement, Ring, Side, Spot};

verus! {

// ---------------------------------------------------------------------------
// Rectangles
// ---------------------------------------------------------------------------

/// The centre is halfway, to the pixel towards the start, and the size is the
/// sides multiplied.
pub proof fn a_rectangle_has_its_middle_and_size(r: Rect)
    ensures
        r.w >= 0 ==> r.w - 1 <= 2 * (r.middle_x() - r.x) <= r.w,
        r.h >= 0 ==> r.h - 1 <= 2 * (r.middle_y() - r.y) <= r.h,
        r.w < 0 ==> r.w <= 2 * (r.middle_x() - r.x) <= r.w + 1,
        r.h < 0 ==> r.h <= 2 * (r.middle_y() - r.y) <= r.h + 1,
        r.size() == r.w * r.h,
{
}

/// A rectangle covers the pixels from its corner on, as many as it is wide and
/// high; the last column and row a coordinate can name are covered by none.
pub proof fn a_rectangle_covers_its_pixels(r: Rect, px: int, py: int)
    requires
        -0x8000_0000 <= px <= 0x7fff_ffff,
        -0x8000_0000 <= py <= 0x7fff_ffff,
    ensures
        r.covers(px, py) <==> {
            &&& r.x <= px < r.x + r.w && px < 0x7fff_ffff
            &&& r.y <= py < r.y + r.h && py < 0x7fff_ffff
        },
{
}

/// A pixel is covered when a rectangle covers it, in whatever order they are
/// stacked.
pub proof fn a_pixel_is_covered_by_any(rects: Seq<Rect>, i: int, px: int, py: int)
    ensures
        0 <= i < rects.len() && rects[i].covers(px, py) ==> rect::covered(rects, px, py),
        (forall|k: int| 0 <= k < rects.len() ==> !(#[trigger] rects[k]).covers(px, py))
            ==> !rect::covered(rects, px, py),
{
}

// ---------------------------------------------------------------------------
// Covered pixels
// ---------------------------------------------------------------------------

/// The pixels of the first `n` rows that nothing covers.
spec fn bare(r: Rect, above: Seq<Rect>, n: int) -> Set<(int, int)> {
    Set::new(
        |p: (int, int)|
            r.x <= p.0 < r.x + r.w && r.y <= p.1 < r.y + n && !rect::covered(above, p.0, p.1),
    )
}

proof fn lemma_bare(r: Rect, above: Seq<Rect>, n: int)
    requires
        0 <= n,
        0 <= r.w,
    ensures
        bare(r, above, n).finite(),
        bare(r, above, n).len() == occlude::shown_in_rows(r, above, n),
    decreases n,
{
    if n == 0 {
        assert(bare(r, above, 0) =~= Set::empty());
    } else {
        lemma_bare(r, above, n - 1);
        let y = r.y + n - 1;
        let f = |px: int| !rect::covered(above, px, y);
        num::lemma_count_is_size(r.x as int, r.x + r.w, f);
        let row = Set::new(|p: int| r.x <= p < r.x + r.w && f(p));
        let at = |p: int| (p, y);
        let line = row.map(at);
        let target = Set::new(
            |p: (int, int)|
                r.x <= p.0 < r.x + r.w && p.1 == y && !rect::covered(above, p.0, p.1),
        );
        assert(line =~= target) by {
            assert forall|p: (int, int)| target.contains(p) implies line.contains(p) by {
                assert(f(p.0));
                assert(row.contains(p.0) && at(p.0) == p);
            }
            assert forall|p: (int, int)| line.contains(p) implies target.contains(p) by {
                let q = choose|q: int| row.contains(q) && at(q) == p;
                assert(f(q));
            }
        }
        assert(vstd::relations::injective_on(at, row));
        vstd::set_lib::lemma_map_size(row, target, at);
        assert(target.finite());
        assert(bare(r, above, n) =~= bare(r, above, n - 1) + target);
        assert(bare(r, above, n - 1).disjoint(target));
        vstd::set_lib::lemma_set_disjoint_lens(bare(r, above, n - 1), target);
    }
}

/// What is shown of a rectangle is the number of its pixels that nothing above
/// it covers.
pub proof fn what_is_shown_is_what_nothing_covers(r: Rect, above: Seq<Rect>)
    requires
        r.w > 0,
        r.h > 0,
        r.x + r.w <= 0x7fff_ffff,
        r.y + r.h <= 0x7fff_ffff,
    ensures
        ({
            let pixels = Set::new(
                |p: (int, int)|
                    {
                        &&& r.x <= p.0 < r.x + r.w
                        &&& r.y <= p.1 < r.y + r.h
                        &&& forall|i: int|
                            0 <= i < above.len() ==> !{
                                let q = #[trigger] above[i];
                                q.x <= p.0 < q.x + q.w && q.y <= p.1 < q.y + q.h
                            }
                    },
            );
            pixels.finite() && occlude::shown(r, above) == pixels.len()
        }),
{
    let pixels = Set::new(
        |p: (int, int)|
            {
                &&& r.x <= p.0 < r.x + r.w
                &&& r.y <= p.1 < r.y + r.h
                &&& forall|i: int|
                    0 <= i < above.len() ==> !{
                        let q = #[trigger] above[i];
                        q.x <= p.0 < q.x + q.w && q.y <= p.1 < q.y + q.h
                    }
            },
    );
    lemma_bare(r, above, r.h as int);
    assert forall|p: (int, int)| pixels.contains(p) == bare(r, above, r.h as int).contains(p) by {
        if r.x <= p.0 < r.x + r.w && r.y <= p.1 < r.y + r.h {
            if rect::covered(above, p.0, p.1) {
                let i = choose|i: int|
                    0 <= i < above.len() && (#[trigger] above[i]).covers(p.0, p.1);
                a_rectangle_covers_its_pixels(above[i], p.0, p.1);
            } else {
                assert forall|i: int| 0 <= i < above.len() implies !{
                    let q = #[trigger] above[i];
                    q.x <= p.0 < q.x + q.w && q.y <= p.1 < q.y + q.h
                } by {
                    a_rectangle_covers_its_pixels(above[i], p.0, p.1);
                    assert(!above[i].covers(p.0, p.1));
                }
            }
        }
    }
    assert(pixels =~= bare(r, above, r.h as int));
}

// ---------------------------------------------------------------------------
// Badges
// ---------------------------------------------------------------------------

/// A badge is 28 by 22 pixels, beside the dot on its own side, centred on the
/// other axis. At the edge its near side is eight pixels inside the box, and
/// never past the dot; hugging it is no further than ten pixels from the dot.
pub proof fn a_badge_hangs_beside_its_dot(r: Rect, ring: Ring)
    ensures
        ({
            let (cx, cy) = (r.middle_x(), r.middle_y());
            let (half_w, half_h) = (cx - r.x, cy - r.y);
            let edge_x = if half_w > 8 {
                half_w - 8
            } else {
                0
            };
            let edge_y = if half_h > 8 {
                half_h - 8
            } else {
                0
            };
            let gap_x = if ring is Hug && edge_x > 10 {
                10
            } else {
                edge_x
            };
            let gap_y = if ring is Hug && edge_y > 10 {
                10
            } else {
                edge_y
            };
            let left = place::spot(r, Side::Left, ring);
            let right = place::spot(r, Side::Right, ring);
            let above = place::spot(r, Side::Above, ring);
            let below = place::spot(r, Side::Below, ring);
            &&& left.x + 28 == cx - gap_x && left.y + 11 == cy && left.side is Left
            &&& right.x == cx + gap_x && right.y + 11 == cy && right.side is Right
            &&& above.y + 22 == cy - gap_y && above.x + 14 == cx && above.side is Above
            &&& below.y == cy + gap_y && below.x + 14 == cx && below.side is Below
        }),
{
}

/// The positions are tried from the inside out, and on each ring to the left,
/// to the right, above and below.
pub proof fn positions_are_tried_from_the_inside_out(r: Rect)
    ensures
        place::candidate(r, 0) == place::spot(r, Side::Left, Ring::Hug),
        place::candidate(r, 1) == place::spot(r, Side::Right, Ring::Hug),
        place::candidate(r, 2) == place::spot(r, Side::Above, Ring::Hug),
        place::candidate(r, 3) == place::spot(r, Side::Below, Ring::Hug),
        place::candidate(r, 4) == place::spot(r, Side::Left, Ring::Edge),
        place::candidate(r, 5) == place::spot(r, Side::Right, Ring::Edge),
        place::candidate(r, 6) == place::spot(r, Side::Above, Ring::Edge),
        place::candidate(r, 7) == place::spot(r, Side::Below, Ring::Edge),
{
}

/// A badge is on screen when all of its 28 by 22 pixels are, and two overlap
/// when they share one.
pub proof fn a_badge_is_28_by_22(s: Spot, screen: (i32, i32), p: Placement)
    ensures
        s.on_screen(screen) <==> s.x >= 0 && s.y >= 0 && s.x + 28 <= screen.0 && s.y + 22
            <= screen.1,
        s.overlaps(p) <==> -28 < s.x - p.badge_x < 28 && -22 < s.y - p.badge_y < 22,
        p.spot().x == p.badge_x && p.spot().y == p.badge_y && p.spot().side == p.side,
{
}

/// A badge goes to the first of the eight positions that is on screen and
/// overlaps no badge already there; where there is none, to the first that is
/// on screen; and where there is none of those, to the left of the dot.
pub proof fn a_badge_takes_the_first_free_position(
    r: Rect,
    screen: (i32, i32),
    placed: Seq<Placement>,
    s: Spot,
    k: int,
)
    requires
        place::is_choice(r, screen, placed, s),
        0 <= k < 8,
    ensures
        ({
            let free = |j: int|
                {
                    let c = place::candidate(r, j);
                    &&& c.x >= 0 && c.y >= 0 && c.x + 28 <= screen.0 && c.y + 22 <= screen.1
                    &&& forall|i: int|
                        0 <= i < placed.len() ==> !(-28 < c.x - (#[trigger] placed[i]).badge_x < 28
                            && -22 < c.y - placed[i].badge_y < 22)
                };
            let shown = |j: int|
                {
                    let c = place::candidate(r, j);
                    c.x >= 0 && c.y >= 0 && c.x + 28 <= screen.0 && c.y + 22 <= screen.1
                };
            &&& free(k) && (forall|j: int| 0 <= j < k ==> !#[trigger] free(j)) ==> s
                == place::candidate(r, k)
            &&& (forall|j: int| 0 <= j < 8 ==> !#[trigger] free(j)) && shown(k) && (forall|j: int|
                0 <= j < k ==> !#[trigger] shown(j)) ==> s == place::candidate(r, k)
            &&& (forall|j: int| 0 <= j < 8 ==> !#[trigger] shown(j)) ==> s == place::candidate(
                r,
                0,
            )
        }),
{
    let free = |j: int|
        {
            let c = place::candidate(r, j);
            &&& c.x >= 0 && c.y >= 0 && c.x + 28 <= screen.0 && c.y + 22 <= screen.1
            &&& forall|i: int|
                0 <= i < placed.len() ==> !(-28 < c.x - (#[trigger] placed[i]).badge_x < 28 && -22
                    < c.y - placed[i].badge_y < 22)
        };
    let shown = |j: int|
        {
            let c = place::candidate(r, j);
            c.x >= 0 && c.y >= 0 && c.x + 28 <= screen.0 && c.y + 22 <= screen.1
        };
    assert forall|j: int| 0 <= j < 8 implies #[trigger] place::is_clear(r, screen, placed, j)
        == free(j) by {
        lemma_free(r, screen, placed, j);
    }
    assert forall|j: int| 0 <= j < 8 implies #[trigger] place::is_shown(r, screen, j) == shown(
        j,
    ) by {}
    if free(k) && (forall|j: int| 0 <= j < k ==> !#[trigger] free(j)) {
        assert(place::is_clear(r, screen, placed, k));
        let a = choose|a: int| #[trigger]
            place::is_clear(r, screen, placed, a) && s == place::candidate(r, a) && forall|j: int|
                0 <= j < a ==> !#[trigger] place::is_clear(r, screen, placed, j);
        assert(free(a));
        assert(a == k);
    }
    if forall|j: int| 0 <= j < 8 ==> !#[trigger] free(j) {
        assert forall|j: int| !#[trigger] place::is_clear(r, screen, placed, j) by {
            if 0 <= j < 8 {
                assert(!free(j));
            }
        }
        if shown(k) && (forall|j: int| 0 <= j < k ==> !#[trigger] shown(j)) {
            assert(place::is_shown(r, screen, k));
            let a = choose|a: int| #[trigger]
                place::is_shown(r, screen, a) && s == place::candidate(r, a) && forall|j: int|
                    0 <= j < a ==> !#[trigger] place::is_shown(r, screen, j);
            assert(shown(a));
            assert(a == k);
        }
    }
    if forall|j: int| 0 <= j < 8 ==> !#[trigger] shown(j) {
        assert forall|j: int| !#[trigger] place::is_shown(r, screen, j) by {
            if 0 <= j < 8 {
                assert(!shown(j));
            }
        }
        assert forall|j: int| !#[trigger] place::is_clear(r, screen, placed, j) by {
            assert(!place::is_shown(r, screen, j));
        }
    }
}

proof fn lemma_free(r: Rect, screen: (i32, i32), placed: Seq<Placement>, j: int)
    requires
        0 <= j < 8,
    ensures
        place::is_clear(r, screen, placed, j) <==> {
            let c = place::candidate(r, j);
            &&& c.x >= 0 && c.y >= 0 && c.x + 28 <= screen.0 && c.y + 22 <= screen.1
            &&& forall|i: int|
                0 <= i < placed.len() ==> !(-28 < c.x - (#[trigger] placed[i]).badge_x < 28 && -22
                    < c.y - placed[i].badge_y < 22)
        },
{
    let c = place::candidate(r, j);
    if c.clear(placed) {
        assert forall|i: int| 0 <= i < placed.len() implies !(-28 < c.x - (
        #[trigger] placed[i]).badge_x < 28 && -22 < c.y - placed[i].badge_y < 22) by {
            assert(!c.overlaps(placed[i]));
        }
    }
    if forall|i: int|
        0 <= i < placed.len() ==> !(-28 < c.x - (#[trigger] placed[i]).badge_x < 28 && -22 < c.y
            - placed[i].badge_y < 22) {
        assert forall|i: int| 0 <= i < placed.len() implies !c.overlaps(#[trigger] placed[i]) by {}
    }
}

/// A placement is the badge's corner and the centre of its own target.
pub proof fn a_placement_keeps_badge_and_click_apart(s: Spot, r: Rect)
    requires
        -0x8000_0000 <= s.x <= 0x7fff_ffff,
        -0x8000_0000 <= s.y <= 0x7fff_ffff,
        -0x8000_0000 <= r.middle_x() <= 0x7fff_ffff,
        -0x8000_0000 <= r.middle_y() <= 0x7fff_ffff,
    ensures
        s.placement(r).badge_x == s.x && s.placement(r).badge_y == s.y,
        s.placement(r).click_x == r.middle_x() && s.placement(r).click_y == r.middle_y(),
        s.placement(r).side == s.side,
{
}

/// What is to be placed is given as its corner, then its size.
pub proof fn a_box_is_corner_and_size(x: i32, y: i32, w: i32, h: i32)
    ensures
        place::boxed((x, y, w, h)).x == x,
        place::boxed((x, y, w, h)).y == y,
        place::boxed((x, y, w, h)).w == w,
        place::boxed((x, y, w, h)).h == h,
{
}

} // verus!
