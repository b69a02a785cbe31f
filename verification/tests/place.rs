use muvor::place::{
    collides, on_side, place, place_all, Placement, Side, BADGE_H, BADGE_W, GAP_MAX,
};

#[test]
fn a_packed_toolbar_never_draws_two_badges_in_one_place() {
    let row: Vec<(i32, i32, i32, i32)> =
        (0..6).map(|i| (900 + i * 35, 0, 34, 34)).collect();
    let placed = place_all(&row, (1920, 1080));

    assert_eq!(placed.len(), 6);
    for (i, a) in placed.iter().enumerate() {
        for (j, b) in placed.iter().enumerate() {
            assert!(i == j || !collides(a, b), "badge {i} overlaps badge {j}");
        }
    }
}

#[test]
fn moving_the_badge_never_moves_the_click_outside_its_target() {
    let row: Vec<(i32, i32, i32, i32)> =
        (0..8).map(|i| (100 + i * 36, 300, 34, 34)).collect();
    for (p, &(x, y, w, h)) in place_all(&row, (1920, 1080)).iter().zip(&row) {
        assert!(p.click_x >= x && p.click_x <= x + w, "{:?} escaped in x", p.side);
        assert!(p.click_y >= y && p.click_y <= y + h, "{:?} escaped in y", p.side);
    }
}

#[test]
fn a_badge_is_never_drawn_off_the_screen() {
    let corners = [(0, 0, 30, 30), (1890, 0, 30, 30), (0, 1050, 30, 30), (1890, 1050, 30, 30)];
    for p in place_all(&corners, (1920, 1080)) {
        assert!(p.badge_x >= 0 && p.badge_y >= 0, "{p:?} is off the top-left");
        assert!(p.badge_x + BADGE_W <= 1920, "{p:?} is off the right");
        assert!(p.badge_y + BADGE_H <= 1080, "{p:?} is off the bottom");
    }
}

#[test]
fn placement_is_deterministic() {
    let set: Vec<(i32, i32, i32, i32)> =
        (0..12).map(|i| (200 + i * 30, 40 + (i % 3) * 20, 34, 34)).collect();
    assert_eq!(place_all(&set, (1920, 1080)), place_all(&set, (1920, 1080)));
}

#[test]
fn the_badge_clears_the_button_it_labels() {
    let p = place(6, 0, 36, 46, true);
    assert_eq!(p.click(), (24, 23));
    let (bx, _, bw, _) = p.badge();
    assert_eq!(bx + bw - 6, 8, "only the inset overlaps the target");
}

#[test]
fn the_click_is_the_centre_whichever_side_the_badge_took() {
    let centre = (120, 120);

    let left = place(100, 100, 40, 40, true);
    assert_eq!(left.side, Side::Left);
    assert_eq!(left.click(), centre);

    let right = place(100, 100, 40, 40, false);
    assert_eq!(right.side, Side::Right);
    assert_eq!(right.click(), centre);

    for side in Side::PREFERENCE {
        assert_eq!(on_side(100, 100, 40, 40, side).click(), centre, "{side:?}");
    }

    assert_ne!(left.badge_x, right.badge_x);
    assert_eq!(left.badge_y, right.badge_y);
}

#[test]
fn a_narrow_target_is_still_clicked_inside_itself() {
    let p = place(50, 50, 6, 20, true);
    assert!(p.click_x > 50 && p.click_x < 56, "{} is outside 50..56", p.click_x);
    assert_eq!(p.badge_x + BADGE_W, 53, "the badge stops at the middle");
    let q = place(50, 50, 6, 20, false);
    assert!(q.click_x > 50 && q.click_x < 56, "{} is outside 50..56", q.click_x);
    assert_eq!(q.badge_x, 53, "the badge starts at the middle");
}

#[test]
fn a_zero_width_target_does_not_divide_by_zero() {
    let p = place(10, 10, 0, 0, true);
    assert_eq!(p.click(), (10, 10));
}

fn gap_to_dot(p: &Placement) -> i32 {
    let dx = (p.badge_x - p.click_x).max(p.click_x - (p.badge_x + BADGE_W)).max(0);
    let dy = (p.badge_y - p.click_y).max(p.click_y - (p.badge_y + BADGE_H)).max(0);
    dx.max(dy)
}

#[test]
fn d11s_centre_target_is_labelled_beside_its_own_dot() {
    let placed = place_all(&[(1, 81, 1917, 997)], (1920, 1080));
    let p = placed[0];

    assert_eq!(p.click(), (959, 579), "the click did not move — it never does");
    assert!(gap_to_dot(&p) <= GAP_MAX, "{p:?} is {} px from its dot", gap_to_dot(&p));

    assert_eq!(p.side, Side::Left);
    assert_eq!((p.badge_x, p.badge_y), (921, 568));
}

#[test]
fn no_badge_is_ever_far_from_the_dot_it_labels() {
    for w in [6, 20, 34, 36, 120, 400, 892, 1917] {
        for h in [6, 22, 34, 46, 300, 997] {
            let placed = place_all(&[(4, 4, w, h)], (1920, 1080));
            let g = gap_to_dot(&placed[0]);
            assert!(g <= GAP_MAX, "{w}x{h}: badge sits {g} px from its dot ({:?})", placed[0]);
        }
    }
}

#[test]
fn small_targets_kept_the_placement_they_were_measured_with() {
    let p = place(6, 0, 36, 46, true);
    assert_eq!((p.badge_x, p.badge_y), (-14, 12));

    let q = place(900, 0, 34, 34, true);
    assert_eq!((q.badge_x, q.badge_y), (880, 6));
    assert_eq!(on_side(900, 0, 34, 34, Side::Above).badge_y, -14);
    assert_eq!(on_side(900, 0, 34, 34, Side::Below).badge_y, 26);

    assert_eq!(place(0, 0, 30, 30, false).badge_x, 22);
}

#[test]
fn targets_that_share_a_centre_still_get_badges_of_their_own() {
    let nested: Vec<(i32, i32, i32, i32)> =
        (1..=5).map(|k| (300 - k * 50, 300 - k * 50, k * 100, k * 100)).collect();
    let placed = place_all(&nested, (1920, 1080));

    for p in &placed {
        assert_eq!(p.click(), (300, 300), "every one of them clicks the same point");
    }
    for (i, a) in placed.iter().enumerate() {
        for (j, b) in placed.iter().enumerate() {
            assert!(i == j || !collides(a, b), "badge {i} overlaps badge {j}");
        }
    }
    assert_eq!(placed[0].side, Side::Left);
    assert_eq!(placed[1].side, Side::Right);
    for (i, p) in placed.iter().take(2).enumerate() {
        assert!(gap_to_dot(p) <= GAP_MAX, "badge {i} was pushed out unnecessarily");
    }
    for (i, p) in placed.iter().skip(2).enumerate() {
        assert!(gap_to_dot(p) > GAP_MAX, "badge {} did not need the outer ring", i + 2);
    }
}

#[test]
fn the_badge_is_where_the_shell_would_centre_it() {
    let p = place(200, 80, 60, 30, true);
    let (bx, by, bw, bh) = p.badge();
    assert_eq!(bx + bw / 2 - BADGE_W / 2, bx);
    assert_eq!(by + bh / 2 - BADGE_H / 2, by);
}
