use muvor::detect::Rect;
use muvor::free::{Dir, Free, Nanos, Params};

fn screen() -> Rect {
    Rect::new(0, 0, 1920, 1080)
}

const QUICK: Nanos = 20_000_000;
const SLOW: Nanos = 1_000_000_000;

fn at(x: i32, y: i32) -> Free {
    Free::new((x, y), screen(), Params::default())
}

#[test]
fn hjkl_are_the_four_directions_and_nothing_else_is() {
    assert_eq!(Dir::from_key('k'), Some(Dir::Up));
    assert_eq!(Dir::from_key('j'), Some(Dir::Down));
    assert_eq!(Dir::from_key('h'), Some(Dir::Left));
    assert_eq!(Dir::from_key('l'), Some(Dir::Right));
    for c in ['i', 'a', ' ', 'K', '\n'] {
        assert_eq!(Dir::from_key(c), None, "{c:?} is not a direction");
    }
}

#[test]
fn one_press_moves_by_the_base_step() {
    let mut f = at(500, 500);
    assert_eq!(f.nudge(Dir::Right, QUICK), (508, 500));
    assert_eq!(f.pos(), (508, 500));
}

#[test]
fn each_direction_goes_the_way_it_says() {
    assert_eq!(at(500, 500).nudge(Dir::Up, QUICK), (500, 492));
    assert_eq!(at(500, 500).nudge(Dir::Down, QUICK), (500, 508));
    assert_eq!(at(500, 500).nudge(Dir::Left, QUICK), (492, 500));
    assert_eq!(at(500, 500).nudge(Dir::Right, QUICK), (508, 500));
}

#[test]
fn consecutive_presses_accelerate() {
    let mut f = at(0, 500);
    let xs: Vec<i32> = (0..5).map(|_| f.nudge(Dir::Right, QUICK).0).collect();
    let steps: Vec<i32> = xs.windows(2).map(|w| w[1] - w[0]).collect();
    assert_eq!(xs[0], 8, "the first press is always the base step");
    assert!(
        steps.windows(2).all(|w| w[1] > w[0]),
        "steps should grow monotonically, got {steps:?}"
    );
}

#[test]
fn a_change_of_direction_resets_the_run() {
    let mut f = at(900, 500);
    for _ in 0..6 {
        f.nudge(Dir::Right, QUICK);
    }
    let before = f.pos();
    let after = f.nudge(Dir::Left, QUICK);
    assert_eq!(before.0 - after.0, Params::default().base);
}

#[test]
fn a_pause_resets_the_run() {
    let mut f = at(900, 500);
    for _ in 0..6 {
        f.nudge(Dir::Right, QUICK);
    }
    let before = f.pos();
    let after = f.nudge(Dir::Right, SLOW);
    assert_eq!(
        after.0 - before.0,
        Params::default().base,
        "a deliberate tap after a pause must be precise however fast the sweep was"
    );
}

#[test]
fn the_step_is_capped() {
    let mut f = at(0, 500);
    let mut last = 0;
    for _ in 0..40 {
        let x = f.nudge(Dir::Right, QUICK).0;
        assert!(x - last <= Params::default().cap, "step {} exceeded the cap", x - last);
        last = x;
    }
}

#[test]
fn free_the_pointer_cannot_leave_the_screen() {
    let mut f = at(10, 10);
    for _ in 0..60 {
        f.nudge(Dir::Left, QUICK);
        f.nudge(Dir::Up, QUICK);
    }
    assert_eq!(f.pos(), (0, 0));
    let mut f = at(1900, 1070);
    for _ in 0..60 {
        f.nudge(Dir::Right, QUICK);
        f.nudge(Dir::Down, QUICK);
    }
    assert_eq!(f.pos(), (1919, 1079), "the far edge is inside the screen, not one past it");
}

#[test]
fn free_a_starting_position_outside_the_screen_is_clamped() {
    let f = Free::new((5000, -20), screen(), Params::default());
    assert_eq!(f.pos(), (1919, 0));
}

#[test]
fn crossing_the_screen_takes_about_fourteen_presses() {
    let mut f = at(0, 500);
    let mut n = 0;
    while f.pos().0 < 1919 && n < 100 {
        f.nudge(Dir::Right, QUICK);
        n += 1;
    }
    assert!((10..=18).contains(&n), "expected roughly fourteen presses, took {n}");
}

#[test]
fn next_step_agrees_with_what_nudge_actually_does() {
    let mut f = at(500, 500);
    for _ in 0..8 {
        let predicted = f.next_step(Dir::Right, QUICK);
        let before = f.pos().0;
        let after = f.nudge(Dir::Right, QUICK).0;
        assert_eq!(after - before, predicted, "next_step must not lie about the next step");
    }
}
