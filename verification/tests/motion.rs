use muvor::detect::Rect;
use muvor::free::{Dir, Nanos};
use muvor::motion::{Button, Cmd, Ev, Key, Motion, Params};

fn secs(n: Nanos) -> f64 {
    n as f64 / 1e9
}

fn screen() -> Rect {
    Rect::new(0, 0, 1920, 1080)
}


fn at(x: i32, y: i32) -> Motion {
    Motion::new((x, y), screen(), Params::default())
}

fn down(m: &mut Motion, k: Key) -> Vec<Cmd> {
    m.event(Ev::Down(k))
}
fn up(m: &mut Motion, k: Key) -> Vec<Cmd> {
    m.event(Ev::Up(k))
}
fn base_step() -> i32 {
    Params::default().fast_steps[0]
}

fn tick(m: &mut Motion) -> Vec<Cmd> {
    m.event(Ev::Tick)
}

#[test]
fn the_keymap_is_the_one_in_the_table() {
    for (name, key) in [
        ("h", Key::Move(Dir::Left)),
        ("j", Key::Move(Dir::Down)),
        ("k", Key::Move(Dir::Up)),
        ("l", Key::Move(Dir::Right)),
        ("s", Key::Fast),
        ("f", Key::LeftButton),
        ("d", Key::DoubleClick),
        ("g", Key::TripleClick),
        ("a", Key::Wheel),
        ("r", Key::RightClick),
        ("Tab", Key::Leave),
        ("Escape", Key::Leave),
    ] {
        assert_eq!(Key::from_name(name), Some(key), "{name}");
    }
}

#[test]
fn right_alt_is_two_names_and_both_leave() {
    assert_eq!(Key::from_name("Alt_R"), Some(Key::Leave));
    assert_eq!(Key::from_name("ISO_Level3_Shift"), Some(Key::Leave));
}

#[test]
fn a_key_with_no_meaning_is_ignored_rather_than_refused() {
    for name in ["q", "F5", "Shift_L", "b", "1", ""] {
        assert_eq!(Key::from_name(name), None, "{name}");
    }
}

#[test]
fn a_tap_moves_exactly_the_slow_step() {
    let step = Params::default().slow_step;
    let mut m = at(500, 500);
    assert_eq!(down(&mut m, Key::Move(Dir::Right)), vec![Cmd::MoveTo(500 + step, 500)]);
    assert_eq!(m.pos(), (500 + step, 500));
}

#[test]
fn each_direction_goes_the_way_vim_says() {
    let n = Params::default().slow_step;
    for (dir, want) in [
        (Dir::Left, (500 - n, 500)),
        (Dir::Down, (500, 500 + n)),
        (Dir::Up, (500, 500 - n)),
        (Dir::Right, (500 + n, 500)),
    ] {
        let mut m = at(500, 500);
        down(&mut m, Key::Move(dir));
        assert_eq!(m.pos(), want, "{dir:?}");
    }
}

#[test]
fn the_slow_speed_does_not_accelerate() {
    let mut m = at(500, 500);
    down(&mut m, Key::Move(Dir::Right));
    let mut last = m.pos().0;
    for _ in 0..40 {
        tick(&mut m);
        assert_eq!(m.pos().0 - last, Params::default().slow_step);
        last = m.pos().0;
    }
}

#[test]
fn fast_ramps_up_and_stops_at_the_cap() {
    let mut m = at(0, 500);
    down(&mut m, Key::Fast);
    down(&mut m, Key::Move(Dir::Right));
    let mut steps = Vec::new();
    let mut last = m.pos().0;
    for _ in 0..80 {
        tick(&mut m);
        steps.push(m.pos().0 - last);
        last = m.pos().0;
    }
    let base = Params::default().fast_steps[0];
    assert_eq!(steps[0], base, "the first fast tick is the base step, not the cap");
    assert!(steps.windows(2).take(30).all(|w| w[1] >= w[0]), "must grow: {steps:?}");
    let cap = Params::default().fast_steps[Params::default().fast_steps.len() - 1];
    assert!(steps.iter().all(|&s| s <= cap), "nothing may exceed the cap: {steps:?}");
    assert_eq!(*steps.last().unwrap(), cap, "and it must actually reach it");
}

#[test]
fn fast_crosses_the_screen_in_about_one_and_a_half_seconds() {
    let mut m = at(0, 500);
    down(&mut m, Key::Fast);
    down(&mut m, Key::Move(Dir::Right));
    let mut ticks = 0;
    while m.pos().0 < 1919 && ticks < 1000 {
        tick(&mut m);
        ticks += 1;
    }
    let secs = ticks as f64 * secs(Params::default().tick);
    assert!((1.0..=2.2).contains(&secs), "expected ~1.6 s, took {secs:.2} s");
}

#[test]
fn letting_go_of_s_resets_the_ramp() {
    let mut m = at(0, 500);
    down(&mut m, Key::Fast);
    down(&mut m, Key::Move(Dir::Right));
    for _ in 0..20 {
        tick(&mut m);
    }
    up(&mut m, Key::Fast);
    let before = m.pos().0;
    tick(&mut m);
    assert_eq!(m.pos().0 - before, Params::default().slow_step, "slow again, immediately");
    down(&mut m, Key::Fast);
    let before = m.pos().0;
    tick(&mut m);
    assert_eq!(m.pos().0 - before, base_step(), "and fast starts over from the base");
}

#[test]
fn a_new_direction_resets_the_ramp() {
    let mut m = at(900, 500);
    down(&mut m, Key::Fast);
    down(&mut m, Key::Move(Dir::Right));
    for _ in 0..20 {
        tick(&mut m);
    }
    up(&mut m, Key::Move(Dir::Right));
    let before = m.pos().0;
    down(&mut m, Key::Move(Dir::Left));
    assert_eq!(
        before - m.pos().0,
        base_step(),
        "turning round must be precise again at once"
    );
}

#[test]
fn a_diagonal_is_one_move_and_the_fast_step_is_still_scaled() {
    let mut m = at(500, 500);
    down(&mut m, Key::Move(Dir::Right));
    down(&mut m, Key::Move(Dir::Down));
    let before = m.pos();
    let cmds = tick(&mut m);
    assert_eq!(cmds.len(), 1, "one MOVE_ABS however many keys are held: {cmds:?}");
    let (dx, dy) = (m.pos().0 - before.0, m.pos().1 - before.1);
    let slow = Params::default().slow_step;
    assert_eq!((dx, dy), (slow.max(1), slow.max(1)), "the floor is one pixel, on both axes");

    let mut straight = at(500, 500);
    down(&mut straight, Key::Fast);
    down(&mut straight, Key::Move(Dir::Right));
    let from = straight.pos().0;
    tick(&mut straight);
    let one_axis = straight.pos().0 - from;

    let mut diag = at(500, 500);
    down(&mut diag, Key::Fast);
    down(&mut diag, Key::Move(Dir::Right));
    down(&mut diag, Key::Move(Dir::Down));
    let from = diag.pos().0;
    tick(&mut diag);
    let both_axes = diag.pos().0 - from;
    assert!(
        both_axes < one_axis,
        "a fast diagonal must be scaled: {both_axes} px per axis vs {one_axis} straight"
    );
}

#[test]
fn opposite_directions_cancel_rather_than_arguing() {
    let mut m = at(500, 500);
    down(&mut m, Key::Move(Dir::Left));
    down(&mut m, Key::Move(Dir::Right));
    assert_eq!(tick(&mut m), vec![], "nothing is being asked for");
}

#[test]
fn an_idle_tick_costs_nothing() {
    let mut m = at(500, 500);
    assert_eq!(m.wants_tick(), None);
    for _ in 0..100 {
        assert_eq!(tick(&mut m), vec![]);
    }
    assert_eq!(m.pos(), (500, 500));
    down(&mut m, Key::Move(Dir::Right));
    assert_eq!(m.wants_tick(), Some(Params::default().tick));
    up(&mut m, Key::Move(Dir::Right));
    assert_eq!(m.wants_tick(), None, "and it goes back to sleep");
}

#[test]
fn a_repeated_press_is_not_a_second_press() {
    for (key, first) in [
        (Key::DoubleClick, Cmd::Click { button: Button::Left, times: 2 }),
        (Key::TripleClick, Cmd::Click { button: Button::Left, times: 3 }),
        (Key::RightClick, Cmd::Click { button: Button::Right, times: 1 }),
    ] {
        let mut m = at(500, 500);
        assert_eq!(m.event(Ev::Down(key)), vec![first], "{key:?} on the press");
        for n in 0..30 {
            assert_eq!(
                m.event(Ev::Down(key)),
                vec![],
                "{key:?} repeat {n} clicked again"
            );
        }
        m.event(Ev::Up(key));
        assert_eq!(m.event(Ev::Down(key)), vec![first], "{key:?} after a release");
    }
}

#[test]
fn a_repeated_s_does_not_pin_the_ramp() {
    let mut m = at(500, 500);
    down(&mut m, Key::Fast);
    down(&mut m, Key::Move(Dir::Right));
    for _ in 0..20 {
        tick(&mut m);
        m.event(Ev::Down(Key::Fast));
        m.event(Ev::Down(Key::Move(Dir::Right)));
    }
    let (x, _) = m.pos();
    let pinned = 20 * Params::default().fast_steps[0];
    assert!(
        x - 500 > pinned,
        "the sweep never accelerated: {} px in 20 ticks, pinned would be {pinned}",
        x - 500
    );
}

#[test]
fn f_is_the_button_so_a_tap_is_a_click() {
    let mut m = at(500, 500);
    assert_eq!(down(&mut m, Key::LeftButton), vec![Cmd::Press(Button::Left)]);
    assert!(m.dragging());
    assert_eq!(up(&mut m, Key::LeftButton), vec![Cmd::Release(Button::Left)]);
    assert!(!m.dragging());
}

#[test]
fn holding_f_and_moving_is_a_drag_with_real_intermediate_motion() {
    let mut m = at(100, 100);
    down(&mut m, Key::LeftButton);
    down(&mut m, Key::Move(Dir::Right));
    let mut moves = 0;
    for _ in 0..10 {
        moves += tick(&mut m).iter().filter(|c| matches!(c, Cmd::MoveTo(..))).count();
    }
    assert_eq!(moves, 10, "every tick of a drag is a position the app can see");
    assert!(m.dragging(), "and the button was down for all of them");
    assert_eq!(up(&mut m, Key::LeftButton), vec![Cmd::Release(Button::Left)]);
}

#[test]
fn s_works_during_a_drag_because_it_only_changes_the_step() {
    let mut m = at(100, 100);
    down(&mut m, Key::LeftButton);
    down(&mut m, Key::Fast);
    down(&mut m, Key::Move(Dir::Right));
    let before = m.pos().0;
    tick(&mut m);
    assert_eq!(m.pos().0 - before, base_step());
    assert!(m.dragging());
}

#[test]
fn the_click_keys_send_the_button_and_the_count() {
    for (key, want) in [
        (Key::DoubleClick, Cmd::Click { button: Button::Left, times: 2 }),
        (Key::TripleClick, Cmd::Click { button: Button::Left, times: 3 }),
        (Key::RightClick, Cmd::Click { button: Button::Right, times: 1 }),
    ] {
        let mut m = at(500, 500);
        assert_eq!(down(&mut m, key), vec![want], "{key:?}");
    }
}

#[test]
fn tapping_a_is_a_wheel_click() {
    let mut m = at(500, 500);
    assert_eq!(down(&mut m, Key::Wheel), vec![]);
    assert!(m.scrolling());
    assert_eq!(up(&mut m, Key::Wheel), vec![Cmd::Click { button: Button::Middle, times: 1 }]);
    assert!(!m.scrolling());
}

#[test]
fn holding_a_turns_hjkl_into_the_wheel() {
    for (dir, want) in [
        (Dir::Up, Cmd::Scroll { v: 1, h: 0 }),
        (Dir::Down, Cmd::Scroll { v: -1, h: 0 }),
        (Dir::Right, Cmd::Scroll { v: 0, h: 1 }),
        (Dir::Left, Cmd::Scroll { v: 0, h: -1 }),
    ] {
        let mut m = at(500, 500);
        down(&mut m, Key::Wheel);
        assert_eq!(down(&mut m, Key::Move(dir)), vec![want], "{dir:?}");
        assert_eq!(m.pos(), (500, 500), "scrolling does not move the pointer");
    }
}

#[test]
fn a_wheel_that_was_turned_does_not_click_when_it_is_let_go() {
    let mut m = at(500, 500);
    down(&mut m, Key::Wheel);
    down(&mut m, Key::Move(Dir::Down));
    up(&mut m, Key::Move(Dir::Down));
    assert_eq!(up(&mut m, Key::Wheel), vec![], "it was turned, so it is not a click");
}

#[test]
fn a_held_direction_repeats_notches_slower_than_it_moves() {
    let mut m = at(500, 500);
    down(&mut m, Key::Wheel);
    down(&mut m, Key::Move(Dir::Down));
    let p = Params::default();
    let mut notches = 0;
    for _ in 0..p.scroll_slow_ticks * 10 {
        notches += tick(&mut m).len();
    }
    assert_eq!(notches, 10, "expected the slow scroll rate");
    let per_sec = 1.0 / (secs(p.tick) * f64::from(p.scroll_slow_ticks));
    assert!((per_sec - 7.5).abs() < 0.3, "slow scroll is {per_sec:.2} notches/s");
    assert_eq!(m.pos(), (500, 500));
}

#[test]
fn s_makes_the_wheel_spin() {
    let mut m = at(500, 500);
    down(&mut m, Key::Wheel);
    down(&mut m, Key::Fast);
    down(&mut m, Key::Move(Dir::Down));
    let p = Params::default();
    let mut notches = 0;
    for _ in 0..p.scroll_fast_ticks * 20 {
        notches += tick(&mut m).len();
    }
    assert_eq!(notches, 20, "expected the fast scroll rate");
    let per_sec = 1.0 / (secs(p.tick) * f64::from(p.scroll_fast_ticks));
    assert!((per_sec - 30.0).abs() < 1.0, "fast scroll is {per_sec:.2} notches/s");
    assert!(p.scroll_fast_ticks < p.scroll_slow_ticks, "and it must be the faster one");
}

#[test]
fn letting_go_of_a_hands_the_keys_back_to_the_pointer() {
    let mut m = at(500, 500);
    down(&mut m, Key::Wheel);
    down(&mut m, Key::Move(Dir::Right));
    tick(&mut m);
    assert_eq!(m.pos(), (500, 500));
    up(&mut m, Key::Wheel);
    let before = m.pos().0;
    tick(&mut m);
    assert!(m.pos().0 > before, "the direction key goes back to moving the pointer");
}

#[test]
fn pressing_a_mid_sweep_stops_the_pointer_and_starts_scrolling() {
    let mut m = at(500, 500);
    down(&mut m, Key::Move(Dir::Down));
    tick(&mut m);
    let stopped_at = m.pos();
    down(&mut m, Key::Wheel);
    for _ in 0..8 {
        tick(&mut m);
    }
    assert_eq!(m.pos(), stopped_at, "the pointer stays where the wheel took over");
}

#[test]
fn leaving_with_the_wheel_held_does_not_click() {
    let mut m = at(500, 500);
    down(&mut m, Key::Wheel);
    assert_eq!(down(&mut m, Key::Leave), vec![Cmd::Leave]);
}

#[test]
fn the_wheel_costs_no_move_abs_at_all() {
    let mut m = at(500, 500);
    down(&mut m, Key::Wheel);
    down(&mut m, Key::Fast);
    down(&mut m, Key::Move(Dir::Up));
    let mut cmds = Vec::new();
    for _ in 0..30 {
        cmds.extend(tick(&mut m));
    }
    assert!(
        cmds.iter().all(|c| matches!(c, Cmd::Scroll { .. })),
        "a scroll must not move the pointer: {cmds:?}"
    );
}

#[test]
fn leaving_mid_drag_releases_the_button_first() {
    let mut m = at(500, 500);
    down(&mut m, Key::LeftButton);
    assert_eq!(down(&mut m, Key::Leave), vec![Cmd::Release(Button::Left), Cmd::Leave]);
    assert!(m.finished());
    assert!(!m.dragging());
}

#[test]
fn the_deadman_path_releases_it_too() {
    let mut m = at(500, 500);
    down(&mut m, Key::LeftButton);
    assert_eq!(m.leave(), vec![Cmd::Release(Button::Left), Cmd::Leave]);
}

#[test]
fn a_drag_can_be_ended_from_outside_without_ending_the_mode() {
    let mut m = at(500, 500);
    down(&mut m, Key::LeftButton);
    assert_eq!(m.release_drag(), vec![Cmd::Release(Button::Left)]);
    assert!(!m.dragging());
    assert!(!m.finished(), "the mode is still the mode");
    assert_eq!(m.release_drag(), vec![], "and it does not release twice");
    assert_eq!(
        m.event(Ev::Down(Key::LeftButton)),
        vec![],
        "autorepeat re-pressed the button the dead-man had just released"
    );
    up(&mut m, Key::LeftButton);
    assert_eq!(down(&mut m, Key::LeftButton), vec![Cmd::Press(Button::Left)]);
    assert_eq!(up(&mut m, Key::LeftButton), vec![Cmd::Release(Button::Left)]);
}

#[test]
fn a_second_press_of_a_key_already_down_repairs_the_lost_release() {
    let mut m = at(500, 500);
    assert_eq!(
        down(&mut m, Key::DoubleClick),
        vec![Cmd::Click { button: Button::Left, times: 2 }]
    );
    assert_eq!(m.event(Ev::Down(Key::DoubleClick)), vec![], "the latch is still the default");
    assert_eq!(
        m.repress(Key::DoubleClick),
        vec![Cmd::Click { button: Button::Left, times: 2 }],
        "the repair is the click the user asked for"
    );
    assert_eq!(up(&mut m, Key::DoubleClick), vec![]);
    assert_eq!(
        down(&mut m, Key::DoubleClick),
        vec![Cmd::Click { button: Button::Left, times: 2 }]
    );
}

#[test]
fn repairing_f_lets_go_of_the_button_before_pressing_it_again() {
    let mut m = at(500, 500);
    assert_eq!(down(&mut m, Key::LeftButton), vec![Cmd::Press(Button::Left)]);
    assert!(m.dragging());
    assert_eq!(
        m.repress(Key::LeftButton),
        vec![Cmd::Release(Button::Left), Cmd::Press(Button::Left)]
    );
    assert!(m.dragging(), "and the new drag is a drag");
    assert_eq!(up(&mut m, Key::LeftButton), vec![Cmd::Release(Button::Left)]);
}

#[test]
fn a_lost_wheel_key_does_not_middle_click_on_the_way_out() {
    let mut m = at(500, 500);
    down(&mut m, Key::Wheel);
    assert_eq!(m.lost(Key::Wheel), vec![], "not a click: muvor lost it, the user did not");
    assert!(!m.scrolling(), "and the wheel is no longer held");
    let before = m.pos();
    down(&mut m, Key::Move(Dir::Right));
    assert_ne!(m.pos(), before);
}

#[test]
fn a_lost_f_lets_go_of_the_left_button() {
    let mut m = at(500, 500);
    down(&mut m, Key::LeftButton);
    assert!(m.dragging());
    assert_eq!(m.lost(Key::LeftButton), vec![Cmd::Release(Button::Left)]);
    assert!(!m.dragging());
    assert!(!m.is_down(Key::LeftButton), "and the machine stops believing it is held");
}

#[test]
fn losing_a_key_that_is_not_held_does_nothing() {
    let mut m = at(500, 500);
    assert_eq!(m.lost(Key::LeftButton), vec![]);
    assert_eq!(m.lost(Key::Wheel), vec![]);
    assert!(!m.scrolling(), "and it did not switch the wheel on to switch it off");
}

#[test]
fn repairing_the_wheel_does_not_middle_click() {
    let mut m = at(500, 500);
    down(&mut m, Key::Wheel);
    assert_eq!(m.repress(Key::Wheel), vec![], "a repair must not click");
    assert!(m.scrolling(), "and `a` is held again");
    assert_eq!(
        up(&mut m, Key::Wheel),
        vec![Cmd::Click { button: Button::Middle, times: 1 }]
    );
}

#[test]
fn a_repaired_direction_is_one_step_and_not_a_second_one() {
    let mut m = at(500, 500);
    let step = Params::default().slow_step;
    assert_eq!(down(&mut m, Key::Move(Dir::Right)), vec![Cmd::MoveTo(500 + step, 500)]);
    assert_eq!(m.repress(Key::Move(Dir::Right)), vec![Cmd::MoveTo(500 + 2 * step, 500)]);
    assert!(m.wants_tick().is_some(), "and it is still held, so it still sweeps");
    up(&mut m, Key::Move(Dir::Right));
    assert!(m.wants_tick().is_none());
}

#[test]
fn repressing_a_key_that_is_not_down_is_an_ordinary_press() {
    let mut m = at(500, 500);
    assert_eq!(
        m.repress(Key::RightClick),
        vec![Cmd::Click { button: Button::Right, times: 1 }]
    );
}

#[test]
fn nothing_is_repaired_after_the_mode_is_over() {
    let mut m = at(500, 500);
    down(&mut m, Key::LeftButton);
    m.leave();
    assert_eq!(m.repress(Key::LeftButton), vec![], "the mode is over");
}

#[test]
fn the_machine_says_which_keys_it_believes_are_down() {
    let mut m = at(500, 500);
    assert!(!m.is_down(Key::Fast));
    down(&mut m, Key::Fast);
    assert!(m.is_down(Key::Fast), "the driver's only way to spot a lost release");
    up(&mut m, Key::Fast);
    assert!(!m.is_down(Key::Fast));
}

#[test]
fn a_release_after_an_outside_release_sends_nothing() {
    let mut m = at(500, 500);
    down(&mut m, Key::LeftButton);
    m.release_drag();
    assert_eq!(up(&mut m, Key::LeftButton), vec![], "the button is already up");
}

#[test]
fn leaving_without_a_drag_just_leaves() {
    let mut m = at(500, 500);
    assert_eq!(down(&mut m, Key::Leave), vec![Cmd::Leave]);
}

#[test]
fn nothing_happens_after_the_mode_is_over() {
    let mut m = at(500, 500);
    m.leave();
    assert_eq!(down(&mut m, Key::Move(Dir::Right)), vec![]);
    assert_eq!(down(&mut m, Key::LeftButton), vec![]);
    assert_eq!(tick(&mut m), vec![]);
    assert_eq!(m.leave(), vec![], "and leaving twice does not release twice");
    assert_eq!(m.pos(), (500, 500));
}

#[test]
fn autorepeat_under_the_grab_does_not_double_the_press() {
    let mut m = at(500, 500);
    assert_eq!(down(&mut m, Key::LeftButton), vec![Cmd::Press(Button::Left)]);
    assert_eq!(down(&mut m, Key::LeftButton), vec![], "still one button, still down");
    down(&mut m, Key::Fast);
    down(&mut m, Key::Move(Dir::Right));
    for _ in 0..10 {
        tick(&mut m);
    }
    let before = m.pos().0;
    assert_eq!(down(&mut m, Key::Move(Dir::Right)), vec![], "a repeat is not a new press");
    assert_eq!(m.pos().0, before, "and it does not move on its own");
}

#[test]
fn a_release_of_a_key_that_was_never_pressed_is_harmless() {
    let mut m = at(500, 500);
    assert_eq!(up(&mut m, Key::Move(Dir::Left)), vec![]);
    assert_eq!(up(&mut m, Key::LeftButton), vec![]);
    assert_eq!(up(&mut m, Key::Fast), vec![]);
    assert_eq!(m.pos(), (500, 500));
}

#[test]
fn motion_the_pointer_cannot_leave_the_screen() {
    let mut m = at(10, 10);
    down(&mut m, Key::Fast);
    down(&mut m, Key::Move(Dir::Left));
    down(&mut m, Key::Move(Dir::Up));
    for _ in 0..200 {
        tick(&mut m);
    }
    assert_eq!(m.pos(), (0, 0));
    let mut m = at(1900, 1070);
    down(&mut m, Key::Fast);
    down(&mut m, Key::Move(Dir::Right));
    down(&mut m, Key::Move(Dir::Down));
    for _ in 0..200 {
        tick(&mut m);
    }
    assert_eq!(m.pos(), (1919, 1079), "the far edge is inside the screen");
}

#[test]
fn a_pointer_against_the_edge_stops_spending_requests() {
    let mut m = at(1919, 500);
    down(&mut m, Key::Move(Dir::Right));
    for _ in 0..30 {
        assert_eq!(tick(&mut m), vec![], "an unchanged position is not worth a request");
    }
}

#[test]
fn motion_a_starting_position_outside_the_screen_is_clamped() {
    let m = Motion::new((5000, -20), screen(), Params::default());
    assert_eq!(m.pos(), (1919, 0));
}
