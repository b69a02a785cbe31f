use muvor::a11y::filter::{bounds_ok, keep, prefer, same_spot, Reject};
use muvor::a11y::role::{Role, State, StateSet};
use muvor::a11y::target::WindowRect;

fn frame() -> Option<WindowRect> {
    Some(WindowRect::new(0, 0, 1920, 1048))
}

fn states(list: &[State]) -> StateSet {
    let mut s = StateSet::empty();
    for st in list {
        s.insert(*st);
    }
    s
}

fn good() -> StateSet {
    states(&[State::Visible, State::Showing, State::Sensitive])
}

#[test]
fn a_plain_button_is_a_target() {
    assert_eq!(keep(Role::Button, good(), WindowRect::new(40, 20, 90, 34), frame()), Ok(()));
}

#[test]
fn negative_one_page_tab_is_rejected() {
    assert_eq!(
        keep(Role::PageTab, good(), WindowRect::new(-1, -1, -1, -1), frame()),
        Err(Reject::Degenerate)
    );
}

#[test]
fn int32_min_sentinel_is_rejected() {
    assert_eq!(
        keep(Role::ToggleButton, good(), WindowRect::new(i32::MIN, i32::MIN, 36, 46), frame()),
        Err(Reject::Degenerate)
    );
}

#[test]
fn sentinel_rect_does_not_overflow_on_the_way_to_rejection() {
    let r = WindowRect::new(i32::MIN, i32::MIN, i32::MAX, i32::MAX);
    assert!(bounds_ok(r, frame()).is_err());
    assert_eq!(r.area(), i64::from(i32::MAX) * i64::from(i32::MAX));
}

#[test]
fn each_state_bit_is_load_bearing() {
    let r = WindowRect::new(40, 20, 90, 34);
    for (missing, expect) in [
        (State::Visible, Reject::NotVisible),
        (State::Showing, Reject::NotShowing),
        (State::Sensitive, Reject::Insensitive),
    ] {
        let mut s = good();
        s.remove(missing);
        assert_eq!(keep(Role::Button, s, r, frame()), Err(expect), "{missing:?}");
    }
}

#[test]
fn a_container_the_size_of_the_window_is_not_a_target() {
    assert_eq!(
        keep(Role::ListItem, good(), WindowRect::new(0, 0, 1920, 1048), frame()),
        Err(Reject::Container)
    );
}

#[test]
fn a_row_scrolled_out_of_the_viewport_is_not_a_target() {
    assert_eq!(
        keep(Role::ListItem, good(), WindowRect::new(10, -400, 800, 40), frame()),
        Err(Reject::OffFrame)
    );
}

#[test]
fn a_half_scrolled_row_is_still_a_target() {
    assert_eq!(keep(Role::ListItem, good(), WindowRect::new(10, -10, 800, 40), frame()), Ok(()));
}

#[test]
fn without_a_trustworthy_clip_the_boundary_tests_are_skipped() {
    let activities = WindowRect::new(0, 55, 99, 56);
    let stage = Some(WindowRect::new(0, 55, 99, 56));
    let elsewhere = WindowRect::new(900, 400, 120, 40);
    assert_eq!(keep(Role::ToggleButton, good(), elsewhere, stage), Err(Reject::OffFrame));
    assert_eq!(keep(Role::ToggleButton, good(), elsewhere, None), Ok(()));
    assert_eq!(keep(Role::ToggleButton, good(), WindowRect::new(-1, -1, -1, -1), None), Err(Reject::Degenerate));
    assert_eq!(keep(Role::ToggleButton, good(), activities, None), Ok(()));
}

#[test]
fn two_targets_on_one_pixel_are_one_target() {
    let a = WindowRect::new(174, 0, 34, 34);
    let b = WindowRect::new(174, 0, 34, 34);
    let c = WindowRect::new(1028, 0, 24, 34);
    let d = WindowRect::new(1029, 0, 23, 34);
    let far = WindowRect::new(995, 0, 34, 34);
    assert!(same_spot(a, b), "identical bounds");
    assert!(same_spot(c, d), "a pixel apart is the same spot");
    assert!(!same_spot(c, far), "34 px apart is not");
}

#[test]
fn the_tighter_box_wins_a_tie() {
    let big = (WindowRect::new(0, 0, 40, 40), Role::Button, "/a");
    let small = (WindowRect::new(2, 2, 36, 36), Role::ToggleButton, "/b");
    assert_eq!(prefer(small, big), std::cmp::Ordering::Less);
    let x = (WindowRect::new(0, 0, 40, 40), Role::Button, "/a");
    let y = (WindowRect::new(0, 0, 40, 40), Role::Button, "/b");
    assert_eq!(prefer(x, y), std::cmp::Ordering::Less);
}

#[test]
fn unknown_roles_are_not_guessed_at() {
    assert_eq!(keep(Role::Filler, good(), WindowRect::new(40, 20, 90, 34), frame()), Err(Reject::Role));
    assert_eq!(keep(Role::Panel, good(), WindowRect::new(40, 20, 90, 34), frame()), Err(Reject::Role));
}
