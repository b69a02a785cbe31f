use muvor::a11y::filter::PASSIVE;
use muvor::a11y::role::Role;
use muvor::a11y::target::WindowRect;
use muvor::a11y::verify::{contains, Step, Verdict};

fn rect(x: i32, y: i32, w: i32, h: i32) -> WindowRect {
    WindowRect::new(x, y, w, h)
}

#[test]
fn containment_is_half_open() {
    let r = rect(10, 10, 100, 20);
    assert!(contains(&r, 10, 10));
    assert!(contains(&r, 109, 29));
    assert!(!contains(&r, 110, 20));
    assert!(!contains(&r, 9, 15));
}

#[test]
fn a_degenerate_rect_contains_nothing() {
    assert!(!contains(&rect(0, 0, 0, 0), 0, 0));
    assert!(!contains(&rect(i32::MIN, i32::MIN, 1, 1), 0, 0));
    assert!(!contains(&rect(0, 0, i32::MAX, i32::MAX), -1, -1));
}

#[test]
fn verdict_is_only_ok_when_it_says_so() {
    assert!(Verdict::Valid.is_ok());
    assert!(!Verdict::Gone("x".into()).is_ok());
    assert!(!Verdict::Changed("x".into()).is_ok());
    assert!(!Verdict::Covered(Step {
        role: Some(Role::Button),
        name: "Cancel".into(),
        path: "/p".into()
    })
    .is_ok());
    assert!(Verdict::Inside(Step {
        role: Some(Role::Label),
        name: "Videos".into(),
        path: "/p".into()
    })
    .is_ok());
}

#[test]
fn only_decoration_may_sit_between_a_claim_and_its_click_point() {
    for passive in [Role::Label, Role::Panel, Role::Image, Role::Static] {
        assert!(
            PASSIVE.contains(&passive),
            "{passive:?} is decoration; blocking it refuses a click that would work"
        );
    }
    for control in [Role::Button, Role::ToggleButton, Role::Link, Role::CheckBox] {
        assert!(
            !PASSIVE.contains(&control),
            "{control:?} earns its own hint and must block a click aimed past it"
        );
    }
    assert!(
        !PASSIVE.contains(&Role::Invalid),
        "an invalid role is the ghost popover, and must never be clicked through"
    );
}

#[test]
fn a_node_that_answers_nothing_is_not_decoration() {
    let silent: Option<Role> = None;
    assert!(!silent.is_some_and(|r| PASSIVE.contains(&r)));
}
