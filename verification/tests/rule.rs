use muvor::a11y::role::{Role, State, StateSet};
use muvor::a11y::rule::{actionable, role_mask, state_bits, ROLE_BITS};

#[test]
fn rust_role_discriminants_are_the_wire_numbers() {
    for (role, wire) in [
        (Role::Button, 43u32),
        (Role::ToggleButton, 62),
        (Role::PageTab, 37),
        (Role::Entry, 79),
        (Role::Link, 88),
        (Role::MenuItem, 35),
        (Role::CheckBox, 7),
        (Role::ListItem, 32),
        (Role::TreeItem, 91),
        (Role::ComboBox, 11),
        (Role::RadioButton, 44),
        (Role::Slider, 51),
        (Role::SpinButton, 52),
        (Role::PasswordText, 40),
    ] {
        assert_eq!(role.to_u32(), wire, "{role:?}");
    }
}

#[test]
fn known_good_mask_from_the_wire() {
    let roles = [Role::Button, Role::ToggleButton, Role::PageTab, Role::Entry];
    assert_eq!(role_mask(&roles), vec![0, 1_073_743_904, 32_768, 0]);
}

#[test]
fn roles_past_the_mask_are_dropped_not_wrapped() {
    assert!(Role::PushButtonMenu.to_u32() >= ROLE_BITS);
    assert_eq!(role_mask(&[Role::PushButtonMenu]), vec![0, 0, 0, 0]);
}

#[test]
fn state_bits_match_the_wire() {
    let mut set = StateSet::empty();
    for state in [State::Visible, State::Showing, State::Sensitive] {
        set.insert(state);
    }
    assert_eq!(state_bits(set), vec![0x4300_0000, 0]);
}

#[test]
fn no_criterion_is_left_invalid() {
    let (_, smt, _, amt, _, rmt, _, imt, invert) = actionable();
    for mt in [smt, amt, rmt, imt] {
        assert_ne!(mt, 0, "MatchType::Invalid matches nothing, even when the set is empty");
    }
    assert!(!invert);
}
