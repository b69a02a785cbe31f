use muvor::a11y::mirror::{AppTree, Node, WarmSource};
use muvor::a11y::role::{Role, State, StateSet};

fn good() -> StateSet {
    let mut s = StateSet::empty();
    s.insert(State::Visible);
    s.insert(State::Showing);
    s.insert(State::Sensitive);
    s
}

fn node(parent: &str, role: Role) -> Node {
    Node {
        parent: parent.to_owned(),
        role,
        name: String::new(),
        states: good(),
        has_component: true,
    }
}

fn tree() -> AppTree {
    let mut t = AppTree::new(WarmSource::Cache, 0);
    t.insert("/frame".into(), node("/root", Role::Frame));
    t.insert("/box".into(), node("/frame", Role::Panel));
    t.insert("/button".into(), node("/box", Role::Button));
    t.insert("/other-window".into(), node("/root", Role::Frame));
    t.insert("/other-button".into(), node("/other-window", Role::Button));
    t
}

#[test]
fn a_nested_button_is_a_candidate_of_its_frame() {
    let t = tree();
    let found = t.candidates("/frame");
    assert_eq!(found.len(), 1);
    assert_eq!(found[0].0, "/button");
}

#[test]
fn another_windows_button_is_not() {
    let t = tree();
    assert!(t.candidates("/frame").iter().all(|(p, _)| *p != "/other-button"));
    assert_eq!(t.candidates("/other-window").len(), 1);
}

#[test]
fn a_cycle_terminates_at_the_depth_limit() {
    let mut t = AppTree::new(WarmSource::Cache, 0);
    t.insert("/a".into(), node("/b", Role::Button));
    t.insert("/b".into(), node("/a", Role::Panel));
    assert!(!t.descends_from("/a", "/frame"));
    assert!(t.candidates("/frame").is_empty());
}

#[test]
fn a_state_change_removes_a_target_without_a_refetch() {
    let mut t = tree();
    assert_eq!(t.candidates("/frame").len(), 1);
    assert!(t.set_state("/button", State::Sensitive, false));
    assert!(t.candidates("/frame").is_empty(), "a greyed-out button is not a target");
    assert!(t.set_state("/button", State::Sensitive, true));
    assert_eq!(t.candidates("/frame").len(), 1);
}

#[test]
fn a_state_change_for_an_unknown_node_is_reported_not_invented() {
    let mut t = tree();
    assert!(!t.set_state("/never-seen", State::Showing, true));
    assert!(t.get("/never-seen").is_none());
}

#[test]
fn a_removed_node_stops_being_a_target() {
    let mut t = tree();
    t.remove("/button");
    assert!(t.candidates("/frame").is_empty());
}

#[test]
fn a_node_without_component_is_never_a_candidate() {
    let mut t = tree();
    let mut n = node("/box", Role::Button);
    n.has_component = false;
    t.insert("/no-bounds".into(), n);
    assert_eq!(t.candidates("/frame").len(), 1);
}
