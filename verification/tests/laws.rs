use std::cmp::Ordering;

use muvor::a11y::filter::{
    keep, prefer, role_is_actionable, role_is_passive, role_name_is_passive, Reject, ACTIONABLE,
    PASSIVE, PASSIVE_ROLE_NAMES,
};
use muvor::a11y::mirror::{AppTree, Node, WarmSource};
use muvor::a11y::role::{Role, State, StateSet};
use muvor::a11y::target::WindowRect;
use muvor::book::Book;
use muvor::detect::{bands, grid, targets_in, Fingerprint, Found, Params, Rect};
use muvor::free::Dir;
use muvor::label::{Alphabet, AlphabetError, Labels, Point, Progress};
use muvor::motion::{self, Cmd, Ev, Key, Motion};
use muvor::place::{collides, on_side, place, place_all, Side};
use muvor::uictl::wire::{HelloResponse, Op, CAP_BUTTONS, CAP_KEYBOARD, CAP_POINTER_ABS};

fn labelled() -> Labels {
    let points: Vec<Point> = (0..12).map(|i| Point::new(100 * i, 10)).collect();
    Labels::assign(Alphabet::default(), &points)
}

#[test]
fn labels_and_targets_look_each_other_up() {
    let l = labelled();
    for (label, target) in l.iter() {
        assert_eq!(l.target_of(label), Some(target));
        assert_eq!(l.label_of(target), Some(label));
    }
    assert_eq!(l.target_of("zz"), None);
    assert_eq!(l.label_of(12), None);
}

#[test]
fn two_targets_on_one_point_are_told_apart_by_their_order() {
    let l = Labels::assign(Alphabet::default(), &[Point::new(5, 5), Point::new(5, 5)]);
    assert_eq!(l.label_of(0), Some("aa"));
    assert_eq!(l.label_of(1), Some("as"));
}

#[test]
fn typing_can_start_over() {
    let l = labelled();
    let mut t = l.typing();
    assert_eq!(t.press('a'), Progress::Pending { matches: 10 });
    t.reset();
    assert_eq!((t.typed(), t.matches()), ("", 12));
    assert_eq!(t.press('s'), Progress::Pending { matches: 2 });
    assert_eq!(t.backspace(), Progress::Pending { matches: 12 });
}

#[test]
fn the_first_key_is_where_the_target_is() {
    let few = [Point::new(750, 10)];
    let many = [Point::new(10, 0), Point::new(740, 900), Point::new(750, 10), Point::new(20, 5)];
    let columns = |p: &[Point]| Labels::in_columns(Alphabet::default(), Alphabet::ranks(), p, 0, 1000);
    let first = |l: &Labels, i: usize| l.label_of(i).and_then(|s| s.chars().next());
    assert_eq!(first(&columns(&few), 0), Some('k'));
    assert_eq!(first(&columns(&many), 2), Some('k'));
}

#[test]
fn an_alphabet_says_what_is_wrong_with_it() {
    assert_eq!(AlphabetError::TooShort.describe(), "an alphabet needs at least 2 characters");
    assert_eq!(AlphabetError::Duplicate('x').describe(), "alphabet contains 'x' twice");
    let a = Alphabet::new("xyz").unwrap();
    assert_eq!((a.nth(0, 2), a.nth(5, 2), a.nth(8, 2)), ("xx".into(), "yz".into(), "zz".into()));
    assert_eq!((a.label_len(9), a.label_len(10)), (2, 3));
    assert_eq!((a.capacity(2), a.capacity(1000)), (9, usize::MAX));
    assert_eq!((a.index_of('z'), a.index_of('q')), (Some(2), None));
}

#[test]
fn a_fingerprint_is_as_far_from_another_as_the_other_is_from_it() {
    let (dark, light) = (vec![10u8; 64 * 64], vec![13u8; 64 * 64]);
    let r = Rect::new(0, 0, 64, 64);
    let a = Fingerprint::of(&dark, 64, r, (0, 0));
    let b = Fingerprint::of(&light, 64, r, (0, 0));
    assert_eq!((a.distance(&b).part, a.distance(&b).whole), (3 * 4096, 4096));
    assert_eq!(b.distance(&a).part, a.distance(&b).part);
    assert_eq!(a.distance(&a).part, 0);
}

#[test]
fn the_same_edges_give_the_same_items() {
    let p = Params { min_gap: 2, min_run: 1, ..Params::default() };
    let mut edge = vec![vec![false; 12]; 6];
    for y in 1..3 {
        for x in [1, 2, 7, 8, 9] {
            edge[y][x] = true;
        }
    }
    let block = Rect::new(100, 200, 12, 6);
    let items = vec![Rect::new(101, 201, 2, 2), Rect::new(107, 201, 3, 2)];
    assert_eq!(grid(block, &edge, p), items);
    assert_eq!(targets_in(block, &edge, p), (items, Found::Grid(2)));
    let blank = vec![vec![false; 12]; 6];
    assert_eq!(targets_in(block, &blank, p), (vec![block], Found::Single));
    assert_eq!(bands(&[0, 4, 4, 0, 0, 1], 2, 1), vec![(1, 3), (5, 6)]);
}

#[test]
fn the_default_sweep_is_the_one_of_its_curve() {
    let mut steps = Vec::new();
    let mut ramp = 2.667f32;
    while ramp < 13.333 {
        steps.push(ramp.round() as i32);
        ramp = (ramp * 1.046).min(13.333);
    }
    steps.push(ramp.round() as i32);
    let mine = motion::Params::default().fast_steps;
    let last = *mine.last().unwrap();
    for i in 0..steps.len().max(mine.len()) {
        assert_eq!(mine.get(i).unwrap_or(&last), steps.get(i).unwrap_or(&13), "tick {i}");
    }
}

#[test]
fn a_diagonal_step_is_scaled_to_the_nearest_pixel() {
    for (step, scaled) in [(1, 1), (2, 1), (3, 2), (10, 7), (13, 9), (100, 71)] {
        let params = motion::Params { slow_step: step, ..motion::Params::default() };
        let mut m = Motion::new((500, 500), Rect::new(0, 0, 1920, 1080), params);
        m.event(Ev::Down(Key::Move(Dir::Right)));
        let (x, y) = m.pos();
        let moved = m.event(Ev::Down(Key::Move(Dir::Down)));
        assert_eq!(moved, vec![Cmd::MoveTo(x + scaled, y + scaled)], "step {step}");
    }
}

#[test]
fn a_badge_goes_where_there_is_room() {
    let left = place(500, 500, 40, 20, true);
    assert_eq!(left, on_side(500, 500, 40, 20, Side::Left));
    let right = place(500, 500, 40, 20, false);
    assert_eq!(right, on_side(500, 500, 40, 20, Side::Right));
    assert!(!collides(&left, &right) && collides(&left, &left));
    let placed = place_all(&[(500, 500, 40, 20), (500, 500, 40, 20)], (1920, 1080));
    assert!(!collides(&placed[0], &placed[1]));
    assert_eq!((placed[0].click(), placed[1].click()), ((520, 510), (520, 510)));
}

fn good() -> StateSet {
    let mut s = StateSet::empty();
    for state in [State::Visible, State::Showing, State::Sensitive] {
        s.insert(state);
    }
    s
}

#[test]
fn controls_are_not_decoration() {
    for role in ACTIONABLE {
        assert!(role_is_actionable(role) && !role_is_passive(role));
    }
    for role in PASSIVE {
        assert!(role_is_passive(role) && !role_is_actionable(role));
    }
    assert!(role_name_is_passive(PASSIVE_ROLE_NAMES[0]) && !role_name_is_passive("button"));
}

#[test]
fn a_target_is_kept_exactly_when_it_can_be_clicked() {
    let r = WindowRect::new(10, 10, 40, 20);
    assert_eq!(keep(Role::Button, good(), r, None), Ok(()));
    assert_eq!(keep(Role::Panel, good(), r, None), Err(Reject::Role));
    for (state, why) in [
        (State::Visible, Reject::NotVisible),
        (State::Showing, Reject::NotShowing),
        (State::Sensitive, Reject::Insensitive),
    ] {
        let mut s = good();
        s.remove(state);
        assert_eq!(keep(Role::Button, s, r, None), Err(why));
    }
}

#[test]
fn preference_is_an_order() {
    let (small, large) = (WindowRect::new(0, 0, 5, 5), WindowRect::new(0, 0, 9, 9));
    let ranked = [
        (small, ACTIONABLE[0], "/a"),
        (small, ACTIONABLE[0], "/b"),
        (small, ACTIONABLE[1], "/a"),
        (large, ACTIONABLE[0], "/a"),
    ];
    for (i, a) in ranked.iter().enumerate() {
        for (j, b) in ranked.iter().enumerate() {
            assert_eq!(prefer(*a, *b), i.cmp(&j), "{i} {j}");
        }
    }
    assert_eq!(prefer(ranked[0], ranked[0]), Ordering::Equal);
}

#[test]
fn a_state_change_can_be_taken_back() {
    let mut tree = AppTree::new(WarmSource::Walk, 0);
    let node = Node {
        parent: "/frame".into(),
        role: Role::Button,
        name: "n".into(),
        states: good(),
        has_component: true,
    };
    tree.insert("/b".into(), node);
    assert!(tree.set_state("/b", State::Sensitive, false));
    assert!(tree.candidates("/frame").is_empty());
    assert!(tree.set_state("/b", State::Sensitive, true));
    assert_eq!(tree.get("/b").unwrap().states, good());
}

#[test]
fn a_book_keeps_the_order_of_its_keys() {
    let mut b = Book::new();
    b.insert("x".into(), 1);
    b.insert("y".into(), 2);
    b.insert("x".into(), 3);
    assert_eq!((b.len(), b.at(0), b.at(1)), (2, ("x", &3), ("y", &2)));
    *b.get_mut("y").unwrap() = 5;
    b.remove("x");
    assert_eq!((b.len(), b.get("x"), b.at(0)), (1, None, ("y", &5)));
}

#[test]
fn each_operation_and_capability_has_a_bit_of_its_own() {
    let ops = [Op::Ping, Op::Hello, Op::MoveAbs, Op::MoveRel, Op::Button, Op::Scroll, Op::Batch];
    for a in ops {
        let mut body = [0u8; 24];
        body[8..16].copy_from_slice(&(1u64 << a.to_u16()).to_le_bytes());
        body[2..4].copy_from_slice(&(CAP_POINTER_ABS | CAP_BUTTONS).to_le_bytes());
        let h = HelloResponse::decode(&body).unwrap();
        for b in ops {
            assert_eq!(h.supports(b), a == b);
        }
        assert!(h.has_cap(CAP_BUTTONS) && !h.has_cap(CAP_KEYBOARD));
    }
}

#[test]
fn labels_by_column_are_listed_in_reading_order_too() {
    let points = [Point::new(1900, 0), Point::new(10, 500), Point::new(20, 505), Point::new(5, 4)];
    let l = Labels::in_columns(Alphabet::default(), Alphabet::ranks(), &points, 0, 1920);
    assert_eq!(l.iter(), vec![("aa", 3), (";a", 0), ("as", 1), ("ad", 2)]);
    let copy = l.clone();
    assert_eq!(copy.iter(), l.iter());
    let mut t = l.typing();
    t.press('a');
    assert_eq!(t.candidates(), vec![("aa", 3), ("as", 1), ("ad", 2)]);
    let l = Labels::in_columns(Alphabet::default(), Alphabet::ranks(), &points[..2], 0, 1920);
    assert_eq!(l.iter(), vec![(";a", 0), ("aa", 1)]);
}
