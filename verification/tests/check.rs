use std::collections::HashMap;

use muvor::a11y::check::{Answer, Ask, Check, Place};
use muvor::a11y::error::Error;
use muvor::a11y::role::{Role, State, StateSet};
use muvor::a11y::target::{FocusSource, Frame, Object, Provenance, Target, WindowRect};
use muvor::a11y::verify::{Claim, Reading, Reread, Space, Step, Verdict, Verified};

const BUS: &str = ":1.7";

fn good() -> StateSet {
    let mut s = StateSet::empty();
    for state in [State::Visible, State::Showing, State::Sensitive] {
        s.insert(state);
    }
    s
}

fn frame() -> Frame {
    Frame {
        focus: FocusSource::Compositor,
        pid_memo: false,
        title_memo: false,
        app: "Files".into(),
        title: "Home".into(),
        role: Role::Frame,
        bus_name: BUS.into(),
        path: "/frame".into(),
        bounds: WindowRect::new(0, 0, 1000, 800),
    }
}

fn button() -> Target {
    Target {
        role: Role::Button,
        name: "Open".into(),
        bounds: WindowRect::new(100, 100, 40, 20),
        provenance: Provenance::Walk,
        bus_name: BUS.into(),
        path: "/button".into(),
    }
}

fn object(path: &str) -> Option<Object> {
    Some(Object { name: Some(BUS.into()), path: path.into() })
}

/// An application that answers by path.
#[derive(Default)]
struct App {
    at_point: HashMap<&'static str, &'static str>,
    parent: HashMap<&'static str, &'static str>,
    role: HashMap<&'static str, (Role, &'static str)>,
    role_name: HashMap<&'static str, &'static str>,
    extents: HashMap<&'static str, WindowRect>,
    asked: Vec<String>,
}

impl App {
    fn answer(&mut self, ask: Ask, node: &mut Option<Reread>) -> Answer {
        match ask {
            Ask::Node(p) => {
                self.asked.push(format!("node {}", p.path));
                Answer::Node(node.take().unwrap())
            }
            Ask::AtPoint { at, .. } => {
                self.asked.push(format!("at {}", at.path));
                Answer::Object(self.at_point.get(at.path.as_str()).and_then(|p| object(p)))
            }
            Ask::Parent(p) => {
                self.asked.push(format!("parent {}", p.path));
                Answer::Object(self.parent.get(p.path.as_str()).and_then(|p| object(p)))
            }
            Ask::Describe(Place { path, .. }) => match self.role.get(path.as_str()) {
                Some((r, n)) => Answer::Described { role: Some(*r), name: Some((*n).into()) },
                None => Answer::Described { role: None, name: None },
            },
            Ask::RoleName(p) => {
                Answer::RoleName(self.role_name.get(p.path.as_str()).map(|n| (*n).into()))
            }
            Ask::Extents(p) => Answer::Extents(self.extents.get(p.path.as_str()).copied()),
        }
    }

    fn run(&mut self, claim: &Claim, node: Reread) -> Verified {
        let mut node = Some(node);
        let mut check = Check::new(&frame(), claim);
        let mut n = 0;
        while let Some(ask) = check.ask() {
            let answer = self.answer(ask, &mut node);
            check = check.answer(answer);
            n += 1;
            assert!(n <= 1425, "a check ends");
        }
        let v = check.result().expect("over, so there is a verdict");
        Verified {
            verdict: match &v.verdict {
                Verdict::Valid => Verdict::Valid,
                Verdict::Gone(m) => Verdict::Gone(m.clone()),
                Verdict::Changed(m) => Verdict::Changed(m.clone()),
                Verdict::Covered(s) => Verdict::Covered(s.clone()),
                Verdict::Inside(s) => Verdict::Inside(s.clone()),
            },
            chain: v.chain.to_vec(),
            bounds: v.bounds,
        }
    }
}

fn now() -> Reading {
    Reading {
        role: Role::Button,
        name: "Open".into(),
        states: good(),
        bounds: WindowRect::new(100, 100, 40, 20),
        space: Space::Window,
    }
}

fn paths(v: &Verified) -> Vec<&str> {
    v.chain.iter().map(|s| s.path.as_str()).collect()
}

#[test]
fn the_claim_is_the_centre_or_the_point_given() {
    let c = Claim::of(&button());
    assert_eq!((c.x, c.y), (120, 110));
    let c = Claim::at(&button(), 101, 119);
    assert_eq!((c.x, c.y, c.path.as_str()), (101, 119, "/button"));
}

#[test]
fn an_unchanged_target_is_clicked() {
    let mut app = App::default();
    app.at_point.insert("/frame", "/box");
    app.at_point.insert("/box", "/button");
    app.role.insert("/box", (Role::Panel, ""));
    app.role.insert("/button", (Role::Button, "Open"));
    let v = app.run(&Claim::of(&button()), Reread::Now(now()));
    assert!(v.verdict.is_ok());
    assert!(matches!(v.verdict, Verdict::Valid));
    assert_eq!(v.verdict.why(), "the target is unchanged");
    assert_eq!(paths(&v), vec!["/box", "/button"]);
    assert_eq!(v.bounds, Some(WindowRect::new(100, 100, 40, 20)));
}

#[test]
fn every_broken_promise_is_named() {
    let claim = Claim::of(&button());
    let cases: Vec<(Reading, &str)> = vec![
        (Reading { role: Role::ToggleButton, ..now() }, "role was button, is toggle button"),
        (Reading { name: "Close".into(), ..now() }, "name was 'Open', is 'Close'"),
        (
            Reading { bounds: WindowRect::new(500, -3, 40, 20), ..now() },
            "bounds were 100,100 40x20, are 500,-3 40x20 — 120,110 is now outside",
        ),
    ];
    for (reading, want) in cases {
        let v = App::default().run(&claim, Reread::Now(reading));
        assert!(!v.verdict.is_ok());
        assert_eq!(v.verdict.why(), format!("the target changed: {want}"));
        assert!(v.chain.is_empty());
    }
    for (state, want) in [
        (State::Showing, "no longer showing"),
        (State::Visible, "no longer visible"),
        (State::Sensitive, "no longer sensitive"),
    ] {
        let mut states = good();
        states.remove(state);
        let v = App::default().run(&claim, Reread::Now(Reading { states, ..now() }));
        assert_eq!(v.verdict.why(), format!("the target changed: {want}"));
    }
}

#[test]
fn a_node_that_does_not_answer_is_gone() {
    let claim = Claim::of(&button());
    let v = App::default().run(&claim, Reread::NoRoute);
    assert_eq!(v.verdict.why(), "the target is gone (no route to the object)");
    assert_eq!(v.bounds, None);
    let v = App::default().run(&claim, Reread::Failed(Error::Timeout("verify role")));
    assert_eq!(
        v.verdict.why(),
        "the target is gone (at-spi: 'verify role' timed out; the application is not answering)"
    );
    let v = App::default().run(&claim, Reread::Now(now()));
    assert_eq!(v.verdict.why(), "the target is gone (the point resolves to nothing)");
}

#[test]
fn something_on_top_covers_the_target() {
    let mut app = App::default();
    app.at_point.insert("/frame", "/dialog");
    app.role.insert("/dialog", (Role::Button, "Cancel"));
    let v = app.run(&Claim::of(&button()), Reread::Now(now()));
    assert!(!v.verdict.is_ok());
    assert_eq!(v.verdict.why(), "the point now resolves to button 'Cancel'  /dialog");
}

#[test]
fn a_label_inside_the_target_is_clicked_through() {
    let mut app = App::default();
    app.at_point.insert("/frame", "/label");
    app.role.insert("/label", (Role::Label, "Videos"));
    app.role.insert("/box", (Role::Panel, ""));
    app.role.insert("/button", (Role::Button, "Open"));
    app.parent.insert("/label", "/box");
    app.parent.insert("/box", "/button");
    let v = app.run(&Claim::of(&button()), Reread::Now(now()));
    assert!(v.verdict.is_ok());
    assert_eq!(
        v.verdict.why(),
        "the point resolves to label 'Videos'  /label, inside the target"
    );
}

#[test]
fn a_control_inside_the_target_blocks() {
    let mut app = App::default();
    app.at_point.insert("/frame", "/label");
    app.role.insert("/label", (Role::Label, ""));
    app.role.insert("/unmount", (Role::Button, "Unmount"));
    app.parent.insert("/label", "/unmount");
    app.parent.insert("/unmount", "/button");
    let v = app.run(&Claim::of(&button()), Reread::Now(now()));
    assert_eq!(v.verdict.why(), "the point now resolves to button 'Unmount'  /unmount");
}

#[test]
fn an_invalid_role_passes_only_by_its_name() {
    for (name, ok) in [(Some("presentation"), true), (Some("ghost"), false), (None, false)] {
        let mut app = App::default();
        app.at_point.insert("/frame", "/icon");
        app.role.insert("/icon", (Role::Invalid, ""));
        app.role.insert("/button", (Role::Button, "Open"));
        app.parent.insert("/icon", "/button");
        if let Some(name) = name {
            app.role_name.insert("/icon", name);
        }
        let v = app.run(&Claim::of(&button()), Reread::Now(now()));
        assert_eq!(v.verdict.is_ok(), ok, "{name:?}");
    }
}

#[test]
fn a_node_that_will_not_say_what_it_is_blocks() {
    let mut app = App::default();
    app.at_point.insert("/frame", "/ghost");
    app.parent.insert("/ghost", "/button");
    let v = app.run(&Claim::of(&button()), Reread::Now(now()));
    assert_eq!(v.verdict.why(), "the point now resolves to (no answer)  /ghost");
}

#[test]
fn the_same_control_exposed_twice_is_the_same_control() {
    for (name, bounds, ok) in [
        ("Open", WindowRect::new(101, 100, 39, 20), true),
        ("Open", WindowRect::new(300, 100, 39, 20), false),
        ("Shut", WindowRect::new(101, 100, 39, 20), false),
    ] {
        let mut app = App::default();
        app.at_point.insert("/frame", "/twin");
        app.role.insert("/twin", (Role::ToggleButton, name));
        app.extents.insert("/twin", bounds);
        let v = app.run(&Claim::of(&button()), Reread::Now(now()));
        assert_eq!(v.verdict.is_ok(), ok, "{name} {bounds:?}");
    }
}

#[test]
fn a_popup_is_asked_itself_and_the_highest_first() {
    let mut app = App::default();
    app.at_point.insert("/frame", "/page");
    app.role.insert("/page", (Role::DocumentWeb, ""));
    app.parent.insert("/button", "/menu");
    app.parent.insert("/menu", "/popup");
    app.parent.insert("/popup", "/frame");
    app.at_point.insert("/popup", "/menu");
    app.at_point.insert("/menu", "/button");
    app.role.insert("/menu", (Role::Menu, ""));
    app.role.insert("/button", (Role::Button, "Open"));
    let v = app.run(&Claim::of(&button()), Reread::Now(now()));
    assert!(matches!(v.verdict, Verdict::Valid));
    assert_eq!(paths(&v), vec!["/menu", "/button"]);
    let at: Vec<&str> =
        app.asked.iter().filter(|a| a.starts_with("at")).map(String::as_str).collect();
    assert_eq!(at, vec!["at /frame", "at /page", "at /popup", "at /menu", "at /button"]);
}

#[test]
fn a_loop_ends_and_is_refused() {
    let mut app = App::default();
    app.at_point.insert("/frame", "/a");
    app.at_point.insert("/a", "/b");
    app.at_point.insert("/b", "/a");
    app.role.insert("/a", (Role::Panel, ""));
    app.role.insert("/b", (Role::Panel, ""));
    app.parent.insert("/a", "/b");
    app.parent.insert("/b", "/a");
    let v = app.run(&Claim::of(&button()), Reread::Now(now()));
    assert_eq!(v.chain.len(), 24);
    assert!(!v.verdict.is_ok());
}

#[test]
fn a_null_object_and_the_one_that_was_asked_are_no_answer() {
    for answer in ["/org/a11y/atspi/null", "/frame"] {
        let mut app = App::default();
        app.at_point.insert("/frame", answer);
        let v = app.run(&Claim::of(&button()), Reread::Now(now()));
        assert_eq!(v.verdict.why(), "the target is gone (the point resolves to nothing)");
    }
}

#[test]
fn an_answer_to_another_question_is_none() {
    let claim = Claim::of(&button());
    let check = Check::new(&frame(), &claim).answer(Answer::Extents(None));
    assert_eq!(
        check.result().unwrap().verdict.why(),
        "the target is gone (no route to the object)"
    );
    assert!(check.ask().is_none());
}

#[test]
fn a_step_describes_itself() {
    let s = Step { role: Some(Role::Invalid), name: "x".into(), path: "/p".into() };
    assert_eq!(s.describe(), "invalid 'x'  /p");
    let s = Step { role: Some(Role::PushButtonMenu), name: String::new(), path: "/q".into() };
    assert_eq!(s.describe(), "push button menu ''  /q");
}

#[test]
fn a_verdict_can_be_copied_and_compared() {
    let step = Step { role: Some(Role::Button), name: "n".into(), path: "/p".into() };
    let covered = Verdict::Covered(step.clone());
    assert_eq!(covered.clone(), covered);
    assert_ne!(covered, Verdict::Inside(step.clone()));
    let v = Verified { verdict: covered, chain: vec![step], bounds: None };
    assert_eq!(v.clone().chain, v.chain);
    assert_eq!(v.clone().verdict, v.verdict);
}
