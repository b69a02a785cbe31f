use std::collections::HashMap;

use muvor::a11y::error::Error;
use muvor::a11y::mirror::Mirror;
use muvor::a11y::role::{Role, State, StateSet};
use muvor::a11y::search::{self, is_at_origin, is_called, settle, Answer, Ask, Search, Window};
use muvor::a11y::seek::{self, same_size, title_score, Seek};
use muvor::a11y::target::{FocusSource, Frame, Object, WindowRect};
use muvor::a11y::verify::Space;

fn object(name: &str, path: &str) -> Object {
    Object { name: Some(name.into()), path: path.into() }
}

#[derive(Clone)]
struct Win {
    path: &'static str,
    title: &'static str,
    active: bool,
    bounds: WindowRect,
}

fn win(path: &'static str, title: &'static str, w: i32, h: i32) -> Win {
    Win { path, title, active: false, bounds: WindowRect::new(0, 0, w, h) }
}

#[derive(Default)]
struct Desk {
    apps: Vec<(&'static str, &'static str, u32, Vec<Win>)>,
    asked: HashMap<&'static str, usize>,
}

impl Desk {
    fn find(&self, o: &Object) -> Option<&Win> {
        let name = o.name.as_deref()?;
        let app = self.apps.iter().find(|a| a.0 == name)?;
        app.3.iter().find(|w| w.path == o.path)
    }

    fn answer(&mut self, ask: Ask) -> Answer {
        let kind = match &ask {
            Ask::Apps => "apps",
            Ask::Pid(_) => "pid",
            Ask::Windows(_) => "windows",
            Ask::Title(_) => "title",
            Ask::States(_) => "states",
            Ask::Extents(_) => "extents",
            Ask::Window(_) => "window",
        };
        *self.asked.entry(kind).or_default() += 1;
        match ask {
            Ask::Apps => Answer::Apps(Ok(self.apps.iter().map(|a| object(a.0, "/root")).collect())),
            Ask::Pid(bus) => Answer::Pid(self.apps.iter().find(|a| a.0 == bus).map(|a| a.2)),
            Ask::Windows(o) => {
                let name = o.name.unwrap_or_default();
                Answer::Windows(self.apps.iter().find(|a| a.0 == name).map(|a| {
                    (a.3.iter().map(|w| object(a.0, w.path)).collect(), Some(a.1.to_owned()))
                }))
            }
            Ask::Title(o) => Answer::Title(self.find(&o).map(|w| Some(w.title.to_owned()))),
            Ask::States(o) => Answer::States(self.find(&o).map(|w| {
                let mut s = StateSet::empty();
                if w.active {
                    s.insert(State::Active);
                }
                s
            })),
            Ask::Extents(o) => Answer::Extents(self.find(&o).map(|w| w.bounds)),
            Ask::Window(o) => Answer::Window(self.find(&o).map(|w| {
                Ok(Window {
                    title: Some(w.title.to_owned()),
                    app: None,
                    role: Some(Role::Frame),
                    bounds: w.bounds,
                })
            })),
        }
    }

    fn search(&mut self, mut s: Search) -> Result<Option<Frame>, Error> {
        while let Some(ask) = s.ask() {
            s = s.answer(self.answer(ask));
        }
        match s.stage {
            search::Stage::Done(r) => r,
            _ => unreachable!(),
        }
    }

    fn seek(&mut self, m: &mut Mirror, mut s: Seek) -> Result<Option<Frame>, Error> {
        while let Some(ask) = s.ask() {
            let answer = self.answer(ask);
            s = s.answer(m, answer);
        }
        match s.stage {
            seek::Stage::Done(r) => r,
            _ => unreachable!(),
        }
    }
}

fn desk() -> Desk {
    Desk {
        apps: vec![
            (":1.1", "Shell", 10, vec![win("/stage", "Main stage", 99, 56)]),
            (
                ":1.2",
                "Terminal",
                20,
                vec![win("/one", "Next task", 800, 600), win("/two", "Other", 640, 480)],
            ),
            (":1.3", "Files", 30, vec![win("/home", "Home", 1000, 700)]),
        ],
        asked: HashMap::new(),
    }
}

#[test]
fn a_zero_position_is_asked_for_again() {
    let (a, b) = (WindowRect::new(0, 0, 76, 34), WindowRect::new(81, 0, 76, 34));
    assert!(is_at_origin(a) && !is_at_origin(b));
    assert_eq!(settle(a, b), (b, Space::Window));
    assert_eq!(settle(a, a), (a, Space::Screen));
    let c = WindowRect::new(5, 0, 1, 1);
    assert_eq!(settle(c, b), (c, Space::Screen));
}

#[test]
fn a_title_is_scored_rather_than_matched() {
    assert_eq!(title_score("next task", "next task"), 4);
    assert_eq!(title_score("next task \u{25d0}", "next task"), 2);
    assert_eq!(title_score("task", "next task"), 2);
    assert_eq!(title_score("other", "next task"), 0);
    assert_eq!(title_score("", "next task"), 0);
    assert_eq!(title_score("next task", ""), 0);
}

#[test]
fn a_size_may_be_off_by_a_border() {
    let b = WindowRect::new(3, 4, 800, 600);
    assert!(same_size(b, (808, 592)));
    assert!(!same_size(b, (809, 600)));
    assert!(!same_size(b, (800, 591)));
    assert!(!same_size(WindowRect::new(0, 0, i32::MIN, 0), (i32::MAX, 0)));
}

#[test]
fn a_window_is_called_by_its_own_name_or_its_applications() {
    assert!(is_called("files", "home", "file"));
    assert!(is_called("files", "home", "ome"));
    assert!(!is_called("files", "home", "term"));
    assert!(is_called("files", "home", ""));
}

#[test]
fn a_named_window_is_found_in_whatever_case() {
    let f = desk().search(Search::named("HOME")).unwrap().expect("it is there");
    assert_eq!((f.bus_name.as_str(), f.path.as_str()), (":1.3", "/home"));
    assert_eq!((f.app.as_str(), f.title.as_str()), ("Files", "Home"));
    assert_eq!(f.focus, FocusSource::Named);
    assert!(desk().search(Search::named("nowhere")).unwrap().is_none());
}

#[test]
fn the_focused_window_is_the_one_held_or_an_active_one() {
    let mut d = desk();
    let held = object(":1.2", "/two");
    let f = d.search(Search::focused(Some(&held))).unwrap().unwrap();
    assert_eq!((f.path.as_str(), f.focus), ("/two", FocusSource::Activate));

    let closed = object(":1.2", "/gone");
    assert!(d.search(Search::focused(Some(&closed))).unwrap().is_none());

    d.apps[2].3[0].active = true;
    let f = d.search(Search::focused(Some(&closed))).unwrap().unwrap();
    assert_eq!((f.path.as_str(), f.focus), ("/home", FocusSource::ActiveState));
}

#[test]
fn a_bus_that_fails_is_an_error() {
    let s = Search::named("x").answer(Answer::Apps(Err(Error::Disconnected)));
    match s.stage {
        search::Stage::Done(Err(e)) => assert_eq!(e.describe(), "at-spi: detection thread is gone"),
        _ => panic!("over"),
    }
    let s = Seek::new("x", 1, (0, 0));
    let mut m = Mirror::default();
    let s = s.answer(&mut m, Answer::Apps(Err(Error::Bus("no".into()))));
    match s.stage {
        seek::Stage::Done(Err(e)) => assert_eq!(e.describe(), "at-spi: no"),
        _ => panic!("over"),
    }
}

#[test]
fn the_process_decides_and_is_remembered() {
    let (mut d, mut m) = (desk(), Mirror::default());
    let f = d.seek(&mut m, Seek::new("anything", 30, (1000, 700))).unwrap().unwrap();
    assert_eq!((f.path.as_str(), f.focus, f.pid_memo), ("/home", FocusSource::Compositor, false));
    assert_eq!(d.asked["pid"], 3);
    assert_eq!(m.app_for_pid(30).as_deref(), Some(":1.3"));

    d.asked.clear();
    let f = d.seek(&mut m, Seek::new("anything", 30, (1000, 700))).unwrap().unwrap();
    assert_eq!((f.path.as_str(), f.pid_memo), ("/home", true));
    assert_eq!(d.asked["pid"], 1, "the memo is verified, and nothing else is asked");
}

#[test]
fn a_memo_that_no_longer_holds_is_forgotten() {
    let (mut d, mut m) = (desk(), Mirror::default());
    m.note_app_for_pid(30, ":1.1");
    let f = d.seek(&mut m, Seek::new("", 30, (0, 0))).unwrap().unwrap();
    assert_eq!((f.path.as_str(), f.pid_memo), ("/home", false));
    assert_eq!(m.app_for_pid(30).as_deref(), Some(":1.3"));
}

#[test]
fn of_several_windows_the_likeliest_is_meant() {
    let mut m = Mirror::default();
    let f = desk().seek(&mut m, Seek::new("\u{25d0} Next task", 20, (0, 0))).unwrap().unwrap();
    assert_eq!((f.path.as_str(), f.focus), ("/one", FocusSource::Compositor));
    let f = desk().seek(&mut m, Seek::new("renamed", 20, (640, 480))).unwrap().unwrap();
    assert_eq!((f.path.as_str(), f.focus), ("/two", FocusSource::Compositor));
    let f = desk().seek(&mut m, Seek::new("renamed", 20, (0, 0))).unwrap().unwrap();
    assert_eq!((f.path.as_str(), f.focus), ("/one", FocusSource::Named));
}

#[test]
fn a_process_is_evidence_and_not_proof() {
    let (mut d, mut m) = (desk(), Mirror::default());
    let f = d.seek(&mut m, Seek::new("Home", 10, (1000, 700))).unwrap().unwrap();
    assert_eq!((f.path.as_str(), f.focus), ("/home", FocusSource::Named));
    assert!(m.pid_owns_nothing(10));
    assert_eq!(m.app_for_title("home").as_deref(), Some(":1.3"));

    d.asked.clear();
    let f = d.seek(&mut m, Seek::new("Home", 10, (1000, 700))).unwrap().unwrap();
    assert!(f.title_memo);
    assert!(!d.asked.contains_key("pid"), "a hopeless process is not searched for again");
    assert_eq!(d.asked["title"], 1, "and only the one connection is");
}

#[test]
fn a_title_memo_that_does_not_pay_off_is_forgotten() {
    let (mut d, mut m) = (desk(), Mirror::default());
    m.note_pid_owns_nothing(77);
    m.note_app_for_title("home", ":1.2");
    let f = d.seek(&mut m, Seek::new("Home", 77, (0, 0))).unwrap().unwrap();
    assert_eq!((f.path.as_str(), f.title_memo), ("/home", false));
    assert!(!m.pid_owns_nothing(77));
    assert_eq!(m.app_for_title("home").as_deref(), Some(":1.3"));
}

#[test]
fn no_process_and_no_title_is_no_window() {
    let mut m = Mirror::default();
    assert!(desk().seek(&mut m, Seek::new("", 99, (0, 0))).unwrap().is_none());
    assert!(m.pid_owns_nothing(99));
    assert!(desk().seek(&mut m, Seek::new("", 0, (0, 0))).unwrap().is_none());
    assert!(!m.pid_owns_nothing(0));
}
