use muvor::a11y::error::{Error, REPLY_DEADLINE};
use muvor::a11y::filter::Reject;
use muvor::a11y::mirror::{AppTree, Event, Item, Mirror, Node, WarmSource};
use muvor::a11y::names::{frame_path, object_ref};
use muvor::a11y::probe::{Probe, Reply, Scan, Stage, MAX_NODES, ROOT_PATH};
use muvor::a11y::request::Request;
use muvor::a11y::resolve::{dedupe, resolve, Candidate, Facts};
use muvor::a11y::role::{Role, State, StateSet};
use muvor::a11y::target::{FocusSource, Frame, Object, Provenance, Target, WindowRect};
use muvor::a11y::walk::{Walk, Walked, WALK_NODES};
use muvor::a11y::warm;

const BUS: &str = ":1.7";

fn good() -> StateSet {
    let mut s = StateSet::empty();
    for state in [State::Visible, State::Showing, State::Sensitive] {
        s.insert(state);
    }
    s
}

fn frame() -> Frame {
    Frame {
        focus: FocusSource::Activate,
        pid_memo: false,
        title_memo: false,
        app: "Files".into(),
        title: "Home".into(),
        role: Role::Frame,
        bus_name: BUS.into(),
        path: "/frame".into(),
        bounds: WindowRect::new(0, 0, 1000, 800),
    }
}

fn object(path: &str) -> Object {
    Object { name: Some(BUS.into()), path: path.into() }
}

fn walked(role: Role, name: &str, children: &[&str]) -> Option<Walked> {
    Some(Walked {
        role,
        name: Some(name.into()),
        states: good(),
        component: true,
        children: Some(children.iter().map(|p| object(p)).collect()),
    })
}

fn bounds(x: i32, y: i32, w: i32, h: i32) -> Option<Facts> {
    Some(Facts { role: None, name: None, bounds: WindowRect::new(x, y, w, h) })
}

fn done(p: Probe) -> Result<Scan, Error> {
    match p.stage {
        Stage::Done(r) => r,
        other => panic!("not over: {other:?}"),
    }
}

#[test]
fn a_window_that_answers_queries_is_queried() {
    let mut m = Mirror::default();
    let p = Probe::new(&mut m, &frame(), None, false, 100);
    assert!(matches!(p.stage, Stage::Matching));
    let p = p.reply(&mut m, Reply::Matches(Ok(vec![object("/a"), object("/b")])), 150);
    assert_eq!(m.collection_capable(BUS), Some(true));
    let scan =
        done(p.reply(&mut m, Reply::Facts(vec![bounds(10, 10, 40, 20), None]), 175)).unwrap();
    assert_eq!(scan.provenance, Provenance::Collection);
    assert_eq!((scan.candidates, scan.examined), (2, 2));
    assert_eq!((scan.select, scan.resolve, scan.truncated), (50, 25, false));
    assert_eq!(scan.targets.len(), 1);
    assert_eq!(scan.targets[0].role, Role::Invalid, "nobody asked for it");
    assert_eq!(scan.rejects.len(), 1);
    assert_eq!((scan.rejects[0].path.as_str(), scan.rejects[0].why), ("/b", Reject::NoBounds));
}

#[test]
fn a_window_that_does_not_is_walked_and_that_is_remembered() {
    let mut m = Mirror::default();
    let p = Probe::new(&mut m, &frame(), None, false, 0);
    let p = p.reply(&mut m, Reply::Matches(Err(Error::Timeout("GetMatches"))), 1);
    assert_eq!(m.collection_capable(BUS), Some(false));
    let p = p.reply(&mut m, Reply::Level(vec![walked(Role::Frame, "Home", &["/box", "/dead"])]), 2);
    let p = p.reply(&mut m, Reply::Level(vec![walked(Role::Panel, "", &["/button"]), None]), 3);
    let p = p.reply(&mut m, Reply::Level(vec![walked(Role::Button, "Open", &[])]), 4);
    let scan = done(p.reply(&mut m, Reply::Facts(vec![bounds(10, 10, 40, 20)]), 5)).unwrap();
    assert_eq!(scan.provenance, Provenance::Walk);
    assert_eq!((scan.candidates, scan.examined), (1, 3));
    assert_eq!((scan.targets[0].role, scan.targets[0].name.as_str()), (Role::Button, "Open"));
    assert_eq!(scan.targets[0].bus_name, BUS);

    let p = Probe::new(&mut m, &frame(), None, false, 0);
    assert!(matches!(p.stage, Stage::Walking(_)), "the query is not tried twice");
}

#[test]
fn a_warm_tree_answers_and_an_empty_answer_is_none() {
    let mut tree = AppTree::new(WarmSource::Walk, 10);
    let node = |parent: &str, role| Node {
        parent: parent.into(),
        role,
        name: "n".into(),
        states: good(),
        has_component: true,
    };
    tree.insert("/frame".into(), node("", Role::Frame));
    tree.insert("/button".into(), node("/frame", Role::Button));
    let mut m = Mirror::default();
    m.put(BUS.into(), tree);
    m.note_collection(BUS, false);

    let p = Probe::new(&mut m, &frame(), Some(Provenance::Mirror), false, 60);
    let scan = done(p.reply(&mut m, Reply::Facts(vec![bounds(10, 10, 40, 20)]), 70)).unwrap();
    assert_eq!(scan.provenance, Provenance::Mirror);
    assert_eq!((scan.examined, scan.mirror_age), (2, Some(50)));
    assert_eq!((scan.mirror_updates, scan.mirror_seen), (Some(0), Some(0)));

    let other = Frame { path: "/other".into(), ..frame() };
    let p = Probe::new(&mut m, &other, None, false, 60);
    assert!(matches!(p.stage, Stage::Walking(_)), "another window of it is read live");
    let p = Probe::new(&mut m, &other, Some(Provenance::Mirror), false, 60);
    assert_eq!(
        done(p).unwrap_err().describe(),
        "at-spi: no warm tree for :1.7 — activate the window, or drop --via mirror"
    );
}

#[test]
fn a_cache_is_read_only_on_demand() {
    let mut m = Mirror::default();
    let p = Probe::new(&mut m, &frame(), Some(Provenance::Cache), true, 0);
    let item = |path: &str, parent: &str, role, name: &str, short: &str| Item {
        object: object(path),
        parent: object(parent),
        role,
        name: name.into(),
        short_name: short.into(),
        states: good(),
        component: true,
    };
    let items = vec![
        item("/frame", "/root", Role::Frame, "Home", ""),
        item("/link", "/frame", Role::Link, "", "short"),
    ];
    let p = p.reply(&mut m, Reply::Items(Ok(items)), 1);
    let scan = done(p.reply(&mut m, Reply::Facts(vec![bounds(10, 10, 40, 20)]), 2)).unwrap();
    assert_eq!((scan.provenance, scan.examined), (Provenance::Cache, 2));
    assert_eq!(scan.targets[0].name, "short");

    let p = Probe::new(&mut m, &frame(), Some(Provenance::Cache), true, 0);
    let p = p.reply(&mut m, Reply::Items(Err(Error::Timeout("Cache.GetItems"))), 1);
    assert!(done(p).is_err());
}

#[test]
fn a_forced_query_that_fails_is_an_error() {
    let mut m = Mirror::default();
    let p = Probe::new(&mut m, &frame(), Some(Provenance::Collection), false, 0);
    let p = p.reply(&mut m, Reply::Matches(Err(Error::Bus("refused".into()))), 1);
    assert_eq!(done(p).unwrap_err().describe(), "at-spi: refused");
    assert_eq!(m.collection_capable(BUS), None);

    let bad = Frame { path: "frame".into(), ..frame() };
    let p = Probe::new(&mut m, &bad, Some(Provenance::Collection), false, 0);
    assert_eq!(done(p).unwrap_err().describe(), "at-spi: frame path: Invalid object path");
}

#[test]
fn no_more_is_asked_about_than_can_be_labelled() {
    let mut m = Mirror::default();
    let p = Probe::new(&mut m, &frame(), None, false, 0);
    let many: Vec<Object> = (0..MAX_NODES + 3).map(|i| object(&format!("/n{i}"))).collect();
    let p = p.reply(&mut m, Reply::Matches(Ok(many)), 1);
    match &p.stage {
        Stage::Resolving(picked) => {
            assert_eq!(picked.candidates.len(), MAX_NODES);
            assert_eq!(picked.examined, MAX_NODES);
            assert!(picked.truncated);
        }
        other => panic!("{other:?}"),
    }
}

#[test]
fn a_walk_stops_at_its_depth_and_at_its_budget() {
    let mut w = Walk::new(BUS, "/a", 0).unwrap();
    let mut levels = 0;
    while w.wants_more() {
        w = w.absorb(vec![walked(Role::Panel, "", &["/a"])]);
        levels += 1;
    }
    assert_eq!((levels, w.tree.len(), w.tree.truncated), (32, 1, false));

    let names: Vec<String> = (0..WALK_NODES).map(|i| format!("/n{i}")).collect();
    let children: Vec<&str> = names.iter().map(String::as_str).collect();
    let mut w = Walk::new(BUS, "/a", 0).unwrap().absorb(vec![walked(Role::Frame, "", &children)]);
    assert!(w.wants_more());
    let said: Vec<Option<Walked>> = (0..WALK_NODES).map(|_| walked(Role::Panel, "", &["/x"])).collect();
    w = w.absorb(said);
    assert!(!w.wants_more());
    assert!(w.tree.truncated, "a prefix of the tree says that it is one");
}

#[test]
fn an_address_has_to_be_one() {
    assert!(object_ref(":1.42", "/org/a11y/atspi/accessible/root").is_ok());
    assert!(object_ref("org.freedesktop.DBus", "/").is_ok());
    for bad in ["", "org.gnome.Files", ":1", ":double..dots", ":1.", ":.1", ":1.a b", ":caf\u{e9}.1"] {
        let e = object_ref(bad, "/").unwrap_err().describe();
        assert_eq!(
            e,
            format!(
                "at-spi: bus name '{bad}': Invalid unique name. See https://dbus.freedesktop.org\
                 /doc/dbus-specification.html#message-protocol-names-bus"
            )
        );
    }
    assert!(object_ref(&format!(":1.{}", "a".repeat(252)), "/").is_ok());
    assert!(object_ref(&format!(":1.{}", "a".repeat(253)), "/").is_err());
    for bad in ["", "frame", "/end/", "/double//slash", "/ha.d", "/caf\u{e9}"] {
        let e = object_ref(":1.42", bad).unwrap_err().describe();
        assert_eq!(e, "at-spi: object path: Invalid object path");
        assert!(frame_path(bad).is_err());
    }
    assert!(frame_path("/a/b_1/C").is_ok());
    assert!(Walk::new("nobody", "/", 0).is_err());
}

#[test]
fn a_node_that_cannot_be_addressed_is_no_candidate() {
    let mut tree = AppTree::new(WarmSource::Cache, 0);
    for path in ["/frame", "/other-window"] {
        tree.insert(
            path.into(),
            Node {
                parent: "/frame".into(),
                role: Role::Button,
                name: String::new(),
                states: good(),
                has_component: true,
            },
        );
    }
    let list = muvor::a11y::probe::candidates_of(&tree, BUS, "/frame");
    assert_eq!(list.len(), 1);
    assert_eq!(list[0].object.path, "/frame");
    assert!(muvor::a11y::probe::candidates_of(&tree, "nobody", "/frame").is_empty());
}

#[test]
fn role_and_name_are_asked_for_where_they_are_wanted() {
    let bare = Candidate { object: object("/a"), role: None, name: None };
    let known =
        Candidate { object: object("/b"), role: Some(Role::Link), name: Some("b".into()) };
    assert!(bare.wants_role(true) && bare.wants_name(true));
    assert!(!bare.wants_role(false) && !bare.wants_name(false));
    assert!(!known.wants_role(true) && !known.wants_name(true));

    let r = WindowRect::new(10, 10, 40, 20);
    let far = WindowRect::new(300, 10, 40, 20);
    let facts = vec![
        Some(Facts { role: Some(Role::Button), name: None, bounds: r }),
        Some(Facts { role: None, name: None, bounds: far }),
    ];
    let (targets, rejects) = resolve(&vec![bare, known], &facts, None, Provenance::Walk, true);
    assert_eq!(targets.len(), 2);
    assert_eq!((targets[0].role, targets[0].name.as_str()), (Role::Button, ""));
    assert_eq!((targets[1].role, targets[1].name.as_str()), (Role::Link, "b"));
    assert!(rejects.is_empty());

    let bare = Candidate { object: object("/a"), role: None, name: None };
    let facts = vec![Some(Facts { role: None, name: None, bounds: r })];
    let (targets, rejects) = resolve(&vec![bare], &facts, None, Provenance::Walk, true);
    assert!(targets.is_empty(), "a role that was asked for and not given");
    assert_eq!(rejects[0].why, Reject::NoBounds);
}

fn target(path: &str, role: Role, x: i32, w: i32) -> Target {
    Target {
        role,
        name: path.into(),
        bounds: WindowRect::new(x, 0, w, 34),
        provenance: Provenance::Walk,
        bus_name: BUS.into(),
        path: path.into(),
    }
}

#[test]
fn one_spot_keeps_one_target_whichever_came_first() {
    let a = target("/outer", Role::Button, 914, 35);
    let b = target("/inner", Role::ToggleButton, 913, 36);
    let c = target("/far", Role::Button, 100, 34);
    for list in [vec![a.clone(), b.clone(), c.clone()], vec![b, c, a]] {
        let mut rejects = Vec::new();
        let kept = dedupe(list, &mut rejects);
        let mut paths: Vec<&str> = kept.iter().map(|t| t.path.as_str()).collect();
        paths.sort_unstable();
        assert_eq!(paths, vec!["/far", "/outer"]);
        assert_eq!(rejects.len(), 1);
        assert_eq!((rejects[0].path.as_str(), rejects[0].why), ("/inner", Reject::Duplicate));
    }
}

#[test]
fn a_warm_up_walks_the_whole_application_or_nothing() {
    let mut m = Mirror::default();
    let w = warm::Warming::new(BUS, "/frame");
    let w = w.reply(&mut m, warm::Reply::Capable(true), 5);
    match w.stage {
        warm::Stage::Done(Ok(warmth)) => {
            assert_eq!((warmth.source, warmth.nodes, warmth.in_window), (WarmSource::Live, 0, 0));
        }
        other => panic!("{other:?}"),
    }
    assert!(m.app(BUS).is_none());
    assert_eq!(m.collection_capable(BUS), Some(true));

    let w = warm::Warming::new(BUS, "/frame").reply(&mut m, warm::Reply::Capable(false), 5);
    match &w.stage {
        warm::Stage::Walking(walk) => assert_eq!(walk.level[0].0.path, ROOT_PATH),
        other => panic!("{other:?}"),
    }
    let w = w.reply(
        &mut m,
        warm::Reply::Level(vec![walked(Role::Application, "Files", &["/frame", "/second"])]),
        6,
    );
    let w = w.reply(
        &mut m,
        warm::Reply::Level(vec![
            walked(Role::Frame, "", &["/a", "/b"]),
            walked(Role::Frame, "", &["/c"]),
        ]),
        7,
    );
    let leaves = vec![
        walked(Role::Button, "a", &[]),
        walked(Role::Label, "b", &[]),
        walked(Role::Button, "c", &[]),
    ];
    let w = w.reply(&mut m, warm::Reply::Level(leaves), 8);
    match w.stage {
        warm::Stage::Done(Ok(warmth)) => {
            assert_eq!((warmth.source, warmth.nodes, warmth.in_window), (WarmSource::Walk, 6, 1));
        }
        other => panic!("{other:?}"),
    }
    assert_eq!(m.app(BUS).unwrap().len(), 6);
    assert_eq!(m.nodes(BUS, 10).len(), 2);
    assert_eq!(m.nodes(BUS, 1)[0].0, "/a");
    assert_eq!(m.nodes("nobody", 10), vec![]);

    let w = warm::Warming::new("nobody", "/frame").reply(&mut m, warm::Reply::Capable(false), 5);
    assert!(matches!(w.stage, warm::Stage::Done(Err(_))));
}

#[test]
fn events_keep_the_mirror_current() {
    let mut m = Mirror::default();
    let mut focus = None;
    let mut tree = AppTree::new(WarmSource::Walk, 0);
    tree.insert(
        "/button".into(),
        Node {
            parent: "/frame".into(),
            role: Role::Button,
            name: String::new(),
            states: good(),
            has_component: true,
        },
    );
    m.put(BUS.into(), tree);

    let warm = m.hear(&mut focus, Event::Activated(object("/frame")), 10);
    assert_eq!(warm, Some((BUS.into(), "/frame".into())));
    assert_eq!(focus.as_ref().unwrap().path, "/frame");
    m.hear(&mut focus, Event::Deactivated(object("/another")), 11);
    assert!(focus.is_some(), "only the window that holds it lets go");
    m.hear(&mut focus, Event::Deactivated(object("/frame")), 12);
    assert!(focus.is_none());

    let off = |on| Event::StateChanged { object: object("/button"), state: State::Sensitive, on };
    m.hear(&mut focus, off(false), 13);
    assert!(m.app(BUS).unwrap().candidates("/frame").is_empty());
    m.hear(&mut focus, off(true), 14);
    assert_eq!(m.app(BUS).unwrap().candidates("/frame").len(), 1);
    let unknown =
        Event::StateChanged { object: object("/x"), state: State::Sensitive, on: false };
    m.hear(&mut focus, unknown, 15);
    assert_eq!(m.app(BUS).unwrap().updates, 2, "what is not known is not an update");

    m.hear(&mut focus, Event::Removed(object("/button")), 16);
    assert!(m.app(BUS).unwrap().is_empty());
    let item = Item {
        object: object("/new"),
        parent: object("/frame"),
        role: Role::Link,
        name: "n".into(),
        short_name: String::new(),
        states: good(),
        component: true,
    };
    m.hear(&mut focus, Event::Added(item), 17);
    m.hear(&mut focus, Event::Other, 18);
    assert_eq!(m.app(BUS).unwrap().get("/new").unwrap().role, Role::Link);

    let stats = m.stats(20);
    assert_eq!((stats.seen, stats.quiet), (9, Some(2)));
    assert_eq!(stats.apps.len(), 1);
    assert_eq!(stats.apps[0].updates, 4);
    assert_eq!((stats.apps[0].age, stats.apps[0].quiet), (20, Some(3)));
}

#[test]
fn the_youngest_tree_comes_first() {
    let mut m = Mirror::default();
    for (bus, warmed) in [(":1.1", 50), (":1.2", 90), (":1.3", 70)] {
        m.put(bus.into(), AppTree::new(WarmSource::Cache, warmed));
    }
    let names: Vec<String> = m.stats(100).apps.into_iter().map(|a| a.bus_name).collect();
    assert_eq!(names, vec![":1.2", ":1.3", ":1.1"]);
    m.forget(":1.2");
    assert_eq!(m.apps().len(), 2);
    m.app_mut(":1.1").unwrap().updates = 7;
    assert_eq!(m.app(":1.1").unwrap().updates, 7);
    assert_eq!(m.stats(0).quiet, None);
}

#[test]
fn memos_are_kept_until_they_are_forgotten() {
    let mut m = Mirror::default();
    assert_eq!(m.app_for_pid(5), None);
    m.note_app_for_pid(5, ":1.5");
    assert_eq!(m.app_for_pid(5).as_deref(), Some(":1.5"));
    m.forget_app_for_pid(5);
    assert_eq!(m.app_for_pid(5), None);
    m.note_pid_owns_nothing(5);
    assert!(m.pid_owns_nothing(5) && !m.pid_owns_nothing(6));
    m.forget_pid_owns_nothing(5);
    assert!(!m.pid_owns_nothing(5));
    m.note_app_for_title("t", ":1.5");
    m.note_app_for_title("t", ":1.6");
    assert_eq!(m.app_for_title("t").as_deref(), Some(":1.6"));
    m.forget_app_for_title("t");
    assert_eq!(m.app_for_title("t"), None);
}

#[test]
fn errors_and_requests_say_what_they_are() {
    assert_eq!(REPLY_DEADLINE, 5_000_000_000);
    assert_eq!(
        Error::Stalled(Request::MirrorStats.name()).describe(),
        "at-spi: 'mirror stats' did not answer in 5s — the accessibility bus or the application \
         behind it has stopped responding. muvor is not stuck; it gave up on purpose (§4.2-ii)"
    );
    assert_eq!(Error::Bus("x".into()).describe(), "at-spi: x");
    assert_eq!(Request::FocusedFrame.name(), "focused frame");
    assert_eq!(Request::Warm(frame()).name(), "warm mirror");
    assert_eq!(WindowRect::new(-1, 2, 30, 40).describe(), "-1,2 30x40");
    assert_eq!(Provenance::Collection.as_str(), "collection");
    assert_eq!(FocusSource::ActiveState.as_str(), "STATE_ACTIVE");
    assert_eq!(Reject::NoBounds.as_str(), "no-bounds");
    assert_eq!(WindowRect::from((1, 2, 3, 4)), WindowRect::new(1, 2, 3, 4));
}

#[test]
fn only_a_real_frame_has_a_boundary() {
    assert_eq!(frame().clip(), Some(WindowRect::new(0, 0, 1000, 800)));
    assert_eq!(Frame { role: Role::Window, ..frame() }.clip(), None);
    assert_eq!(Frame { bounds: WindowRect::new(0, 0, 0, 9), ..frame() }.clip(), None);
}

/// A target whose centre is at `x`; the narrower, the more preferred.
fn centred(path: &str, x: i32, w: i32) -> Target {
    target(path, Role::Button, x - w / 2, w)
}

fn paths(kept: &[Target]) -> Vec<&str> {
    kept.iter().map(|t| t.path.as_str()).collect()
}

#[test]
fn no_two_kept_targets_are_on_one_spot() {
    let list = vec![centred("/0", 0, 40), centred("/10", 10, 40), centred("/5", 5, 20)];
    let mut rejects = Vec::new();
    let kept = dedupe(list, &mut rejects);
    assert_eq!(paths(&kept), vec!["/5"]);
    let gone: Vec<(&str, Reject)> = rejects.iter().map(|r| (r.path.as_str(), r.why)).collect();
    assert_eq!(gone, vec![("/0", Reject::Duplicate), ("/10", Reject::Duplicate)]);
}

#[test]
fn a_target_is_dropped_only_for_one_that_is_kept() {
    let all = [centred("/d", -5, 40), centred("/a", 0, 30), centred("/b", 5, 20)];
    for order in [[0, 1, 2], [2, 1, 0], [1, 0, 2], [1, 2, 0], [0, 2, 1], [2, 0, 1]] {
        let list: Vec<Target> = order.iter().map(|&i: &usize| all[i].clone()).collect();
        let mut rejects = Vec::new();
        let kept = dedupe(list, &mut rejects);
        let mut left = paths(&kept);
        left.sort_unstable();
        assert_eq!(left, vec!["/b", "/d"], "{order:?}");
        assert_eq!(rejects.len(), 1);
        assert_eq!(rejects[0].path, "/a");
    }
}

#[test]
fn a_winner_takes_the_place_of_the_first_on_its_spot() {
    let list = vec![
        centred("/1", 0, 40),
        centred("/2", 500, 20),
        centred("/3", 500, 40),
        centred("/4", 0, 20),
        centred("/5", 0, 20),
    ];
    let mut rejects = Vec::new();
    dedupe(vec![centred("/x", 0, 40), centred("/y", 0, 40)], &mut rejects);
    let before = rejects.clone();
    let kept = dedupe(list, &mut rejects);
    assert_eq!(paths(&kept), vec!["/4", "/2"]);
    let gone: Vec<&str> = rejects.iter().map(|r| r.path.as_str()).collect();
    assert_eq!(gone, vec!["/y", "/3", "/1", "/5"]);
    assert_eq!(before.len(), 1);
}

#[test]
fn an_error_says_of_what_kind_it_is() {
    assert!(matches!(object_ref("nobody", "/"), Err(Error::Bus(_))));
    assert!(matches!(frame_path("x"), Err(Error::Bus(_))));
    assert!(matches!(Error::Disconnected.clone(), Error::Disconnected));
    assert!(matches!(Error::Timeout("x").clone(), Error::Timeout("x")));
    let mut m = Mirror::default();
    let p = Probe::new(&mut m, &frame(), Some(Provenance::Collection), false, 0);
    let p = p.reply(&mut m, Reply::Matches(Err(Error::Timeout("GetMatches"))), 1);
    assert!(matches!(done(p), Err(Error::Timeout("GetMatches"))));
    let stats = m.stats(1);
    assert_eq!(stats.clone().apps.len(), stats.apps.len());
}
