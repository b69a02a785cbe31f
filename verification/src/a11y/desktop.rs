//! What a search comes to, stated without the conversation.
//!
//! A [`Desktop`] answers every question the same way whenever it is asked. Of
//! such a desktop a [`crate::a11y::search::Search`] and a
//! [`crate::a11y::seek::Seek`] always end, and with what is said here.
use vstd::prelude::*;
use vstd::string::*;

use crate::a11y::error::ErrorView;
use crate::a11y::mirror;
use crate::a11y::mirror::MirrorView;
use crate::a11y::role::{State, StateSet};
use crate::a11y::search;
use crate::a11y::search::{AnswerView, AskView, Outcome, Quest, WindowView};
use crate::a11y::seek;
use crate::a11y::seek::{Named, PickView};
use crate::a11y::target::{FocusSource, FrameView, ObjectView, WindowRect};
use crate::text;

verus! {

/// The applications and their windows, as far as a search can ask about them.
pub struct Desktop {
    pub apps: Result<Seq<ObjectView>, ErrorView>,
    pub pid: spec_fn(Seq<char>) -> Option<u32>,
    pub windows: spec_fn(ObjectView) -> Option<(Seq<ObjectView>, Seq<char>)>,
    pub title: spec_fn(ObjectView) -> Option<Seq<char>>,
    pub states: spec_fn(ObjectView) -> Option<StateSet>,
    pub extents: spec_fn(ObjectView) -> Option<WindowRect>,
    pub window: spec_fn(ObjectView) -> Option<Result<WindowView, ErrorView>>,
}

impl Desktop {
    /// What the desktop says to a question.
    pub open spec fn answer(self, ask: AskView) -> AnswerView {
        match ask {
            AskView::Apps => AnswerView::Apps(self.apps),
            AskView::Pid(bus) => AnswerView::Pid((self.pid)(bus)),
            AskView::Windows(o) => AnswerView::Windows((self.windows)(o)),
            AskView::Title(o) => AnswerView::Title((self.title)(o)),
            AskView::States(o) => AnswerView::States((self.states)(o)),
            AskView::Extents(o) => AnswerView::Extents((self.extents)(o)),
            AskView::Window(o) => AnswerView::Window((self.window)(o)),
        }
    }

    /// The window is the one that is looked for.
    pub open spec fn suits(self, q: Quest, app_name: Seq<char>, win: ObjectView) -> bool {
        match (self.title)(win) {
            Some(title) => if q.query is Some {
                q.suits(app_name, title)
            } else {
                (self.states)(win) is Some && ((self.states)(win)->0).has(State::Active)
            },
            None => false,
        }
    }

    /// What the windows of an application from `j` on come to: the first that
    /// suits and can be read, or that suits and cannot.
    pub open spec fn in_app(
        self,
        q: Quest,
        app_name: Seq<char>,
        wins: Seq<ObjectView>,
        j: nat,
    ) -> Option<Outcome>
        decreases wins.len() - j,
    {
        if j >= wins.len() {
            None
        } else if self.suits(q, app_name, wins[j as int]) && (self.window)(
            wins[j as int],
        ) is Some {
            match (self.window)(wins[j as int])->0 {
                Ok(w) => Some(
                    Ok(
                        Some(
                            q.found(
                                wins[j as int],
                                w,
                                app_name,
                                (self.title)(wins[j as int])->0,
                            ),
                        ),
                    ),
                ),
                Err(e) => Some(Err(e)),
            }
        } else {
            self.in_app(q, app_name, wins, j + 1)
        }
    }

    /// What the applications from `i` on come to.
    pub open spec fn among(self, q: Quest, apps: Seq<ObjectView>, i: nat) -> Outcome
        decreases apps.len() - i,
    {
        if i >= apps.len() {
            Ok(None)
        } else {
            match (self.windows)(apps[i as int]) {
                Some((wins, app_name)) => match self.in_app(q, app_name, wins, 0) {
                    Some(r) => r,
                    None => self.among(q, apps, i + 1),
                },
                None => self.among(q, apps, i + 1),
            }
        }
    }

    /// What a search of the applications comes to.
    pub open spec fn found(self, q: Quest) -> Outcome {
        match self.apps {
            Ok(apps) => self.among(q, q.searched(apps), 0),
            Err(e) => Err(e),
        }
    }

    /// The focused window: the one that was activated last if it can still be
    /// read, else the first that says it is active.
    pub open spec fn focused(self, held: Option<ObjectView>) -> Outcome {
        let q = Quest { query: None, only: None };
        match held {
            Some(o) => match (self.window)(o) {
                Some(Ok(w)) => Ok(Some(w.frame(o, FocusSource::Activate))),
                _ => self.found(q),
            },
            None => self.found(q),
        }
    }

    /// How much speaks for a window: its title, and its size where that is
    /// known.
    pub open spec fn score(self, p: PickView, win: ObjectView) -> nat {
        match (self.title)(win) {
            Some(name) => {
                let score = seek::likeness(text::lowercase(name), p.wanted);
                if p.weighs_size() && (self.extents)(win) is Some && seek::sized(
                    (self.extents)(win)->0,
                    p.size,
                ) {
                    score + 3
                } else {
                    score
                }
            },
            None => 0,
        }
    }

    /// Every window from the one that is being looked at on is weighed.
    pub open spec fn weighed(self, p: PickView) -> PickView
        decreases p.wins.len() - p.j,
    {
        if p.j >= p.wins.len() {
            p
        } else {
            self.weighed(p.weighed(self.score(p, p.wins[p.j as int])))
        }
    }

    /// The window of an application that is meant, and how sure that is.
    pub open spec fn meant(self, n: Named, wins: Seq<ObjectView>) -> (ObjectView, FocusSource) {
        if wins.len() == 1 {
            (wins[0], FocusSource::Compositor)
        } else {
            self.weighed(
                PickView {
                    wanted: n.key(),
                    size: n.size,
                    wins,
                    j: 0,
                    best: None,
                    scored: None,
                },
            ).chosen()
        }
    }

    /// The application's window is read and is of the right size.
    pub open spec fn accepted(
        self,
        n: Named,
        win: ObjectView,
        focus: FocusSource,
    ) -> Option<Result<FrameView, ErrorView>> {
        match (self.window)(win) {
            Some(Ok(w)) => if n.size != (0i32, 0i32) && !seek::sized(w.bounds, n.size) {
                None
            } else {
                Some(Ok(w.frame(win, focus)))
            },
            Some(Err(e)) => Some(Err(e)),
            None => None,
        }
    }

    /// The application is the process's.
    pub open spec fn owned(self, n: Named, app: ObjectView, known: Option<Seq<char>>) -> bool {
        app.name is Some && (known == app.name || (n.pid != 0 && (self.pid)(app.name->0) == Some(
            n.pid,
        )))
    }

    /// What the window of an application that is the process's comes to, if
    /// to anything.
    pub open spec fn of_app(
        self,
        n: Named,
        app: ObjectView,
        known: Option<Seq<char>>,
    ) -> Option<Outcome> {
        match (self.windows)(app) {
            Some((wins, app_name)) => if wins.len() == 0 {
                None
            } else {
                let (win, focus) = self.meant(n, wins);
                match self.accepted(n, win, focus) {
                    Some(Ok(f)) => Some(
                        Ok(
                            Some(
                                search::belonging(
                                    FrameView { pid_memo: known is Some && known == app.name, ..f },
                                    app_name,
                                ),
                            ),
                        ),
                    ),
                    Some(Err(e)) => Some(Err(e)),
                    None => None,
                }
            },
            None => None,
        }
    }

    /// What the applications from `i` on come to, and what is remembered.
    pub open spec fn by_pid(
        self,
        n: Named,
        m: MirrorView,
        apps: Seq<ObjectView>,
        i: nat,
        known: Option<Seq<char>>,
    ) -> (Outcome, MirrorView)
        decreases apps.len() - i,
    {
        if i >= apps.len() {
            self.by_title(n, m, false)
        } else if self.owned(n, apps[i as int], known) {
            let m = MirrorView {
                app_for_pid: m.app_for_pid.insert(n.pid, apps[i as int].name->0),
                ..m
            };
            match self.of_app(n, apps[i as int], known) {
                Some(r) => (r, m),
                None => self.by_pid(n, m, apps, i + 1, known),
            }
        } else {
            self.by_pid(n, m, apps, i + 1, known)
        }
    }

    /// What the title alone comes to.
    pub open spec fn by_title(self, n: Named, m: MirrorView, hopeless: bool) -> (
        Outcome,
        MirrorView,
    ) {
        let m = if !hopeless && n.pid != 0 {
            MirrorView { pid_without_app: m.pid_without_app.insert(n.pid), ..m }
        } else {
            m
        };
        if n.title.len() == 0 {
            (Ok(None), m)
        } else {
            match mirror::looked_up(m.app_for_title, n.key()) {
                Some(bus) => self.again(n, m, bus),
                None => self.everywhere(n, m),
            }
        }
    }

    /// What the connection that answered the title last comes to.
    pub open spec fn again(self, n: Named, m: MirrorView, bus: Seq<char>) -> (Outcome, MirrorView) {
        self.after_again(n, m, self.found(Quest { query: Some(n.key()), only: Some(bus) }))
    }

    /// A memo that did not pay off is forgotten, and every connection is
    /// searched.
    pub open spec fn after_again(self, n: Named, m: MirrorView, r: Outcome) -> (
        Outcome,
        MirrorView,
    ) {
        match r {
            Ok(Some(f)) => (Ok(Some(FrameView { title_memo: true, ..f })), m),
            _ => self.everywhere(
                n,
                MirrorView {
                    app_for_title: m.app_for_title.remove(n.key()),
                    pid_without_app: m.pid_without_app.remove(n.pid),
                    ..m
                },
            ),
        }
    }

    /// What every connection comes to.
    pub open spec fn everywhere(self, n: Named, m: MirrorView) -> (Outcome, MirrorView) {
        self.after_all(n, m, self.found(Quest { query: Some(n.key()), only: None }))
    }

    /// Which connection answered is remembered.
    pub open spec fn after_all(self, n: Named, m: MirrorView, r: Outcome) -> (Outcome, MirrorView) {
        match r {
            Ok(Some(f)) => (
                Ok(Some(f)),
                MirrorView { app_for_title: m.app_for_title.insert(n.key(), f.bus_name), ..m },
            ),
            _ => (r, m),
        }
    }

    /// The window the compositor named, and what is remembered of finding it.
    pub open spec fn sought(self, n: Named, m: MirrorView) -> (Outcome, MirrorView) {
        match self.apps {
            Err(e) => (Err(e), m),
            Ok(apps) => if n.hopeless(m) {
                self.by_title(n, m, true)
            } else {
                match mirror::looked_up(m.app_for_pid, n.pid) {
                    Some(name) => if n.pid != 0 && (self.pid)(name) == Some(n.pid) {
                        self.by_pid(n, m, seek::first_of(apps, name), 0, Some(name))
                    } else {
                        self.by_pid(n, n.forgotten(m), apps, 0, None)
                    },
                    None => self.by_pid(n, m, apps, 0, None),
                }
            },
        }
    }
}

/// A conversation with a desktop, of `k` answers at most.
pub open spec fn searched(d: Desktop, q: Quest, stage: search::StageView, k: nat) -> search::StageView
    decreases k,
{
    if k == 0 || stage is Done {
        stage
    } else {
        searched(d, q, q.answered(stage, d.answer(q.ask(stage)->0)), (k - 1) as nat)
    }
}

/// A conversation with a desktop, of `k` answers at most, and what is
/// remembered of it.
pub open spec fn talked(
    d: Desktop,
    n: Named,
    m: MirrorView,
    stage: seek::StageView,
    k: nat,
) -> (seek::StageView, MirrorView)
    decreases k,
{
    if k == 0 || stage is Done {
        (stage, m)
    } else {
        let (next, m2) = n.answered(m, stage, d.answer(n.ask(stage)->0));
        talked(d, n, m2, next, (k - 1) as nat)
    }
}

/// What is still to come of a stage of a search.
spec fn coming(d: Desktop, q: Quest, stage: search::StageView) -> Outcome {
    match stage {
        search::StageView::Held(o) => match (d.window)(o) {
            Some(Ok(w)) => Ok(Some(w.frame(o, FocusSource::Activate))),
            _ => d.found(q),
        },
        search::StageView::Apps => d.found(q),
        search::StageView::Windows { apps, i } => d.among(q, apps, i),
        search::StageView::Title { apps, i, app_name, wins, j } => or_next(
            d,
            q,
            apps,
            i,
            d.in_app(q, app_name, wins, j),
        ),
        search::StageView::States { apps, i, app_name, wins, j, .. } => or_next(
            d,
            q,
            apps,
            i,
            d.in_app(q, app_name, wins, j),
        ),
        search::StageView::Window { apps, i, app_name, wins, j, .. } => or_next(
            d,
            q,
            apps,
            i,
            d.in_app(q, app_name, wins, j),
        ),
        search::StageView::Done(r) => r,
    }
}

spec fn or_next(d: Desktop, q: Quest, apps: Seq<ObjectView>, i: nat, r: Option<Outcome>) -> Outcome {
    match r {
        Some(r) => r,
        None => d.among(q, apps, i + 1),
    }
}

/// What a stage of a search can be.
spec fn sound(d: Desktop, q: Quest, stage: search::StageView) -> bool {
    match stage {
        search::StageView::Windows { apps, i } => i < apps.len(),
        search::StageView::Title { apps, i, wins, j, .. } => i < apps.len() && j < wins.len(),
        search::StageView::States { apps, i, wins, j, title, .. } => {
            &&& i < apps.len() && j < wins.len()
            &&& q.query is None
            &&& (d.title)(wins[j as int]) == Some(title)
        },
        search::StageView::Window { apps, i, app_name, wins, j, title } => {
            &&& i < apps.len() && j < wins.len()
            &&& d.suits(q, app_name, wins[j as int])
            &&& (d.title)(wins[j as int]) == Some(title)
        },
        _ => true,
    }
}

/// How far a stage of a search is from its end, in its first part.
spec fn far1(stage: search::StageView) -> nat {
    match stage {
        search::StageView::Held(_) => 2,
        search::StageView::Apps => 1,
        _ => 0,
    }
}

/// In its second part: the applications still to be looked at.
spec fn far2(stage: search::StageView) -> nat {
    match stage {
        search::StageView::Windows { apps, i } => (apps.len() - i) as nat,
        search::StageView::Title { apps, i, .. } => (apps.len() - i) as nat,
        search::StageView::States { apps, i, .. } => (apps.len() - i) as nat,
        search::StageView::Window { apps, i, .. } => (apps.len() - i) as nat,
        _ => 0,
    }
}

/// In its third part: whether the windows are still to be asked for.
spec fn far3(stage: search::StageView) -> nat {
    if stage is Windows {
        1
    } else {
        0
    }
}

/// In its fourth part: the windows still to be looked at, and what of them.
spec fn far4(stage: search::StageView) -> nat {
    match stage {
        search::StageView::Title { wins, j, .. } => (3 * (wins.len() - j) + 2) as nat,
        search::StageView::States { wins, j, .. } => (3 * (wins.len() - j) + 1) as nat,
        search::StageView::Window { wins, j, .. } => (3 * (wins.len() - j)) as nat,
        _ => 0,
    }
}

/// Closer to its end.
spec fn nearer(a: search::StageView, b: search::StageView) -> bool {
    ||| far1(a) < far1(b)
    ||| far1(a) == far1(b) && far2(a) < far2(b)
    ||| far1(a) == far1(b) && far2(a) == far2(b) && far3(a) < far3(b)
    ||| far1(a) == far1(b) && far2(a) == far2(b) && far3(a) == far3(b) && far4(a) < far4(b)
}

/// Looking at the next application changes nothing about what is to come.
proof fn lemma_search_app(d: Desktop, q: Quest, apps: Seq<ObjectView>, i: nat)
    ensures
        sound(d, q, q.at_app(apps, i)),
        coming(d, q, q.at_app(apps, i)) == d.among(q, apps, i),
        q.at_app(apps, i) is Done || (far1(q.at_app(apps, i)) == 0 && far2(q.at_app(apps, i))
            == apps.len() - i && far3(q.at_app(apps, i)) == 1),
{
}

/// Nor does looking at the next window.
proof fn lemma_search_window(
    d: Desktop,
    q: Quest,
    apps: Seq<ObjectView>,
    i: nat,
    app_name: Seq<char>,
    wins: Seq<ObjectView>,
    j: nat,
)
    requires
        i < apps.len(),
    ensures
        ({
            let next = q.at_window(apps, i, app_name, wins, j);
            &&& sound(d, q, next)
            &&& coming(d, q, next) == or_next(d, q, apps, i, d.in_app(q, app_name, wins, j))
            &&& next is Done || (far1(next) == 0 && (far2(next) < apps.len() - i || (far2(next)
                == apps.len() - i && far3(next) == 0 && far4(next) == 3 * (wins.len() - j) + 2)))
        }),
{
    lemma_search_app(d, q, apps, i + 1);
}

proof fn lemma_search_step(d: Desktop, q: Quest, stage: search::StageView)
    requires
        sound(d, q, stage),
        !(stage is Done),
    ensures
        ({
            let next = q.answered(stage, d.answer(q.ask(stage)->0));
            &&& sound(d, q, next)
            &&& coming(d, q, next) == coming(d, q, stage)
            &&& next is Done || nearer(next, stage)
        }),
{
    let answer = d.answer(q.ask(stage)->0);
    let next = q.answered(stage, answer);
    match stage {
        search::StageView::Held(o) => {},
        search::StageView::Apps => {
            match d.apps {
                Ok(apps) => {
                    lemma_search_app(d, q, q.searched(apps), 0);
                },
                Err(_) => {},
            }
        },
        search::StageView::Windows { apps, i } => {
            match (d.windows)(apps[i as int]) {
                Some((wins, app_name)) => {
                    lemma_search_window(d, q, apps, i, app_name, wins, 0);
                },
                None => {
                    lemma_search_app(d, q, apps, i + 1);
                },
            }
        },
        search::StageView::Title { apps, i, app_name, wins, j } => {
            lemma_search_window(d, q, apps, i, app_name, wins, j + 1);
        },
        search::StageView::States { apps, i, app_name, wins, j, title } => {
            lemma_search_window(d, q, apps, i, app_name, wins, j + 1);
        },
        search::StageView::Window { apps, i, app_name, wins, j, title } => {
            lemma_search_window(d, q, apps, i, app_name, wins, j + 1);
        },
        search::StageView::Done(_) => {},
    }
}

proof fn lemma_searched(d: Desktop, q: Quest, stage: search::StageView) -> (k: nat)
    requires
        sound(d, q, stage),
    ensures
        searched(d, q, stage, k) == search::StageView::Done(coming(d, q, stage)),
    decreases far1(stage), far2(stage), far3(stage), far4(stage), if stage is Done { 0nat } else { 1 },
{
    if stage is Done {
        0
    } else {
        lemma_search_step(d, q, stage);
        let next = q.answered(stage, d.answer(q.ask(stage)->0));
        if next is Done {
            assert(searched(d, q, next, 0) == next);
            1
        } else {
            let k = lemma_searched(d, q, next);
            k + 1
        }
    }
}

/// A search for a name, or for the active window, comes to an end and to what
/// the desktop holds.
pub proof fn a_search_finds_what_there_is(d: Desktop, q: Quest) -> (k: nat)
    ensures
        searched(d, q, search::StageView::Apps, k) == search::StageView::Done(d.found(q)),
{
    lemma_searched(d, q, search::StageView::Apps)
}

/// So does the search for the focused window.
pub proof fn the_focus_is_found(d: Desktop, held: Option<ObjectView>) -> (k: nat)
    ensures
        ({
            let start = match held {
                Some(o) => search::StageView::Held(o),
                None => search::StageView::Apps,
            };
            searched(d, Quest { query: None, only: None }, start, k) == search::StageView::Done(
                d.focused(held),
            )
        }),
{
    let start = match held {
        Some(o) => search::StageView::Held(o),
        None => search::StageView::Apps,
    };
    lemma_searched(d, Quest { query: None, only: None }, start)
}

/// What is still to come of a stage of the search for a window, and what is
/// remembered.
spec fn ahead(d: Desktop, n: Named, m: MirrorView, stage: seek::StageView) -> (Outcome, MirrorView) {
    match stage {
        seek::StageView::Apps => d.sought(n, m),
        seek::StageView::Memo { apps, name } => if (d.pid)(name) == Some(n.pid) {
            d.by_pid(n, m, seek::first_of(apps, name), 0, Some(name))
        } else {
            d.by_pid(n, n.forgotten(m), apps, 0, None)
        },
        seek::StageView::Pid { apps, i, known } => d.by_pid(n, m, apps, i, known),
        seek::StageView::Windows { apps, i, known } => pid_next(
            d,
            n,
            m,
            apps,
            i,
            known,
            d.of_app(n, apps[i as int], known),
        ),
        seek::StageView::Picking { apps, i, known, app_name, pick } => {
            let (win, focus) = d.weighed(settled_pick(d, pick)).chosen();
            pid_next(d, n, m, apps, i, known, of_window(d, n, apps, i, known, app_name, win, focus))
        },
        seek::StageView::Window { apps, i, known, app_name, win, focus } => pid_next(
            d,
            n,
            m,
            apps,
            i,
            known,
            of_window(d, n, apps, i, known, app_name, win, focus),
        ),
        seek::StageView::Again(q, s) => d.after_again(n, m, coming(d, q, s)),
        seek::StageView::Everywhere(q, s) => d.after_all(n, m, coming(d, q, s)),
        seek::StageView::Done(r) => (r, m),
    }
}

/// A pick that waits for extents has them already, for what is to come.
spec fn settled_pick(d: Desktop, p: PickView) -> PickView {
    match p.scored {
        Some(_) => PickView { scored: None, ..p },
        None => p,
    }
}

spec fn of_window(
    d: Desktop,
    n: Named,
    apps: Seq<ObjectView>,
    i: nat,
    known: Option<Seq<char>>,
    app_name: Seq<char>,
    win: ObjectView,
    focus: FocusSource,
) -> Option<Outcome> {
    match d.accepted(n, win, focus) {
        Some(Ok(f)) => Some(
            Ok(
                Some(
                    search::belonging(
                        FrameView {
                            pid_memo: known is Some && known == apps[i as int].name,
                            ..f
                        },
                        app_name,
                    ),
                ),
            ),
        ),
        Some(Err(e)) => Some(Err(e)),
        None => None,
    }
}

spec fn pid_next(
    d: Desktop,
    n: Named,
    m: MirrorView,
    apps: Seq<ObjectView>,
    i: nat,
    known: Option<Seq<char>>,
    r: Option<Outcome>,
) -> (Outcome, MirrorView) {
    match r {
        Some(r) => (r, m),
        None => d.by_pid(n, m, apps, i + 1, known),
    }
}

/// What a stage of the search for a window can be.
spec fn steady(d: Desktop, n: Named, stage: seek::StageView) -> bool {
    match stage {
        seek::StageView::Memo { .. } => n.pid != 0,
        seek::StageView::Pid { apps, i, known } => {
            &&& i < apps.len()
            &&& n.pid != 0
            &&& apps[i as int].name is Some
            &&& known != apps[i as int].name
        },
        seek::StageView::Windows { apps, i, known } => i < apps.len() && apps[i as int].name is Some,
        seek::StageView::Picking { apps, i, pick, .. } => {
            &&& i < apps.len()
            &&& pick.j < pick.wins.len()
            &&& pick.scored matches Some(s) ==> pick.weighs_size() && (d.title)(
                pick.wins[pick.j as int],
            ) is Some && s == seek::likeness(
                text::lowercase((d.title)(pick.wins[pick.j as int])->0),
                pick.wanted,
            )
        },
        seek::StageView::Window { apps, i, .. } => i < apps.len(),
        seek::StageView::Again(q, s) => {
            &&& q.query == Some(n.key())
            &&& sound(d, q, s)
            &&& !(s is Done)
        },
        seek::StageView::Everywhere(q, s) => {
            &&& q == (Quest { query: Some(n.key()), only: None })
            &&& sound(d, q, s)
            &&& !(s is Done)
        },
        _ => true,
    }
}

/// How far a stage is from its end, in its first part.
spec fn way1(stage: seek::StageView) -> nat {
    match stage {
        seek::StageView::Apps => 5,
        seek::StageView::Memo { .. } => 4,
        seek::StageView::Again(..) => 2,
        seek::StageView::Everywhere(..) => 1,
        seek::StageView::Done(_) => 0,
        _ => 3,
    }
}

/// In its second part: the applications still to be looked at, or the first
/// part of a search.
spec fn way2(stage: seek::StageView) -> nat {
    match stage {
        seek::StageView::Pid { apps, i, .. } => (apps.len() - i) as nat,
        seek::StageView::Windows { apps, i, .. } => (apps.len() - i) as nat,
        seek::StageView::Picking { apps, i, .. } => (apps.len() - i) as nat,
        seek::StageView::Window { apps, i, .. } => (apps.len() - i) as nat,
        seek::StageView::Again(_, s) => far1(s),
        seek::StageView::Everywhere(_, s) => far1(s),
        _ => 0,
    }
}

/// In its third part: what of the application, or the second part of a
/// search.
spec fn way3(stage: seek::StageView) -> nat {
    match stage {
        seek::StageView::Pid { .. } => 3,
        seek::StageView::Windows { .. } => 2,
        seek::StageView::Picking { .. } => 1,
        seek::StageView::Again(_, s) => far2(s),
        seek::StageView::Everywhere(_, s) => far2(s),
        _ => 0,
    }
}

/// In its fourth part: the windows still to be weighed, or the third part of
/// a search.
spec fn way4(stage: seek::StageView) -> nat {
    match stage {
        seek::StageView::Picking { pick, .. } => (2 * (pick.wins.len() - pick.j) + if pick.scored
            is Some {
            0int
        } else {
            1
        }) as nat,
        seek::StageView::Again(_, s) => far3(s),
        seek::StageView::Everywhere(_, s) => far3(s),
        _ => 0,
    }
}

/// In its fifth part: the fourth of a search.
spec fn way5(stage: seek::StageView) -> nat {
    match stage {
        seek::StageView::Again(_, s) => far4(s),
        seek::StageView::Everywhere(_, s) => far4(s),
        _ => 0,
    }
}

proof fn lemma_at_title(d: Desktop, n: Named, m: MirrorView, hopeless: bool)
    ensures
        ({
            let (next, m2) = n.at_title(m, hopeless);
            &&& steady(d, n, next)
            &&& ahead(d, n, m2, next) == d.by_title(n, m, hopeless)
            &&& way1(next) <= 2
        }),
{
}

proof fn lemma_at_app(
    d: Desktop,
    n: Named,
    m: MirrorView,
    apps: Seq<ObjectView>,
    i: nat,
    known: Option<Seq<char>>,
)
    ensures
        ({
            let (next, m2) = n.at_app(m, apps, i, known);
            &&& steady(d, n, next)
            &&& ahead(d, n, m2, next) == d.by_pid(n, m, apps, i, known)
            &&& way1(next) <= 3
            &&& way1(next) == 3 ==> way2(next) <= apps.len() - i
        }),
    decreases apps.len() - i,
{
    if i >= apps.len() {
        lemma_at_title(d, n, m, false);
    } else {
        match apps[i as int].name {
            None => {
                lemma_at_app(d, n, m, apps, i + 1, known);
            },
            Some(bus) => {
                if known == Some(bus) {
                } else if n.pid == 0 {
                    lemma_at_app(d, n, m, apps, i + 1, known);
                }
            },
        }
    }
}

/// Closer to its end.
spec fn shorter(a: seek::StageView, b: seek::StageView) -> bool {
    ||| way1(a) < way1(b)
    ||| way1(a) == way1(b) && way2(a) < way2(b)
    ||| way1(a) == way1(b) && way2(a) == way2(b) && way3(a) < way3(b)
    ||| way1(a) == way1(b) && way2(a) == way2(b) && way3(a) == way3(b) && way4(a) < way4(b)
    ||| way1(a) == way1(b) && way2(a) == way2(b) && way3(a) == way3(b) && way4(a) == way4(b)
        && way5(a) < way5(b)
}

proof fn lemma_pick_step(d: Desktop, p: PickView)
    requires
        p.j < p.wins.len(),
        p.scored matches Some(s) ==> p.weighs_size() && (d.title)(p.wins[p.j as int]) is Some && s
            == seek::likeness(text::lowercase((d.title)(p.wins[p.j as int])->0), p.wanted),
    ensures
        ({
            let next = p.answered(d.answer(p.ask()));
            &&& next.wins == p.wins
            &&& d.weighed(settled_pick(d, next)) == d.weighed(settled_pick(d, p))
            &&& (next.scored is Some && p.scored is None && next == PickView {
                scored: next.scored,
                ..p
            }) || (next.scored is None && next.j == p.j + 1)
            &&& next.scored matches Some(s) ==> next.weighs_size() && (d.title)(
                next.wins[next.j as int],
            ) is Some && s == seek::likeness(
                text::lowercase((d.title)(next.wins[next.j as int])->0),
                next.wanted,
            )
        }),
{
    let next = p.answered(d.answer(p.ask()));
    let win = p.wins[p.j as int];
    let base = settled_pick(d, p);
    if next.scored is None {
        assert(d.weighed(base) == d.weighed(base.weighed(d.score(base, win))));
        assert(next == base.weighed(d.score(base, win)));
    } else {
        assert(settled_pick(d, next) == base);
    }
}

proof fn lemma_step(d: Desktop, n: Named, m: MirrorView, stage: seek::StageView)
    requires
        steady(d, n, stage),
        !(stage is Done),
    ensures
        ({
            let (next, m2) = n.answered(m, stage, d.answer(n.ask(stage)->0));
            &&& steady(d, n, next)
            &&& ahead(d, n, m2, next) == ahead(d, n, m, stage)
            &&& next is Done || shorter(next, stage)
        }),
{
    let answer = d.answer(n.ask(stage)->0);
    match stage {
        seek::StageView::Apps => {
            match d.apps {
                Ok(apps) => {
                    if n.hopeless(m) {
                        lemma_at_title(d, n, m, true);
                    } else {
                        lemma_at_app(d, n, m, apps, 0, None);
                        lemma_at_app(d, n, n.forgotten(m), apps, 0, None);
                    }
                },
                Err(_) => {},
            }
        },
        seek::StageView::Memo { apps, name } => {
            lemma_at_app(d, n, m, seek::first_of(apps, name), 0, Some(name));
            lemma_at_app(d, n, n.forgotten(m), apps, 0, None);
        },
        seek::StageView::Pid { apps, i, known } => {
            lemma_at_app(d, n, m, apps, i + 1, known);
        },
        seek::StageView::Windows { apps, i, known } => {
            lemma_at_app(d, n, m, apps, i + 1, known);
        },
        seek::StageView::Picking { apps, i, known, app_name, pick } => {
            lemma_pick_step(d, pick);
            let next = pick.answered(answer);
            if next.j >= next.wins.len() {
                assert(d.weighed(settled_pick(d, next)) == next);
            }
        },
        seek::StageView::Window { apps, i, known, app_name, win, focus } => {
            lemma_at_app(d, n, m, apps, i + 1, known);
        },
        seek::StageView::Again(q, s) => {
            lemma_search_step(d, q, s);
        },
        seek::StageView::Everywhere(q, s) => {
            lemma_search_step(d, q, s);
        },
        seek::StageView::Done(_) => {},
    }
}

proof fn lemma_talked(d: Desktop, n: Named, m: MirrorView, stage: seek::StageView) -> (k: nat)
    requires
        steady(d, n, stage),
    ensures
        talked(d, n, m, stage, k) == (
            seek::StageView::Done(ahead(d, n, m, stage).0),
            ahead(d, n, m, stage).1,
        ),
    decreases way1(stage), way2(stage), way3(stage), way4(stage), way5(stage),
{
    if stage is Done {
        0
    } else {
        lemma_step(d, n, m, stage);
        let (next, m2) = n.answered(m, stage, d.answer(n.ask(stage)->0));
        if next is Done {
            assert(talked(d, n, m2, next, 0) == (next, m2));
            1
        } else {
            let k = lemma_talked(d, n, m2, next);
            k + 1
        }
    }
}

/// The search for the window the compositor named comes to an end, to what
/// the desktop holds, and remembers what it is to remember.
pub proof fn the_named_window_is_found(d: Desktop, n: Named, m: MirrorView) -> (k: nat)
    ensures
        talked(d, n, m, seek::StageView::Apps, k) == (
            seek::StageView::Done(d.sought(n, m).0),
            d.sought(n, m).1,
        ),
{
    lemma_talked(d, n, m, seek::StageView::Apps)
}

/// What a search for a text finds is called a guess.
proof fn lemma_found_is_named(d: Desktop, q: Quest)
    requires
        q.query is Some,
    ensures
        d.found(q) matches Ok(Some(f)) ==> f.focus == FocusSource::Named,
{
    match d.apps {
        Ok(apps) => {
            lemma_among_is_named(d, q, q.searched(apps), 0);
        },
        Err(_) => {},
    }
}

proof fn lemma_among_is_named(d: Desktop, q: Quest, apps: Seq<ObjectView>, i: nat)
    requires
        q.query is Some,
    ensures
        d.among(q, apps, i) matches Ok(Some(f)) ==> f.focus == FocusSource::Named,
    decreases apps.len() - i,
{
    if i < apps.len() {
        match (d.windows)(apps[i as int]) {
            Some((wins, app_name)) => {
                lemma_in_app_is_named(d, q, app_name, wins, 0);
            },
            None => {},
        }
        lemma_among_is_named(d, q, apps, i + 1);
    }
}

proof fn lemma_in_app_is_named(
    d: Desktop,
    q: Quest,
    app_name: Seq<char>,
    wins: Seq<ObjectView>,
    j: nat,
)
    requires
        q.query is Some,
    ensures
        d.in_app(q, app_name, wins, j) matches Some(Ok(Some(f))) ==> f.focus == FocusSource::Named,
    decreases wins.len() - j,
{
    if j < wins.len() {
        lemma_in_app_is_named(d, q, app_name, wins, j + 1);
    }
}

/// A window that only its title speaks for is called a guess.
pub proof fn a_title_alone_is_a_guess(d: Desktop, n: Named, m: MirrorView, hopeless: bool)
    ensures
        d.by_title(n, m, hopeless).0 matches Ok(Some(f)) ==> f.focus == FocusSource::Named,
{
    lemma_found_is_named(d, Quest { query: Some(n.key()), only: None });
    match mirror::looked_up(m.app_for_title, n.key()) {
        Some(bus) => {
            lemma_found_is_named(d, Quest { query: Some(n.key()), only: Some(bus) });
        },
        None => {},
    }
}

proof fn lemma_by_pid_size(
    d: Desktop,
    n: Named,
    m: MirrorView,
    apps: Seq<ObjectView>,
    i: nat,
    known: Option<Seq<char>>,
)
    ensures
        d.by_pid(n, m, apps, i, known).0 matches Ok(Some(f)) ==> (f.focus
            == FocusSource::Compositor ==> n.size == (0i32, 0i32) || seek::sized(f.bounds, n.size)),
    decreases apps.len() - i,
{
    if i >= apps.len() {
        a_title_alone_is_a_guess(d, n, m, false);
    } else {
        let m2 = MirrorView {
            app_for_pid: m.app_for_pid.insert(n.pid, apps[i as int].name->0),
            ..m
        };
        lemma_by_pid_size(d, n, m, apps, i + 1, known);
        lemma_by_pid_size(d, n, m2, apps, i + 1, known);
    }
}

/// A window that is said to be the compositor's has the compositor's size,
/// where that is known: the process alone never decides it.
pub proof fn a_sure_match_has_the_right_size(d: Desktop, n: Named, m: MirrorView)
    ensures
        d.sought(n, m).0 matches Ok(Some(f)) ==> (f.focus == FocusSource::Compositor ==> n.size == (
            0i32,
            0i32,
        ) || seek::sized(f.bounds, n.size)),
{
    match d.apps {
        Ok(apps) => {
            a_title_alone_is_a_guess(d, n, m, true);
            lemma_by_pid_size(d, n, m, apps, 0, None);
            lemma_by_pid_size(d, n, n.forgotten(m), apps, 0, None);
            match mirror::looked_up(m.app_for_pid, n.pid) {
                Some(name) => {
                    lemma_by_pid_size(d, n, m, seek::first_of(apps, name), 0, Some(name));
                },
                None => {},
            }
        },
        Err(_) => {},
    }
}

/// None of the applications is the process's.
pub open spec fn unowned(d: Desktop, n: Named, apps: Seq<ObjectView>) -> bool {
    forall|i: int|
        0 <= i < apps.len() && (#[trigger] apps[i]).name is Some ==> (d.pid)(apps[i].name->0)
            != Some(n.pid)
}

proof fn lemma_unowned(
    d: Desktop,
    n: Named,
    m: MirrorView,
    apps: Seq<ObjectView>,
    i: nat,
    known: Option<Seq<char>>,
)
    requires
        unowned(d, n, apps),
        known is Some ==> (d.pid)(known->0) == Some(n.pid),
        n.title.len() == 0,
    ensures
        d.by_pid(n, m, apps, i, known).0 == Ok::<Option<FrameView>, ErrorView>(None),
    decreases apps.len() - i,
{
    if i < apps.len() {
        assert(!d.owned(n, apps[i as int], known));
        lemma_unowned(d, n, m, apps, i + 1, known);
    }
}

/// What is left of a list was in it.
proof fn lemma_filtered(apps: Seq<ObjectView>, keep: spec_fn(ObjectView) -> bool, i: int)
    requires
        0 <= i < apps.filter(keep).len(),
    ensures
        apps.contains(apps.filter(keep)[i]),
    decreases apps.len(),
{
    reveal(Seq::filter);
    if apps.len() > 0 {
        let rest = apps.drop_last();
        if i < rest.filter(keep).len() {
            lemma_filtered(rest, keep, i);
            let k = rest.index_of(rest.filter(keep)[i]);
            assert(apps[k] == rest.filter(keep)[i]);
        } else {
            assert(apps[apps.len() - 1] == apps.filter(keep)[i]);
        }
    }
}

/// Without an application of the process and without a title there is no
/// window: nothing is guessed from nothing.
pub proof fn an_empty_title_is_a_refusal(d: Desktop, n: Named, m: MirrorView)
    requires
        n.title.len() == 0,
        d.apps is Ok,
        unowned(d, n, d.apps->Ok_0),
    ensures
        d.sought(n, m).0 == Ok::<Option<FrameView>, ErrorView>(None),
{
    let apps = d.apps->Ok_0;
    lemma_unowned(d, n, m, apps, 0, None);
    lemma_unowned(d, n, n.forgotten(m), apps, 0, None);
    match mirror::looked_up(m.app_for_pid, n.pid) {
        Some(name) => {
            if (d.pid)(name) == Some(n.pid) {
                let ordered = seek::first_of(apps, name);
                assert forall|i: int| 0 <= i < ordered.len() implies apps.contains(
                    #[trigger] ordered[i],
                ) by {
                    let (a, b) = (
                        apps.filter(|o: ObjectView| o.name == Some(name)),
                        apps.filter(|o: ObjectView| o.name != Some(name)),
                    );
                    if i < a.len() {
                        assert(ordered[i] == a[i]);
                        lemma_filtered(apps, |o: ObjectView| o.name == Some(name), i);
                    } else {
                        assert(ordered[i] == b[i - a.len()]);
                        lemma_filtered(apps, |o: ObjectView| o.name != Some(name), i - a.len());
                    }
                }
                assert forall|i: int|
                    0 <= i < ordered.len() && (#[trigger] ordered[i]).name is Some implies (d.pid)(
                    ordered[i].name->0,
                ) != Some(n.pid) by {
                    assert(apps.contains(ordered[i]));
                    let k = apps.index_of(ordered[i]);
                    assert(apps[k] == ordered[i]);
                }
                lemma_unowned(d, n, m, ordered, 0, Some(name));
            }
        },
        None => {},
    }
}

/// What is best of the windows before the one that is being looked at.
spec fn leading(d: Desktop, p: PickView) -> bool {
    &&& p.scored is None
    &&& match p.best {
        Some((s, i)) => {
            &&& s > 0
            &&& i < p.j
            &&& i < p.wins.len()
            &&& d.score(p, p.wins[i as int]) == s
            &&& forall|k: int|
                0 <= k < p.j && k < p.wins.len() ==> d.score(p, #[trigger] p.wins[k]) <= s
            &&& forall|k: int| 0 <= k < i ==> d.score(p, #[trigger] p.wins[k]) < s
        },
        None => forall|k: int|
            0 <= k < p.j && k < p.wins.len() ==> d.score(p, #[trigger] p.wins[k]) == 0,
    }
}

proof fn lemma_leading(d: Desktop, p: PickView)
    requires
        leading(d, p),
    ensures
        leading(d, d.weighed(p)),
        d.weighed(p).wins == p.wins,
        d.weighed(p).wanted == p.wanted,
        d.weighed(p).size == p.size,
        d.weighed(p).j >= p.wins.len(),
    decreases p.wins.len() - p.j,
{
    if p.j < p.wins.len() {
        let next = p.weighed(d.score(p, p.wins[p.j as int]));
        assert forall|win: ObjectView| d.score(next, win) == d.score(p, win) by {}
        lemma_leading(d, next);
    }
}

/// Of several windows the one that is meant has the highest score, and is the
/// first that has; where nothing speaks for any of them the first is taken,
/// and it is said that it was a guess.
pub proof fn the_likeliest_window_is_meant(d: Desktop, n: Named, wins: Seq<ObjectView>)
    requires
        wins.len() > 1,
    ensures
        ({
            let p = PickView {
                wanted: n.key(),
                size: n.size,
                wins,
                j: 0,
                best: None,
                scored: None,
            };
            let (win, focus) = d.meant(n, wins);
            if focus == FocusSource::Compositor {
                exists|i: int|
                    {
                        &&& 0 <= i < wins.len()
                        &&& win == #[trigger] wins[i]
                        &&& d.score(p, win) > 0
                        &&& forall|k: int|
                            0 <= k < wins.len() ==> d.score(p, #[trigger] wins[k]) <= d.score(
                                p,
                                win,
                            )
                        &&& forall|k: int|
                            0 <= k < i ==> d.score(p, #[trigger] wins[k]) < d.score(p, win)
                    }
            } else {
                &&& focus == FocusSource::Named
                &&& win == wins[0]
                &&& forall|k: int| 0 <= k < wins.len() ==> d.score(p, #[trigger] wins[k]) == 0
            }
        }),
{
    let p = PickView { wanted: n.key(), size: n.size, wins, j: 0, best: None, scored: None };
    lemma_leading(d, p);
    let end = d.weighed(p);
    assert forall|win: ObjectView| d.score(end, win) == d.score(p, win) by {}
    match end.best {
        Some((s, i)) => {
            assert(d.meant(n, wins).0 == wins[i as int]);
            assert forall|k: int| 0 <= k < wins.len() implies d.score(p, #[trigger] wins[k])
                <= s by {
                assert(d.score(end, end.wins[k]) <= s);
            }
            assert forall|k: int| 0 <= k < i implies d.score(p, #[trigger] wins[k]) < s by {
                assert(d.score(end, end.wins[k]) < s);
            }
        },
        None => {
            assert forall|k: int| 0 <= k < wins.len() implies d.score(p, #[trigger] wins[k])
                == 0 by {
                assert(d.score(end, end.wins[k]) == 0);
            }
        },
    }
}

} // verus!
