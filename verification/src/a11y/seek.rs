//! The window the compositor named.
//!
//! The compositor hands over a process, a title and a size. The process
//! narrows the bus to one application before any title is compared, so two
//! windows of one name in two applications cannot be confused. It is
//! **evidence, not proof**: a window whose size disagrees is not the one.
//! Where no application belongs to the process the title alone has to carry
//! it, and the result says so: [`FocusSource::Named`] is a guess.
//!
//! Asking every connection for its process is the largest cost here, so the
//! mirror remembers which connection a process has, that it has none, and
//! which connection answered a title. A memo is tried first and forgotten
//! when it does not pay off.
use vstd::prelude::*;
use vstd::string::*;

use crate::a11y::error::Error;
use crate::a11y::mirror;
use crate::a11y::mirror::{Mirror, MirrorView};
use crate::a11y::search;
use crate::a11y::search::{Answer, AnswerView, Ask, AskView, Outcome, Quest, Search};
use crate::a11y::target;
use crate::a11y::target::{FocusSource, Frame, FrameView, Object, ObjectView, WindowRect};
use crate::a11y::walk;
use crate::num;
use crate::text;

verus! {

/// How far the accessibility tree and the compositor may disagree about a
/// window's size and still be talking about the same window. Decorations and
/// shadows are the difference; a mismatched *window* is out by hundreds.
pub const SIZE_TOLERANCE: i32 = 8;

/// The rectangle is of that size, give or take the tolerance.
pub open spec fn sized(b: WindowRect, size: (i32, i32)) -> bool {
    num::magnitude(b.w - size.0) <= SIZE_TOLERANCE && num::magnitude(b.h - size.1)
        <= SIZE_TOLERANCE
}

/// Whether the rectangle is of that size, give or take the tolerance.
pub fn same_size(b: WindowRect, size: (i32, i32)) -> (r: bool)
    ensures
        r == sized(b, size),
{
    let dw: i64 = b.w as i64 - size.0 as i64;
    let dh: i64 = b.h as i64 - size.1 as i64;
    let most: i64 = SIZE_TOLERANCE as i64;
    dw <= most && -dw <= most && dh <= most && -dh <= most
}

/// How much a window's lower-case name speaks for its being the one wanted.
/// Scored rather than matched: a title changes while the lookup is under way.
pub open spec fn likeness(name: Seq<char>, wanted: Seq<char>) -> nat {
    if wanted.len() == 0 || name.len() == 0 {
        0
    } else if name == wanted {
        4
    } else if text::holds(name, wanted) || text::holds(wanted, name) {
        2
    } else {
        0
    }
}

/// How much a window's lower-case name speaks for its being the one wanted.
pub fn title_score(name: &str, wanted: &str) -> (n: u32)
    ensures
        n == likeness(name@, wanted@),
{
    if wanted.unicode_len() == 0 || name.unicode_len() == 0 {
        0
    } else if name.eq(wanted) {
        4
    } else if text::contains(name, wanted) || text::contains(wanted, name) {
        2
    } else {
        0
    }
}

/// The choice among an application's windows, under way.
#[derive(Debug)]
pub struct Pick {
    /// The lower-case title that is wanted.
    pub wanted: String,
    pub size: (i32, i32),
    pub wins: Vec<Object>,
    /// The window that is being looked at.
    pub j: usize,
    /// The best score above zero so far, and whose it is.
    pub best: Option<(u32, usize)>,
    /// Its score by title, while its extents are awaited.
    pub scored: Option<u32>,
}

/// A [`Pick`], its texts as their characters.
pub struct PickView {
    pub wanted: Seq<char>,
    pub size: (i32, i32),
    pub wins: Seq<ObjectView>,
    pub j: nat,
    pub best: Option<(nat, nat)>,
    pub scored: Option<nat>,
}

impl View for Pick {
    type V = PickView;

    open spec fn view(&self) -> PickView {
        PickView {
            wanted: self.wanted@,
            size: self.size,
            wins: walk::objects(self.wins@),
            j: self.j as nat,
            best: match self.best {
                Some((s, i)) => Some((s as nat, i as nat)),
                None => None,
            },
            scored: match self.scored {
                Some(s) => Some(s as nat),
                None => None,
            },
        }
    }
}

impl PickView {
    /// The size is known and can speak as well.
    pub open spec fn weighs_size(self) -> bool {
        self.size.0 > 0 && self.size.1 > 0
    }

    /// The next question.
    pub open spec fn ask(self) -> AskView {
        if self.scored is Some {
            AskView::Extents(self.wins[self.j as int])
        } else {
            AskView::Title(self.wins[self.j as int])
        }
    }

    /// On to the next window, this one having that score. Only a better score
    /// than any before displaces one.
    pub open spec fn weighed(self, score: nat) -> PickView {
        PickView {
            j: self.j + 1,
            best: if score > (match self.best {
                Some((s, _)) => s,
                None => 0,
            }) {
                Some((score, self.j))
            } else {
                self.best
            },
            scored: None,
            ..self
        }
    }

    /// What an answer makes of it.
    pub open spec fn answered(self, answer: AnswerView) -> PickView {
        match self.scored {
            None => match answer {
                AnswerView::Title(Some(name)) => {
                    let score = likeness(text::lowercase(name), self.wanted);
                    if self.weighs_size() {
                        PickView { scored: Some(score), ..self }
                    } else {
                        self.weighed(score)
                    }
                },
                _ => self.weighed(0),
            },
            Some(score) => match answer {
                AnswerView::Extents(Some(b)) if sized(b, self.size) => self.weighed(score + 3),
                _ => self.weighed(score),
            },
        }
    }

    /// Which window it is, once all have been looked at: the best, or as a
    /// guess the first.
    pub open spec fn chosen(self) -> (ObjectView, FocusSource) {
        match self.best {
            Some((_, i)) => (self.wins[i as int], FocusSource::Compositor),
            None => (self.wins[0], FocusSource::Named),
        }
    }
}

impl Pick {
    /// The scores stay small, and what is remembered is there.
    pub open spec fn wf(self) -> bool {
        &&& self.j <= self.wins.len()
        &&& self.best matches Some((_, i)) ==> i < self.wins.len()
        &&& self.scored matches Some(s) ==> s <= 4
    }

    fn weighed(self, score: u32) -> (next: Self)
        requires
            self.wf(),
            self.j < self.wins.len(),
        ensures
            next.wf(),
            next@ == self@.weighed(score as nat),
    {
        let most: u32 = match self.best {
            Some((s, _)) => s,
            None => 0,
        };
        let best: Option<(u32, usize)> = if score > most {
            Some((score, self.j))
        } else {
            self.best
        };
        Pick { j: self.j + 1, best, scored: None, ..self }
    }

    fn answer(self, answer: &Answer) -> (next: Self)
        requires
            self.wf(),
            self.j < self.wins.len(),
        ensures
            next.wf(),
            next@ == self@.answered(answer@),
    {
        match self.scored {
            None => match answer {
                Answer::Title(Some(name)) => {
                    let title: String = target::owned_or_empty(name);
                    let lower: String = text::to_lowercase(title.as_str());
                    let score: u32 = title_score(lower.as_str(), self.wanted.as_str());
                    if self.size.0 > 0 && self.size.1 > 0 {
                        Pick { scored: Some(score), ..self }
                    } else {
                        self.weighed(score)
                    }
                },
                _ => self.weighed(0),
            },
            Some(score) => {
                let near: bool = match answer {
                    Answer::Extents(Some(b)) => same_size(*b, self.size),
                    _ => false,
                };
                if near {
                    self.weighed(score + 3)
                } else {
                    self.weighed(score)
                }
            },
        }
    }

    fn chosen(&self) -> (r: (Object, FocusSource))
        requires
            self.wf(),
            self.wins@.len() > 0,
        ensures
            (r.0@, r.1) == self@.chosen(),
    {
        match self.best {
            Some((_, i)) => {
                assert(self@.wins[i as int] == self.wins@[i as int]@);
                (self.wins[i].clone(), FocusSource::Compositor)
            },
            None => {
                assert(self@.wins[0] == self.wins@[0]@);
                (self.wins[0].clone(), FocusSource::Named)
            },
        }
    }
}

/// How far it has come.
#[derive(Debug)]
pub enum Stage {
    Apps,
    /// Waiting whether the process still owns the connection it had.
    Memo { apps: Vec<Object>, name: String },
    /// Waiting whose the application at `i` is. `known` is a connection that
    /// was found to be the process's already.
    Pid { apps: Vec<Object>, i: usize, known: Option<String> },
    /// Waiting for the windows of the application at `i`, which is the
    /// process's.
    Windows { apps: Vec<Object>, i: usize, known: Option<String> },
    /// Choosing among its windows.
    Picking {
        apps: Vec<Object>,
        i: usize,
        known: Option<String>,
        app_name: String,
        pick: Pick,
    },
    /// Waiting for everything about the window that was chosen.
    Window {
        apps: Vec<Object>,
        i: usize,
        known: Option<String>,
        app_name: String,
        win: Object,
        focus: FocusSource,
    },
    /// Searching the connection that answered the title last.
    Again(Search),
    /// Searching every connection for the title.
    Everywhere(Search),
    Done(Result<Option<Frame>, Error>),
}

/// A [`Stage`], its texts as their characters.
pub enum StageView {
    Apps,
    Memo { apps: Seq<ObjectView>, name: Seq<char> },
    Pid { apps: Seq<ObjectView>, i: nat, known: Option<Seq<char>> },
    Windows { apps: Seq<ObjectView>, i: nat, known: Option<Seq<char>> },
    Picking {
        apps: Seq<ObjectView>,
        i: nat,
        known: Option<Seq<char>>,
        app_name: Seq<char>,
        pick: PickView,
    },
    Window {
        apps: Seq<ObjectView>,
        i: nat,
        known: Option<Seq<char>>,
        app_name: Seq<char>,
        win: ObjectView,
        focus: FocusSource,
    },
    Again(Quest, search::StageView),
    Everywhere(Quest, search::StageView),
    Done(Outcome),
}

impl View for Stage {
    type V = StageView;

    open spec fn view(&self) -> StageView {
        match self {
            Stage::Apps => StageView::Apps,
            Stage::Memo { apps, name } => StageView::Memo {
                apps: walk::objects(apps@),
                name: name@,
            },
            Stage::Pid { apps, i, known } => StageView::Pid {
                apps: walk::objects(apps@),
                i: *i as nat,
                known: target::text_of(*known),
            },
            Stage::Windows { apps, i, known } => StageView::Windows {
                apps: walk::objects(apps@),
                i: *i as nat,
                known: target::text_of(*known),
            },
            Stage::Picking { apps, i, known, app_name, pick } => StageView::Picking {
                apps: walk::objects(apps@),
                i: *i as nat,
                known: target::text_of(*known),
                app_name: app_name@,
                pick: pick@,
            },
            Stage::Window { apps, i, known, app_name, win, focus } => StageView::Window {
                apps: walk::objects(apps@),
                i: *i as nat,
                known: target::text_of(*known),
                app_name: app_name@,
                win: win@,
                focus: *focus,
            },
            Stage::Again(s) => StageView::Again(s.quest(), s.stage@),
            Stage::Everywhere(s) => StageView::Everywhere(s.quest(), s.stage@),
            Stage::Done(r) => StageView::Done(search::outcome_of(*r)),
        }
    }
}

/// What the compositor said of the window.
pub struct Named {
    pub title: Seq<char>,
    pub pid: u32,
    pub size: (i32, i32),
}

/// The objects of one connection before all others.
pub open spec fn first_of(apps: Seq<ObjectView>, bus: Seq<char>) -> Seq<ObjectView> {
    apps.filter(|o: ObjectView| o.name == Some(bus)) + apps.filter(
        |o: ObjectView| o.name != Some(bus),
    )
}

impl Named {
    /// The lower-case title that is searched for.
    pub open spec fn key(self) -> Seq<char> {
        text::lowercase(self.title)
    }

    /// The process is known to own no connection.
    pub open spec fn hopeless(self, m: MirrorView) -> bool {
        self.pid != 0 && m.pid_without_app.contains(self.pid)
    }

    /// On to the next application from `i` that may be the process's. One
    /// that is known to be need not be asked; without a process none is.
    pub open spec fn at_app(
        self,
        m: MirrorView,
        apps: Seq<ObjectView>,
        i: nat,
        known: Option<Seq<char>>,
    ) -> (StageView, MirrorView)
        decreases apps.len() - i,
    {
        if i >= apps.len() {
            self.at_title(m, false)
        } else {
            match apps[i as int].name {
                None => self.at_app(m, apps, i + 1, known),
                Some(bus) => if known == Some(bus) {
                    self.at_windows(m, apps, i, known)
                } else if self.pid == 0 {
                    self.at_app(m, apps, i + 1, known)
                } else {
                    (StageView::Pid { apps, i, known }, m)
                },
            }
        }
    }

    /// The application at `i` is the process's, which is remembered.
    pub open spec fn at_windows(
        self,
        m: MirrorView,
        apps: Seq<ObjectView>,
        i: nat,
        known: Option<Seq<char>>,
    ) -> (StageView, MirrorView) {
        (
            StageView::Windows { apps, i, known },
            MirrorView {
                app_for_pid: m.app_for_pid.insert(
                    self.pid,
                    target::or_empty(apps[i as int].name),
                ),
                ..m
            },
        )
    }

    /// No application was the process's. That is remembered, and the title
    /// has to carry it. **An empty title is a refusal**: every text holds the
    /// empty one, so searching for it would name whichever window answered
    /// first.
    pub open spec fn at_title(self, m: MirrorView, hopeless: bool) -> (StageView, MirrorView) {
        let m = if !hopeless && self.pid != 0 {
            MirrorView { pid_without_app: m.pid_without_app.insert(self.pid), ..m }
        } else {
            m
        };
        if self.title.len() == 0 {
            (StageView::Done(Ok(None)), m)
        } else {
            match mirror::looked_up(m.app_for_title, self.key()) {
                Some(bus) => (
                    StageView::Again(
                        Quest { query: Some(self.key()), only: Some(bus) },
                        search::StageView::Apps,
                    ),
                    m,
                ),
                None => (self.everywhere(), m),
            }
        }
    }

    /// Every connection is searched for the title.
    pub open spec fn everywhere(self) -> StageView {
        StageView::Everywhere(
            Quest { query: Some(self.key()), only: None },
            search::StageView::Apps,
        )
    }

    /// The window that was chosen turned out to be this.
    pub open spec fn at_frame(
        self,
        m: MirrorView,
        apps: Seq<ObjectView>,
        i: nat,
        known: Option<Seq<char>>,
        app_name: Seq<char>,
        frame: FrameView,
    ) -> (StageView, MirrorView) {
        if self.size != (0i32, 0i32) && !sized(frame.bounds, self.size) {
            self.at_app(m, apps, i + 1, known)
        } else {
            let f = FrameView { pid_memo: known is Some && known == apps[i as int].name, ..frame };
            (StageView::Done(Ok(Some(search::belonging(f, app_name)))), m)
        }
    }

    /// The next question.
    pub open spec fn ask(self, stage: StageView) -> Option<AskView> {
        match stage {
            StageView::Apps => Some(AskView::Apps),
            StageView::Memo { name, .. } => Some(AskView::Pid(name)),
            StageView::Pid { apps, i, .. } => Some(
                AskView::Pid(target::or_empty(apps[i as int].name)),
            ),
            StageView::Windows { apps, i, .. } => Some(AskView::Windows(apps[i as int])),
            StageView::Picking { pick, .. } => Some(pick.ask()),
            StageView::Window { win, .. } => Some(AskView::Window(win)),
            StageView::Again(q, s) => q.ask(s),
            StageView::Everywhere(q, s) => q.ask(s),
            StageView::Done(_) => None,
        }
    }

    /// What an answer makes of a stage, and of the mirror.
    pub open spec fn answered(
        self,
        m: MirrorView,
        stage: StageView,
        answer: AnswerView,
    ) -> (StageView, MirrorView) {
        match stage {
            StageView::Apps => match answer {
                AnswerView::Apps(Ok(apps)) => if self.hopeless(m) {
                    self.at_title(m, true)
                } else {
                    match mirror::looked_up(m.app_for_pid, self.pid) {
                        Some(name) => if self.pid != 0 {
                            (StageView::Memo { apps, name }, m)
                        } else {
                            self.at_app(self.forgotten(m), apps, 0, None)
                        },
                        None => self.at_app(m, apps, 0, None),
                    }
                },
                AnswerView::Apps(Err(e)) => (StageView::Done(Err(e)), m),
                _ => (StageView::Done(Ok(None)), m),
            },
            StageView::Memo { apps, name } => if answer == AnswerView::Pid(Some(self.pid)) {
                self.at_app(m, first_of(apps, name), 0, Some(name))
            } else {
                self.at_app(self.forgotten(m), apps, 0, None)
            },
            StageView::Pid { apps, i, known } => if answer == AnswerView::Pid(Some(self.pid)) {
                self.at_windows(m, apps, i, known)
            } else {
                self.at_app(m, apps, i + 1, known)
            },
            StageView::Windows { apps, i, known } => match answer {
                AnswerView::Windows(Some((wins, app_name))) => if wins.len() == 0 {
                    self.at_app(m, apps, i + 1, known)
                } else if wins.len() == 1 {
                    (
                        StageView::Window {
                            apps,
                            i,
                            known,
                            app_name,
                            win: wins[0],
                            focus: FocusSource::Compositor,
                        },
                        m,
                    )
                } else {
                    (
                        StageView::Picking {
                            apps,
                            i,
                            known,
                            app_name,
                            pick: PickView {
                                wanted: self.key(),
                                size: self.size,
                                wins,
                                j: 0,
                                best: None,
                                scored: None,
                            },
                        },
                        m,
                    )
                },
                _ => self.at_app(m, apps, i + 1, known),
            },
            StageView::Picking { apps, i, known, app_name, pick } => {
                let next = pick.answered(answer);
                if next.j < next.wins.len() {
                    (StageView::Picking { apps, i, known, app_name, pick: next }, m)
                } else {
                    let (win, focus) = next.chosen();
                    (StageView::Window { apps, i, known, app_name, win, focus }, m)
                }
            },
            StageView::Window { apps, i, known, app_name, win, focus } => match answer {
                AnswerView::Window(Some(Ok(w))) => self.at_frame(
                    m,
                    apps,
                    i,
                    known,
                    app_name,
                    w.frame(win, focus),
                ),
                AnswerView::Window(Some(Err(e))) => (StageView::Done(Err(e)), m),
                _ => self.at_app(m, apps, i + 1, known),
            },
            StageView::Again(q, s) => match q.answered(s, answer) {
                search::StageView::Done(Ok(Some(f))) => (
                    StageView::Done(Ok(Some(FrameView { title_memo: true, ..f }))),
                    m,
                ),
                search::StageView::Done(_) => (
                    self.everywhere(),
                    MirrorView {
                        app_for_title: m.app_for_title.remove(self.key()),
                        pid_without_app: m.pid_without_app.remove(self.pid),
                        ..m
                    },
                ),
                next => (StageView::Again(q, next), m),
            },
            StageView::Everywhere(q, s) => match q.answered(s, answer) {
                search::StageView::Done(Ok(Some(f))) => (
                    StageView::Done(Ok(Some(f))),
                    MirrorView {
                        app_for_title: m.app_for_title.insert(self.key(), f.bus_name),
                        ..m
                    },
                ),
                search::StageView::Done(r) => (StageView::Done(r), m),
                next => (StageView::Everywhere(q, next), m),
            },
            StageView::Done(r) => (StageView::Done(r), m),
        }
    }

    /// The process's connection is no longer remembered.
    pub open spec fn forgotten(self, m: MirrorView) -> MirrorView {
        MirrorView { app_for_pid: m.app_for_pid.remove(self.pid), ..m }
    }
}

/// The search for the window the compositor named.
#[derive(Debug)]
pub struct Seek {
    pub title: String,
    pub pid: u32,
    pub size: (i32, i32),
    pub stage: Stage,
}

/// A stage that waits for something of a list stands at something of it.
pub open spec fn standing(stage: Stage) -> bool {
    match stage {
        Stage::Pid { apps, i, .. } => i < apps.len(),
        Stage::Windows { apps, i, .. } => i < apps.len(),
        Stage::Picking { apps, i, pick, .. } => i < apps.len() && pick.wf() && pick.j
            < pick.wins.len(),
        Stage::Window { apps, i, .. } => i < apps.len(),
        Stage::Again(s) => s.wf() && !(s.stage@ is Done),
        Stage::Everywhere(s) => s.wf() && !(s.stage@ is Done),
        _ => true,
    }
}

fn same_text(a: &Option<String>, b: &str) -> (r: bool)
    ensures
        r == (target::text_of(*a) == Some(b@)),
{
    match a {
        Some(a) => a.as_str().eq(b),
        None => false,
    }
}

/// The objects of one connection before all others.
fn put_first(apps: &Vec<Object>, bus: &str) -> (list: Vec<Object>)
    ensures
        walk::objects(list@) == first_of(walk::objects(apps@), bus@),
{
    let ghost all = walk::objects(apps@);
    let ghost on = |o: ObjectView| o.name == Some(bus@);
    let ghost off = |o: ObjectView| o.name != Some(bus@);
    let mut list: Vec<Object> = Vec::new();
    let mut others: Vec<Object> = Vec::new();
    let mut i: usize = 0;
    proof {
        reveal(Seq::filter);
        assert(walk::objects(list@) =~= all.take(0).filter(on));
        assert(walk::objects(others@) =~= all.take(0).filter(off));
    }
    while i < apps.len()
        invariant
            i <= apps@.len(),
            all == walk::objects(apps@),
            on == (|o: ObjectView| o.name == Some(bus@)),
            off == (|o: ObjectView| o.name != Some(bus@)),
            walk::objects(list@) == all.take(i as int).filter(on),
            walk::objects(others@) == all.take(i as int).filter(off),
        decreases apps.len() - i,
    {
        let ghost (a, b) = (walk::objects(list@), walk::objects(others@));
        let o: Object = apps[i].clone();
        proof {
            reveal(Seq::filter);
            assert(all.take(i + 1).drop_last() =~= all.take(i as int));
            assert(all[i as int] == o@);
        }
        if search::is_on(&o, bus) {
            list.push(o);
            assert(walk::objects(list@) =~= a.push(o@));
        } else {
            others.push(o);
            assert(walk::objects(others@) =~= b.push(o@));
        }
        i = i + 1;
    }
    assert(all.take(i as int) =~= all);
    let ghost (a, b) = (list@, others@);
    list.append(&mut others);
    assert(list@ =~= a + b);
    assert(walk::objects(list@) =~= walk::objects(a) + walk::objects(b));
    list
}

impl Seek {
    /// What the compositor said.
    pub open spec fn named(self) -> Named {
        Named { title: self.title@, pid: self.pid, size: self.size }
    }

    pub open spec fn wf(self) -> bool {
        standing(self.stage)
    }

    /// `size` is the compositor's own; `(0, 0)` when it is not known.
    pub fn new(title: &str, pid: u32, size: (i32, i32)) -> (s: Self)
        ensures
            s.wf(),
            s.named() == (Named { title: title@, pid, size }),
            s.stage@ == StageView::Apps,
    {
        Seek { title: title.to_owned(), pid, size, stage: Stage::Apps }
    }

    /// The next question, or `None` once it is over.
    pub fn ask(&self) -> (q: Option<Ask>)
        requires
            self.wf(),
        ensures
            match q {
                Some(q) => self.named().ask(self.stage@) == Some(q@),
                None => self.named().ask(self.stage@) is None,
            },
    {
        match &self.stage {
            Stage::Apps => Some(Ask::Apps),
            Stage::Memo { name, .. } => Some(Ask::Pid(name.clone())),
            Stage::Pid { apps, i, .. } => {
                assert(walk::objects(apps@)[*i as int] == apps@[*i as int]@);
                Some(Ask::Pid(target::owned_or_empty(&apps[*i].name)))
            },
            Stage::Windows { apps, i, .. } => Some(Ask::Windows(apps[*i].clone())),
            Stage::Picking { pick, .. } => {
                let win: Object = pick.wins[pick.j].clone();
                match pick.scored {
                    Some(_) => Some(Ask::Extents(win)),
                    None => Some(Ask::Title(win)),
                }
            },
            Stage::Window { win, .. } => Some(Ask::Window(win.clone())),
            Stage::Again(s) => s.ask(),
            Stage::Everywhere(s) => s.ask(),
            Stage::Done(_) => None,
        }
    }

    fn at_title(&self, m: &mut Mirror, hopeless: bool) -> (s: Stage)
        ensures
            (s@, final(m)@) == self.named().at_title(old(m)@, hopeless),
            standing(s),
    {
        if !hopeless && self.pid != 0 {
            m.note_pid_owns_nothing(self.pid);
        }
        if self.title.unicode_len() == 0 {
            return Stage::Done(Ok(None));
        }
        let key: String = text::to_lowercase(self.title.as_str());
        match m.app_for_title(key.as_str()) {
            Some(bus) => Stage::Again(Search::for_key(key.as_str(), Some(bus.as_str()))),
            None => Stage::Everywhere(Search::for_key(key.as_str(), None)),
        }
    }

    fn at_windows(
        &self,
        m: &mut Mirror,
        apps: Vec<Object>,
        i: usize,
        known: Option<String>,
    ) -> (s: Stage)
        requires
            i < apps.len(),
        ensures
            (s@, final(m)@) == self.named().at_windows(
                old(m)@,
                walk::objects(apps@),
                i as nat,
                target::text_of(known),
            ),
            standing(s),
    {
        assert(walk::objects(apps@)[i as int] == apps@[i as int]@);
        let bus: String = target::owned_or_empty(&apps[i].name);
        m.note_app_for_pid(self.pid, bus.as_str());
        Stage::Windows { apps, i, known }
    }

    fn at_app(
        &self,
        m: &mut Mirror,
        apps: Vec<Object>,
        i: usize,
        known: Option<String>,
    ) -> (s: Stage)
        ensures
            (s@, final(m)@) == self.named().at_app(
                old(m)@,
                walk::objects(apps@),
                i as nat,
                target::text_of(known),
            ),
            standing(s),
    {
        let ghost all = walk::objects(apps@);
        let ghost goal = self.named().at_app(m@, all, i as nat, target::text_of(known));
        let mut k: usize = i;
        while k < apps.len()
            invariant
                all == walk::objects(apps@),
                m@ == old(m)@,
                goal == self.named().at_app(old(m)@, all, i as nat, target::text_of(known)),
                goal == self.named().at_app(m@, all, k as nat, target::text_of(known)),
            decreases apps.len() - k,
        {
            assert(all[k as int] == apps@[k as int]@);
            let (skip, sure): (bool, bool) = match &apps[k].name {
                None => (true, false),
                Some(bus) => {
                    let sure: bool = same_text(&known, bus.as_str());
                    (!sure && self.pid == 0, sure)
                },
            };
            if sure {
                return self.at_windows(m, apps, k, known);
            }
            if !skip {
                return Stage::Pid { apps, i: k, known };
            }
            k = k + 1;
        }
        assert(all.len() == apps@.len());
        self.at_title(m, false)
    }

    fn at_frame(
        &self,
        m: &mut Mirror,
        apps: Vec<Object>,
        i: usize,
        known: Option<String>,
        app_name: String,
        frame: Frame,
    ) -> (s: Stage)
        requires
            i < apps.len(),
        ensures
            (s@, final(m)@) == self.named().at_frame(
                old(m)@,
                walk::objects(apps@),
                i as nat,
                target::text_of(known),
                app_name@,
                frame@,
            ),
            standing(s),
    {
        let any_size: bool = self.size.0 == 0 && self.size.1 == 0;
        if !any_size && !same_size(frame.bounds, self.size) {
            return self.at_app(m, apps, i + 1, known);
        }
        assert(walk::objects(apps@)[i as int] == apps@[i as int]@);
        let pid_memo: bool = match &apps[i].name {
            Some(bus) => same_text(&known, bus.as_str()),
            None => false,
        };
        let f: Frame = Frame { pid_memo, ..frame };
        Stage::Done(Ok(Some(search::belong(f, app_name.as_str()))))
    }

    /// Take the answer to the last question.
    pub fn answer(self, m: &mut Mirror, answer: Answer) -> (next: Self)
        requires
            self.wf(),
        ensures
            next.wf(),
            next.named() == self.named(),
            (next.stage@, final(m)@) == self.named().answered(old(m)@, self.stage@, answer@),
    {
        let Seek { title, pid, size, stage } = self;
        let here: Seek = Seek { title, pid, size, stage: Stage::Apps };
        let stage: Stage = match stage {
            Stage::Apps => match answer {
                Answer::Apps(Ok(apps)) => {
                    if pid != 0 && m.pid_owns_nothing(pid) {
                        here.at_title(m, true)
                    } else {
                        match m.app_for_pid(pid) {
                            Some(name) => {
                                if pid != 0 {
                                    Stage::Memo { apps, name }
                                } else {
                                    m.forget_app_for_pid(pid);
                                    here.at_app(m, apps, 0, None)
                                }
                            },
                            None => here.at_app(m, apps, 0, None),
                        }
                    }
                },
                Answer::Apps(Err(e)) => Stage::Done(Err(e)),
                _ => Stage::Done(Ok(None)),
            },
            Stage::Memo { apps, name } => {
                let verified: bool = match answer {
                    Answer::Pid(Some(p)) => p == pid,
                    _ => false,
                };
                if verified {
                    let ordered: Vec<Object> = put_first(&apps, name.as_str());
                    here.at_app(m, ordered, 0, Some(name))
                } else {
                    m.forget_app_for_pid(pid);
                    here.at_app(m, apps, 0, None)
                }
            },
            Stage::Pid { apps, i, known } => {
                let its: bool = match answer {
                    Answer::Pid(Some(p)) => p == pid,
                    _ => false,
                };
                if its {
                    here.at_windows(m, apps, i, known)
                } else {
                    here.at_app(m, apps, i + 1, known)
                }
            },
            Stage::Windows { apps, i, known } => match answer {
                Answer::Windows(Some((wins, name))) => {
                    let app_name: String = target::owned_or_empty(&name);
                    assert(walk::objects(wins@).len() == wins@.len());
                    if wins.len() == 0 {
                        here.at_app(m, apps, i + 1, known)
                    } else if wins.len() == 1 {
                        assert(walk::objects(wins@)[0] == wins@[0]@);
                        Stage::Window {
                            apps,
                            i,
                            known,
                            app_name,
                            win: wins[0].clone(),
                            focus: FocusSource::Compositor,
                        }
                    } else {
                        let pick: Pick = Pick {
                            wanted: text::to_lowercase(here.title.as_str()),
                            size,
                            wins,
                            j: 0,
                            best: None,
                            scored: None,
                        };
                        Stage::Picking { apps, i, known, app_name, pick }
                    }
                },
                _ => here.at_app(m, apps, i + 1, known),
            },
            Stage::Picking { apps, i, known, app_name, pick } => {
                let next: Pick = pick.answer(&answer);
                assert(next@.wins.len() == next.wins@.len());
                if next.j < next.wins.len() {
                    Stage::Picking { apps, i, known, app_name, pick: next }
                } else {
                    let (win, focus) = next.chosen();
                    Stage::Window { apps, i, known, app_name, win, focus }
                }
            },
            Stage::Window { apps, i, known, app_name, win, focus } => match answer {
                Answer::Window(Some(Ok(w))) => {
                    let frame: Frame = search::describe(&win, &w, focus);
                    here.at_frame(m, apps, i, known, app_name, frame)
                },
                Answer::Window(Some(Err(e))) => Stage::Done(Err(e)),
                _ => here.at_app(m, apps, i + 1, known),
            },
            Stage::Again(s) => {
                let next: Search = s.answer(answer);
                match next.stage {
                    search::Stage::Done(Ok(Some(f))) => Stage::Done(
                        Ok(Some(Frame { title_memo: true, ..f })),
                    ),
                    search::Stage::Done(_) => {
                        let key: String = text::to_lowercase(here.title.as_str());
                        m.forget_app_for_title(key.as_str());
                        m.forget_pid_owns_nothing(pid);
                        Stage::Everywhere(Search::for_key(key.as_str(), None))
                    },
                    other => Stage::Again(
                        Search { query: next.query, only: next.only, stage: other },
                    ),
                }
            },
            Stage::Everywhere(s) => {
                let next: Search = s.answer(answer);
                match next.stage {
                    search::Stage::Done(Ok(Some(f))) => {
                        let key: String = text::to_lowercase(here.title.as_str());
                        m.note_app_for_title(key.as_str(), f.bus_name.as_str());
                        Stage::Done(Ok(Some(f)))
                    },
                    search::Stage::Done(r) => Stage::Done(r),
                    other => Stage::Everywhere(
                        Search { query: next.query, only: next.only, stage: other },
                    ),
                }
            },
            Stage::Done(r) => Stage::Done(r),
        };
        Seek { stage, ..here }
    }
}

} // verus!
