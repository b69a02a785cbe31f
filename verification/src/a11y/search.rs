//! Finding a window among the applications on the bus.
//!
//! A [`Search`] asks one question at a time: which applications there are,
//! which windows one has, what a window is called. One dead application must
//! not take the desktop with it: what does not answer is passed over.
use vstd::prelude::*;
use vstd::string::*;

use crate::a11y::error::{Error, ErrorView};
use crate::a11y::role::{Role, State, StateSet};
use crate::a11y::target;
use crate::a11y::target::{FocusSource, Frame, FrameView, Object, ObjectView, WindowRect};
use crate::a11y::verify::Space;
use crate::a11y::walk;
use crate::text;

verus! {

/// Whether a rectangle in screen coordinates has to be asked for again in
/// window coordinates: a position of zero is how some toolkits say that they
/// do not know it.
pub fn is_at_origin(screen: WindowRect) -> (r: bool)
    ensures
        r == (screen.x == 0 && screen.y == 0),
{
    screen.x == 0 && screen.y == 0
}

/// The rectangle to go by, and the space it is in. Screen coordinates, unless
/// they say the origin and window coordinates do not: an object really at the
/// origin has both at zero, and a popup's contents never say zero.
pub open spec fn settled(screen: WindowRect, window: WindowRect) -> (WindowRect, Space) {
    if screen.x == 0 && screen.y == 0 && (window.x != 0 || window.y != 0) {
        (window, Space::Window)
    } else {
        (screen, Space::Screen)
    }
}

/// The rectangle to go by, out of the two an object gave, and its space.
pub fn settle(screen: WindowRect, window: WindowRect) -> (r: (WindowRect, Space))
    ensures
        r == settled(screen, window),
{
    if is_at_origin(screen) && !is_at_origin(window) {
        (window, Space::Window)
    } else {
        (screen, Space::Screen)
    }
}

/// What a window says of itself. Only its bounds are indispensable.
#[derive(Debug)]
pub struct Window {
    pub title: Option<String>,
    pub app: Option<String>,
    pub role: Option<Role>,
    pub bounds: WindowRect,
}

/// A [`Window`], its texts as their characters.
pub struct WindowView {
    pub title: Option<Seq<char>>,
    pub app: Option<Seq<char>>,
    pub role: Option<Role>,
    pub bounds: WindowRect,
}

impl View for Window {
    type V = WindowView;

    open spec fn view(&self) -> WindowView {
        WindowView {
            title: target::text_of(self.title),
            app: target::text_of(self.app),
            role: self.role,
            bounds: self.bounds,
        }
    }
}

impl WindowView {
    /// The frame this is.
    pub open spec fn frame(self, object: ObjectView, focus: FocusSource) -> FrameView {
        FrameView {
            focus,
            pid_memo: false,
            title_memo: false,
            app: target::or_empty(self.app),
            title: target::or_empty(self.title),
            role: match self.role {
                Some(r) => r,
                None => Role::Invalid,
            },
            bus_name: target::or_empty(object.name),
            path: object.path,
            bounds: self.bounds,
        }
    }
}

/// The frame a window is.
pub fn describe(object: &Object, window: &Window, focus: FocusSource) -> (f: Frame)
    ensures
        f@ == window@.frame(object@, focus),
{
    let role: Role = match window.role {
        Some(r) => r,
        None => Role::Invalid,
    };
    Frame {
        focus,
        pid_memo: false,
        title_memo: false,
        app: target::owned_or_empty(&window.app),
        title: target::owned_or_empty(&window.title),
        role,
        bus_name: target::owned_or_empty(&object.name),
        path: object.path.clone(),
        bounds: window.bounds,
    }
}

/// A frame, called after its application where it does not say so itself.
pub open spec fn belonging(f: FrameView, app_name: Seq<char>) -> FrameView {
    if f.app.len() == 0 {
        FrameView { app: app_name, ..f }
    } else {
        f
    }
}

pub(crate) fn belong(f: Frame, app_name: &str) -> (r: Frame)
    ensures
        r@ == belonging(f@, app_name@),
{
    if f.app.unicode_len() == 0 {
        Frame { app: app_name.to_owned(), ..f }
    } else {
        f
    }
}

/// Whether a window is the one that is looked for, by the lower-case names of
/// its application and of itself.
pub fn is_called(app_name: &str, title: &str, query: &str) -> (r: bool)
    ensures
        r == (text::holds(app_name@, query@) || text::holds(title@, query@)),
{
    text::contains(app_name, query) || text::contains(title, query)
}

/// A question for the accessibility bus.
#[derive(Debug)]
pub enum Ask {
    /// The applications on the bus.
    Apps,
    /// The process behind a connection.
    Pid(String),
    /// An application's windows, and its name.
    Windows(Object),
    /// What a window is called.
    Title(Object),
    States(Object),
    Extents(Object),
    /// Everything there is to know of a window.
    Window(Object),
}

/// An [`Ask`], its texts as their characters.
pub enum AskView {
    Apps,
    Pid(Seq<char>),
    Windows(ObjectView),
    Title(ObjectView),
    States(ObjectView),
    Extents(ObjectView),
    Window(ObjectView),
}

impl View for Ask {
    type V = AskView;

    open spec fn view(&self) -> AskView {
        match self {
            Ask::Apps => AskView::Apps,
            Ask::Pid(s) => AskView::Pid(s@),
            Ask::Windows(o) => AskView::Windows(o@),
            Ask::Title(o) => AskView::Title(o@),
            Ask::States(o) => AskView::States(o@),
            Ask::Extents(o) => AskView::Extents(o@),
            Ask::Window(o) => AskView::Window(o@),
        }
    }
}

/// What the bus said. `None` stands for an object that could not be reached,
/// or would not say; an answer to another question is as good as none.
#[derive(Debug)]
pub enum Answer {
    Apps(Result<Vec<Object>, Error>),
    Pid(Option<u32>),
    Windows(Option<(Vec<Object>, Option<String>)>),
    /// A window that was reached and would not say its name has an empty one.
    Title(Option<Option<String>>),
    States(Option<StateSet>),
    Extents(Option<WindowRect>),
    /// A window that was reached and would not say its bounds is an error.
    Window(Option<Result<Window, Error>>),
}

/// An [`Answer`], its texts as their characters.
pub enum AnswerView {
    Apps(Result<Seq<ObjectView>, ErrorView>),
    Pid(Option<u32>),
    Windows(Option<(Seq<ObjectView>, Seq<char>)>),
    Title(Option<Seq<char>>),
    States(Option<StateSet>),
    Extents(Option<WindowRect>),
    Window(Option<Result<WindowView, ErrorView>>),
}

impl View for Answer {
    type V = AnswerView;

    open spec fn view(&self) -> AnswerView {
        match self {
            Answer::Apps(Ok(list)) => AnswerView::Apps(Ok(walk::objects(list@))),
            Answer::Apps(Err(e)) => AnswerView::Apps(Err(e@)),
            Answer::Pid(p) => AnswerView::Pid(*p),
            Answer::Windows(Some((list, name))) => AnswerView::Windows(
                Some((walk::objects(list@), target::or_empty(target::text_of(*name)))),
            ),
            Answer::Windows(None) => AnswerView::Windows(None),
            Answer::Title(Some(name)) => AnswerView::Title(
                Some(target::or_empty(target::text_of(*name))),
            ),
            Answer::Title(None) => AnswerView::Title(None),
            Answer::States(s) => AnswerView::States(*s),
            Answer::Extents(b) => AnswerView::Extents(*b),
            Answer::Window(Some(Ok(w))) => AnswerView::Window(Some(Ok(w@))),
            Answer::Window(Some(Err(e))) => AnswerView::Window(Some(Err(e@))),
            Answer::Window(None) => AnswerView::Window(None),
        }
    }
}

/// What comes of a search: a window, none, or what went wrong.
pub type Outcome = Result<Option<FrameView>, ErrorView>;

/// What came of a search, its texts as their characters.
pub open spec fn outcome_of(r: Result<Option<Frame>, Error>) -> Outcome {
    match r {
        Ok(Some(f)) => Ok(Some(f@)),
        Ok(None) => Ok(None),
        Err(e) => Err(e@),
    }
}

/// How far a search has come.
#[derive(Debug)]
pub enum Stage {
    /// Looking whether the window that was activated last is still there.
    Held(Object),
    Apps,
    /// Waiting for the windows of the application at `i`.
    Windows { apps: Vec<Object>, i: usize },
    /// Waiting for the title of the window at `j`.
    Title { apps: Vec<Object>, i: usize, app_name: String, wins: Vec<Object>, j: usize },
    /// Waiting for its states.
    States {
        apps: Vec<Object>,
        i: usize,
        app_name: String,
        wins: Vec<Object>,
        j: usize,
        title: String,
    },
    /// Waiting for everything else about it: it is the one.
    Window {
        apps: Vec<Object>,
        i: usize,
        app_name: String,
        wins: Vec<Object>,
        j: usize,
        title: String,
    },
    Done(Result<Option<Frame>, Error>),
}

/// A [`Stage`], its texts as their characters.
pub enum StageView {
    Held(ObjectView),
    Apps,
    Windows { apps: Seq<ObjectView>, i: nat },
    Title { apps: Seq<ObjectView>, i: nat, app_name: Seq<char>, wins: Seq<ObjectView>, j: nat },
    States {
        apps: Seq<ObjectView>,
        i: nat,
        app_name: Seq<char>,
        wins: Seq<ObjectView>,
        j: nat,
        title: Seq<char>,
    },
    Window {
        apps: Seq<ObjectView>,
        i: nat,
        app_name: Seq<char>,
        wins: Seq<ObjectView>,
        j: nat,
        title: Seq<char>,
    },
    Done(Outcome),
}

impl View for Stage {
    type V = StageView;

    open spec fn view(&self) -> StageView {
        match self {
            Stage::Held(o) => StageView::Held(o@),
            Stage::Apps => StageView::Apps,
            Stage::Windows { apps, i } => StageView::Windows {
                apps: walk::objects(apps@),
                i: *i as nat,
            },
            Stage::Title { apps, i, app_name, wins, j } => StageView::Title {
                apps: walk::objects(apps@),
                i: *i as nat,
                app_name: app_name@,
                wins: walk::objects(wins@),
                j: *j as nat,
            },
            Stage::States { apps, i, app_name, wins, j, title } => StageView::States {
                apps: walk::objects(apps@),
                i: *i as nat,
                app_name: app_name@,
                wins: walk::objects(wins@),
                j: *j as nat,
                title: title@,
            },
            Stage::Window { apps, i, app_name, wins, j, title } => StageView::Window {
                apps: walk::objects(apps@),
                i: *i as nat,
                app_name: app_name@,
                wins: walk::objects(wins@),
                j: *j as nat,
                title: title@,
            },
            Stage::Done(r) => StageView::Done(outcome_of(*r)),
        }
    }
}

/// What is searched for.
pub struct Quest {
    /// The lower-case text that the application's or the window's name holds;
    /// `None` is a search for the window that says it is active.
    pub query: Option<Seq<char>>,
    /// The one connection that is searched, where it is only one.
    pub only: Option<Seq<char>>,
}

impl Quest {
    /// On to the application at `i`, if there is one.
    pub open spec fn at_app(self, apps: Seq<ObjectView>, i: nat) -> StageView {
        if i < apps.len() {
            StageView::Windows { apps, i }
        } else {
            StageView::Done(Ok(None))
        }
    }

    /// On to the window at `j`, if there is one.
    pub open spec fn at_window(
        self,
        apps: Seq<ObjectView>,
        i: nat,
        app_name: Seq<char>,
        wins: Seq<ObjectView>,
        j: nat,
    ) -> StageView {
        if j < wins.len() {
            StageView::Title { apps, i, app_name, wins, j }
        } else {
            self.at_app(apps, i + 1)
        }
    }

    /// The applications that are searched: all of them, or the first that has
    /// the connection's name.
    pub open spec fn searched(self, apps: Seq<ObjectView>) -> Seq<ObjectView> {
        match self.only {
            None => apps,
            Some(bus) => {
                let i = named(apps, bus) as int;
                if i < apps.len() {
                    seq![apps[i]]
                } else {
                    Seq::empty()
                }
            },
        }
    }

    /// The window is the one, as far as its name tells.
    pub open spec fn suits(self, app_name: Seq<char>, title: Seq<char>) -> bool {
        self.query is Some && (text::holds(text::lowercase(app_name), self.query->0)
            || text::holds(text::lowercase(title), self.query->0))
    }

    /// How the window was found.
    pub open spec fn source(self) -> FocusSource {
        if self.query is Some {
            FocusSource::Named
        } else {
            FocusSource::ActiveState
        }
    }

    /// The frame that is found. A search of every application goes by the
    /// title it has seen.
    pub open spec fn found(
        self,
        win: ObjectView,
        window: WindowView,
        app_name: Seq<char>,
        title: Seq<char>,
    ) -> FrameView {
        let f = belonging(window.frame(win, self.source()), app_name);
        if self.only is None {
            FrameView { title, ..f }
        } else {
            f
        }
    }

    /// The next question.
    pub open spec fn ask(self, stage: StageView) -> Option<AskView> {
        match stage {
            StageView::Held(o) => Some(AskView::Window(o)),
            StageView::Apps => Some(AskView::Apps),
            StageView::Windows { apps, i } => Some(AskView::Windows(apps[i as int])),
            StageView::Title { wins, j, .. } => Some(AskView::Title(wins[j as int])),
            StageView::States { wins, j, .. } => Some(AskView::States(wins[j as int])),
            StageView::Window { wins, j, .. } => Some(AskView::Window(wins[j as int])),
            StageView::Done(_) => None,
        }
    }

    /// What an answer makes of a stage.
    pub open spec fn answered(self, stage: StageView, answer: AnswerView) -> StageView {
        match stage {
            StageView::Held(o) => match answer {
                AnswerView::Window(Some(Ok(w))) => StageView::Done(
                    Ok(Some(w.frame(o, FocusSource::Activate))),
                ),
                _ => StageView::Apps,
            },
            StageView::Apps => match answer {
                AnswerView::Apps(Ok(apps)) => self.at_app(self.searched(apps), 0),
                AnswerView::Apps(Err(e)) => StageView::Done(Err(e)),
                _ => StageView::Done(Ok(None)),
            },
            StageView::Windows { apps, i } => match answer {
                AnswerView::Windows(Some((wins, app_name))) => self.at_window(
                    apps,
                    i,
                    app_name,
                    wins,
                    0,
                ),
                _ => self.at_app(apps, i + 1),
            },
            StageView::Title { apps, i, app_name, wins, j } => match answer {
                AnswerView::Title(Some(title)) => if self.query is None {
                    StageView::States { apps, i, app_name, wins, j, title }
                } else if self.suits(app_name, title) {
                    StageView::Window { apps, i, app_name, wins, j, title }
                } else {
                    self.at_window(apps, i, app_name, wins, j + 1)
                },
                _ => self.at_window(apps, i, app_name, wins, j + 1),
            },
            StageView::States { apps, i, app_name, wins, j, title } => match answer {
                AnswerView::States(Some(states)) if states.has(State::Active) => StageView::Window {
                    apps,
                    i,
                    app_name,
                    wins,
                    j,
                    title,
                },
                _ => self.at_window(apps, i, app_name, wins, j + 1),
            },
            StageView::Window { apps, i, app_name, wins, j, title } => match answer {
                AnswerView::Window(Some(Ok(w))) => StageView::Done(
                    Ok(Some(self.found(wins[j as int], w, app_name, title))),
                ),
                AnswerView::Window(Some(Err(e))) => StageView::Done(Err(e)),
                _ => self.at_window(apps, i, app_name, wins, j + 1),
            },
            StageView::Done(r) => StageView::Done(r),
        }
    }
}

/// The first of the objects on a connection; behind all of them when none is.
pub open spec fn named(apps: Seq<ObjectView>, bus: Seq<char>) -> nat
    decreases apps.len(),
{
    if apps.len() == 0 {
        0
    } else if apps[0].name == Some(bus) {
        0
    } else {
        1 + named(apps.skip(1), bus)
    }
}

proof fn lemma_named(apps: Seq<ObjectView>, bus: Seq<char>, i: int)
    requires
        0 <= i <= apps.len(),
        forall|j: int| 0 <= j < i ==> (#[trigger] apps[j]).name != Some(bus),
        i < apps.len() ==> apps[i].name == Some(bus),
    ensures
        named(apps, bus) == i,
    decreases i,
{
    if i > 0 {
        let rest = apps.skip(1);
        assert(apps[0].name != Some(bus));
        assert forall|j: int| 0 <= j < i - 1 implies (#[trigger] rest[j]).name != Some(bus) by {
            assert(rest[j] == apps[j + 1]);
        }
        lemma_named(rest, bus, i - 1);
    }
}

/// Whether an object is on a connection.
pub(crate) fn is_on(object: &Object, bus: &str) -> (r: bool)
    ensures
        r == (object@.name == Some(bus@)),
{
    match &object.name {
        Some(n) => n.as_str().eq(bus),
        None => false,
    }
}

/// A stage that waits for something of a list stands at something of it.
pub open spec fn standing(stage: Stage) -> bool {
    match stage {
        Stage::Windows { apps, i } => i < apps.len(),
        Stage::Title { apps, i, wins, j, .. } => i < apps.len() && j < wins.len(),
        Stage::States { apps, i, wins, j, .. } => i < apps.len() && j < wins.len(),
        Stage::Window { apps, i, wins, j, .. } => i < apps.len() && j < wins.len(),
        _ => true,
    }
}

/// One search, from the question to the window.
#[derive(Debug)]
pub struct Search {
    pub query: Option<String>,
    pub only: Option<String>,
    pub stage: Stage,
}

impl Search {
    /// What is searched for.
    pub open spec fn quest(self) -> Quest {
        Quest { query: target::text_of(self.query), only: target::text_of(self.only) }
    }

    /// One connection is only searched for a name, and the stage stands.
    pub open spec fn wf(self) -> bool {
        &&& self.only is Some ==> self.query is Some
        &&& standing(self.stage)
    }

    /// The focused window: the one that was activated last if it is still
    /// there, else one that says it is active. A window can close without
    /// deactivating first, so an activation is a hypothesis.
    pub fn focused(held: Option<&Object>) -> (s: Self)
        ensures
            s.wf(),
            s.quest() == (Quest { query: None, only: None }),
            s.stage@ == match held {
                Some(o) => StageView::Held(o@),
                None => StageView::Apps,
            },
    {
        let stage: Stage = match held {
            Some(o) => Stage::Held(o.clone()),
            None => Stage::Apps,
        };
        Search { query: None, only: None, stage }
    }

    /// The first window whose application's name or own title holds the text,
    /// in whatever case.
    pub fn named(query: &str) -> (s: Self)
        ensures
            s.wf(),
            s.quest() == (Quest { query: Some(text::lowercase(query@)), only: None }),
            s.stage@ == StageView::Apps,
    {
        Search { query: Some(text::to_lowercase(query)), only: None, stage: Stage::Apps }
    }

    /// The same for a text that is in lower case already, and, where one is
    /// given, among the windows of one connection only.
    pub fn for_key(key: &str, only: Option<&str>) -> (s: Self)
        ensures
            s.wf(),
            s.quest() == (Quest {
                query: Some(key@),
                only: match only {
                    Some(b) => Some(b@),
                    None => None,
                },
            }),
            s.stage@ == StageView::Apps,
    {
        let only: Option<String> = match only {
            Some(b) => Some(b.to_owned()),
            None => None,
        };
        Search { query: Some(key.to_owned()), only, stage: Stage::Apps }
    }

    /// The next question, or `None` once the search is over.
    pub fn ask(&self) -> (q: Option<Ask>)
        requires
            self.wf(),
        ensures
            match q {
                Some(q) => self.quest().ask(self.stage@) == Some(q@),
                None => self.quest().ask(self.stage@) is None,
            },
    {
        match &self.stage {
            Stage::Held(o) => Some(Ask::Window(o.clone())),
            Stage::Apps => Some(Ask::Apps),
            Stage::Windows { apps, i } => Some(Ask::Windows(apps[*i].clone())),
            Stage::Title { wins, j, .. } => Some(Ask::Title(wins[*j].clone())),
            Stage::States { wins, j, .. } => Some(Ask::States(wins[*j].clone())),
            Stage::Window { wins, j, .. } => Some(Ask::Window(wins[*j].clone())),
            Stage::Done(_) => None,
        }
    }

    fn at_app(&self, apps: Vec<Object>, i: usize) -> (s: Stage)
        ensures
            s@ == self.quest().at_app(walk::objects(apps@), i as nat),
            standing(s),
    {
        assert(walk::objects(apps@).len() == apps@.len());
        if i < apps.len() {
            Stage::Windows { apps, i }
        } else {
            Stage::Done(Ok(None))
        }
    }

    fn at_window(
        &self,
        apps: Vec<Object>,
        i: usize,
        app_name: String,
        wins: Vec<Object>,
        j: usize,
    ) -> (s: Stage)
        requires
            i < apps.len(),
        ensures
            s@ == self.quest().at_window(
                walk::objects(apps@),
                i as nat,
                app_name@,
                walk::objects(wins@),
                j as nat,
            ),
            standing(s),
    {
        assert(walk::objects(wins@).len() == wins@.len());
        if j < wins.len() {
            Stage::Title { apps, i, app_name, wins, j }
        } else {
            self.at_app(apps, i + 1)
        }
    }

    fn searched(&self, apps: Vec<Object>) -> (list: Vec<Object>)
        ensures
            walk::objects(list@) == self.quest().searched(walk::objects(apps@)),
    {
        match &self.only {
            None => apps,
            Some(bus) => {
                let ghost all = walk::objects(apps@);
                let mut i: usize = 0;
                while i < apps.len() && !is_on(&apps[i], bus.as_str())
                    invariant
                        i <= apps@.len(),
                        all == walk::objects(apps@),
                        forall|j: int| 0 <= j < i ==> (#[trigger] all[j]).name != Some(bus@),
                    decreases apps.len() - i,
                {
                    assert(all[i as int] == apps@[i as int]@);
                    i = i + 1;
                }
                proof {
                    if i < apps@.len() {
                        assert(all[i as int] == apps@[i as int]@);
                    }
                    lemma_named(all, bus@, i as int);
                }
                if i < apps.len() {
                    let list: Vec<Object> = vec![apps[i].clone()];
                    assert(walk::objects(list@) =~= seq![all[i as int]]);
                    list
                } else {
                    let list: Vec<Object> = Vec::new();
                    assert(walk::objects(list@) =~= Seq::empty());
                    list
                }
            },
        }
    }

    /// Whether the window is the one, as far as its name tells.
    fn fits(&self, app_name: &str, title: &str) -> (r: bool)
        ensures
            r == self.quest().suits(app_name@, title@),
    {
        match &self.query {
            Some(q) => {
                let app_lower: String = text::to_lowercase(app_name);
                let title_lower: String = text::to_lowercase(title);
                is_called(app_lower.as_str(), title_lower.as_str(), q.as_str())
            },
            None => false,
        }
    }

    fn found(&self, win: &Object, window: &Window, app_name: &str, title: String) -> (f: Frame)
        ensures
            f@ == self.quest().found(win@, window@, app_name@, title@),
    {
        let source: FocusSource = match &self.query {
            Some(_) => FocusSource::Named,
            None => FocusSource::ActiveState,
        };
        let f: Frame = belong(describe(win, window, source), app_name);
        match &self.only {
            None => Frame { title, ..f },
            Some(_) => f,
        }
    }

    /// Take the answer to the last question.
    pub fn answer(self, answer: Answer) -> (next: Self)
        requires
            self.wf(),
        ensures
            next.wf(),
            next.quest() == self.quest(),
            next.stage@ == self.quest().answered(self.stage@, answer@),
    {
        let Search { query, only, stage } = self;
        let here: Search = Search { query, only, stage: Stage::Apps };
        let stage: Stage = match stage {
            Stage::Held(o) => match answer {
                Answer::Window(Some(Ok(w))) => Stage::Done(
                    Ok(Some(describe(&o, &w, FocusSource::Activate))),
                ),
                _ => Stage::Apps,
            },
            Stage::Apps => match answer {
                Answer::Apps(Ok(apps)) => {
                    let list: Vec<Object> = here.searched(apps);
                    here.at_app(list, 0)
                },
                Answer::Apps(Err(e)) => Stage::Done(Err(e)),
                _ => Stage::Done(Ok(None)),
            },
            Stage::Windows { apps, i } => match answer {
                Answer::Windows(Some((wins, name))) => {
                    let app_name: String = target::owned_or_empty(&name);
                    here.at_window(apps, i, app_name, wins, 0)
                },
                _ => here.at_app(apps, i + 1),
            },
            Stage::Title { apps, i, app_name, wins, j } => match answer {
                Answer::Title(Some(name)) => {
                    let title: String = target::owned_or_empty(&name);
                    match &here.query {
                        None => Stage::States { apps, i, app_name, wins, j, title },
                        Some(_) => {
                            if here.fits(app_name.as_str(), title.as_str()) {
                                Stage::Window { apps, i, app_name, wins, j, title }
                            } else {
                                here.at_window(apps, i, app_name, wins, j + 1)
                            }
                        },
                    }
                },
                _ => here.at_window(apps, i, app_name, wins, j + 1),
            },
            Stage::States { apps, i, app_name, wins, j, title } => {
                let active: bool = match &answer {
                    Answer::States(Some(states)) => states.contains(State::Active),
                    _ => false,
                };
                if active {
                    Stage::Window { apps, i, app_name, wins, j, title }
                } else {
                    here.at_window(apps, i, app_name, wins, j + 1)
                }
            },
            Stage::Window { apps, i, app_name, wins, j, title } => match answer {
                Answer::Window(Some(Ok(w))) => {
                    assert(walk::objects(wins@)[j as int] == wins@[j as int]@);
                    Stage::Done(Ok(Some(here.found(&wins[j], &w, app_name.as_str(), title))))
                },
                Answer::Window(Some(Err(e))) => Stage::Done(Err(e)),
                _ => here.at_window(apps, i, app_name, wins, j + 1),
            },
            Stage::Done(r) => Stage::Done(r),
        };
        Search { stage, ..here }
    }
}

} // verus!
