//! The conversation behind a verification.
//!
//! A [`Check`] asks one question of the accessibility bus at a time and is
//! told the answer, until it has a verdict. It decides everything; whoever
//! holds it only carries questions and answers.
//!
//! Asking a node what is at a point may give its direct child or its deepest
//! descendant, so the descent asks again at every answer. The frame will not
//! hit-test a popup drawn above it, so when the frame's own descent misses
//! the claim, the claim's ancestors are asked, **highest first**: the highest
//! ancestor that can still resolve the point is the strongest remaining
//! version of the check, because everything it contains is something it could
//! have answered with instead. And where the descent ends inside the claim
//! without ever naming it, the ancestry is walked up from there: only
//! decoration may sit in between.
use vstd::prelude::*;
use vstd::string::*;

use crate::a11y::filter;
use crate::a11y::role::Role;
use crate::a11y::target;
use crate::a11y::target::{Frame, Object, WindowRect};
use crate::a11y::verify;
use crate::a11y::verify::{Claim, Reread, Space, Step, Verdict, Verified, MAX_DEPTH};
use crate::text;

verus! {

/// An object that can be addressed.
#[derive(Debug)]
pub struct Place {
    pub bus: String,
    pub path: String,
}

/// A [`Place`], its texts as their characters.
pub struct PlaceView {
    pub bus: Seq<char>,
    pub path: Seq<char>,
}

impl View for Place {
    type V = PlaceView;

    open spec fn view(&self) -> PlaceView {
        PlaceView { bus: self.bus@, path: self.path@ }
    }
}

impl Clone for Place {
    fn clone(&self) -> (p: Self)
        ensures
            p@ == self@,
    {
        Place { bus: self.bus.clone(), path: self.path.clone() }
    }
}

/// A question for the accessibility bus.
#[derive(Debug)]
pub enum Ask {
    /// Role, name, states and extents of the claimed node.
    Node(Place),
    /// The object at a point, below this one.
    AtPoint { at: Place, x: i32, y: i32, space: Space },
    /// Role and, where there is one, name.
    Describe(Place),
    Parent(Place),
    RoleName(Place),
    Extents(Place),
}

/// An [`Ask`], its texts as their characters.
pub enum AskView {
    Node(PlaceView),
    AtPoint { at: PlaceView, x: i32, y: i32, space: Space },
    Describe(PlaceView),
    Parent(PlaceView),
    RoleName(PlaceView),
    Extents(PlaceView),
}

impl View for Ask {
    type V = AskView;

    open spec fn view(&self) -> AskView {
        match self {
            Ask::Node(p) => AskView::Node(p@),
            Ask::AtPoint { at, x, y, space } => AskView::AtPoint {
                at: at@,
                x: *x,
                y: *y,
                space: *space,
            },
            Ask::Describe(p) => AskView::Describe(p@),
            Ask::Parent(p) => AskView::Parent(p@),
            Ask::RoleName(p) => AskView::RoleName(p@),
            Ask::Extents(p) => AskView::Extents(p@),
        }
    }
}

/// What the bus said. A question that failed is answered with nothing, and so
/// is one that gets another question's answer.
#[derive(Debug)]
pub enum Answer {
    Node(Reread),
    /// To what is at a point, and to who the parent is.
    Object(Option<Object>),
    Described { role: Option<Role>, name: Option<String> },
    RoleName(Option<String>),
    Extents(Option<WindowRect>),
}

/// An [`Answer`], its texts as their characters.
pub enum AnswerView {
    Node(verify::RereadView),
    Object(Option<target::ObjectView>),
    Described { role: Option<Role>, name: Option<Seq<char>> },
    RoleName(Option<Seq<char>>),
    Extents(Option<WindowRect>),
}

impl View for Answer {
    type V = AnswerView;

    open spec fn view(&self) -> AnswerView {
        match self {
            Answer::Node(r) => AnswerView::Node(r@),
            Answer::Object(Some(o)) => AnswerView::Object(Some(o@)),
            Answer::Object(None) => AnswerView::Object(None),
            Answer::Described { role, name } => AnswerView::Described {
                role: *role,
                name: target::text_of(*name),
            },
            Answer::RoleName(n) => AnswerView::RoleName(target::text_of(*n)),
            Answer::Extents(b) => AnswerView::Extents(*b),
        }
    }
}

impl AnswerView {
    /// The object it names and where that is, as seen from `from`. A null
    /// object, or the very one that was asked, is no answer.
    pub open spec fn leads_to(self, from: PlaceView) -> Option<PlaceView> {
        match self {
            AnswerView::Object(Some(o)) => if text::ends_in(o.path, "/null"@) || o.path
                == from.path {
                None
            } else {
                Some(
                    PlaceView {
                        bus: match o.name {
                            Some(n) => n,
                            None => from.bus,
                        },
                        path: o.path,
                    },
                )
            },
            _ => None,
        }
    }

    /// The step it describes. An object that will not give its role gives
    /// nothing.
    pub open spec fn step(self, path: Seq<char>) -> verify::StepView {
        match self {
            AnswerView::Described { role: Some(role), name } => verify::StepView {
                role: Some(role),
                name: target::or_empty(name),
                path,
            },
            _ => verify::StepView { role: None, name: Seq::empty(), path },
        }
    }

    /// It is the name of decoration.
    pub open spec fn names_decoration(self) -> bool {
        self matches AnswerView::RoleName(Some(n)) && filter::passive_name(n)
    }

    /// It is a rectangle on the same spot.
    pub open spec fn on_spot(self, bounds: WindowRect) -> bool {
        self matches AnswerView::Extents(Some(b)) && filter::same_place(b, bounds)
    }
}

fn leads_to(answer: &Answer, from: &Place) -> (p: Option<Place>)
    ensures
        match p {
            Some(p) => answer@.leads_to(from@) == Some(p@),
            None => answer@.leads_to(from@) is None,
        },
{
    match answer {
        Answer::Object(Some(o)) => {
            if text::ends_with(o.path.as_str(), "/null") || o.path.as_str().eq(
                from.path.as_str(),
            ) {
                return None;
            }
            let bus: String = match &o.name {
                Some(n) => n.clone(),
                None => from.bus.clone(),
            };
            Some(Place { bus, path: o.path.clone() })
        },
        _ => None,
    }
}

fn step_of(answer: &Answer, path: &str) -> (s: Step)
    ensures
        s@ == answer@.step(path@),
{
    match answer {
        Answer::Described { role: Some(role), name } => Step {
            role: Some(*role),
            name: target::owned_or_empty(name),
            path: path.to_owned(),
        },
        _ => Step { role: None, name: String::new(), path: path.to_owned() },
    }
}

/// What the check knows by the time it looks at the point.
#[derive(Debug)]
pub struct Evidence {
    /// The bounds the node reports now, and the space they are in.
    pub bounds: WindowRect,
    pub space: Space,
    /// The last descent that resolved the point.
    pub chain: Vec<Step>,
}

/// An [`Evidence`], its texts as their characters.
#[verifier::ext_equal]
pub struct EvidenceView {
    pub bounds: WindowRect,
    pub space: Space,
    pub chain: Seq<verify::StepView>,
}

impl View for Evidence {
    type V = EvidenceView;

    open spec fn view(&self) -> EvidenceView {
        EvidenceView { bounds: self.bounds, space: self.space, chain: verify::steps(self.chain@) }
    }
}

impl EvidenceView {
    /// A verdict on this evidence.
    pub open spec fn verdict(self, verdict: verify::VerdictView) -> verify::VerifiedView {
        verify::VerifiedView { verdict, chain: self.chain, bounds: Some(self.bounds) }
    }
}

/// What a walk up from the point is waiting for.
#[derive(Debug)]
pub enum Wait {
    /// The name of a role that means two things.
    RoleName,
    /// The extents of what may be the same control, exposed twice.
    Twin,
    Parent,
    /// What the parent is.
    Describe(Place),
}

/// A [`Wait`], its texts as their characters.
pub enum WaitView {
    RoleName,
    Twin,
    Parent,
    Describe(PlaceView),
}

impl View for Wait {
    type V = WaitView;

    open spec fn view(&self) -> WaitView {
        match self {
            Wait::RoleName => WaitView::RoleName,
            Wait::Twin => WaitView::Twin,
            Wait::Parent => WaitView::Parent,
            Wait::Describe(p) => WaitView::Describe(p@),
        }
    }
}

/// How far a check has come.
#[derive(Debug)]
pub enum Stage {
    /// Reading the node again.
    Reading,
    /// Descending to the point, from the frame or from one of the claim's
    /// ancestors. `found` is the object the last answer led to.
    Falling {
        seen: Evidence,
        at: Place,
        left: usize,
        found: Option<Place>,
        chain: Vec<Step>,
        /// The ancestors still to be asked, the next one last; `None` while
        /// it is the frame's turn.
        roots: Option<Vec<String>>,
    },
    /// Collecting the claim's ancestors below the frame, nearest first.
    Climbing { seen: Evidence, at: Place, above: Vec<String>, left: usize },
    /// Walking up from where the descent ended, looking for the claim.
    Passing { seen: Evidence, bus: String, step: Step, left: usize, wait: Wait },
    Done(Verified),
}

/// A [`Stage`], its texts as their characters.
pub enum StageView {
    Reading,
    Falling {
        seen: EvidenceView,
        at: PlaceView,
        left: nat,
        found: Option<PlaceView>,
        chain: Seq<verify::StepView>,
        roots: Option<Seq<Seq<char>>>,
    },
    Climbing { seen: EvidenceView, at: PlaceView, above: Seq<Seq<char>>, left: nat },
    Passing {
        seen: EvidenceView,
        bus: Seq<char>,
        step: verify::StepView,
        left: nat,
        wait: WaitView,
    },
    Done(verify::VerifiedView),
}

/// The characters of a list of texts.
pub open spec fn all_texts(list: Seq<String>) -> Seq<Seq<char>> {
    list.map_values(|s: String| s@)
}

impl View for Stage {
    type V = StageView;

    open spec fn view(&self) -> StageView {
        match self {
            Stage::Reading => StageView::Reading,
            Stage::Falling { seen, at, left, found, chain, roots } => StageView::Falling {
                seen: seen@,
                at: at@,
                left: *left as nat,
                found: match found {
                    Some(p) => Some(p@),
                    None => None,
                },
                chain: verify::steps(chain@),
                roots: match roots {
                    Some(r) => Some(all_texts(r@)),
                    None => None,
                },
            },
            Stage::Climbing { seen, at, above, left } => StageView::Climbing {
                seen: seen@,
                at: at@,
                above: all_texts(above@),
                left: *left as nat,
            },
            Stage::Passing { seen, bus, step, left, wait } => StageView::Passing {
                seen: seen@,
                bus: bus@,
                step: step@,
                left: *left as nat,
                wait: wait@,
            },
            Stage::Done(v) => StageView::Done(v@),
        }
    }
}

/// What a check is about: the frame it starts from, and the claim.
pub struct Aim {
    pub frame: PlaceView,
    pub claim: verify::ClaimView,
}

impl Aim {
    /// Where the claimed object is.
    pub open spec fn place(self) -> PlaceView {
        PlaceView { bus: self.claim.bus_name, path: self.claim.path }
    }

    /// The walk up from the point reached a step.
    pub open spec fn at_step(
        self,
        seen: EvidenceView,
        bus: Seq<char>,
        step: verify::StepView,
        left: nat,
    ) -> StageView {
        let hit = seen.chain.last();
        if left == 0 {
            StageView::Done(seen.verdict(verify::VerdictView::Covered(hit)))
        } else if step.path == self.claim.path {
            StageView::Done(seen.verdict(verify::VerdictView::Inside(hit)))
        } else if step.role is Some && filter::passive(step.role->0) {
            StageView::Passing { seen, bus, step, left, wait: WaitView::Parent }
        } else if step.role == Some(Role::Invalid) {
            StageView::Passing { seen, bus, step, left, wait: WaitView::RoleName }
        } else {
            self.at_block(seen, bus, step, left)
        }
    }

    /// The walk met something that is not decoration. The same control may be
    /// exposed twice, so one of the claim's own name gets to show where it
    /// is; two anonymous boxes on one spot prove nothing.
    pub open spec fn at_block(
        self,
        seen: EvidenceView,
        bus: Seq<char>,
        step: verify::StepView,
        left: nat,
    ) -> StageView {
        if self.claim.name.len() == 0 || step.name != self.claim.name {
            StageView::Done(seen.verdict(verify::VerdictView::Covered(step)))
        } else {
            StageView::Passing { seen, bus, step, left, wait: WaitView::Twin }
        }
    }

    /// Every root was asked: what is at the point is not the claim itself.
    pub open spec fn at_end(self, seen: EvidenceView) -> StageView {
        if seen.chain.len() == 0 {
            StageView::Done(
                seen.verdict(verify::VerdictView::Gone("the point resolves to nothing"@)),
            )
        } else {
            self.at_step(seen, self.claim.bus_name, seen.chain.last(), MAX_DEPTH as nat)
        }
    }

    /// On to the highest root that has not been asked.
    pub open spec fn at_root(self, seen: EvidenceView, roots: Seq<Seq<char>>) -> StageView {
        if roots.len() == 0 {
            self.at_end(seen)
        } else {
            StageView::Falling {
                seen,
                at: PlaceView { bus: self.claim.bus_name, path: roots.last() },
                left: MAX_DEPTH as nat,
                found: None,
                chain: Seq::empty(),
                roots: Some(roots.drop_last()),
            }
        }
    }

    /// A descent came to an end.
    pub open spec fn at_bottom(
        self,
        seen: EvidenceView,
        chain: Seq<verify::StepView>,
        roots: Option<Seq<Seq<char>>>,
    ) -> StageView {
        let now = EvidenceView { chain, ..seen };
        if verify::passes_through(chain, self.claim.path) {
            StageView::Done(now.verdict(verify::VerdictView::Valid))
        } else {
            match roots {
                None => StageView::Climbing {
                    seen: now,
                    at: self.place(),
                    above: Seq::empty(),
                    left: MAX_DEPTH as nat,
                },
                Some(rest) => self.at_root(
                    if chain.len() == 0 {
                        seen
                    } else {
                        now
                    },
                    rest,
                ),
            }
        }
    }

    /// The next question.
    pub open spec fn ask(self, stage: StageView) -> Option<AskView> {
        match stage {
            StageView::Reading => Some(AskView::Node(self.place())),
            StageView::Falling { seen, at, found, .. } => match found {
                Some(p) => Some(AskView::Describe(p)),
                None => Some(
                    AskView::AtPoint {
                        at,
                        x: self.claim.x,
                        y: self.claim.y,
                        space: seen.space,
                    },
                ),
            },
            StageView::Climbing { at, .. } => Some(AskView::Parent(at)),
            StageView::Passing { bus, step, wait, .. } => {
                let here = PlaceView { bus, path: step.path };
                match wait {
                    WaitView::RoleName => Some(AskView::RoleName(here)),
                    WaitView::Twin => Some(AskView::Extents(here)),
                    WaitView::Parent => Some(AskView::Parent(here)),
                    WaitView::Describe(p) => Some(AskView::Describe(p)),
                }
            },
            StageView::Done(_) => None,
        }
    }

    /// What an answer makes of a stage.
    pub open spec fn answered(self, stage: StageView, answer: AnswerView) -> StageView {
        match stage {
            StageView::Reading => {
                let reread = match answer {
                    AnswerView::Node(r) => r,
                    _ => verify::RereadView::NoRoute,
                };
                match self.claim.refused(reread) {
                    Some(v) => StageView::Done(v),
                    None => StageView::Falling {
                        seen: EvidenceView {
                            bounds: (reread->Now_0).bounds,
                            space: (reread->Now_0).space,
                            chain: Seq::empty(),
                        },
                        at: self.frame,
                        left: MAX_DEPTH as nat,
                        found: None,
                        chain: Seq::empty(),
                        roots: None,
                    },
                }
            },
            StageView::Falling { seen, at, left, found, chain, roots } => match found {
                None => match answer.leads_to(at) {
                    Some(p) => StageView::Falling { seen, at, left, found: Some(p), chain, roots },
                    None => self.at_bottom(seen, chain, roots),
                },
                Some(p) => {
                    let longer = chain.push(answer.step(p.path));
                    if left <= 1 {
                        self.at_bottom(seen, longer, roots)
                    } else {
                        StageView::Falling {
                            seen,
                            at: p,
                            left: (left - 1) as nat,
                            found: None,
                            chain: longer,
                            roots,
                        }
                    }
                },
            },
            StageView::Climbing { seen, at, above, left } => match answer.leads_to(at) {
                Some(p) if p.path != self.frame.path => {
                    let higher = above.push(p.path);
                    if left <= 1 {
                        self.at_root(seen, higher)
                    } else {
                        StageView::Climbing { seen, at: p, above: higher, left: (left - 1) as nat }
                    }
                },
                _ => self.at_root(seen, above),
            },
            StageView::Passing { seen, bus, step, left, wait } => {
                let hit = seen.chain.last();
                match wait {
                    WaitView::RoleName => if answer.names_decoration() {
                        StageView::Passing { seen, bus, step, left, wait: WaitView::Parent }
                    } else {
                        self.at_block(seen, bus, step, left)
                    },
                    WaitView::Twin => StageView::Done(
                        seen.verdict(
                            if answer.on_spot(self.claim.bounds) {
                                verify::VerdictView::Inside(hit)
                            } else {
                                verify::VerdictView::Covered(step)
                            },
                        ),
                    ),
                    WaitView::Parent => match answer.leads_to(PlaceView { bus, path: step.path }) {
                        Some(p) => StageView::Passing {
                            seen,
                            bus,
                            step,
                            left,
                            wait: WaitView::Describe(p),
                        },
                        None => StageView::Done(seen.verdict(verify::VerdictView::Covered(hit))),
                    },
                    WaitView::Describe(p) => self.at_step(
                        seen,
                        p.bus,
                        answer.step(p.path),
                        if left == 0 {
                            0
                        } else {
                            (left - 1) as nat
                        },
                    ),
                }
            },
            StageView::Done(v) => StageView::Done(v),
        }
    }
}

/// One verification, from the claim to the verdict.
#[derive(Debug)]
pub struct Check {
    pub frame: Place,
    pub claim: Claim,
    pub stage: Stage,
}

fn conclude(seen: Evidence, v: Verdict) -> (s: Stage)
    ensures
        s@ == StageView::Done(seen@.verdict(v@)),
{
    Stage::Done(Verified { verdict: v, chain: seen.chain, bounds: Some(seen.bounds) })
}

/// The deepest step of a descent that resolved the point.
fn deepest(seen: &Evidence) -> (s: Step)
    requires
        seen.chain@.len() > 0,
    ensures
        s@ == seen@.chain.last(),
{
    seen.chain[seen.chain.len() - 1].clone()
}

impl Check {
    /// What the check is about.
    pub open spec fn aim(self) -> Aim {
        Aim { frame: self.frame@, claim: self.claim@ }
    }

    /// A walk up from the point has a point to walk up from.
    pub open spec fn wf(self) -> bool {
        self.stage matches Stage::Passing { seen, .. } ==> seen.chain@.len() > 0
    }

    pub fn new(frame: &Frame, claim: &Claim) -> (c: Self)
        ensures
            c.wf(),
            c.aim() == (Aim {
                frame: PlaceView { bus: frame@.bus_name, path: frame@.path },
                claim: claim@,
            }),
            c.stage@ == StageView::Reading,
    {
        Check {
            frame: Place { bus: frame.bus_name.clone(), path: frame.path.clone() },
            claim: claim.clone(),
            stage: Stage::Reading,
        }
    }

    /// The next question, or `None` once there is a verdict.
    pub fn ask(&self) -> (q: Option<Ask>)
        ensures
            match q {
                Some(q) => self.aim().ask(self.stage@) == Some(q@),
                None => self.aim().ask(self.stage@) is None,
            },
    {
        match &self.stage {
            Stage::Reading => Some(
                Ask::Node(Place { bus: self.claim.bus_name.clone(), path: self.claim.path.clone() }),
            ),
            Stage::Falling { seen, at, found, .. } => match found {
                Some(p) => Some(Ask::Describe(p.clone())),
                None => Some(
                    Ask::AtPoint {
                        at: at.clone(),
                        x: self.claim.x,
                        y: self.claim.y,
                        space: seen.space,
                    },
                ),
            },
            Stage::Climbing { at, .. } => Some(Ask::Parent(at.clone())),
            Stage::Passing { bus, step, wait, .. } => {
                let here: Place = Place { bus: bus.clone(), path: step.path.clone() };
                match wait {
                    Wait::RoleName => Some(Ask::RoleName(here)),
                    Wait::Twin => Some(Ask::Extents(here)),
                    Wait::Parent => Some(Ask::Parent(here)),
                    Wait::Describe(p) => Some(Ask::Describe(p.clone())),
                }
            },
            Stage::Done(_) => None,
        }
    }

    /// The verdict, once there is one.
    pub fn result(&self) -> (v: Option<&Verified>)
        ensures
            match v {
                Some(v) => self.stage@ == StageView::Done(v@),
                None => !(self.stage@ is Done),
            },
    {
        match &self.stage {
            Stage::Done(v) => Some(v),
            _ => None,
        }
    }

    fn at_block(&self, seen: Evidence, bus: String, step: Step, left: usize) -> (s: Stage)
        requires
            seen.chain@.len() > 0,
        ensures
            s@ == self.aim().at_block(seen@, bus@, step@, left as nat),
            s matches Stage::Passing { seen, .. } ==> seen.chain@.len() > 0,
    {
        if self.claim.name.unicode_len() == 0 || !step.name.as_str().eq(self.claim.name.as_str()) {
            conclude(seen, Verdict::Covered(step))
        } else {
            Stage::Passing { seen, bus, step, left, wait: Wait::Twin }
        }
    }

    fn at_step(&self, seen: Evidence, bus: String, step: Step, left: usize) -> (s: Stage)
        requires
            seen.chain@.len() > 0,
        ensures
            s@ == self.aim().at_step(seen@, bus@, step@, left as nat),
            s matches Stage::Passing { seen, .. } ==> seen.chain@.len() > 0,
    {
        if left == 0 {
            let hit: Step = deepest(&seen);
            return conclude(seen, Verdict::Covered(hit));
        }
        if step.path.as_str().eq(self.claim.path.as_str()) {
            let hit: Step = deepest(&seen);
            return conclude(seen, Verdict::Inside(hit));
        }
        match step.role {
            Some(role) => {
                if filter::role_is_passive(role) {
                    return Stage::Passing { seen, bus, step, left, wait: Wait::Parent };
                }
                if role == Role::Invalid {
                    return Stage::Passing { seen, bus, step, left, wait: Wait::RoleName };
                }
            },
            None => {},
        }
        self.at_block(seen, bus, step, left)
    }

    fn at_end(&self, seen: Evidence) -> (s: Stage)
        ensures
            s@ == self.aim().at_end(seen@),
            s matches Stage::Passing { seen, .. } ==> seen.chain@.len() > 0,
    {
        if seen.chain.len() == 0 {
            return conclude(seen, Verdict::Gone("the point resolves to nothing".to_owned()));
        }
        let hit: Step = deepest(&seen);
        self.at_step(seen, self.claim.bus_name.clone(), hit, MAX_DEPTH)
    }

    fn at_root(&self, seen: Evidence, roots: Vec<String>) -> (s: Stage)
        ensures
            s@ == self.aim().at_root(seen@, all_texts(roots@)),
            s matches Stage::Passing { seen, .. } ==> seen.chain@.len() > 0,
    {
        let mut rest: Vec<String> = roots;
        match rest.pop() {
            Some(path) => {
                let s: Stage = Stage::Falling {
                    seen,
                    at: Place { bus: self.claim.bus_name.clone(), path },
                    left: MAX_DEPTH,
                    found: None,
                    chain: Vec::new(),
                    roots: Some(rest),
                };
                assert(all_texts(roots@).drop_last() =~= all_texts(rest@));
                assert(s@->chain =~= Seq::empty());
                s
            },
            None => self.at_end(seen),
        }
    }

    /// Whether a descent met the claim.
    fn met(&self, chain: &Vec<Step>) -> (r: bool)
        ensures
            r == verify::passes_through(verify::steps(chain@), self.claim@.path),
    {
        let mut i: usize = 0;
        while i < chain.len()
            invariant
                i <= chain@.len(),
                forall|j: int| 0 <= j < i ==> (#[trigger] chain@[j]).path@ != self.claim.path@,
            decreases chain.len() - i,
        {
            if chain[i].path.as_str().eq(self.claim.path.as_str()) {
                assert(verify::steps(chain@)[i as int].path == self.claim@.path);
                return true;
            }
            i = i + 1;
        }
        false
    }

    fn at_bottom(&self, seen: Evidence, chain: Vec<Step>, roots: Option<Vec<String>>) -> (s: Stage)
        ensures
            s@ == self.aim().at_bottom(
                seen@,
                verify::steps(chain@),
                match roots {
                    Some(r) => Some(all_texts(r@)),
                    None => None,
                },
            ),
            s matches Stage::Passing { seen, .. } ==> seen.chain@.len() > 0,
    {
        let through: bool = self.met(&chain);
        let fresh: bool = chain.len() > 0;
        if through {
            return conclude(Evidence { chain, ..seen }, Verdict::Valid);
        }
        match roots {
            None => {
                let s: Stage = Stage::Climbing {
                    seen: Evidence { chain, ..seen },
                    at: Place { bus: self.claim.bus_name.clone(), path: self.claim.path.clone() },
                    above: Vec::new(),
                    left: MAX_DEPTH,
                };
                assert(s@->above =~= Seq::empty());
                s
            },
            Some(rest) => {
                if fresh {
                    self.at_root(Evidence { chain, ..seen }, rest)
                } else {
                    self.at_root(seen, rest)
                }
            },
        }
    }

    /// Take the answer to the last question.
    pub fn answer(self, answer: Answer) -> (next: Self)
        requires
            self.wf(),
        ensures
            next.wf(),
            next.aim() == self.aim(),
            next.stage@ == self.aim().answered(self.stage@, answer@),
    {
        let Check { frame, claim, stage } = self;
        let here: Check = Check { frame, claim, stage: Stage::Reading };
        let ghost aim = here.aim();
        let stage: Stage = match stage {
            Stage::Reading => {
                let reread: Reread = match answer {
                    Answer::Node(r) => r,
                    _ => Reread::NoRoute,
                };
                match verify::read_again(&here.claim, &reread) {
                    Some(v) => Stage::Done(v),
                    None => match reread {
                        Reread::Now(now) => {
                            let s: Stage = Stage::Falling {
                                seen: Evidence {
                                    bounds: now.bounds,
                                    space: now.space,
                                    chain: Vec::new(),
                                },
                                at: here.frame.clone(),
                                left: MAX_DEPTH,
                                found: None,
                                chain: Vec::new(),
                                roots: None,
                            };
                            assert(s@->Falling_seen.chain =~= Seq::empty());
                            assert(s@->chain =~= Seq::empty());
                            s
                        },
                        _ => Stage::Reading,
                    },
                }
            },
            Stage::Falling { seen, at, left, found, chain, roots } => match found {
                None => match leads_to(&answer, &at) {
                    Some(p) => Stage::Falling { seen, at, left, found: Some(p), chain, roots },
                    None => here.at_bottom(seen, chain, roots),
                },
                Some(p) => {
                    let ghost before = verify::steps(chain@);
                    let mut longer: Vec<Step> = chain;
                    let step: Step = step_of(&answer, p.path.as_str());
                    longer.push(step);
                    assert(verify::steps(longer@) =~= before.push(step@));
                    if left <= 1 {
                        here.at_bottom(seen, longer, roots)
                    } else {
                        Stage::Falling {
                            seen,
                            at: p,
                            left: left - 1,
                            found: None,
                            chain: longer,
                            roots,
                        }
                    }
                },
            },
            Stage::Climbing { seen, at, above, left } => {
                let up: Option<Place> = leads_to(&answer, &at);
                match up {
                    Some(p) => {
                        if p.path.as_str().eq(here.frame.path.as_str()) {
                            here.at_root(seen, above)
                        } else {
                            let ghost before = all_texts(above@);
                            let mut higher: Vec<String> = above;
                            higher.push(p.path.clone());
                            assert(all_texts(higher@) =~= before.push(p.path@));
                            if left <= 1 {
                                here.at_root(seen, higher)
                            } else {
                                Stage::Climbing { seen, at: p, above: higher, left: left - 1 }
                            }
                        }
                    },
                    None => here.at_root(seen, above),
                }
            },
            Stage::Passing { seen, bus, step, left, wait } => match wait {
                Wait::RoleName => {
                    let passes: bool = match &answer {
                        Answer::RoleName(Some(n)) => filter::role_name_is_passive(n.as_str()),
                        _ => false,
                    };
                    if passes {
                        Stage::Passing { seen, bus, step, left, wait: Wait::Parent }
                    } else {
                        here.at_block(seen, bus, step, left)
                    }
                },
                Wait::Twin => {
                    let twin: bool = match &answer {
                        Answer::Extents(Some(b)) => filter::same_spot(*b, here.claim.bounds),
                        _ => false,
                    };
                    let hit: Step = deepest(&seen);
                    if twin {
                        conclude(seen, Verdict::Inside(hit))
                    } else {
                        conclude(seen, Verdict::Covered(step))
                    }
                },
                Wait::Parent => {
                    let from: Place = Place { bus: bus.clone(), path: step.path.clone() };
                    match leads_to(&answer, &from) {
                        Some(p) => Stage::Passing {
                            seen,
                            bus,
                            step,
                            left,
                            wait: Wait::Describe(p),
                        },
                        None => {
                            let hit: Step = deepest(&seen);
                            conclude(seen, Verdict::Covered(hit))
                        },
                    }
                },
                Wait::Describe(p) => {
                    let next: Step = step_of(&answer, p.path.as_str());
                    let left: usize = if left == 0 {
                        0
                    } else {
                        left - 1
                    };
                    here.at_step(seen, p.bus, next, left)
                },
            },
            Stage::Done(v) => Stage::Done(v),
        };
        Check { stage, ..here }
    }
}

} // verus!
