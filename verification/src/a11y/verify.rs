//! Validate at the point of action.
//!
//! Everything else here answers "where are the buttons". This answers the
//! only question that is asked after the user has committed: **is the thing
//! under this coordinate still the thing the label promised?** A hint drawn
//! over a stale tree is a cosmetic bug. A *click* on a stale tree is the one
//! unacceptable outcome, and this is the last place it can be stopped.
//!
//! Two independent checks, because they fail differently:
//!
//! 1. **Re-read the node**: it still answers, still has the role and name it
//!    was labelled with, is still showing, visible and sensitive, and still
//!    covers the coordinate. That is [`read_again`].
//! 2. **Descend to the coordinate from the frame**: it resolves to that node,
//!    or to something inside it. Catches something *else* having moved on top
//!    of it. That is the rest of [`crate::a11y::check::Check`].
//!
//! On anything but agreement: abort, do not click.
use vstd::prelude::*;
use vstd::string::*;

use crate::a11y::error;
use crate::a11y::error::Error;
use crate::a11y::role;
use crate::a11y::role::{Role, State, StateSet};
use crate::a11y::target::{Target, WindowRect};
use crate::num;
use crate::text;

verus! {

/// How deep a descent or a climb may go before it is treated as a loop. A
/// guard against an application that answers with something that is not a
/// descendant, not a tuning parameter.
pub const MAX_DEPTH: usize = 24;

/// What the label promised, taken from the [`Target`] the user chose. A
/// snapshot rather than the target itself: *what was drawn* is compared with
/// *what is there now*.
#[derive(Debug)]
pub struct Claim {
    pub bus_name: String,
    pub path: String,
    pub role: Role,
    pub name: String,
    pub bounds: WindowRect,
    /// The window-relative point about to be clicked. Passed explicitly: the
    /// thing to be validated is the coordinate that will actually be used.
    pub x: i32,
    pub y: i32,
}

/// A [`Claim`], its texts as their characters.
pub struct ClaimView {
    pub bus_name: Seq<char>,
    pub path: Seq<char>,
    pub role: Role,
    pub name: Seq<char>,
    pub bounds: WindowRect,
    pub x: i32,
    pub y: i32,
}

impl View for Claim {
    type V = ClaimView;

    open spec fn view(&self) -> ClaimView {
        ClaimView {
            bus_name: self.bus_name@,
            path: self.path@,
            role: self.role,
            name: self.name@,
            bounds: self.bounds,
            x: self.x,
            y: self.y,
        }
    }
}

impl Clone for Claim {
    fn clone(&self) -> (c: Self)
        ensures
            c@ == self@,
    {
        Claim {
            bus_name: self.bus_name.clone(),
            path: self.path.clone(),
            name: self.name.clone(),
            ..*self
        }
    }
}

impl Claim {
    /// The centre of the target: the right claim when nothing else has an
    /// opinion.
    pub fn of(target: &Target) -> (c: Self)
        requires
            num::fits(target.bounds.middle_x()),
            num::fits(target.bounds.middle_y()),
        ensures
            c@ == (ClaimView {
                bus_name: target@.bus_name,
                path: target@.path,
                role: target@.role,
                name: target@.name,
                bounds: target@.bounds,
                x: target@.bounds.middle_x() as i32,
                y: target@.bounds.middle_y() as i32,
            }),
    {
        let (x, y) = target.bounds.centre();
        Claim::at(target, x, y)
    }

    /// A claim on an explicit point, which must arrive here intact rather
    /// than be recomputed from bounds.
    pub fn at(target: &Target, x: i32, y: i32) -> (c: Self)
        ensures
            c@ == (ClaimView {
                bus_name: target@.bus_name,
                path: target@.path,
                role: target@.role,
                name: target@.name,
                bounds: target@.bounds,
                x,
                y,
            }),
    {
        Claim {
            bus_name: target.bus_name.clone(),
            path: target.path.clone(),
            role: target.role,
            name: target.name.clone(),
            bounds: target.bounds,
            x,
            y,
        }
    }
}

/// One node the descent passed through.
#[derive(Debug, PartialEq, Eq)]
pub struct Step {
    /// `None` when the node was reached but would not describe itself. Kept
    /// apart from `Role::Invalid`, which is an application saying its role
    /// *is* invalid.
    pub role: Option<Role>,
    pub name: String,
    pub path: String,
}

/// A [`Step`], its texts as their characters.
pub struct StepView {
    pub role: Option<Role>,
    pub name: Seq<char>,
    pub path: Seq<char>,
}

impl View for Step {
    type V = StepView;

    open spec fn view(&self) -> StepView {
        StepView { role: self.role, name: self.name@, path: self.path@ }
    }
}

impl Clone for Step {
    fn clone(&self) -> (s: Self)
        ensures
            s@ == self@,
    {
        Step { role: self.role, name: self.name.clone(), path: self.path.clone() }
    }
}

impl StepView {
    /// The step in words.
    pub open spec fn words(self) -> Seq<char> {
        match self.role {
            Some(r) => role::role_word(r.number()) + " '"@ + self.name + "'  "@ + self.path,
            None => "(no answer)  "@ + self.path,
        }
    }
}

impl Step {
    /// The step in words.
    pub fn describe(&self) -> (s: String)
        ensures
            s@ == self@.words(),
    {
        match self.role {
            Some(r) => {
                let mut s: String = r.name().to_owned();
                s.append(" '");
                s.append(self.name.as_str());
                s.append("'  ");
                s.append(self.path.as_str());
                s
            },
            None => {
                let mut s: String = "(no answer)  ".to_owned();
                s.append(self.path.as_str());
                s
            },
        }
    }
}

/// The steps of a chain.
pub open spec fn steps(chain: Seq<Step>) -> Seq<StepView> {
    chain.map_values(|s: Step| s@)
}

/// One of the steps is the object under `path`.
pub open spec fn passes_through(chain: Seq<StepView>, path: Seq<char>) -> bool {
    exists|i: int| 0 <= i < chain.len() && (#[trigger] chain[i]).path == path
}

/// Why a click was refused, or that it was not.
#[derive(Debug, PartialEq, Eq)]
pub enum Verdict {
    /// Both checks agree.
    Valid,
    /// The node stopped answering: destroyed, or its application is gone.
    Gone(String),
    /// Still there, but not what was promised.
    Changed(String),
    /// The coordinate resolves to something else.
    Covered(Step),
    /// The coordinate resolves to passive decoration *inside* the target: a
    /// label, an icon, a box drawn as part of it. Clickable, and apart from
    /// `Valid` so that it can be said which of the two happened.
    Inside(Step),
}

/// A [`Verdict`], its texts as their characters.
pub enum VerdictView {
    Valid,
    Gone(Seq<char>),
    Changed(Seq<char>),
    Covered(StepView),
    Inside(StepView),
}

impl View for Verdict {
    type V = VerdictView;

    open spec fn view(&self) -> VerdictView {
        match self {
            Verdict::Valid => VerdictView::Valid,
            Verdict::Gone(m) => VerdictView::Gone(m@),
            Verdict::Changed(m) => VerdictView::Changed(m@),
            Verdict::Covered(s) => VerdictView::Covered(s@),
            Verdict::Inside(s) => VerdictView::Inside(s@),
        }
    }
}

impl Clone for Verdict {
    fn clone(&self) -> (v: Self)
        ensures
            v@ == self@,
    {
        match self {
            Verdict::Valid => Verdict::Valid,
            Verdict::Gone(m) => Verdict::Gone(m.clone()),
            Verdict::Changed(m) => Verdict::Changed(m.clone()),
            Verdict::Covered(s) => Verdict::Covered(s.clone()),
            Verdict::Inside(s) => Verdict::Inside(s.clone()),
        }
    }
}

impl VerdictView {
    /// The click may be made.
    pub open spec fn allows(self) -> bool {
        self is Valid || self is Inside
    }

    /// One line, phrased for a user who is about to be told nothing happened.
    pub open spec fn reason(self) -> Seq<char> {
        match self {
            VerdictView::Valid => "the target is unchanged"@,
            VerdictView::Gone(m) => "the target is gone ("@ + m + ")"@,
            VerdictView::Changed(m) => "the target changed: "@ + m,
            VerdictView::Covered(s) => "the point now resolves to "@ + s.words(),
            VerdictView::Inside(s) => "the point resolves to "@ + s.words()
                + ", inside the target"@,
        }
    }
}

impl Verdict {
    pub fn is_ok(&self) -> (r: bool)
        ensures
            r == self@.allows(),
    {
        match self {
            Verdict::Valid => true,
            Verdict::Inside(_) => true,
            _ => false,
        }
    }

    /// One line, phrased for a user who is about to be told nothing happened.
    pub fn why(&self) -> (s: String)
        ensures
            s@ == self@.reason(),
    {
        match self {
            Verdict::Valid => "the target is unchanged".to_owned(),
            Verdict::Gone(m) => {
                let mut s: String = "the target is gone (".to_owned();
                s.append(m.as_str());
                s.append(")");
                s
            },
            Verdict::Changed(m) => {
                let mut s: String = "the target changed: ".to_owned();
                s.append(m.as_str());
                s
            },
            Verdict::Covered(step) => {
                let mut s: String = "the point now resolves to ".to_owned();
                s.append(step.describe().as_str());
                s
            },
            Verdict::Inside(step) => {
                let mut s: String = "the point resolves to ".to_owned();
                s.append(step.describe().as_str());
                s.append(", inside the target");
                s
            },
        }
    }
}

/// The verdict and the evidence behind it.
#[derive(Debug)]
pub struct Verified {
    pub verdict: Verdict,
    /// What the descent walked through, frame first and deepest last: when a
    /// click is refused, the difference between "this is broken" and "a menu
    /// was open".
    pub chain: Vec<Step>,
    /// The bounds the node reports *now*.
    pub bounds: Option<WindowRect>,
}

/// A [`Verified`], its texts as their characters.
#[verifier::ext_equal]
pub struct VerifiedView {
    pub verdict: VerdictView,
    pub chain: Seq<StepView>,
    pub bounds: Option<WindowRect>,
}

impl View for Verified {
    type V = VerifiedView;

    open spec fn view(&self) -> VerifiedView {
        VerifiedView {
            verdict: self.verdict@,
            chain: steps(self.chain@),
            bounds: self.bounds,
        }
    }
}

impl Clone for Verified {
    fn clone(&self) -> (v: Self)
        ensures
            v@ == self@,
    {
        let chain: Vec<Step> = self.chain.clone();
        assert(steps(chain@) =~= steps(self.chain@));
        Verified { verdict: self.verdict.clone(), chain, bounds: self.bounds }
    }
}

/// Which of the two coordinate spaces an application answered in. Some
/// toolkits answer one of them with a position of zero for everything, and
/// hit-test it the same way: the point must be asked in the space that
/// answered for the rectangle.
#[derive(Debug, Clone, Copy, PartialEq, Eq, Structural)]
pub enum Space {
    Screen,
    Window,
}

/// Whether the point is inside the rectangle. Half-open: the far edge belongs
/// to the next pixel.
pub fn contains(r: &WindowRect, x: i32, y: i32) -> (inside: bool)
    ensures
        inside == r.covers(x as int, y as int),
{
    x >= r.x && y >= r.y && x < num::saturating_add(r.x, r.w) && y < num::saturating_add(r.y, r.h)
}

/// What a node says of itself.
#[derive(Debug)]
pub struct Reading {
    pub role: Role,
    pub name: String,
    pub states: StateSet,
    pub bounds: WindowRect,
    pub space: Space,
}

/// A [`Reading`], its texts as their characters.
pub struct ReadingView {
    pub role: Role,
    pub name: Seq<char>,
    pub states: StateSet,
    pub bounds: WindowRect,
    pub space: Space,
}

impl View for Reading {
    type V = ReadingView;

    open spec fn view(&self) -> ReadingView {
        ReadingView {
            role: self.role,
            name: self.name@,
            states: self.states,
            bounds: self.bounds,
            space: self.space,
        }
    }
}

/// What came of reading the claimed node again.
#[derive(Debug)]
pub enum Reread {
    /// There is no way to address the object.
    NoRoute,
    /// One of the questions was not answered. An application being unable to
    /// answer *is* the finding.
    Failed(Error),
    Now(Reading),
}

/// A [`Reread`], its texts as their characters.
pub enum RereadView {
    NoRoute,
    Failed(error::ErrorView),
    Now(ReadingView),
}

impl View for Reread {
    type V = RereadView;

    open spec fn view(&self) -> RereadView {
        match self {
            Reread::NoRoute => RereadView::NoRoute,
            Reread::Failed(e) => RereadView::Failed(e@),
            Reread::Now(r) => RereadView::Now(r@),
        }
    }
}

impl ClaimView {
    /// What the node says is not what was promised, and how. A rectangle is
    /// compared by whether it still covers the point, not by equality: a
    /// focus ring can shift it by a pixel.
    pub open spec fn difference(self, now: ReadingView) -> Option<Seq<char>> {
        if now.role != self.role {
            Some(
                "role was "@ + role::role_word(self.role.number()) + ", is "@ + role::role_word(
                    now.role.number(),
                ),
            )
        } else if now.name != self.name {
            Some("name was '"@ + self.name + "', is '"@ + now.name + "'"@)
        } else if !now.states.has(State::Showing) {
            Some("no longer showing"@)
        } else if !now.states.has(State::Visible) {
            Some("no longer visible"@)
        } else if !now.states.has(State::Sensitive) {
            Some("no longer sensitive"@)
        } else if !now.bounds.covers(self.x as int, self.y as int) {
            Some(
                "bounds were "@ + self.bounds.words() + ", are "@ + now.bounds.words() + " — "@
                    + text::signed_decimal(self.x as int) + ","@ + text::signed_decimal(
                    self.y as int,
                ) + " is now outside"@,
            )
        } else {
            None
        }
    }

    /// The node still is what was promised.
    pub open spec fn still_holds(self, now: ReadingView) -> bool {
        &&& now.role == self.role
        &&& now.name == self.name
        &&& now.states.has(State::Showing)
        &&& now.states.has(State::Visible)
        &&& now.states.has(State::Sensitive)
        &&& now.bounds.covers(self.x as int, self.y as int)
    }

    /// What the first check alone refuses, and how.
    pub open spec fn refused(self, answer: RereadView) -> Option<VerifiedView> {
        match answer {
            RereadView::NoRoute => Some(
                VerifiedView {
                    verdict: VerdictView::Gone("no route to the object"@),
                    chain: Seq::empty(),
                    bounds: None,
                },
            ),
            RereadView::Failed(e) => Some(
                VerifiedView {
                    verdict: VerdictView::Gone(e.message()),
                    chain: Seq::empty(),
                    bounds: None,
                },
            ),
            RereadView::Now(now) => match self.difference(now) {
                Some(m) => Some(
                    VerifiedView {
                        verdict: VerdictView::Changed(m),
                        chain: Seq::empty(),
                        bounds: Some(now.bounds),
                    },
                ),
                None => None,
            },
        }
    }
}

/// How the node differs from what was promised, if it does.
fn difference(claim: &Claim, now: &Reading) -> (m: Option<String>)
    ensures
        match m {
            Some(m) => claim@.difference(now@) == Some(m@),
            None => claim@.difference(now@) is None,
        },
{
    if now.role != claim.role {
        let mut s: String = "role was ".to_owned();
        s.append(claim.role.name());
        s.append(", is ");
        s.append(now.role.name());
        return Some(s);
    }
    if !now.name.as_str().eq(claim.name.as_str()) {
        let mut s: String = "name was '".to_owned();
        s.append(claim.name.as_str());
        s.append("', is '");
        s.append(now.name.as_str());
        s.append("'");
        return Some(s);
    }
    if !now.states.contains(State::Showing) {
        return Some("no longer showing".to_owned());
    }
    if !now.states.contains(State::Visible) {
        return Some("no longer visible".to_owned());
    }
    if !now.states.contains(State::Sensitive) {
        return Some("no longer sensitive".to_owned());
    }
    if !contains(&now.bounds, claim.x, claim.y) {
        let mut s: String = "bounds were ".to_owned();
        s.append(claim.bounds.describe().as_str());
        s.append(", are ");
        s.append(now.bounds.describe().as_str());
        s.append(" — ");
        text::push_signed(&mut s, claim.x as i64);
        s.append(",");
        text::push_signed(&mut s, claim.y as i64);
        s.append(" is now outside");
        return Some(s);
    }
    None
}

/// The first check: is the node still what it was? `Some` is a refusal;
/// `None` means the second check decides.
pub fn read_again(claim: &Claim, answer: &Reread) -> (v: Option<Verified>)
    ensures
        match v {
            Some(v) => claim@.refused(answer@) == Some(v@),
            None => claim@.refused(answer@) is None,
        },
{
    let (verdict, bounds): (Verdict, Option<WindowRect>) = match answer {
        Reread::NoRoute => (Verdict::Gone("no route to the object".to_owned()), None),
        Reread::Failed(e) => (Verdict::Gone(e.describe()), None),
        Reread::Now(now) => match difference(claim, now) {
            Some(m) => (Verdict::Changed(m), Some(now.bounds)),
            None => {
                return None;
            },
        },
    };
    let v: Verified = Verified { verdict, chain: Vec::new(), bounds };
    assert(v@.chain =~= Seq::empty());
    Some(v)
}

/// A node differs exactly when it no longer holds what was promised.
pub proof fn a_difference_is_a_broken_promise(claim: ClaimView, now: ReadingView)
    ensures
        claim.difference(now) is None <==> claim.still_holds(now),
{
}

} // verus!
