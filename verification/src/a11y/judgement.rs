//! What a check comes to, stated without the conversation.
//!
//! A [`World`] answers every question the same way whenever it is asked. Of
//! such a world a [`crate::a11y::check::Check`] always ends, and its verdict
//! is [`judgement`].
use vstd::prelude::*;
use vstd::string::*;

use crate::a11y::check::{Aim, AnswerView, AskView, EvidenceView, PlaceView, StageView, WaitView};
use crate::a11y::filter;
use crate::a11y::role::Role;
use crate::a11y::target;
use crate::a11y::target::WindowRect;
use crate::a11y::verify;
use crate::a11y::verify::{Space, StepView, VerdictView, VerifiedView, MAX_DEPTH};

verus! {

/// The applications, as far as a check can ask about them.
pub struct World {
    pub node: verify::RereadView,
    pub at_point: spec_fn(PlaceView, Space) -> Option<target::ObjectView>,
    pub parent: spec_fn(PlaceView) -> Option<target::ObjectView>,
    pub role: spec_fn(PlaceView) -> Option<Role>,
    pub name: spec_fn(PlaceView) -> Option<Seq<char>>,
    pub role_name: spec_fn(PlaceView) -> Option<Seq<char>>,
    pub extents: spec_fn(PlaceView) -> Option<WindowRect>,
}

impl World {
    /// What the world says to a question.
    pub open spec fn answer(self, ask: AskView) -> AnswerView {
        match ask {
            AskView::Node(_) => AnswerView::Node(self.node),
            AskView::AtPoint { at, space, .. } => AnswerView::Object((self.at_point)(at, space)),
            AskView::Describe(p) => AnswerView::Described {
                role: (self.role)(p),
                name: (self.name)(p),
            },
            AskView::Parent(p) => AnswerView::Object((self.parent)(p)),
            AskView::RoleName(p) => AnswerView::RoleName((self.role_name)(p)),
            AskView::Extents(p) => AnswerView::Extents((self.extents)(p)),
        }
    }

    /// An object as a step.
    pub open spec fn step(self, p: PlaceView) -> StepView {
        self.answer(AskView::Describe(p)).step(p.path)
    }

    /// Where the object at the point is, seen from another.
    pub open spec fn below(self, at: PlaceView, space: Space) -> Option<PlaceView> {
        AnswerView::Object((self.at_point)(at, space)).leads_to(at)
    }

    /// Where an object's parent is.
    pub open spec fn above(self, at: PlaceView) -> Option<PlaceView> {
        AnswerView::Object((self.parent)(at)).leads_to(at)
    }

    /// Everything at the point below an object, from the top down, to a depth
    /// of `n`.
    pub open spec fn descent(self, at: PlaceView, space: Space, n: nat) -> Seq<StepView>
        decreases n,
    {
        if n == 0 {
            Seq::empty()
        } else {
            match self.below(at, space) {
                Some(p) => seq![self.step(p)] + self.descent(p, space, (n - 1) as nat),
                None => Seq::empty(),
            }
        }
    }

    /// The ancestors of an object below the frame, nearest first, `n` at
    /// most.
    pub open spec fn ancestors(self, at: PlaceView, frame: Seq<char>, n: nat) -> Seq<Seq<char>>
        decreases n,
    {
        if n == 0 {
            Seq::empty()
        } else {
            match self.above(at) {
                Some(p) if p.path != frame => seq![p.path] + self.ancestors(
                    p,
                    frame,
                    (n - 1) as nat,
                ),
                _ => Seq::empty(),
            }
        }
    }

    /// A step is decoration a click may pass through. The one role that means
    /// two things is asked its name.
    pub open spec fn passes(self, bus: Seq<char>, step: StepView) -> bool {
        match step.role {
            Some(role) => filter::passive(role) || (role == Role::Invalid && self.answer(
                AskView::RoleName(PlaceView { bus, path: step.path }),
            ).names_decoration()),
            None => false,
        }
    }

    /// A step is the claim, exposed a second time: of the same name, which is
    /// not empty, and on the same spot.
    pub open spec fn twin(self, aim: Aim, bus: Seq<char>, step: StepView) -> bool {
        &&& aim.claim.name.len() > 0
        &&& step.name == aim.claim.name
        &&& self.answer(AskView::Extents(PlaceView { bus, path: step.path })).on_spot(
            aim.claim.bounds,
        )
    }

    /// What the ancestry says of a point that resolved to something else than
    /// the claim.
    pub open spec fn inside(self, aim: Aim, bus: Seq<char>, step: StepView, n: nat) -> Inside
        decreases n,
    {
        if n == 0 {
            Inside::Elsewhere
        } else if step.path == aim.claim.path {
            Inside::Passive
        } else if !self.passes(bus, step) {
            if self.twin(aim, bus, step) {
                Inside::Passive
            } else {
                Inside::Blocked(step)
            }
        } else {
            match self.above(PlaceView { bus, path: step.path }) {
                Some(p) => self.inside(aim, p.bus, self.step(p), (n - 1) as nat),
                None => Inside::Elsewhere,
            }
        }
    }

    /// The last descent that resolved the point, and whether it met the
    /// claim: each root in turn, the last of the list first.
    pub open spec fn retried(
        self,
        aim: Aim,
        seen: EvidenceView,
        roots: Seq<Seq<char>>,
    ) -> (EvidenceView, bool)
        decreases roots.len(),
    {
        if roots.len() == 0 {
            (seen, false)
        } else {
            let chain = self.descent(
                PlaceView { bus: aim.claim.bus_name, path: roots.last() },
                seen.space,
                MAX_DEPTH as nat,
            );
            let now = EvidenceView { chain, ..seen };
            if verify::passes_through(chain, aim.claim.path) {
                (now, true)
            } else {
                self.retried(
                    aim,
                    if chain.len() == 0 {
                        seen
                    } else {
                        now
                    },
                    roots.drop_last(),
                )
            }
        }
    }

    /// The verdict on a point that was resolved, or not, from every root.
    pub open spec fn concluded(self, aim: Aim, seen: EvidenceView) -> VerifiedView {
        if seen.chain.len() == 0 {
            seen.verdict(VerdictView::Gone("the point resolves to nothing"@))
        } else {
            self.resolved(
                seen,
                self.inside(aim, aim.claim.bus_name, seen.chain.last(), MAX_DEPTH as nat),
            )
        }
    }

    /// The verdict on what the ancestry says.
    pub open spec fn resolved(self, seen: EvidenceView, inside: Inside) -> VerifiedView {
        let hit = seen.chain.last();
        seen.verdict(
            match inside {
                Inside::Passive => VerdictView::Inside(hit),
                Inside::Blocked(step) => VerdictView::Covered(step),
                Inside::Elsewhere => VerdictView::Covered(hit),
            },
        )
    }

    /// The verdict once every root has had its turn.
    pub open spec fn after_roots(
        self,
        aim: Aim,
        seen: EvidenceView,
        roots: Seq<Seq<char>>,
    ) -> VerifiedView {
        let (last, met) = self.retried(aim, seen, roots);
        if met {
            last.verdict(VerdictView::Valid)
        } else {
            self.concluded(aim, last)
        }
    }

    /// The verdict once the frame's own descent is known.
    pub open spec fn after_frame(
        self,
        aim: Aim,
        seen: EvidenceView,
        chain: Seq<StepView>,
    ) -> VerifiedView {
        let now = EvidenceView { chain, ..seen };
        if verify::passes_through(chain, aim.claim.path) {
            now.verdict(VerdictView::Valid)
        } else {
            self.after_roots(
                aim,
                now,
                self.ancestors(aim.place(), aim.frame.path, MAX_DEPTH as nat),
            )
        }
    }

    /// The verdict once the claim's node was read again and still is what was
    /// promised.
    pub open spec fn at_the_point(self, aim: Aim, now: verify::ReadingView) -> VerifiedView {
        let seen = EvidenceView { bounds: now.bounds, space: now.space, chain: Seq::empty() };
        self.after_frame(aim, seen, self.descent(aim.frame, now.space, MAX_DEPTH as nat))
    }
}

/// What the ancestry says about a point that resolved to something other
/// than the claim.
pub enum Inside {
    /// The claim is an ancestor, and everything between it and the point is
    /// decoration.
    Passive,
    /// Something that is not decoration sits between the claim and the point.
    Blocked(StepView),
    /// The claim is not an ancestor at all.
    Elsewhere,
}

/// The verdict on a claim.
pub open spec fn judgement(w: World, aim: Aim) -> VerifiedView {
    match aim.claim.refused(w.node) {
        Some(v) => v,
        None => w.at_the_point(aim, w.node->Now_0),
    }
}

/// What is still to come of a stage.
spec fn outcome(w: World, aim: Aim, stage: StageView) -> VerifiedView {
    match stage {
        StageView::Reading => judgement(w, aim),
        StageView::Falling { seen, at, left, found, chain, roots } => {
            let rest = match found {
                None => w.descent(at, seen.space, left),
                Some(p) => seq![w.step(p)] + w.descent(p, seen.space, (left - 1) as nat),
            };
            let whole = chain + rest;
            match roots {
                None => w.after_frame(aim, seen, whole),
                Some(roots) => after_root(w, aim, seen, whole, roots),
            }
        },
        StageView::Climbing { seen, at, above, left } => w.after_roots(
            aim,
            seen,
            above + w.ancestors(at, aim.frame.path, left),
        ),
        StageView::Passing { seen, bus, step, left, wait } => w.resolved(
            seen,
            passing(w, aim, bus, step, left, wait),
        ),
        StageView::Done(v) => v,
    }
}

/// What is still to come of the descent from a root.
spec fn after_root(
    w: World,
    aim: Aim,
    seen: EvidenceView,
    chain: Seq<StepView>,
    roots: Seq<Seq<char>>,
) -> VerifiedView {
    let now = EvidenceView { chain, ..seen };
    if verify::passes_through(chain, aim.claim.path) {
        now.verdict(VerdictView::Valid)
    } else {
        w.after_roots(
            aim,
            if chain.len() == 0 {
                seen
            } else {
                now
            },
            roots,
        )
    }
}

/// What is still to come of the walk up.
spec fn passing(
    w: World,
    aim: Aim,
    bus: Seq<char>,
    step: StepView,
    left: nat,
    wait: WaitView,
) -> Inside {
    let blocked = if w.twin(aim, bus, step) {
        Inside::Passive
    } else {
        Inside::Blocked(step)
    };
    let on = match w.above(PlaceView { bus, path: step.path }) {
        Some(p) => w.inside(aim, p.bus, w.step(p), (left - 1) as nat),
        None => Inside::Elsewhere,
    };
    match wait {
        WaitView::RoleName => if w.answer(
            AskView::RoleName(PlaceView { bus, path: step.path }),
        ).names_decoration() {
            on
        } else {
            blocked
        },
        WaitView::Twin => blocked,
        WaitView::Parent => on,
        WaitView::Describe(p) => w.inside(aim, p.bus, w.step(p), (left - 1) as nat),
    }
}

/// What a stage can be.
pub open spec fn sound(aim: Aim, stage: StageView) -> bool {
    match stage {
        StageView::Falling { left, roots, .. } => 0 < left <= MAX_DEPTH && (roots is Some
            ==> roots->0.len() < MAX_DEPTH),
        StageView::Climbing { above, left, .. } => 0 < left && above.len() + left <= MAX_DEPTH,
        StageView::Passing { seen, step, left, wait, .. } => {
            &&& seen.chain.len() > 0
            &&& 0 < left <= MAX_DEPTH
            &&& wait is Twin ==> aim.claim.name.len() > 0 && step.name == aim.claim.name
        },
        _ => true,
    }
}

/// How many answers a stage can still take, at most.
pub open spec fn patience(stage: StageView) -> nat {
    match stage {
        StageView::Reading => 1425,
        StageView::Falling { left, found, roots, .. } => {
            let here = 2 * left + if found is Some {
                0nat
            } else {
                1
            };
            match roots {
                None => 1375 + here,
                Some(rest) => 100 + 50 * rest.len() + here,
            }
        },
        StageView::Climbing { left, .. } => 1350 + left,
        StageView::Passing { left, wait, .. } => (4 * left + match wait {
            WaitView::RoleName => 3nat,
            WaitView::Twin => 0,
            WaitView::Parent => 2,
            WaitView::Describe(_) => 1,
        } - 3) as nat,
        StageView::Done(_) => 0,
    }
}

/// Reaching a step is fewer than the answers a walk up may take.
proof fn lemma_at_step(w: World, aim: Aim, seen: EvidenceView, bus: Seq<char>, step: StepView, left: nat)
    requires
        seen.chain.len() > 0,
        left <= MAX_DEPTH,
    ensures
        sound(aim, aim.at_step(seen, bus, step, left)),
        outcome(w, aim, aim.at_step(seen, bus, step, left)) == w.resolved(
            seen,
            w.inside(aim, bus, step, left),
        ),
        patience(aim.at_step(seen, bus, step, left)) <= 4 * left,
{
    if left > 0 && step.path != aim.claim.path {
        if step.role is Some {
            crate::a11y::filter::controls_are_not_decoration(step.role->0);
        }
    }
}

proof fn lemma_at_root(w: World, aim: Aim, seen: EvidenceView, roots: Seq<Seq<char>>)
    requires
        roots.len() <= MAX_DEPTH,
    ensures
        sound(aim, aim.at_root(seen, roots)),
        outcome(w, aim, aim.at_root(seen, roots)) == w.after_roots(aim, seen, roots),
        patience(aim.at_root(seen, roots)) <= 100 + 50 * roots.len(),
{
    if roots.len() == 0 {
        if seen.chain.len() > 0 {
            lemma_at_step(
                w,
                aim,
                seen,
                aim.claim.bus_name,
                seen.chain.last(),
                MAX_DEPTH as nat,
            );
        }
    } else {
        let chain = w.descent(
            PlaceView { bus: aim.claim.bus_name, path: roots.last() },
            seen.space,
            MAX_DEPTH as nat,
        );
        assert(Seq::empty() + chain =~= chain);
    }
}

proof fn lemma_at_bottom(
    w: World,
    aim: Aim,
    seen: EvidenceView,
    chain: Seq<StepView>,
    roots: Option<Seq<Seq<char>>>,
)
    requires
        roots is Some ==> roots->0.len() < MAX_DEPTH,
    ensures
        sound(aim, aim.at_bottom(seen, chain, roots)),
        outcome(w, aim, aim.at_bottom(seen, chain, roots)) == match roots {
            None => w.after_frame(aim, seen, chain),
            Some(roots) => after_root(w, aim, seen, chain, roots),
        },
        patience(aim.at_bottom(seen, chain, roots)) <= match roots {
            None => 1374nat,
            Some(rest) => 100 + 50 * rest.len(),
        },
{
    match roots {
        None => {
            let up = w.ancestors(aim.place(), aim.frame.path, MAX_DEPTH as nat);
            assert(Seq::empty() + up =~= up);
        },
        Some(rest) => {
            let now = EvidenceView { chain, ..seen };
            lemma_at_root(
                w,
                aim,
                if chain.len() == 0 {
                    seen
                } else {
                    now
                },
                rest,
            );
        },
    }
}

/// Every answer, whatever it is, brings a check closer to its end.
pub proof fn an_answer_leads_on(aim: Aim, stage: StageView, answer: AnswerView)
    requires
        sound(aim, stage),
        !(stage is Done),
    ensures
        sound(aim, aim.answered(stage, answer)),
        patience(aim.answered(stage, answer)) < patience(stage),
{
    let w = World {
        node: verify::RereadView::NoRoute,
        at_point: |p: PlaceView, s: Space| None,
        parent: |p: PlaceView| None,
        role: |p: PlaceView| None,
        name: |p: PlaceView| None,
        role_name: |p: PlaceView| None,
        extents: |p: PlaceView| None,
    };
    match stage {
        StageView::Falling { seen, at, left, found, chain, roots } => {
            match found {
                None => {
                    lemma_at_bottom(w, aim, seen, chain, roots);
                },
                Some(p) => {
                    lemma_at_bottom(w, aim, seen, chain.push(answer.step(p.path)), roots);
                },
            }
        },
        StageView::Climbing { seen, at, above, left } => {
            lemma_at_root(w, aim, seen, above);
            match answer.leads_to(at) {
                Some(p) => {
                    lemma_at_root(w, aim, seen, above.push(p.path));
                },
                None => {},
            }
        },
        StageView::Passing { seen, left, wait, .. } => {
            match wait {
                WaitView::Describe(p) => {
                    lemma_at_step(w, aim, seen, p.bus, answer.step(p.path), (left - 1) as nat);
                },
                _ => {},
            }
        },
        _ => {},
    }
}

/// An answer out of the world changes nothing about what the check comes to,
/// and brings it closer to its end.
proof fn lemma_step(w: World, aim: Aim, stage: StageView)
    requires
        sound(aim, stage),
        !(stage is Done),
    ensures
        ({
            let next = aim.answered(stage, w.answer(aim.ask(stage)->0));
            &&& sound(aim, next)
            &&& patience(next) < patience(stage)
            &&& outcome(w, aim, next) == outcome(w, aim, stage)
        }),
{
    let answer = w.answer(aim.ask(stage)->0);
    match stage {
        StageView::Reading => {
            if aim.claim.refused(w.node) is None {
                let now = w.node->Now_0;
                let down = w.descent(aim.frame, now.space, MAX_DEPTH as nat);
                assert(Seq::empty() + down =~= down);
            }
        },
        StageView::Falling { seen, at, left, found, chain, roots } => {
            match found {
                None => {
                    match answer.leads_to(at) {
                        Some(p) => {},
                        None => {
                            assert(chain + Seq::empty() =~= chain);
                            lemma_at_bottom(w, aim, seen, chain, roots);
                        },
                    }
                },
                Some(p) => {
                    let longer = chain.push(answer.step(p.path));
                    assert(answer.step(p.path) == w.step(p));
                    let rest = w.descent(p, seen.space, (left - 1) as nat);
                    assert(chain + (seq![w.step(p)] + rest) =~= longer + rest);
                    if left <= 1 {
                        assert(rest =~= Seq::empty());
                        assert(longer + rest =~= longer);
                        lemma_at_bottom(w, aim, seen, longer, roots);
                    }
                },
            }
        },
        StageView::Climbing { seen, at, above, left } => {
            match answer.leads_to(at) {
                Some(p) if p.path != aim.frame.path => {
                    let higher = above.push(p.path);
                    let rest = w.ancestors(p, aim.frame.path, (left - 1) as nat);
                    assert(above + (seq![p.path] + rest) =~= higher + rest);
                    if left <= 1 {
                        assert(rest =~= Seq::empty());
                        assert(higher + rest =~= higher);
                        lemma_at_root(w, aim, seen, higher);
                    }
                },
                _ => {
                    assert(above + Seq::empty() =~= above);
                    lemma_at_root(w, aim, seen, above);
                },
            }
        },
        StageView::Passing { seen, bus, step, left, wait } => {
            match wait {
                WaitView::Describe(p) => {
                    assert(answer.step(p.path) == w.step(p));
                    lemma_at_step(w, aim, seen, p.bus, w.step(p), (left - 1) as nat);
                },
                _ => {},
            }
        },
        StageView::Done(_) => {},
    }
}

/// A conversation with a world, of `n` answers at most.
pub open spec fn talked(w: World, aim: Aim, stage: StageView, n: nat) -> StageView
    decreases n,
{
    if n == 0 || stage is Done {
        stage
    } else {
        talked(w, aim, aim.answered(stage, w.answer(aim.ask(stage)->0)), (n - 1) as nat)
    }
}

proof fn lemma_talked(w: World, aim: Aim, stage: StageView, n: nat)
    requires
        sound(aim, stage),
        patience(stage) <= n,
    ensures
        talked(w, aim, stage, n) == StageView::Done(outcome(w, aim, stage)),
    decreases n,
{
    if !(stage is Done) {
        lemma_step(w, aim, stage);
        lemma_talked(w, aim, aim.answered(stage, w.answer(aim.ask(stage)->0)), (n - 1) as nat);
    }
}

/// Whatever the applications are like, a check of them comes to an end and to
/// its judgement.
pub proof fn a_check_comes_to_its_judgement(w: World, aim: Aim)
    ensures
        talked(w, aim, StageView::Reading, 1425) == StageView::Done(judgement(w, aim)),
{
    lemma_talked(w, aim, StageView::Reading, 1425);
}

/// Nothing is clicked unless the node was read again and still is what was
/// promised, and the point resolves to it or to something inside it.
pub proof fn only_a_kept_promise_is_clicked(w: World, aim: Aim)
    requires
        judgement(w, aim).verdict.allows(),
    ensures
        w.node is Now,
        aim.claim.still_holds(w.node->Now_0),
        judgement(w, aim).bounds == Some((w.node->Now_0).bounds),
        judgement(w, aim).verdict is Valid ==> verify::passes_through(
            judgement(w, aim).chain,
            aim.claim.path,
        ),
        judgement(w, aim).verdict is Inside ==> judgement(w, aim).chain.len() > 0 && w.inside(
            aim,
            aim.claim.bus_name,
            judgement(w, aim).chain.last(),
            MAX_DEPTH as nat,
        ) is Passive,
{
    verify::a_difference_is_a_broken_promise(aim.claim, w.node->Now_0);
    let now = w.node->Now_0;
    let seen = EvidenceView { bounds: now.bounds, space: now.space, chain: Seq::empty() };
    let chain = w.descent(aim.frame, now.space, MAX_DEPTH as nat);
    let after = EvidenceView { chain, ..seen };
    lemma_retried(
        w,
        aim,
        after,
        w.ancestors(aim.place(), aim.frame.path, MAX_DEPTH as nat),
    );
}

proof fn lemma_retried(w: World, aim: Aim, seen: EvidenceView, roots: Seq<Seq<char>>)
    ensures
        w.retried(aim, seen, roots).0.bounds == seen.bounds,
        w.retried(aim, seen, roots).1 ==> verify::passes_through(
            w.retried(aim, seen, roots).0.chain,
            aim.claim.path,
        ),
    decreases roots.len(),
{
    if roots.len() > 0 {
        let chain = w.descent(
            PlaceView { bus: aim.claim.bus_name, path: roots.last() },
            seen.space,
            MAX_DEPTH as nat,
        );
        let now = EvidenceView { chain, ..seen };
        lemma_retried(
            w,
            aim,
            if chain.len() == 0 {
                seen
            } else {
                now
            },
            roots.drop_last(),
        );
    }
}

/// Between the point and the claim there is nothing but decoration, or else
/// the claim itself under another path: a control in its own right, an
/// invalid role that is not decoration by name, and a node that will not say
/// what it is all block the click.
pub proof fn what_is_not_decoration_blocks(
    w: World,
    aim: Aim,
    bus: Seq<char>,
    step: StepView,
    n: nat,
)
    requires
        n > 0,
        step.path != aim.claim.path,
        step.role is None || !filter::passive(step.role->0),
        step.role == Some(Role::Invalid) ==> !w.answer(
            AskView::RoleName(PlaceView { bus, path: step.path }),
        ).names_decoration(),
        !w.twin(aim, bus, step),
    ensures
        w.inside(aim, bus, step, n) == Inside::Blocked(step),
{
}

} // verus!
