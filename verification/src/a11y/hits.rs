//! What a click goes through, and what stops it.
//!
//! The laws of [`crate::a11y::judgement`] over what the applications answer:
//! which object is at the point, who its parent is, what role it has.
use vstd::prelude::*;
use vstd::string::*;

use crate::a11y::check::{Aim, AskView, EvidenceView, PlaceView, StageView};
use crate::a11y::filter;
use crate::a11y::judgement;
use crate::a11y::judgement::{Inside, World};
use crate::a11y::pixels;
use crate::a11y::role::Role;
use crate::a11y::target;
use crate::a11y::target::WindowRect;
use crate::a11y::verify;
use crate::a11y::verify::{ClaimView, ReadingView, RereadView, Space, StepView, VerdictView, VerifiedView};
use crate::text;

verus! {

// ---------------------------------------------------------------------------
// The node, read again
// ---------------------------------------------------------------------------

/// A promise is kept when the role and the name are as they were, the node is
/// showing, visible and sensitive, and its bounds hold the point; and is
/// broken by anything else. The last column and row that a coordinate can name
/// are in no bounds.
pub proof fn a_promise_is_kept_or_broken(c: ClaimView, now: ReadingView)
    ensures
        c.difference(now) is None <==> {
            &&& now.role == c.role
            &&& now.name == c.name
            &&& now.states.bits & 0x200_0000 != 0
            &&& now.states.bits & 0x4000_0000 != 0
            &&& now.states.bits & 0x100_0000 != 0
            &&& now.bounds.x <= c.x < now.bounds.x + now.bounds.w
            &&& now.bounds.y <= c.y < now.bounds.y + now.bounds.h
            &&& c.x < 0x7fff_ffff && c.y < 0x7fff_ffff
        },
        c.still_holds(now) <==> c.difference(now) is None,
{
    pixels::a_state_is_in_a_set_by_its_bit(now.states);
}

/// A node that cannot be reached, or fails when it is asked, is gone; one that
/// is not what was promised has changed; neither is clicked. One that is still
/// what was promised goes on to be looked for at the point.
pub proof fn a_broken_promise_is_never_clicked(w: World, aim: Aim)
    ensures
        w.node is NoRoute ==> judgement::judgement(w, aim).verdict is Gone,
        w.node is Failed ==> judgement::judgement(w, aim).verdict is Gone,
        w.node matches RereadView::Now(now) ==> {
            &&& aim.claim.difference(now) is Some <==> judgement::judgement(w, aim).verdict is Changed
            &&& aim.claim.difference(now) is Some ==> judgement::judgement(w, aim).verdict
                == VerdictView::Changed(aim.claim.difference(now)->0)
            &&& judgement::judgement(w, aim).bounds == Some(now.bounds)
        },
        !(w.node is Now) ==> judgement::judgement(w, aim).bounds is None,
        judgement::judgement(w, aim).verdict is Gone || judgement::judgement(w, aim).verdict is Changed
            || judgement::judgement(w, aim).verdict is Covered <==> !judgement::judgement(
            w,
            aim,
        ).verdict.allows(),
{
    if let RereadView::Now(now) = w.node {
        if aim.claim.difference(now) is None {
            lemma_same_bounds(w, aim);
        }
    }
}

/// What is wrong with a node is said of the first thing that is: the role, the
/// name, and then each of the states.
pub proof fn a_change_is_said(c: ClaimView, now: ReadingView)
    ensures
        now.role == c.role && now.name != c.name ==> c.difference(now) == Some(
            "name was '"@ + c.name + "', is '"@ + now.name + "'"@,
        ),
        now.role == c.role && now.name == c.name && now.states.bits & 0x200_0000 == 0
            ==> c.difference(now) == Some("no longer showing"@),
        now.role == c.role && now.name == c.name && now.states.bits & 0x200_0000 != 0
            && now.states.bits & 0x4000_0000 == 0 ==> c.difference(now) == Some(
            "no longer visible"@,
        ),
        now.role == c.role && now.name == c.name && now.states.bits & 0x200_0000 != 0
            && now.states.bits & 0x4000_0000 != 0 && now.states.bits & 0x100_0000 == 0
            ==> c.difference(now) == Some("no longer sensitive"@),
{
    pixels::a_state_is_in_a_set_by_its_bit(now.states);
}

// ---------------------------------------------------------------------------
// Questions
// ---------------------------------------------------------------------------

/// The node that is read again is the claimed one, and the point that is asked
/// about is the claimed one, in the space the node answered in.
pub proof fn the_claimed_point_is_asked_about(aim: Aim, stage: StageView)
    ensures
        stage is Reading ==> aim.ask(stage) == Some(
            AskView::Node(PlaceView { bus: aim.claim.bus_name, path: aim.claim.path }),
        ),
        aim.ask(stage) matches Some(AskView::AtPoint { at, x, y, space }) ==> {
            &&& x == aim.claim.x
            &&& y == aim.claim.y
            &&& (stage matches StageView::Falling { seen, at: from, .. } && space == seen.space
                && at == from)
        },
        aim.ask(stage) is None <==> stage is Done,
{
}

// ---------------------------------------------------------------------------
// Down to the point
// ---------------------------------------------------------------------------

/// Going down from an object lists what is at the point, each object below the
/// one before, until one answers with nothing, with the null object or with
/// itself, or the list is full.
pub proof fn a_descent_lists_what_is_at_the_point(
    w: World,
    from: PlaceView,
    space: Space,
    n: nat,
    down: Seq<PlaceView>,
)
    requires
        down.len() <= n,
        forall|i: int|
            0 <= i < down.len() ==> {
                let above = if i == 0 {
                    from
                } else {
                    down[i - 1]
                };
                let o = (w.at_point)(above, space);
                &&& o is Some
                &&& o->0.path == (#[trigger] down[i]).path
                &&& down[i].path != above.path
                &&& !(down[i].path.len() >= 5 && down[i].path.skip(down[i].path.len() - 5)
                    == "/null"@)
                &&& o->0.name is Some ==> down[i].bus == o->0.name->0
                &&& o->0.name is None ==> down[i].bus == above.bus
            },
        down.len() < n ==> {
            let last = if down.len() == 0 {
                from
            } else {
                down.last()
            };
            let o = (w.at_point)(last, space);
            ||| o is None
            ||| o->0.path == last.path
            ||| o->0.path.len() >= 5 && o->0.path.skip(o->0.path.len() - 5) == "/null"@
        },
    ensures
        w.descent(from, space, n).len() == down.len(),
        forall|i: int|
            0 <= i < down.len() ==> (#[trigger] w.descent(from, space, n)[i]).path == down[i].path
                && w.descent(from, space, n)[i].role == (w.role)(down[i]),
        forall|i: int|
            0 <= i < down.len() && (w.role)(down[i]) is Some && (w.name)(down[i]) is Some ==> (
            #[trigger] w.descent(from, space, n)[i]).name == (w.name)(down[i])->0,
    decreases n,
{
    assert forall|i: int| 0 <= i < down.len() implies w.below(
        if i == 0 {
            from
        } else {
            down[i - 1]
        },
        space,
    ) == Some(#[trigger] down[i]) by {
        let above = if i == 0 {
            from
        } else {
            down[i - 1]
        };
        lemma_leads(w, above, space, (w.at_point)(above, space));
    }
    if down.len() < n {
        let last = if down.len() == 0 {
            from
        } else {
            down.last()
        };
        lemma_leads(w, last, space, (w.at_point)(last, space));
    }
    lemma_descent(w, from, space, n, down);
    let all = w.descent(from, space, n);
    assert forall|i: int| 0 <= i < down.len() implies (#[trigger] all[i]).path == down[i].path
        && all[i].role == (w.role)(down[i]) by {
        assert(all[i] == w.step(down[i]));
    }
    assert forall|i: int|
        0 <= i < down.len() && (w.role)(down[i]) is Some && (w.name)(down[i]) is Some implies (
    #[trigger] all[i]).name == (w.name)(down[i])->0 by {
        assert(all[i] == w.step(down[i]));
    }
}

proof fn lemma_descent(w: World, from: PlaceView, space: Space, n: nat, down: Seq<PlaceView>)
    requires
        down.len() <= n,
        forall|i: int|
            0 <= i < down.len() ==> w.below(
                if i == 0 {
                    from
                } else {
                    down[i - 1]
                },
                space,
            ) == Some(#[trigger] down[i]),
        down.len() < n ==> w.below(
            if down.len() == 0 {
                from
            } else {
                down.last()
            },
            space,
        ) is None,
    ensures
        w.descent(from, space, n) =~= down.map_values(|p: PlaceView| w.step(p)),
    decreases n,
{
    if n > 0 && down.len() > 0 {
        let p = down[0];
        assert(w.below(from, space) == Some(down[0]));
        let rest = down.skip(1);
        assert forall|i: int| 0 <= i < rest.len() implies w.below(
            if i == 0 {
                p
            } else {
                rest[i - 1]
            },
            space,
        ) == Some(#[trigger] rest[i]) by {
            assert(rest[i] == down[i + 1]);
        }
        lemma_descent(w, p, space, (n - 1) as nat, rest);
        assert(w.descent(from, space, n) =~= seq![w.step(p)] + w.descent(
            p,
            space,
            (n - 1) as nat,
        ));
    }
}

proof fn lemma_null(path: Seq<char>)
    ensures
        text::ends_in(path, "/null"@) <==> path.len() >= 5 && path.skip(path.len() - 5) == "/null"@,
{
    reveal_strlit("/null");
    if path.len() >= 5 {
        assert(path.skip(path.len() - 5) =~= path.subrange(path.len() - 5, path.len() as int));
    }
}

proof fn lemma_leads(w: World, from: PlaceView, space: Space, o: Option<target::ObjectView>)
    requires
        o == (w.at_point)(from, space),
    ensures
        w.below(from, space) == (if o is None || o->0.path == from.path || (o->0.path.len() >= 5
            && o->0.path.skip(o->0.path.len() - 5) == "/null"@) {
            None
        } else {
            Some(
                PlaceView {
                    bus: if o->0.name is Some {
                        o->0.name->0
                    } else {
                        from.bus
                    },
                    path: o->0.path,
                },
            )
        }),
{
    if o is Some {
        lemma_null(o->0.path);
    }
}

proof fn lemma_leads_up(w: World, from: PlaceView, o: Option<target::ObjectView>)
    requires
        o == (w.parent)(from),
    ensures
        w.above(from) == (if o is None || o->0.path == from.path || (o->0.path.len() >= 5
            && o->0.path.skip(o->0.path.len() - 5) == "/null"@) {
            None
        } else {
            Some(
                PlaceView {
                    bus: if o->0.name is Some {
                        o->0.name->0
                    } else {
                        from.bus
                    },
                    path: o->0.path,
                },
            )
        }),
{
    if o is Some {
        lemma_null(o->0.path);
    }
}

/// The claim's ancestors are its parent, the parent of that and so on, up to
/// below the frame.
pub proof fn ancestors_lead_up_to_the_frame(
    w: World,
    from: PlaceView,
    frame: Seq<char>,
    n: nat,
    up: Seq<PlaceView>,
)
    requires
        up.len() <= n,
        forall|i: int|
            0 <= i < up.len() ==> {
                let below = if i == 0 {
                    from
                } else {
                    up[i - 1]
                };
                let o = (w.parent)(below);
                &&& o is Some
                &&& o->0.path == (#[trigger] up[i]).path
                &&& up[i].path != below.path
                &&& up[i].path != frame
                &&& !(up[i].path.len() >= 5 && up[i].path.skip(up[i].path.len() - 5) == "/null"@)
                &&& o->0.name is Some ==> up[i].bus == o->0.name->0
                &&& o->0.name is None ==> up[i].bus == below.bus
            },
        up.len() < n ==> {
            let last = if up.len() == 0 {
                from
            } else {
                up.last()
            };
            let o = (w.parent)(last);
            ||| o is None
            ||| o->0.path == last.path
            ||| o->0.path == frame
            ||| o->0.path.len() >= 5 && o->0.path.skip(o->0.path.len() - 5) == "/null"@
        },
    ensures
        w.ancestors(from, frame, n).len() == up.len(),
        forall|i: int|
            0 <= i < up.len() ==> #[trigger] w.ancestors(from, frame, n)[i] == up[i].path,
    decreases n,
{
    assert forall|i: int| 0 <= i < up.len() implies w.above(
        if i == 0 {
            from
        } else {
            up[i - 1]
        },
    ) == Some(#[trigger] up[i]) && up[i].path != frame by {
        let below = if i == 0 {
            from
        } else {
            up[i - 1]
        };
        lemma_leads_up(w, below, (w.parent)(below));
    }
    if up.len() < n {
        let last = if up.len() == 0 {
            from
        } else {
            up.last()
        };
        lemma_leads_up(w, last, (w.parent)(last));
    }
    lemma_ancestors(w, from, frame, n, up);
}

proof fn lemma_ancestors(
    w: World,
    from: PlaceView,
    frame: Seq<char>,
    n: nat,
    up: Seq<PlaceView>,
)
    requires
        up.len() <= n,
        forall|i: int|
            0 <= i < up.len() ==> w.above(
                if i == 0 {
                    from
                } else {
                    up[i - 1]
                },
            ) == Some(#[trigger] up[i]) && up[i].path != frame,
        up.len() < n ==> {
            let end = w.above(
                if up.len() == 0 {
                    from
                } else {
                    up.last()
                },
            );
            end is None || end->0.path == frame
        },
    ensures
        w.ancestors(from, frame, n) =~= up.map_values(|p: PlaceView| p.path),
    decreases n,
{
    if n > 0 && up.len() > 0 {
        let p = up[0];
        assert(w.above(from) == Some(up[0]));
        let rest = up.skip(1);
        assert forall|i: int| 0 <= i < rest.len() implies w.above(
            if i == 0 {
                p
            } else {
                rest[i - 1]
            },
        ) == Some(#[trigger] rest[i]) && rest[i].path != frame by {
            assert(rest[i] == up[i + 1]);
        }
        lemma_ancestors(w, p, frame, (n - 1) as nat, rest);
        assert(w.ancestors(from, frame, n) =~= seq![p.path] + w.ancestors(
            p,
            frame,
            (n - 1) as nat,
        ));
    }
}

// ---------------------------------------------------------------------------
// Which descent counts
// ---------------------------------------------------------------------------

/// The descent from one of the claim's ancestors.
spec fn from_root(w: World, aim: Aim, space: Space, path: Seq<char>) -> Seq<StepView> {
    w.descent(PlaceView { bus: aim.claim.bus_name, path }, space, 24)
}

/// When the frame's own descent names the claim, the click is valid.
pub proof fn the_frame_is_asked_first(w: World, aim: Aim, k: int)
    requires
        w.node is Now,
        aim.claim.difference(w.node->Now_0) is None,
        ({
            let down = w.descent(aim.frame, (w.node->Now_0).space, 24);
            0 <= k < down.len() && down[k].path == aim.claim.path
        }),
    ensures
        judgement::judgement(w, aim).verdict is Valid,
        judgement::judgement(w, aim).chain == w.descent(aim.frame, (w.node->Now_0).space, 24),
{
}

/// When the frame's own descent does not name the claim, the claim's ancestors
/// are asked, the highest first: the first of them whose descent names the
/// claim makes the click valid.
pub proof fn the_highest_ancestor_is_asked_next(w: World, aim: Aim, i: int, k: int)
    requires
        w.node is Now,
        aim.claim.difference(w.node->Now_0) is None,
        ({
            let space = (w.node->Now_0).space;
            let frame = w.descent(aim.frame, space, 24);
            let claimed = PlaceView { bus: aim.claim.bus_name, path: aim.claim.path };
            let up = w.ancestors(claimed, aim.frame.path, 24);
            let down = w.descent(PlaceView { bus: aim.claim.bus_name, path: up[i] }, space, 24);
            &&& forall|j: int|
                0 <= j < frame.len() ==> (#[trigger] frame[j]).path != aim.claim.path
            &&& 0 <= i < up.len()
            &&& 0 <= k < down.len() && down[k].path == aim.claim.path
            &&& forall|m: int, j: int|
                i < m < up.len() && 0 <= j < w.descent(
                    PlaceView { bus: aim.claim.bus_name, path: up[m] },
                    space,
                    24,
                ).len() ==> (#[trigger] w.descent(
                    PlaceView { bus: aim.claim.bus_name, path: up[m] },
                    space,
                    24,
                )[j]).path != aim.claim.path
        }),
    ensures
        judgement::judgement(w, aim).verdict is Valid,
        ({
            let claimed = PlaceView { bus: aim.claim.bus_name, path: aim.claim.path };
            let up = w.ancestors(claimed, aim.frame.path, 24);
            judgement::judgement(w, aim).chain == w.descent(
                PlaceView { bus: aim.claim.bus_name, path: up[i] },
                (w.node->Now_0).space,
                24,
            )
        }),
{
    let now = w.node->Now_0;
    let space = now.space;
    let frame = w.descent(aim.frame, space, 24);
    let up = w.ancestors(aim.place(), aim.frame.path, 24);
    let seen = EvidenceView { bounds: now.bounds, space, chain: frame };
    assert forall|m: int| i < m < up.len() implies !verify::passes_through(
        #[trigger] from_root(w, aim, space, up[m]),
        aim.claim.path,
    ) by {
        let down = from_root(w, aim, space, up[m]);
        assert forall|j: int| 0 <= j < down.len() implies (#[trigger] down[j]).path
            != aim.claim.path by {
            assert(w.descent(
                PlaceView { bus: aim.claim.bus_name, path: up[m] },
                space,
                24,
            )[j].path != aim.claim.path);
        }
    }
    let down = from_root(w, aim, space, up[i]);
    assert(verify::passes_through(down, aim.claim.path)) by {
        assert(down[k].path == aim.claim.path);
    }
    lemma_retried_meets(w, aim, seen, up, i);
    let before = EvidenceView { bounds: now.bounds, space, chain: Seq::empty() };
    assert(seen == EvidenceView { chain: frame, ..before });
}

proof fn lemma_retried_meets(w: World, aim: Aim, seen: EvidenceView, roots: Seq<Seq<char>>, i: int)
    requires
        0 <= i < roots.len(),
        verify::passes_through(from_root(w, aim, seen.space, roots[i]), aim.claim.path),
        forall|m: int|
            i < m < roots.len() ==> !verify::passes_through(
                #[trigger] from_root(w, aim, seen.space, roots[m]),
                aim.claim.path,
            ),
    ensures
        w.retried(aim, seen, roots).1,
        w.retried(aim, seen, roots).0.chain == from_root(w, aim, seen.space, roots[i]),
        w.retried(aim, seen, roots).0.bounds == seen.bounds,
    decreases roots.len(),
{
    let top = from_root(w, aim, seen.space, roots.last());
    if i < roots.len() - 1 {
        assert(!verify::passes_through(
            from_root(w, aim, seen.space, roots[roots.len() - 1]),
            aim.claim.path,
        ));
        let rest = roots.drop_last();
        let next = if top.len() == 0 {
            seen
        } else {
            EvidenceView { chain: top, ..seen }
        };
        assert(rest[i] == roots[i]);
        assert forall|m: int| i < m < rest.len() implies !verify::passes_through(
            #[trigger] from_root(w, aim, next.space, rest[m]),
            aim.claim.path,
        ) by {
            assert(rest[m] == roots[m]);
            assert(!verify::passes_through(
                from_root(w, aim, seen.space, roots[m]),
                aim.claim.path,
            ));
        }
        lemma_retried_meets(w, aim, next, rest, i);
    }
}

/// When no descent names the claim, the last one that found anything is the
/// one that is judged: that from the nearest ancestor that found something,
/// or else the frame's.
pub proof fn the_nearest_ancestor_is_judged_last(w: World, aim: Aim, i: int)
    requires
        w.node is Now,
        aim.claim.difference(w.node->Now_0) is None,
        !(judgement::judgement(w, aim).verdict is Valid),
        ({
            let claimed = PlaceView { bus: aim.claim.bus_name, path: aim.claim.path };
            let up = w.ancestors(claimed, aim.frame.path, 24);
            let space = (w.node->Now_0).space;
            &&& 0 <= i <= up.len()
            &&& forall|m: int|
                0 <= m < i ==> (#[trigger] w.descent(
                    PlaceView { bus: aim.claim.bus_name, path: up[m] },
                    space,
                    24,
                )).len() == 0
            &&& i < up.len() ==> w.descent(
                PlaceView { bus: aim.claim.bus_name, path: up[i] },
                space,
                24,
            ).len() > 0
        }),
    ensures
        ({
            let claimed = PlaceView { bus: aim.claim.bus_name, path: aim.claim.path };
            let up = w.ancestors(claimed, aim.frame.path, 24);
            let space = (w.node->Now_0).space;
            judgement::judgement(w, aim).chain == (if i < up.len() {
                w.descent(PlaceView { bus: aim.claim.bus_name, path: up[i] }, space, 24)
            } else {
                w.descent(aim.frame, space, 24)
            })
        }),
{
    let now = w.node->Now_0;
    let space = now.space;
    let frame = w.descent(aim.frame, space, 24);
    let up = w.ancestors(aim.place(), aim.frame.path, 24);
    let seen = EvidenceView { bounds: now.bounds, space, chain: frame };
    let before = EvidenceView { bounds: now.bounds, space, chain: Seq::empty() };
    assert(seen == EvidenceView { chain: frame, ..before });
    assert forall|m: int| 0 <= m < i implies (#[trigger] from_root(w, aim, space, up[m])).len()
        == 0 by {
        assert(w.descent(PlaceView { bus: aim.claim.bus_name, path: up[m] }, space, 24).len() == 0);
    }
    if i < up.len() {
        assert(from_root(w, aim, space, up[i]).len() > 0);
    }
    lemma_retried_misses(w, aim, seen, up, i);
}

proof fn lemma_retried_misses(
    w: World,
    aim: Aim,
    seen: EvidenceView,
    roots: Seq<Seq<char>>,
    i: int,
)
    requires
        0 <= i <= roots.len(),
        forall|m: int|
            0 <= m < i ==> (#[trigger] from_root(w, aim, seen.space, roots[m])).len() == 0,
        i < roots.len() ==> from_root(w, aim, seen.space, roots[i]).len() > 0,
    ensures
        !w.retried(aim, seen, roots).1 ==> w.retried(aim, seen, roots).0 == (EvidenceView {
            chain: if i < roots.len() {
                from_root(w, aim, seen.space, roots[i])
            } else {
                seen.chain
            },
            ..seen
        }),
    decreases roots.len(),
{
    if roots.len() > 0 {
        let top = from_root(w, aim, seen.space, roots.last());
        let rest = roots.drop_last();
        let next = if top.len() == 0 {
            seen
        } else {
            EvidenceView { chain: top, ..seen }
        };
        let k = if i < rest.len() {
            i
        } else {
            rest.len() as int
        };
        assert forall|m: int| 0 <= m < k implies (#[trigger] from_root(
            w,
            aim,
            next.space,
            rest[m],
        )).len() == 0 by {
            assert(rest[m] == roots[m]);
            assert(from_root(w, aim, seen.space, roots[m]).len() == 0);
        }
        if k < rest.len() {
            assert(rest[k] == roots[i]);
        }
        lemma_retried_misses(w, aim, next, rest, k);
        if i == roots.len() {
            assert(from_root(w, aim, seen.space, roots[roots.len() - 1]).len() == 0);
        }
    }
}

/// A point that resolves to nothing is no place to click.
pub proof fn a_point_on_nothing_is_gone(w: World, aim: Aim)
    requires
        w.node is Now,
        aim.claim.difference(w.node->Now_0) is None,
        judgement::judgement(w, aim).chain.len() == 0,
    ensures
        judgement::judgement(w, aim).verdict is Gone,
{
    lemma_judged(w, aim);
}

// ---------------------------------------------------------------------------
// Up from the point
// ---------------------------------------------------------------------------

proof fn lemma_same_bounds(w: World, aim: Aim)
    requires
        w.node is Now,
        aim.claim.difference(w.node->Now_0) is None,
    ensures
        judgement::judgement(w, aim).bounds == Some((w.node->Now_0).bounds),
        !(judgement::judgement(w, aim).verdict is Changed),
{
    let now = w.node->Now_0;
    let seen = EvidenceView {
        bounds: now.bounds,
        space: now.space,
        chain: w.descent(aim.frame, now.space, 24),
    };
    let before = EvidenceView { bounds: now.bounds, space: now.space, chain: Seq::empty() };
    assert(seen == EvidenceView { chain: seen.chain, ..before });
    lemma_retried_bounds(w, aim, seen, w.ancestors(aim.place(), aim.frame.path, 24));
}

proof fn lemma_retried_bounds(w: World, aim: Aim, seen: EvidenceView, roots: Seq<Seq<char>>)
    ensures
        w.retried(aim, seen, roots).0.bounds == seen.bounds,
        w.retried(aim, seen, roots).1 ==> verify::passes_through(
            w.retried(aim, seen, roots).0.chain,
            aim.claim.path,
        ),
    decreases roots.len(),
{
    if roots.len() > 0 {
        let top = from_root(w, aim, seen.space, roots.last());
        let next = if top.len() == 0 {
            seen
        } else {
            EvidenceView { chain: top, ..seen }
        };
        lemma_retried_bounds(w, aim, next, roots.drop_last());
    }
}

/// A point that was resolved, but not to the claim, is judged by the walk up.
proof fn lemma_judged(w: World, aim: Aim)
    requires
        w.node is Now,
        aim.claim.difference(w.node->Now_0) is None,
        !verify::passes_through(judgement::judgement(w, aim).chain, aim.claim.path),
    ensures
        ({
            let j = judgement::judgement(w, aim);
            &&& j.chain.len() == 0 ==> j.verdict is Gone
            &&& j.chain.len() > 0 ==> {
                let hit = j.chain.last();
                match w.inside(aim, aim.claim.bus_name, hit, 24) {
                    Inside::Passive => j.verdict == VerdictView::Inside(hit),
                    Inside::Blocked(step) => j.verdict == VerdictView::Covered(step),
                    Inside::Elsewhere => j.verdict == VerdictView::Covered(hit),
                }
            }
        }),
{
    let now = w.node->Now_0;
    let seen = EvidenceView {
        bounds: now.bounds,
        space: now.space,
        chain: w.descent(aim.frame, now.space, 24),
    };
    let before = EvidenceView { bounds: now.bounds, space: now.space, chain: Seq::empty() };
    assert(seen == EvidenceView { chain: seen.chain, ..before });
    lemma_retried_bounds(w, aim, seen, w.ancestors(aim.place(), aim.frame.path, 24));
}

/// The step of the walk up at `up[i]`: where the descent ended, or an object
/// further up.
spec fn step_at(w: World, hit: StepView, up: Seq<PlaceView>, i: int) -> StepView {
    if i == 0 {
        hit
    } else {
        w.step(up[i])
    }
}

proof fn lemma_walk(w: World, aim: Aim, hit: StepView, up: Seq<PlaceView>, i: int)
    requires
        0 <= i < up.len() <= 24,
        up[0].path == hit.path,
        forall|k: int| 0 <= k < up.len() - 1 ==> w.above(#[trigger] up[k]) == Some(up[k + 1]),
        forall|k: int| 0 <= k < up.len() - 1 ==> (#[trigger] up[k]).path != aim.claim.path,
        forall|k: int|
            0 <= k < up.len() - 1 ==> w.passes(
                (#[trigger] up[k]).bus,
                step_at(w, hit, up, k),
            ),
    ensures
        w.inside(aim, up[i].bus, step_at(w, hit, up, i), (24 - i) as nat) == w.inside(
            aim,
            up.last().bus,
            step_at(w, hit, up, up.len() - 1),
            (24 - (up.len() - 1)) as nat,
        ),
    decreases up.len() - i,
{
    if i < up.len() - 1 {
        let step = step_at(w, hit, up, i);
        assert(step.path == up[i].path);
        assert(w.passes(up[i].bus, step));
        assert(PlaceView { bus: up[i].bus, path: step.path } == up[i]);
        assert(w.above(up[i]) == Some(up[i + 1]));
        lemma_walk(w, aim, hit, up, i + 1);
        assert(step_at(w, hit, up, i + 1) == w.step(up[i + 1]));
    }
}

/// The walk up from `hit` goes by `up`, and everything before its last object
/// is decoration and not the claim.
proof fn lemma_way_up(w: World, aim: Aim, hit: StepView, up: Seq<PlaceView>)
    requires
        0 < up.len() <= 24,
        up[0].path == hit.path,
        up[0].bus == aim.claim.bus_name,
        forall|i: int|
            0 <= i < up.len() - 1 ==> {
                let o = (w.parent)(#[trigger] up[i]);
                let role = if i == 0 {
                    hit.role
                } else {
                    (w.role)(up[i])
                };
                &&& o is Some && o->0.path == up[i + 1].path && o->0.path != up[i].path
                &&& !(o->0.path.len() >= 5 && o->0.path.skip(o->0.path.len() - 5) == "/null"@)
                &&& o->0.name is Some ==> up[i + 1].bus == o->0.name->0
                &&& o->0.name is None ==> up[i + 1].bus == up[i].bus
                &&& up[i].path != aim.claim.path
                &&& {
                    ||| role matches Some(r) && filter::PASSIVE@.contains(r)
                    ||| role == Some(Role::Invalid) && (w.role_name)(up[i]) == Some(
                        "presentation"@,
                    )
                }
            },
    ensures
        w.inside(aim, aim.claim.bus_name, hit, 24) == w.inside(
            aim,
            up.last().bus,
            step_at(w, hit, up, up.len() - 1),
            (25 - up.len()) as nat,
        ),
{
    pixels::what_is_called_decoration("presentation"@);
    assert forall|k: int| 0 <= k < up.len() - 1 implies w.above(#[trigger] up[k]) == Some(
        up[k + 1],
    ) by {
        lemma_leads_up(w, up[k], (w.parent)(up[k]));
    }
    assert forall|k: int| 0 <= k < up.len() - 1 implies w.passes(
        (#[trigger] up[k]).bus,
        step_at(w, hit, up, k),
    ) by {
        let step = step_at(w, hit, up, k);
        assert(PlaceView { bus: up[k].bus, path: step.path } == up[k]);
    }
    lemma_walk(w, aim, hit, up, 0);
}

/// A click goes through decoration: where the point resolves to something
/// else than the claim, and everything from there up to the claim is a label,
/// a text, an image, an icon, a box or the like, or a role that is called
/// presentation, the point is inside the claim and is clicked.
pub proof fn decoration_lets_a_click_through(w: World, aim: Aim, up: Seq<PlaceView>)
    requires
        w.node is Now,
        aim.claim.difference(w.node->Now_0) is None,
        ({
            let chain = judgement::judgement(w, aim).chain;
            let hit = chain.last();
            &&& chain.len() > 0
            &&& forall|i: int|
                0 <= i < chain.len() ==> (#[trigger] chain[i]).path != aim.claim.path
            &&& 0 < up.len() <= 24
            &&& up[0].path == hit.path
            &&& up[0].bus == aim.claim.bus_name
            &&& up.last().path == aim.claim.path
            &&& forall|i: int|
                0 <= i < up.len() - 1 ==> {
                    let o = (w.parent)(#[trigger] up[i]);
                    let role = if i == 0 {
                        hit.role
                    } else {
                        (w.role)(up[i])
                    };
                    &&& o is Some && o->0.path == up[i + 1].path && o->0.path != up[i].path
                    &&& !(o->0.path.len() >= 5 && o->0.path.skip(o->0.path.len() - 5) == "/null"@)
                    &&& o->0.name is Some ==> up[i + 1].bus == o->0.name->0
                    &&& o->0.name is None ==> up[i + 1].bus == up[i].bus
                    &&& up[i].path != aim.claim.path
                    &&& {
                        ||| role == Some(Role::Label) || role == Some(Role::Static) || role == Some(
                            Role::Text,
                        ) || role == Some(Role::Image) || role == Some(Role::Icon) || role == Some(
                            Role::Panel,
                        ) || role == Some(Role::Filler) || role == Some(Role::Section) || role
                            == Some(Role::Separator) || role == Some(Role::Grouping) || role
                            == Some(Role::ScrollPane) || role == Some(Role::Viewport)
                        ||| role == Some(Role::Invalid) && (w.role_name)(up[i]) == Some(
                            "presentation"@,
                        )
                    }
                }
        }),
    ensures
        judgement::judgement(w, aim).verdict == VerdictView::Inside(
            judgement::judgement(w, aim).chain.last(),
        ),
        judgement::judgement(w, aim).verdict.allows(),
{
    let hit = judgement::judgement(w, aim).chain.last();
    assert forall|i: int| 0 <= i < up.len() - 1 implies {
        let o = (w.parent)(#[trigger] up[i]);
        let role = if i == 0 {
            hit.role
        } else {
            (w.role)(up[i])
        };
        &&& o is Some && o->0.path == up[i + 1].path && o->0.path != up[i].path
        &&& !(o->0.path.len() >= 5 && o->0.path.skip(o->0.path.len() - 5) == "/null"@)
        &&& o->0.name is Some ==> up[i + 1].bus == o->0.name->0
        &&& o->0.name is None ==> up[i + 1].bus == up[i].bus
        &&& up[i].path != aim.claim.path
        &&& {
            ||| role matches Some(r) && filter::PASSIVE@.contains(r)
            ||| role == Some(Role::Invalid) && (w.role_name)(up[i]) == Some("presentation"@)
        }
    } by {
        let role = if i == 0 {
            hit.role
        } else {
            (w.role)(up[i])
        };
        if role is Some {
            pixels::what_is_decoration(role->0);
        }
    }
    lemma_way_up(w, aim, hit, up);
    lemma_judged(w, aim);
    assert(step_at(w, hit, up, up.len() - 1).path == aim.claim.path);
}

/// What is not decoration stops a click: the first object up from the point
/// that is neither the claim nor decoration is what covers it, unless it goes
/// by the claim's own name, on the claim's own spot.
pub proof fn what_is_not_decoration_stops_a_click(w: World, aim: Aim, up: Seq<PlaceView>)
    requires
        w.node is Now,
        aim.claim.difference(w.node->Now_0) is None,
        ({
            let chain = judgement::judgement(w, aim).chain;
            let hit = chain.last();
            let last = up.last();
            let role = if up.len() == 1 {
                hit.role
            } else {
                (w.role)(last)
            };
            &&& chain.len() > 0
            &&& forall|i: int|
                0 <= i < chain.len() ==> (#[trigger] chain[i]).path != aim.claim.path
            &&& 0 < up.len() <= 24
            &&& up[0].path == hit.path
            &&& up[0].bus == aim.claim.bus_name
            &&& last.path != aim.claim.path
            &&& role matches Some(r) ==> !filter::PASSIVE@.contains(r)
            &&& role == Some(Role::Invalid) ==> (w.role_name)(last) != Some("presentation"@)
            &&& forall|i: int|
                0 <= i < up.len() - 1 ==> {
                    let o = (w.parent)(#[trigger] up[i]);
                    let role = if i == 0 {
                        hit.role
                    } else {
                        (w.role)(up[i])
                    };
                    &&& o is Some && o->0.path == up[i + 1].path && o->0.path != up[i].path
                    &&& !(o->0.path.len() >= 5 && o->0.path.skip(o->0.path.len() - 5) == "/null"@)
                    &&& o->0.name is Some ==> up[i + 1].bus == o->0.name->0
                    &&& o->0.name is None ==> up[i + 1].bus == up[i].bus
                    &&& up[i].path != aim.claim.path
                    &&& {
                        ||| role matches Some(r) && filter::PASSIVE@.contains(r)
                        ||| role == Some(Role::Invalid) && (w.role_name)(up[i]) == Some(
                            "presentation"@,
                        )
                    }
                }
        }),
    ensures
        ({
            let j = judgement::judgement(w, aim);
            let hit = j.chain.last();
            let last = up.last();
            let role = if up.len() == 1 {
                hit.role
            } else {
                (w.role)(last)
            };
            let name = if up.len() == 1 {
                hit.name
            } else if (w.role)(last) is Some && (w.name)(last) is Some {
                (w.name)(last)->0
            } else {
                Seq::empty()
            };
            let b = (w.extents)(last);
            let twin = {
                &&& aim.claim.name.len() > 0
                &&& name == aim.claim.name
                &&& b is Some
                &&& -6 <= b->0.middle_x() - aim.claim.bounds.middle_x() <= 6
                &&& -6 <= b->0.middle_y() - aim.claim.bounds.middle_y() <= 6
            };
            &&& twin ==> j.verdict == VerdictView::Inside(hit)
            &&& !twin ==> (j.verdict matches VerdictView::Covered(s) && s.path == last.path
                && s.role == role && s.name == name)
        }),
{
    let hit = judgement::judgement(w, aim).chain.last();
    lemma_way_up(w, aim, hit, up);
    lemma_judged(w, aim);
    let step = step_at(w, hit, up, up.len() - 1);
    assert(step.path == up.last().path);
    assert(PlaceView { bus: up.last().bus, path: step.path } == up.last());
    if let Some(n) = (w.role_name)(up.last()) {
        pixels::what_is_called_decoration(n);
    }
}

/// What is not inside the claim is what covers it: a walk up through
/// decoration that ends without meeting the claim, or goes on for too long,
/// stops the click.
pub proof fn what_is_elsewhere_stops_a_click(w: World, aim: Aim, up: Seq<PlaceView>)
    requires
        w.node is Now,
        aim.claim.difference(w.node->Now_0) is None,
        ({
            let chain = judgement::judgement(w, aim).chain;
            let hit = chain.last();
            let last = up.last();
            let end = (w.parent)(last);
            &&& chain.len() > 0
            &&& forall|i: int|
                0 <= i < chain.len() ==> (#[trigger] chain[i]).path != aim.claim.path
            &&& 0 < up.len() <= 24
            &&& up[0].path == hit.path
            &&& up[0].bus == aim.claim.bus_name
            &&& {
                ||| up.len() == 24
                ||| end is None
                ||| end->0.path == last.path
                ||| end->0.path.len() >= 5 && end->0.path.skip(end->0.path.len() - 5) == "/null"@
            }
            &&& forall|i: int|
                0 <= i < up.len() ==> {
                    let o = (w.parent)(#[trigger] up[i]);
                    let role = if i == 0 {
                        hit.role
                    } else {
                        (w.role)(up[i])
                    };
                    &&& i + 1 < up.len() ==> {
                        &&& o is Some && o->0.path == up[i + 1].path && o->0.path != up[i].path
                        &&& !(o->0.path.len() >= 5 && o->0.path.skip(o->0.path.len() - 5)
                            == "/null"@)
                        &&& o->0.name is Some ==> up[i + 1].bus == o->0.name->0
                        &&& o->0.name is None ==> up[i + 1].bus == up[i].bus
                    }
                    &&& up[i].path != aim.claim.path
                    &&& {
                        ||| role matches Some(r) && filter::PASSIVE@.contains(r)
                        ||| role == Some(Role::Invalid) && (w.role_name)(up[i]) == Some(
                            "presentation"@,
                        )
                    }
                }
        }),
    ensures
        judgement::judgement(w, aim).verdict == VerdictView::Covered(
            judgement::judgement(w, aim).chain.last(),
        ),
        !judgement::judgement(w, aim).verdict.allows(),
{
    let hit = judgement::judgement(w, aim).chain.last();
    lemma_way_up(w, aim, hit, up);
    lemma_judged(w, aim);
    pixels::what_is_called_decoration("presentation"@);
    let last = up.last();
    let step = step_at(w, hit, up, up.len() - 1);
    assert(up[up.len() - 1] == last);
    assert(step.path == last.path);
    assert(PlaceView { bus: last.bus, path: step.path } == last);
    assert(w.passes(last.bus, step));
    lemma_leads_up(w, last, (w.parent)(last));
    assert(w.inside(aim, last.bus, step, (25 - up.len()) as nat) is Elsewhere) by {
        if up.len() == 24 && w.above(last) is Some {
            let p = w.above(last)->0;
            assert(w.inside(aim, p.bus, w.step(p), 0) is Elsewhere);
        }
    }
}

} // verus!
