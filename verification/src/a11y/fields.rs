//! What the pieces of the accessibility tree are known by.
//!
//! The laws that tie what contracts speak of to the fields themselves.
use vstd::prelude::*;

use crate::a11y::resolve;
use crate::a11y::resolve::{Candidate, Facts, Rejected};
use crate::a11y::search::Window;
use crate::a11y::target::{Frame, Object, Target, WindowRect};
use crate::a11y::verify::{Claim, Reading, Reread, Step, Verdict, Verified};
use crate::text;

verus! {

/// An object is known by its connection and its path.
pub proof fn an_object_is_known_by_its_fields(o: Object)
    ensures
        o@.path == o.path@,
        o@.name is Some <==> o.name is Some,
        o.name is Some ==> o@.name->0 == o.name->0@,
{
}

/// A frame is known by its own fields, each under its own name.
pub proof fn a_frame_is_known_by_its_fields(f: Frame)
    ensures
        f@.focus == f.focus,
        f@.pid_memo == f.pid_memo,
        f@.title_memo == f.title_memo,
        f@.app == f.app@,
        f@.title == f.title@,
        f@.role == f.role,
        f@.bus_name == f.bus_name@,
        f@.path == f.path@,
        f@.bounds == f.bounds,
{
}

/// A target is known by its own fields, each under its own name.
pub proof fn a_target_is_known_by_its_fields(t: Target)
    ensures
        t@.role == t.role,
        t@.name == t.name@,
        t@.bounds == t.bounds,
        t@.provenance == t.provenance,
        t@.bus_name == t.bus_name@,
        t@.path == t.path@,
{
}

/// A window is known by what it said, each under its own name.
pub proof fn a_window_is_known_by_its_fields(w: Window)
    ensures
        w@.title is Some <==> w.title is Some,
        w.title is Some ==> w@.title->0 == w.title->0@,
        w@.app is Some <==> w.app is Some,
        w.app is Some ==> w@.app->0 == w.app->0@,
        w@.role == w.role,
        w@.bounds == w.bounds,
{
}

/// Candidates, what was said of them, and what was dropped are known by their
/// own fields, each under its own name.
pub proof fn what_is_resolved_is_known_by_its_fields(c: Candidate, f: Facts, r: Rejected)
    ensures
        c@.object.path == c.object.path@,
        c@.object.name is Some <==> c.object.name is Some,
        c@.role == c.role,
        c@.name is Some <==> c.name is Some,
        c.name is Some ==> c@.name->0 == c.name->0@,
        f@.role == f.role,
        f@.name is Some <==> f.name is Some,
        f.name is Some ==> f@.name->0 == f.name->0@,
        f@.bounds == f.bounds,
        r@.role == r.role,
        r@.name == r.name@,
        r@.path == r.path@,
        r@.why == r.why,
{
}

/// Lists are known item by item, in their order.
pub proof fn lists_are_known_item_by_item(
    cs: Seq<Candidate>,
    fs: Seq<Option<Facts>>,
    ts: Seq<Target>,
    rs: Seq<Rejected>,
    i: int,
)
    ensures
        resolve::candidates_of(cs).len() == cs.len(),
        0 <= i < cs.len() ==> resolve::candidates_of(cs)[i] == cs[i]@,
        resolve::facts_of(fs).len() == fs.len(),
        0 <= i < fs.len() ==> (resolve::facts_of(fs)[i] is Some <==> fs[i] is Some),
        0 <= i < fs.len() && fs[i] is Some ==> resolve::facts_of(fs)[i]->0 == fs[i]->0@,
        resolve::targets_of(ts).len() == ts.len(),
        0 <= i < ts.len() ==> resolve::targets_of(ts)[i] == ts[i]@,
        resolve::rejects_of(rs).len() == rs.len(),
        0 <= i < rs.len() ==> resolve::rejects_of(rs)[i] == rs[i]@,
{
}

/// A claim, a step of a chain and a reading are known by their own fields, each
/// under its own name.
pub proof fn what_is_verified_is_known_by_its_fields(c: Claim, s: Step, r: Reading)
    ensures
        c@.bus_name == c.bus_name@,
        c@.path == c.path@,
        c@.role == c.role,
        c@.name == c.name@,
        c@.bounds == c.bounds,
        c@.x == c.x,
        c@.y == c.y,
        s@.role == s.role,
        s@.name == s.name@,
        s@.path == s.path@,
        r@.role == r.role,
        r@.name == r.name@,
        r@.states == r.states,
        r@.bounds == r.bounds,
        r@.space == r.space,
{
}

/// A verdict is known as what it is, with its chain step by step.
pub proof fn a_verdict_is_known_as_what_it_is(v: Verified, answer: Reread, i: int)
    ensures
        v@.verdict is Valid <==> v.verdict is Valid,
        v@.verdict is Gone <==> v.verdict is Gone,
        v@.verdict is Changed <==> v.verdict is Changed,
        v@.verdict is Covered <==> v.verdict is Covered,
        v@.verdict is Inside <==> v.verdict is Inside,
        v@.chain.len() == v.chain@.len(),
        0 <= i < v.chain@.len() ==> v@.chain[i] == v.chain@[i]@,
        v@.bounds == v.bounds,
        answer@ is NoRoute <==> answer is NoRoute,
        answer@ is Failed <==> answer is Failed,
        answer@ is Now <==> answer is Now,
        answer is Now ==> answer@->Now_0 == answer->Now_0@,
{
}

/// A rectangle is told as its corner, then its size.
pub proof fn a_rectangle_is_told_corner_first(r: WindowRect)
    ensures
        r.words() == text::signed_decimal(r.x as int) + ","@ + text::signed_decimal(r.y as int)
            + " "@ + text::signed_decimal(r.w as int) + "x"@ + text::signed_decimal(r.h as int),
{
}

} // verus!
