//! Building the mirror of one application, off the hotkey path.
//!
//! An application that answers queries needs no mirror. Any other is walked
//! from its **root**, not from the window that was activated: the mirror is
//! keyed by application, and half a mirror is worse than none. Its cache is
//! not merged in, not even to fill gaps: every node it offers that the walk
//! does not is a ghost or another window's.
use vstd::prelude::*;
use vstd::string::*;

use crate::a11y::error::Error;
use crate::a11y::mirror;
use crate::a11y::mirror::{AppTree, Mirror, MirrorView, WarmSource};
use crate::a11y::names;
use crate::a11y::probe;
use crate::a11y::probe::{Warmth, ROOT_PATH};
use crate::a11y::walk::{Walk, Walked};
use crate::free::Nanos;

verus! {

/// How far a warm-up has come.
#[derive(Debug)]
pub enum Stage {
    /// Waiting whether the application answers a query, for one match, below
    /// its root.
    Asking,
    /// Waiting for what the objects of a level say.
    Walking(Walk),
    Done(Result<Warmth, Error>),
}

/// What the bus said.
#[derive(Debug)]
pub enum Reply {
    Capable(bool),
    Level(Vec<Option<Walked>>),
}

/// The warm-up of one application, for the sake of one of its windows.
#[derive(Debug)]
pub struct Warming {
    pub bus_name: String,
    pub frame_path: String,
    pub stage: Stage,
}

/// The reply is one the stage waits for.
pub open spec fn fits(stage: Stage, reply: Reply) -> bool {
    match stage {
        Stage::Asking => reply is Capable,
        Stage::Walking(w) => w.left > 0 && (reply matches Reply::Level(said) && said@.len()
            == w.level@.len()),
        Stage::Done(_) => false,
    }
}

/// What is said of a finished walk.
pub open spec fn warmth(tree: AppTree, frame: Seq<char>) -> (WarmSource, nat, nat) {
    (
        tree.source,
        tree.nodes().len(),
        tree.order().filter(|p: Seq<char>| mirror::is_candidate(tree.nodes(), p, frame)).len(),
    )
}

/// What a reply makes of a warm-up.
pub open spec fn goes_on(
    w: Warming,
    reply: Reply,
    next: Stage,
    before: MirrorView,
    after: MirrorView,
    now: Nanos,
) -> bool {
    match (w.stage, reply) {
        (Stage::Asking, Reply::Capable(capable)) => {
            &&& after == probe::noted(before, w.bus_name@, capable)
            &&& if capable {
                next == Stage::Done(
                    Ok(Warmth { source: WarmSource::Live, nodes: 0, in_window: 0 }),
                )
            } else {
                match next {
                    Stage::Walking(walk) => names::addressable(w.bus_name@, ROOT_PATH@)
                        && probe::fresh(walk, w.bus_name@, ROOT_PATH@, now),
                    Stage::Done(Err(e)) => !names::addressable(w.bus_name@, ROOT_PATH@)
                        && e@ == names::address_fault(w.bus_name@, ROOT_PATH@),
                    _ => false,
                }
            }
        },
        (Stage::Walking(walk), Reply::Level(said)) => match next {
            Stage::Walking(walk2) => {
                &&& after == before
                &&& probe::walked(walk, said@, walk2)
                &&& walk2.level@.len() > 0
            },
            Stage::Done(Ok(done)) => exists|walk2: Walk|
                {
                    &&& #[trigger] probe::walked(walk, said@, walk2)
                    &&& walk2.tree.orderly()
                    &&& walk2.level@.len() == 0
                    &&& (done.source, done.nodes as nat, done.in_window as nat) == warmth(
                        walk2.tree,
                        w.frame_path@,
                    )
                    &&& after == put(before, w.bus_name@, walk2.tree)
                },
            _ => false,
        },
        _ => false,
    }
}

/// The mirror with an application's tree in it.
pub open spec fn put(m: MirrorView, bus_name: Seq<char>, tree: AppTree) -> MirrorView {
    MirrorView {
        apps: m.apps.insert(bus_name, tree),
        order: if m.apps.contains_key(bus_name) {
            m.order
        } else {
            m.order.push(bus_name)
        },
        ..m
    }
}

impl Warming {
    pub fn new(bus_name: &str, frame_path: &str) -> (w: Self)
        ensures
            w.bus_name@ == bus_name@,
            w.frame_path@ == frame_path@,
            w.stage is Asking,
    {
        Warming {
            bus_name: bus_name.to_owned(),
            frame_path: frame_path.to_owned(),
            stage: Stage::Asking,
        }
    }

    /// Take what the bus said.
    pub fn reply(self, m: &mut Mirror, reply: Reply, now: Nanos) -> (next: Self)
        requires
            fits(self.stage, reply),
        ensures
            next.bus_name@ == self.bus_name@,
            next.frame_path@ == self.frame_path@,
            goes_on(self, reply, next.stage, old(m)@, final(m)@, now),
    {
        let Warming { bus_name, frame_path, stage } = self;
        let stage: Stage = match (stage, reply) {
            (Stage::Asking, Reply::Capable(capable)) => {
                m.note_collection(bus_name.as_str(), capable);
                if capable {
                    Stage::Done(Ok(Warmth { source: WarmSource::Live, nodes: 0, in_window: 0 }))
                } else {
                    match Walk::new(bus_name.as_str(), ROOT_PATH, now) {
                        Ok(w) => Stage::Walking(w),
                        Err(e) => Stage::Done(Err(e)),
                    }
                }
            },
            (Stage::Walking(w), Reply::Level(said)) => {
                let ghost before = w;
                let ghost says = said@;
                let w: Walk = w.absorb(said);
                assert(probe::walked(before, says, w));
                if w.wants_more() {
                    Stage::Walking(w)
                } else {
                    let found: Vec<(&str, &mirror::Node)> = w.tree.candidates(frame_path.as_str());
                    assert(mirror::paths(found@).len() == found@.len());
                    let done: Warmth = Warmth {
                        source: w.tree.source,
                        nodes: w.tree.len(),
                        in_window: found.len(),
                    };
                    m.put(bus_name.clone(), w.tree);
                    Stage::Done(Ok(done))
                }
            },
            (other, _) => other,
        };
        Warming { bus_name, frame_path, stage }
    }
}

/// How many replies a warm-up can still take, at most.
pub open spec fn patience(stage: Stage) -> nat {
    match stage {
        Stage::Asking => 34,
        Stage::Walking(w) => 1 + w.left as nat,
        Stage::Done(_) => 0,
    }
}

/// Every reply, whatever it says, brings a warm-up closer to its end.
pub proof fn a_reply_leads_on(
    w: Warming,
    reply: Reply,
    next: Stage,
    before: MirrorView,
    after: MirrorView,
    now: Nanos,
)
    requires
        w.stage matches Stage::Walking(walk) ==> walk.left <= mirror::DEPTH_LIMIT,
        fits(w.stage, reply),
        goes_on(w, reply, next, before, after, now),
    ensures
        next matches Stage::Walking(walk) ==> walk.left <= mirror::DEPTH_LIMIT,
        patience(next) < patience(w.stage),
{
}

/// An application that answers queries is never mirrored, and whether it does
/// is remembered either way.
pub proof fn a_capable_application_is_not_mirrored(
    w: Warming,
    capable: bool,
    next: Stage,
    before: MirrorView,
    after: MirrorView,
    now: Nanos,
)
    requires
        w.stage is Asking,
        goes_on(w, Reply::Capable(capable), next, before, after, now),
    ensures
        mirror::looked_up(after.collection, w.bus_name@) == Some(capable),
        after.apps == before.apps,
        capable ==> next is Done,
{
}

} // verus!
