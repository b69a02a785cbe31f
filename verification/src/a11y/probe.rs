//! Reading one window's tree.
//!
//! Four ways in, and the choice is **probed per window, never assumed**: the
//! mirror where it is warm, a query where the application answers one, the
//! application's cache on demand, and the walk for everything else. None of
//! them carries bounds, so those are always a second pass, over survivors
//! only.
//!
//! The fallback is the walk and not the cache: a cold cache answers with
//! ghosts, with nothing, or with another window's widgets. A slow correct
//! answer can be moved off the hotkey path by the mirror; a fast wrong one
//! cannot be moved anywhere.
use vstd::prelude::*;
use vstd::string::*;

use crate::a11y::error::{Error, ErrorView};
use crate::a11y::mirror;
use crate::a11y::mirror::{AppTree, Item, Mirror, MirrorView, WarmSource};
use crate::a11y::names;
use crate::a11y::resolve;
use crate::a11y::resolve::{Candidate, CandidateView, Facts, Rejected};
use crate::a11y::target;
use crate::a11y::target::{Frame, FrameView, Object, Provenance, Target};
use crate::a11y::walk;
use crate::a11y::walk::{Walk, Walked};
use crate::free::Nanos;

verus! {

/// Guard against a pathological application. A window with more actionable
/// things in it cannot be labelled with two keystrokes anyway, so truncating
/// is honest as well as cheap.
pub const MAX_NODES: usize = 500;

/// Where every application's tree begins.
pub const ROOT_PATH: &'static str = "/org/a11y/atspi/accessible/root";

/// What a warm-up produced.
#[derive(Debug, Clone, Copy, PartialEq, Eq, Structural)]
pub struct Warmth {
    pub source: WarmSource,
    pub nodes: usize,
    /// Nodes belonging to the window that triggered the warm-up, as opposed
    /// to the rest of the application.
    pub in_window: usize,
}

/// The result of reading one window.
#[derive(Debug)]
pub struct Scan {
    pub provenance: Provenance,
    pub targets: Vec<Target>,
    pub rejects: Vec<Rejected>,
    /// Nodes the candidate step produced, before extents were fetched.
    pub candidates: usize,
    /// Nodes the candidate step *examined*. Equal to `candidates` where the
    /// filtering happened inside the application.
    pub examined: usize,
    /// Choosing and fetching the candidate set.
    pub select: Nanos,
    /// The extents pass over survivors.
    pub resolve: Nanos,
    /// The tail was dropped, or the walk stopped early.
    pub truncated: bool,
    /// For the mirror path: how old the tree is, how many events have been
    /// applied to it since, and how many arrived at all.
    pub mirror_age: Option<Nanos>,
    pub mirror_updates: Option<u64>,
    pub mirror_seen: Option<u64>,
}

/// The candidate a tree's node is, under the connection that published it.
pub open spec fn candidate_at(
    nodes: mirror::Nodes,
    bus_name: Seq<char>,
    path: Seq<char>,
) -> CandidateView {
    CandidateView {
        object: target::ObjectView { name: Some(bus_name), path },
        role: Some(nodes[path].role),
        name: Some(nodes[path].name),
    }
}

/// What a tree offers for a window: its candidates there, as far as they can
/// be addressed.
pub open spec fn offered(tree: AppTree, bus_name: Seq<char>, frame: Seq<char>) -> Seq<
    CandidateView,
> {
    if names::is_unique_name(bus_name) {
        tree.order().filter(
            |p: Seq<char>| mirror::is_candidate(tree.nodes(), p, frame),
        ).filter(|p: Seq<char>| names::is_object_path(p)).map_values(
            |p: Seq<char>| candidate_at(tree.nodes(), bus_name, p),
        )
    } else {
        Seq::empty()
    }
}

/// Every node in a tree belongs to the connection that published it, so the
/// bus name comes from the frame rather than from the node.
pub fn candidates_of(tree: &AppTree, bus_name: &str, frame_path: &str) -> (list: Vec<Candidate>)
    ensures
        resolve::candidates_of(list@) == offered(*tree, bus_name@, frame_path@),
{
    let found: Vec<(&str, &mirror::Node)> = tree.candidates(frame_path);
    let ghost paths = mirror::paths(found@);
    let ghost fit = |p: Seq<char>| names::is_object_path(p);
    let ghost make = |p: Seq<char>| candidate_at(tree.nodes(), bus_name@, p);
    let mut list: Vec<Candidate> = Vec::new();
    let mut i: usize = 0;
    proof {
        reveal(Seq::filter);
        assert(paths.take(0).filter(fit).map_values(make) =~= Seq::empty());
        assert(resolve::candidates_of(list@) =~= Seq::empty());
    }
    while i < found.len()
        invariant
            i <= found@.len(),
            paths == mirror::paths(found@),
            fit == (|p: Seq<char>| names::is_object_path(p)),
            make == (|p: Seq<char>| candidate_at(tree.nodes(), bus_name@, p)),
            forall|j: int|
                0 <= j < found@.len() ==> tree.nodes().contains_key((#[trigger] found@[j]).0@)
                    && found@[j].1@ == tree.nodes()[found@[j].0@],
            resolve::candidates_of(list@) == if names::is_unique_name(bus_name@) {
                paths.take(i as int).filter(fit).map_values(make)
            } else {
                Seq::empty()
            },
        decreases found.len() - i,
    {
        let ghost before = resolve::candidates_of(list@);
        let (path, node) = found[i];
        proof {
            reveal(Seq::filter);
            assert(paths.take(i + 1).drop_last() =~= paths.take(i as int));
            assert(paths[i as int] == path@);
        }
        match names::object_ref(bus_name, path) {
            Ok(object) => {
                let c: Candidate = Candidate {
                    object,
                    role: Some(node.role),
                    name: Some(node.name.clone()),
                };
                list.push(c);
                assert(resolve::candidates_of(list@) =~= before.push(c@));
                assert(paths.take(i + 1).filter(fit) == paths.take(i as int).filter(fit).push(
                    path@,
                ));
                assert(paths.take(i as int).filter(fit).push(path@).map_values(make)
                    =~= paths.take(i as int).filter(fit).map_values(make).push(make(path@)));
            },
            Err(_) => {},
        }
        i = i + 1;
    }
    assert(paths.take(i as int) =~= paths);
    list
}

/// The tree that answers for a window, if one does. **An empty answer is not
/// an answer**: a warm tree may hold another window of the application, and
/// no candidates then look just like a window with no tree at all.
pub open spec fn mirrored(m: MirrorView, frame: FrameView) -> Option<AppTree> {
    match mirror::looked_up(m.apps, frame.bus_name) {
        Some(tree) => if tree.nodes().len() > 0 && offered(
            tree,
            frame.bus_name,
            frame.path,
        ).len() > 0 {
            Some(tree)
        } else {
            None
        },
        None => None,
    }
}

/// What the mirror knew.
#[derive(Debug, Clone, Copy, PartialEq, Eq, Structural)]
pub struct Known {
    pub age: Nanos,
    pub updates: u64,
    pub seen: u64,
}

/// The mirror's answer for a window, if it has one.
pub fn from_mirror(m: &Mirror, frame: &Frame, now: Nanos) -> (r: Option<
    (Vec<Candidate>, usize, Known),
>)
    ensures
        match r {
            Some((list, examined, known)) => {
                &&& mirrored(m@, frame@) is Some
                &&& resolve::candidates_of(list@) == offered(
                    mirrored(m@, frame@)->0,
                    frame@.bus_name,
                    frame@.path,
                )
                &&& examined == (mirrored(m@, frame@)->0).nodes().len()
                &&& known == knows(m@, mirrored(m@, frame@)->0, now)
            },
            None => mirrored(m@, frame@) is None,
        },
{
    let tree: &AppTree = match m.app(frame.bus_name.as_str()) {
        Some(t) => t,
        None => {
            return None;
        },
    };
    if tree.is_empty() {
        return None;
    }
    let list: Vec<Candidate> = candidates_of(tree, frame.bus_name.as_str(), frame.path.as_str());
    assert(resolve::candidates_of(list@).len() == list@.len());
    if list.len() == 0 {
        return None;
    }
    let known: Known = Known {
        age: mirror::elapsed(tree.warmed, now),
        updates: tree.updates,
        seen: m.seen(),
    };
    Some((list, tree.len(), known))
}

/// What the mirror knows of a tree.
pub open spec fn knows(m: MirrorView, tree: AppTree, now: Nanos) -> Known {
    Known { age: mirror::ago(tree.warmed, now), updates: tree.updates, seen: m.seen }
}

/// The candidates of a window, chosen and waiting to be asked.
#[derive(Debug)]
pub struct Picked {
    pub provenance: Provenance,
    pub candidates: Vec<Candidate>,
    pub examined: usize,
    pub truncated: bool,
    pub select: Nanos,
    /// When they were chosen.
    pub since: Nanos,
    pub known: Option<Known>,
}

/// A [`Picked`], its texts as their characters.
pub struct PickedView {
    pub provenance: Provenance,
    pub candidates: Seq<CandidateView>,
    pub examined: nat,
    pub truncated: bool,
    pub select: Nanos,
    pub since: Nanos,
    pub known: Option<Known>,
}

impl View for Picked {
    type V = PickedView;

    open spec fn view(&self) -> PickedView {
        PickedView {
            provenance: self.provenance,
            candidates: resolve::candidates_of(self.candidates@),
            examined: self.examined as nat,
            truncated: self.truncated,
            select: self.select,
            since: self.since,
            known: self.known,
        }
    }
}

/// The choice of candidates: no more of them than can be labelled, and it is
/// said when there were more.
pub open spec fn choice(
    provenance: Provenance,
    found: Seq<CandidateView>,
    examined: Option<nat>,
    cut: bool,
    known: Option<Known>,
    began: Nanos,
    now: Nanos,
) -> PickedView {
    let candidates = if found.len() > MAX_NODES {
        found.take(MAX_NODES as int)
    } else {
        found
    };
    PickedView {
        provenance,
        candidates,
        examined: match examined {
            Some(n) => n,
            None => candidates.len(),
        },
        truncated: cut || found.len() > MAX_NODES,
        select: mirror::ago(began, now),
        since: now,
        known,
    }
}

fn choose_candidates(
    provenance: Provenance,
    found: Vec<Candidate>,
    examined: Option<usize>,
    cut: bool,
    known: Option<Known>,
    began: Nanos,
    now: Nanos,
) -> (p: Picked)
    ensures
        p@ == choice(
            provenance,
            resolve::candidates_of(found@),
            match examined {
                Some(n) => Some(n as nat),
                None => None,
            },
            cut,
            known,
            began,
            now,
        ),
{
    let ghost all = resolve::candidates_of(found@);
    let mut candidates: Vec<Candidate> = found;
    let over: bool = candidates.len() > MAX_NODES;
    if over {
        candidates.truncate(MAX_NODES);
        assert(resolve::candidates_of(candidates@) =~= all.take(MAX_NODES as int));
    }
    assert(resolve::candidates_of(candidates@).len() == candidates@.len());
    let examined: usize = match examined {
        Some(n) => n,
        None => candidates.len(),
    };
    Picked {
        provenance,
        candidates,
        examined,
        truncated: cut || over,
        select: mirror::elapsed(began, now),
        since: now,
        known,
    }
}

/// How far the reading of a window has come.
#[derive(Debug)]
pub enum Stage {
    /// Waiting for the window's matches with the rule for a target.
    Matching,
    /// Waiting for the entries of the application's cache.
    Listing,
    /// Waiting for what the objects of a level say.
    Walking(Walk),
    /// Waiting for the extents of the candidates, and what else is wanted of
    /// them.
    Resolving(Picked),
    Done(Result<Scan, Error>),
}

/// What the bus said.
#[derive(Debug)]
pub enum Reply {
    Matches(Result<Vec<Object>, Error>),
    Items(Result<Vec<Item>, Error>),
    Level(Vec<Option<Walked>>),
    Facts(Vec<Option<Facts>>),
}

/// The reading of one window.
#[derive(Debug)]
pub struct Probe {
    pub frame: Frame,
    /// Overrides the probe; `None` is the ordinary way.
    pub force: Option<Provenance>,
    /// Whether role and name are wanted where the source did not supply them.
    pub metadata: bool,
    pub began: Nanos,
    pub stage: Stage,
}

/// A walk of the window has just begun, or cannot.
pub open spec fn walk_begins(stage: Stage, bus_name: Seq<char>, path: Seq<char>, now: Nanos) -> bool {
    match stage {
        Stage::Walking(w) => {
            &&& names::addressable(bus_name, path)
            &&& fresh(w, bus_name, path, now)
        },
        Stage::Done(Err(e)) => !names::addressable(bus_name, path) && e@
            == names::address_fault(bus_name, path),
        _ => false,
    }
}

/// A walk that has read nothing yet.
pub open spec fn fresh(w: Walk, bus_name: Seq<char>, path: Seq<char>, now: Nanos) -> bool {
    &&& w.tree.nodes() == mirror::Nodes::empty()
    &&& w.tree.facts() == (mirror::TreeFacts {
        warmed: now,
        source: WarmSource::Walk,
        updates: 0,
        last_update: None,
        truncated: false,
    })
    &&& walk::level_of(w.level@) == seq![
        (target::ObjectView { name: Some(bus_name), path }, Seq::<char>::empty()),
    ]
    &&& w.left == mirror::DEPTH_LIMIT
}

/// The mirror with one more thing known about an application's answers to
/// queries.
pub open spec fn noted(m: MirrorView, bus_name: Seq<char>, capable: bool) -> MirrorView {
    MirrorView { collection: m.collection.insert(bus_name, capable), ..m }
}

/// What is said when the mirror alone was to answer and has nothing.
pub open spec fn cold(bus_name: Seq<char>) -> ErrorView {
    ErrorView::Bus(
        "no warm tree for "@ + bus_name + " — activate the window, or drop --via mirror"@,
    )
}

/// Matches as candidates: bare objects, of which nothing else is known.
pub open spec fn bare(list: Seq<target::ObjectView>) -> Seq<CandidateView> {
    list.map_values(
        |o: target::ObjectView| CandidateView { object: o, role: None, name: None },
    )
}

/// Cache entries as nodes.
pub open spec fn listed(items: Seq<Item>, n: nat) -> mirror::Nodes
    decreases n,
{
    if n == 0 {
        mirror::Nodes::empty()
    } else {
        listed(items, (n - 1) as nat).insert(items[n - 1].object.path@, items[n - 1].node())
    }
}

/// Where the reading of a window begins.
pub open spec fn begins(p: Probe, before: MirrorView, after: MirrorView) -> bool {
    let frame = p.frame@;
    match p.force {
        Some(Provenance::Collection) => {
            &&& after == before
            &&& match p.stage {
                Stage::Matching => names::is_object_path(frame.path),
                Stage::Done(Err(e)) => !names::is_object_path(frame.path) && e@
                    == names::frame_fault(),
                _ => false,
            }
        },
        Some(Provenance::Cache) => after == before && p.stage is Listing,
        Some(Provenance::Walk) => after == before && walk_begins(
            p.stage,
            frame.bus_name,
            frame.path,
            p.began,
        ),
        _ => match mirrored(before, frame) {
            Some(tree) => {
                &&& after == before
                &&& p.stage matches Stage::Resolving(picked)
                &&& picked@ == choice(
                    Provenance::Mirror,
                    offered(tree, frame.bus_name, frame.path),
                    Some(tree.nodes().len()),
                    false,
                    Some(knows(before, tree, p.began)),
                    p.began,
                    p.began,
                )
            },
            None => if p.force == Some(Provenance::Mirror) {
                &&& after == before
                &&& p.stage matches Stage::Done(Err(e))
                &&& e@ == cold(frame.bus_name)
            } else if mirror::looked_up(before.collection, frame.bus_name) == Some(false) {
                after == before && walk_begins(p.stage, frame.bus_name, frame.path, p.began)
            } else if names::is_object_path(frame.path) {
                after == before && p.stage is Matching
            } else {
                after == noted(before, frame.bus_name, false) && walk_begins(
                    p.stage,
                    frame.bus_name,
                    frame.path,
                    p.began,
                )
            },
        },
    }
}

/// The reply is one the stage waits for.
pub open spec fn fits(stage: Stage, reply: Reply) -> bool {
    match stage {
        Stage::Matching => reply is Matches,
        Stage::Listing => reply is Items,
        Stage::Walking(w) => w.left > 0 && (reply matches Reply::Level(said) && said@.len()
            == w.level@.len()),
        Stage::Resolving(p) => reply matches Reply::Facts(facts) && facts@.len()
            == p.candidates@.len(),
        Stage::Done(_) => false,
    }
}

/// What a level of the walk has become.
pub open spec fn walked(before: Walk, said: Seq<Option<Walked>>, after: Walk) -> bool {
    let level = walk::level_of(before.level@);
    let more = walk::beneath(level, walk::answers(said), level.len());
    let full = after.left > 0 && more.len() > 0 && after.tree.nodes().len() >= walk::WALK_NODES;
    &&& after.left == before.left - 1
    &&& after.tree.nodes() == walk::grown(
        before.tree.nodes(),
        level,
        walk::answers(said),
        level.len(),
    )
    &&& after.tree.facts() == (mirror::TreeFacts {
        truncated: before.tree.truncated || full,
        ..before.tree.facts()
    })
    &&& walk::level_of(after.level@) == if after.left == 0 || full {
        Seq::empty()
    } else {
        more
    }
}

/// What a reply makes of the reading of a window.
pub open spec fn goes_on(
    p: Probe,
    reply: Reply,
    next: Stage,
    before: MirrorView,
    after: MirrorView,
    now: Nanos,
) -> bool {
    let frame = p.frame@;
    let known_as = |capable: bool|
        if p.force is None {
            noted(before, frame.bus_name, capable)
        } else {
            before
        };
    match (p.stage, reply) {
        (Stage::Matching, Reply::Matches(Ok(list))) => {
            &&& after == known_as(true)
            &&& next matches Stage::Resolving(picked)
            &&& picked@ == choice(
                Provenance::Collection,
                bare(walk::objects(list@)),
                None,
                false,
                None,
                p.began,
                now,
            )
        },
        (Stage::Matching, Reply::Matches(Err(e))) => if p.force == Some(Provenance::Collection) {
            after == before && (next matches Stage::Done(Err(f)) && f == e)
        } else {
            after == known_as(false) && walk_begins(next, frame.bus_name, frame.path, now)
        },
        (Stage::Listing, Reply::Items(Ok(items))) => {
            &&& after == before
            &&& next matches Stage::Resolving(picked)
            &&& exists|tree: AppTree|
                {
                    &&& tree.orderly()
                    &&& #[trigger] tree.nodes() == listed(items@, items@.len())
                    &&& picked@ == choice(
                        Provenance::Cache,
                        offered(tree, frame.bus_name, frame.path),
                        Some(tree.nodes().len()),
                        false,
                        None,
                        p.began,
                        now,
                    )
                }
        },
        (Stage::Listing, Reply::Items(Err(e))) => after == before && (next matches Stage::Done(
            Err(f),
        ) && f == e),
        (Stage::Walking(w), Reply::Level(said)) => {
            &&& after == before
            &&& match next {
                Stage::Walking(w2) => walked(w, said@, w2) && w2.level@.len() > 0,
                Stage::Resolving(picked) => exists|w2: Walk|
                    {
                        &&& #[trigger] walked(w, said@, w2)
                        &&& w2.tree.orderly()
                        &&& w2.level@.len() == 0
                        &&& picked@ == choice(
                            Provenance::Walk,
                            offered(w2.tree, frame.bus_name, frame.path),
                            Some(w2.tree.nodes().len()),
                            w2.tree.truncated,
                            None,
                            p.began,
                            now,
                        )
                    },
                _ => false,
            }
        },
        (Stage::Resolving(picked), Reply::Facts(facts)) => {
            &&& after == before
            &&& next matches Stage::Done(Ok(scan))
            &&& tells(scan, picked@, resolve::facts_of(facts@), frame, p.metadata, now)
        },
        _ => false,
    }
}

/// A scan says what came of the candidates that were chosen.
pub open spec fn tells(
    scan: Scan,
    picked: PickedView,
    facts: Seq<Option<resolve::FactsView>>,
    frame: FrameView,
    metadata: bool,
    now: Nanos,
) -> bool {
    let (targets, rejects) = resolve::resolution(
        picked.candidates,
        facts,
        frame.boundary(),
        picked.provenance,
        metadata,
    );
    &&& scan.provenance == picked.provenance
    &&& resolve::targets_of(scan.targets@) == targets
    &&& resolve::rejects_of(scan.rejects@) == rejects
    &&& scan.candidates == targets.len() + rejects.len()
    &&& scan.examined == picked.examined
    &&& scan.select == picked.select
    &&& scan.resolve == mirror::ago(picked.since, now)
    &&& scan.truncated == picked.truncated
    &&& match picked.known {
        Some(k) => scan.mirror_age == Some(k.age) && scan.mirror_updates == Some(k.updates)
            && scan.mirror_seen == Some(k.seen),
        None => scan.mirror_age is None && scan.mirror_updates is None
            && scan.mirror_seen is None,
    }
}

fn begin_walk(bus_name: &str, path: &str, now: Nanos) -> (s: Stage)
    ensures
        walk_begins(s, bus_name@, path@, now),
{
    match Walk::new(bus_name, path, now) {
        Ok(w) => Stage::Walking(w),
        Err(e) => Stage::Done(Err(e)),
    }
}

fn bare_candidates(list: Vec<Object>) -> (r: Vec<Candidate>)
    ensures
        resolve::candidates_of(r@) == bare(walk::objects(list@)),
{
    let ghost all = bare(walk::objects(list@));
    let mut r: Vec<Candidate> = Vec::new();
    let mut i: usize = 0;
    assert(resolve::candidates_of(r@) =~= all.take(0));
    while i < list.len()
        invariant
            i <= list@.len(),
            all == bare(walk::objects(list@)),
            resolve::candidates_of(r@) == all.take(i as int),
        decreases list.len() - i,
    {
        let ghost before = resolve::candidates_of(r@);
        let c: Candidate = Candidate { object: list[i].clone(), role: None, name: None };
        r.push(c);
        assert(resolve::candidates_of(r@) =~= before.push(c@));
        assert(all.take(i + 1) =~= all.take(i as int).push(all[i as int]));
        i = i + 1;
    }
    assert(all.take(i as int) =~= all);
    r
}

fn list_tree(items: &Vec<Item>, now: Nanos) -> (tree: AppTree)
    ensures
        tree.nodes() == listed(items@, items@.len()),
{
    let mut tree: AppTree = AppTree::new(WarmSource::Cache, now);
    let mut i: usize = 0;
    while i < items.len()
        invariant
            i <= items@.len(),
            tree.nodes() == listed(items@, i as nat),
        decreases items.len() - i,
    {
        tree.insert_item(&items[i]);
        i = i + 1;
    }
    tree
}

impl Probe {
    /// Begin reading a window.
    pub fn new(
        m: &mut Mirror,
        frame: &Frame,
        force: Option<Provenance>,
        metadata: bool,
        now: Nanos,
    ) -> (p: Self)
        ensures
            p.frame@ == frame@,
            p.force == force,
            p.metadata == metadata,
            p.began == now,
            begins(p, old(m)@, final(m)@),
    {
        let bus: &str = frame.bus_name.as_str();
        let path: &str = frame.path.as_str();
        let stage: Stage = match force {
            Some(Provenance::Collection) => match names::frame_path(path) {
                Ok(()) => Stage::Matching,
                Err(e) => Stage::Done(Err(e)),
            },
            Some(Provenance::Cache) => Stage::Listing,
            Some(Provenance::Walk) => begin_walk(bus, path, now),
            _ => match from_mirror(m, frame, now) {
                Some((list, examined, known)) => Stage::Resolving(
                    choose_candidates(
                        Provenance::Mirror,
                        list,
                        Some(examined),
                        false,
                        Some(known),
                        now,
                        now,
                    ),
                ),
                None => match force {
                    Some(_) => {
                        let mut s: String = "no warm tree for ".to_owned();
                        s.append(bus);
                        s.append(" — activate the window, or drop --via mirror");
                        Stage::Done(Err(Error::Bus(s)))
                    },
                    None => {
                        let hopeless: bool = match m.collection_capable(bus) {
                            Some(capable) => !capable,
                            None => false,
                        };
                        if hopeless {
                            begin_walk(bus, path, now)
                        } else {
                            match names::frame_path(path) {
                                Ok(()) => Stage::Matching,
                                Err(_) => {
                                    m.note_collection(bus, false);
                                    begin_walk(bus, path, now)
                                },
                            }
                        }
                    },
                },
            },
        };
        Probe { frame: frame.clone(), force, metadata, began: now, stage }
    }

    /// Take what the bus said. Trying the query *is* the probe: an
    /// application that does not implement it answers with an error, and
    /// whether it does is remembered.
    pub fn reply(self, m: &mut Mirror, reply: Reply, now: Nanos) -> (next: Self)
        requires
            fits(self.stage, reply),
        ensures
            next.frame@ == self.frame@,
            next.force == self.force,
            next.metadata == self.metadata,
            next.began == self.began,
            goes_on(self, reply, next.stage, old(m)@, final(m)@, now),
    {
        let Probe { frame, force, metadata, began, stage } = self;
        let stage: Stage = match (stage, reply) {
            (Stage::Matching, Reply::Matches(Ok(list))) => {
                match force {
                    Some(_) => {},
                    None => m.note_collection(frame.bus_name.as_str(), true),
                }
                Stage::Resolving(
                    choose_candidates(
                        Provenance::Collection,
                        bare_candidates(list),
                        None,
                        false,
                        None,
                        began,
                        now,
                    ),
                )
            },
            (Stage::Matching, Reply::Matches(Err(e))) => match force {
                Some(Provenance::Collection) => Stage::Done(Err(e)),
                Some(_) => begin_walk(frame.bus_name.as_str(), frame.path.as_str(), now),
                None => {
                    m.note_collection(frame.bus_name.as_str(), false);
                    begin_walk(frame.bus_name.as_str(), frame.path.as_str(), now)
                },
            },
            (Stage::Listing, Reply::Items(Ok(items))) => {
                let tree: AppTree = list_tree(&items, now);
                let list: Vec<Candidate> = candidates_of(
                    &tree,
                    frame.bus_name.as_str(),
                    frame.path.as_str(),
                );
                Stage::Resolving(
                    choose_candidates(
                        Provenance::Cache,
                        list,
                        Some(tree.len()),
                        false,
                        None,
                        began,
                        now,
                    ),
                )
            },
            (Stage::Listing, Reply::Items(Err(e))) => Stage::Done(Err(e)),
            (Stage::Walking(w), Reply::Level(said)) => {
                let ghost before = w;
                let ghost says = said@;
                let w: Walk = w.absorb(said);
                assert(walked(before, says, w));
                if w.wants_more() {
                    Stage::Walking(w)
                } else {
                    let list: Vec<Candidate> = candidates_of(
                        &w.tree,
                        frame.bus_name.as_str(),
                        frame.path.as_str(),
                    );
                    Stage::Resolving(
                        choose_candidates(
                            Provenance::Walk,
                            list,
                            Some(w.tree.len()),
                            w.tree.truncated,
                            None,
                            began,
                            now,
                        ),
                    )
                }
            },
            (Stage::Resolving(picked), Reply::Facts(facts)) => {
                let (targets, rejects) = resolve::resolve(
                    &picked.candidates,
                    &facts,
                    frame.clip(),
                    picked.provenance,
                    metadata,
                );
                proof {
                    resolve::nothing_is_lost(
                        picked@.candidates,
                        resolve::facts_of(facts@),
                        frame@.boundary(),
                        picked.provenance,
                        metadata,
                    );
                    assert(resolve::targets_of(targets@).len() == targets@.len());
                    assert(resolve::rejects_of(rejects@).len() == rejects@.len());
                }
                let (mirror_age, mirror_updates, mirror_seen): (
                    Option<Nanos>,
                    Option<u64>,
                    Option<u64>,
                ) = match picked.known {
                    Some(k) => (Some(k.age), Some(k.updates), Some(k.seen)),
                    None => (None, None, None),
                };
                Stage::Done(
                    Ok(
                        Scan {
                            provenance: picked.provenance,
                            candidates: picked.candidates.len(),
                            examined: picked.examined,
                            targets,
                            rejects,
                            select: picked.select,
                            resolve: mirror::elapsed(picked.since, now),
                            truncated: picked.truncated,
                            mirror_age,
                            mirror_updates,
                            mirror_seen,
                        },
                    ),
                )
            },
            (other, _) => other,
        };
        Probe { frame, force, metadata, began, stage }
    }
}

/// A walk goes no deeper than it may.
pub open spec fn bounded(stage: Stage) -> bool {
    stage matches Stage::Walking(w) ==> w.left <= mirror::DEPTH_LIMIT
}

/// How many replies a reading can still take, at most.
pub open spec fn patience(stage: Stage) -> nat {
    match stage {
        Stage::Matching => 35,
        Stage::Listing => 35,
        Stage::Walking(w) => 2 + w.left as nat,
        Stage::Resolving(_) => 1,
        Stage::Done(_) => 0,
    }
}

/// However a reading begins, it is bounded.
pub proof fn a_reading_begins_bounded(p: Probe, before: MirrorView, after: MirrorView)
    requires
        begins(p, before, after),
    ensures
        bounded(p.stage),
{
}

/// Every reply, whatever it says, brings a reading closer to its end.
pub proof fn a_reply_leads_on(
    p: Probe,
    reply: Reply,
    next: Stage,
    before: MirrorView,
    after: MirrorView,
    now: Nanos,
)
    requires
        bounded(p.stage),
        fits(p.stage, reply),
        goes_on(p, reply, next, before, after, now),
    ensures
        bounded(next),
        patience(next) < patience(p.stage),
{
}

/// No more is asked about than can be labelled, and nothing is left out
/// without its being said.
pub proof fn a_choice_can_be_labelled(
    provenance: Provenance,
    found: Seq<CandidateView>,
    examined: Option<nat>,
    cut: bool,
    known: Option<Known>,
    began: Nanos,
    now: Nanos,
)
    ensures
        ({
            let picked = choice(provenance, found, examined, cut, known, began, now);
            &&& picked.candidates.len() <= MAX_NODES
            &&& !picked.truncated ==> picked.candidates == found && !cut
        }),
{
}

/// The mirror never answers with nothing: a window it has no candidates for
/// is read live.
pub proof fn a_warm_answer_is_not_empty(p: Probe, before: MirrorView, after: MirrorView)
    requires
        begins(p, before, after),
        p.stage is Resolving,
    ensures
        p.stage->Resolving_0@.candidates.len() > 0,
{
}

} // verus!
