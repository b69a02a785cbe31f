//! How a window's tree is come by.
//!
//! The laws of the walk, of warming an application and of reading a window, in
//! terms of the objects, their answers and the candidates that come of them.
use vstd::prelude::*;

use crate::a11y::error::ErrorView;
use crate::a11y::memory;
use crate::a11y::mirror;
use crate::a11y::mirror::{AppTree, MirrorView, Nodes, WarmSource};
use crate::a11y::names;
use crate::a11y::probe;
use crate::a11y::probe::{Known, Probe, Scan};
use crate::a11y::resolve;
use crate::a11y::resolve::{CandidateView, FactsView};
use crate::a11y::target::{FrameView, ObjectView, Provenance};
use crate::a11y::walk;
use crate::a11y::walk::{Found, Walk, Walked, WalkedView};
use crate::a11y::warm;
use crate::a11y::warm::Warming;
use crate::free::Nanos;

verus! {

/// An answer is what was read of the object, and lists its children in order.
pub proof fn an_answer_is_what_was_read(w: Walked, k: int)
    ensures
        w@.role == w.role,
        w@.states == w.states,
        w@.component == w.component,
        w@.name is Some <==> w.name is Some,
        w.name is Some ==> w@.name->0 == w.name->0@,
        w.children is None ==> w@.children.len() == 0,
        w.children is Some ==> w@.children.len() == w.children->0@.len(),
        w.children is Some && 0 <= k < w.children->0@.len() ==> {
            let (child, read) = (w@.children[k], w.children->0@[k]);
            &&& child.path == read.path@
            &&& child.name is Some <==> read.name is Some
            &&& read.name is Some ==> child.name->0 == read.name->0@
        },
{
}

/// An object that answered becomes a node, with what it said, under the object
/// it was found at.
pub proof fn an_object_that_answered_has_its_node(
    nodes: Nodes,
    level: Seq<Found>,
    said: Seq<Option<WalkedView>>,
    n: nat,
    i: int,
)
    requires
        0 <= i < n <= level.len(),
        n <= said.len(),
        said[i] is Some,
        forall|j: int|
            i < j < n && #[trigger] said[j] is Some ==> level[j].0.path != level[i].0.path,
    ensures
        ({
            let (w, path) = (said[i]->0, level[i].0.path);
            let after = walk::grown(nodes, level, said, n);
            &&& after.contains_key(path)
            &&& after[path].parent == level[i].1
            &&& after[path].role == w.role
            &&& after[path].states == w.states
            &&& after[path].has_component == w.component
            &&& w.name is Some ==> after[path].name == w.name->0
            &&& w.name is None ==> after[path].name.len() == 0
        }),
    decreases n,
{
    if n - 1 > i {
        an_object_that_answered_has_its_node(nodes, level, said, (n - 1) as nat, i);
        assert(said[n - 1] is Some ==> level[n - 1].0.path != level[i].0.path);
    }
}

/// What no answer is about stays as it was.
pub proof fn what_no_answer_is_about_stays(
    nodes: Nodes,
    level: Seq<Found>,
    said: Seq<Option<WalkedView>>,
    n: nat,
    path: Seq<char>,
)
    requires
        n <= level.len(),
        n <= said.len(),
        forall|j: int| 0 <= j < n && #[trigger] said[j] is Some ==> level[j].0.path != path,
    ensures
        walk::grown(nodes, level, said, n).contains_key(path) == nodes.contains_key(path),
        walk::grown(nodes, level, said, n)[path] == nodes[path],
    decreases n,
{
    if n > 0 {
        what_no_answer_is_about_stays(nodes, level, said, (n - 1) as nat, path);
        assert(said[n - 1] is Some ==> level[n - 1].0.path != path);
    }
}

/// The next level lists the children of the first object, then those of the
/// second, and so on, each with the path of its parent; one that did not
/// answer adds none.
pub proof fn the_next_level_lists_the_children_in_order(
    level: Seq<Found>,
    said: Seq<Option<WalkedView>>,
    n: nat,
    k: int,
)
    requires
        n < level.len(),
        n < said.len(),
    ensures
        ({
            let before = walk::beneath(level, said, n);
            let after = walk::beneath(level, said, n + 1);
            let (w, path) = (said[n as int], level[n as int].0.path);
            &&& 0 <= k < before.len() ==> after[k] == before[k]
            &&& w is None ==> after.len() == before.len()
            &&& w is Some ==> after.len() == before.len() + w->0.children.len()
            &&& w is Some && 0 <= k < w->0.children.len() ==> after[before.len() + k].0
                == w->0.children[k] && after[before.len() + k].1 == path
        }),
        walk::beneath(level, said, 0).len() == 0,
{
}

/// A walk reads one level and goes one deeper, until it is thirty-two deep; it
/// stops, and says that it was cut short, once it holds five thousand nodes.
pub proof fn a_walk_reads_a_level_at_a_time(
    before: Walk,
    said: Seq<Option<Walked>>,
    after: Walk,
)
    requires
        probe::walked(before, said, after),
    ensures
        ({
            let level = walk::level_of(before.level@);
            let more = walk::beneath(level, walk::answers(said), level.len());
            let full = after.left > 0 && more.len() > 0 && after.tree.nodes().len() >= 5000;
            &&& after.left == before.left - 1
            &&& after.tree.nodes() == walk::grown(
                before.tree.nodes(),
                level,
                walk::answers(said),
                level.len(),
            )
            &&& full ==> after.tree.truncated && after.level@.len() == 0
            &&& !full ==> after.tree.truncated == before.tree.truncated
            &&& after.left == 0 ==> after.level@.len() == 0
            &&& after.left > 0 && !full ==> walk::level_of(after.level@) == more
            &&& after.tree.warmed == before.tree.warmed
            &&& after.tree.source == before.tree.source
            &&& after.tree.updates == before.tree.updates
            &&& after.tree.last_update == before.tree.last_update
        }),
{
    assert(after.tree.facts().truncated == after.tree.truncated);
    assert(before.tree.facts().truncated == before.tree.truncated);
    assert(walk::level_of(after.level@).len() == after.level@.len());
}

/// A level is a list of objects with the paths of their parents, and an answer
/// list has an answer for each of them.
pub proof fn a_level_pairs_objects_with_parents(w: Walk, said: Seq<Option<Walked>>, i: int)
    ensures
        walk::level_of(w.level@).len() == w.level@.len(),
        0 <= i < w.level@.len() ==> walk::level_of(w.level@)[i].0.path == w.level@[i].0.path@
            && walk::level_of(w.level@)[i].1 == w.level@[i].1@,
        walk::answers(said).len() == said.len(),
        0 <= i < said.len() ==> (walk::answers(said)[i] is Some <==> said[i] is Some),
        0 <= i < said.len() && said[i] is Some ==> walk::answers(said)[i]->0 == said[i]->0@,
{
}

/// A walk begins with an empty tree at the one object it is about.
pub proof fn a_walk_begins_at_its_object(w: Walk, bus: Seq<char>, path: Seq<char>, now: Nanos)
    requires
        probe::fresh(w, bus, path, now),
    ensures
        forall|p: Seq<char>| !#[trigger] w.tree.nodes().contains_key(p),
        w.tree.warmed == now,
        w.tree.source is Walk,
        w.tree.updates == 0,
        w.tree.last_update is None,
        !w.tree.truncated,
        w.level@.len() == 1,
        w.level@[0].0.path@ == path,
        w.level@[0].0.name is Some,
        w.level@[0].0.name->0@ == bus,
        w.level@[0].1@.len() == 0,
        w.left == 32,
{
    assert(w.tree.facts().warmed == w.tree.warmed);
    let level = walk::level_of(w.level@);
    assert(level.len() == 1);
    assert(level[0] == (w.level@[0].0@, w.level@[0].1@));
}

/// A walk begins where its object can be addressed, and fails with that fault
/// where it cannot.
pub proof fn a_walk_needs_an_address(
    stage: probe::Stage,
    bus: Seq<char>,
    path: Seq<char>,
    now: Nanos,
)
    requires
        probe::walk_begins(stage, bus, path, now),
    ensures
        names::is_unique_name(bus) && names::is_object_path(path) ==> (stage matches
            probe::Stage::Walking(w) && probe::fresh(w, bus, path, now)),
        !names::is_unique_name(bus) || !names::is_object_path(path) ==> stage is Done && stage->Done_0
            is Err,
{
}

/// An application that was walked is remembered under its name, with the tree
/// that the walk left; what is reported of it are that tree's own numbers, and
/// no other application changes.
pub proof fn a_finished_walk_is_remembered(
    w: Warming,
    walked: Walk,
    said: Vec<Option<Walked>>,
    next: warm::Stage,
    before: MirrorView,
    after: MirrorView,
    now: Nanos,
    other: Seq<char>,
)
    requires
        w.stage == warm::Stage::Walking(walked),
        warm::goes_on(w, warm::Reply::Level(said), next, before, after, now),
        next is Done,
    ensures
        next->Done_0 is Ok,
        after.apps.contains_key(w.bus_name@),
        ({
            let (tree, done) = (after.apps[w.bus_name@], next->Done_0->Ok_0);
            let inside = tree.order().filter(
                |p: Seq<char>| mirror::is_candidate(tree.nodes(), p, w.frame_path@),
            );
            &&& done.nodes == tree.nodes().len()
            &&& done.source == tree.source
            &&& done.in_window == inside.len()
            &&& tree.nodes() == walk::grown(
                walked.tree.nodes(),
                walk::level_of(walked.level@),
                walk::answers(said@),
                walked.level@.len(),
            )
        }),
        other != w.bus_name@ ==> after.apps.contains_key(other) == before.apps.contains_key(other),
        other != w.bus_name@ && before.apps.contains_key(other) ==> after.apps[other]
            == before.apps[other],
        before.apps.contains_key(w.bus_name@) ==> after.order == before.order,
        !before.apps.contains_key(w.bus_name@) ==> after.order == before.order.push(w.bus_name@),
        after.collection == before.collection,
        after.app_for_pid == before.app_for_pid,
        after.app_for_title == before.app_for_title,
        after.pid_without_app == before.pid_without_app,
        after.seen == before.seen,
{
    assert(walk::level_of(walked.level@).len() == walked.level@.len());
}

/// An application that answers queries needs no tree; any other is walked from
/// its root. Either way its answer is kept.
pub proof fn a_warming_asks_then_walks(
    w: Warming,
    capable: bool,
    next: warm::Stage,
    before: MirrorView,
    after: MirrorView,
    now: Nanos,
)
    requires
        w.stage is Asking,
        warm::goes_on(w, warm::Reply::Capable(capable), next, before, after, now),
    ensures
        after.collection.contains_key(w.bus_name@),
        after.collection[w.bus_name@] == capable,
        after.apps == before.apps,
        after.order == before.order,
        capable ==> next is Done && next->Done_0 is Ok && next->Done_0->Ok_0.source is Live
            && next->Done_0->Ok_0.nodes == 0 && next->Done_0->Ok_0.in_window == 0,
        !capable && names::is_unique_name(w.bus_name@) && names::is_object_path(
            "/org/a11y/atspi/accessible/root"@,
        ) ==> (next matches warm::Stage::Walking(walk) && probe::fresh(
            walk,
            w.bus_name@,
            "/org/a11y/atspi/accessible/root"@,
            now,
        )),
        !capable && !names::is_unique_name(w.bus_name@) ==> next is Done && next->Done_0 is Err,
{
}

/// A walk that has more to read goes on, and nothing is remembered before its
/// end.
pub proof fn an_unfinished_walk_is_not_remembered(
    w: Warming,
    walked: Walk,
    said: Vec<Option<Walked>>,
    next: warm::Stage,
    before: MirrorView,
    after: MirrorView,
    now: Nanos,
)
    requires
        w.stage == warm::Stage::Walking(walked),
        warm::goes_on(w, warm::Reply::Level(said), next, before, after, now),
        next is Walking,
    ensures
        after == before,
        next->Walking_0.level@.len() > 0,
        probe::walked(walked, said@, next->Walking_0),
{
}

/// What a tree offers to a window is one of its nodes, wanted and inside that
/// window, under a path that can be addressed, with the role and name the tree
/// knows.
pub proof fn what_is_offered_is_a_candidate(
    tree: AppTree,
    bus: Seq<char>,
    frame: Seq<char>,
    i: int,
) -> (at: int)
    requires
        0 <= i < probe::offered(tree, bus, frame).len(),
    ensures
        names::is_unique_name(bus),
        0 <= at < tree.order().len(),
        ({
            let (c, p) = (probe::offered(tree, bus, frame)[i], tree.order()[at]);
            &&& mirror::is_candidate(tree.nodes(), p, frame)
            &&& names::is_object_path(p)
            &&& c.object.path == p
            &&& c.object.name == Some(bus)
            &&& c.role == Some(tree.nodes()[p].role)
            &&& c.name == Some(tree.nodes()[p].name)
        }),
{
    let wanted = |p: Seq<char>| mirror::is_candidate(tree.nodes(), p, frame);
    let sound = |p: Seq<char>| names::is_object_path(p);
    let kept = tree.order().filter(wanted);
    let at = memory::lemma_kept_at(kept, sound, i);
    memory::lemma_kept_at(tree.order(), wanted, at)
}

/// Every node that is wanted, inside the window and under a path that can be
/// addressed is offered.
pub proof fn every_candidate_is_offered(
    tree: AppTree,
    bus: Seq<char>,
    frame: Seq<char>,
    p: Seq<char>,
) -> (i: int)
    requires
        names::is_unique_name(bus),
        tree.order().contains(p),
        mirror::is_candidate(tree.nodes(), p, frame),
        names::is_object_path(p),
    ensures
        0 <= i < probe::offered(tree, bus, frame).len(),
        probe::offered(tree, bus, frame)[i].object.path == p,
{
    let wanted = |p: Seq<char>| mirror::is_candidate(tree.nodes(), p, frame);
    let sound = |p: Seq<char>| names::is_object_path(p);
    let kept = tree.order().filter(wanted);
    memory::lemma_kept(tree.order(), wanted, p);
    memory::lemma_kept(kept, sound, p);
    choose|i: int| 0 <= i < kept.filter(sound).len() && kept.filter(sound)[i] == p
}

/// What is offered stands in the order the nodes came.
pub proof fn candidates_are_offered_as_they_came(
    tree: AppTree,
    bus: Seq<char>,
    frame: Seq<char>,
    i: int,
    j: int,
) -> (at: (int, int))
    requires
        0 <= i < j < probe::offered(tree, bus, frame).len(),
    ensures
        0 <= at.0 < at.1 < tree.order().len(),
        probe::offered(tree, bus, frame)[i].object.path == tree.order()[at.0],
        probe::offered(tree, bus, frame)[j].object.path == tree.order()[at.1],
{
    let wanted = |p: Seq<char>| mirror::is_candidate(tree.nodes(), p, frame);
    let sound = |p: Seq<char>| names::is_object_path(p);
    let kept = tree.order().filter(wanted);
    let at = memory::lemma_kept_in_order(kept, sound, i, j);
    memory::lemma_kept_in_order(tree.order(), wanted, at.0, at.1)
}

/// A tree is of use to a window when it stands under the window's application,
/// has nodes and offers some.
pub proof fn a_tree_is_warm_when_it_offers_something(m: MirrorView, frame: FrameView)
    ensures
        ({
            let tree = m.apps[frame.bus_name];
            let warm = m.apps.contains_key(frame.bus_name) && tree.nodes().len() > 0
                && probe::offered(tree, frame.bus_name, frame.path).len() > 0;
            &&& warm ==> probe::mirrored(m, frame) == Some(tree)
            &&& !warm ==> probe::mirrored(m, frame) is None
        }),
{
}

/// What is known of a tree is its age, how often it changed and how much was
/// heard in all.
pub proof fn what_is_known_of_a_tree(m: MirrorView, tree: AppTree, now: Nanos)
    requires
        tree.warmed <= now,
    ensures
        probe::knows(m, tree, now).age == now - tree.warmed,
        probe::knows(m, tree, now).updates == tree.updates,
        probe::knows(m, tree, now).seen == m.seen,
{
}

/// At most five hundred candidates are chosen, the first ones; it is said when
/// there were more, how long it took and how much was looked at.
pub proof fn the_first_five_hundred_are_chosen(
    provenance: Provenance,
    found: Seq<CandidateView>,
    examined: Option<nat>,
    cut: bool,
    known: Option<Known>,
    began: Nanos,
    now: Nanos,
    i: int,
)
    requires
        began <= now,
    ensures
        ({
            let c = probe::choice(provenance, found, examined, cut, known, began, now);
            &&& found.len() <= 500 ==> c.candidates == found
            &&& found.len() > 500 ==> c.candidates.len() == 500
            &&& 0 <= i < c.candidates.len() ==> c.candidates[i] == found[i]
            &&& c.truncated <==> cut || found.len() > 500
            &&& examined is Some ==> c.examined == examined->0
            &&& examined is None ==> c.examined == c.candidates.len()
            &&& c.provenance == provenance
            &&& c.known == known
            &&& c.select == now - began
            &&& c.since == now
        }),
{
}

/// A way in that was asked for is the way taken: a query, the cache, the walk,
/// or the mirror and nothing else.
pub proof fn a_way_that_was_asked_for_is_taken(p: Probe, before: MirrorView, after: MirrorView)
    requires
        probe::begins(p, before, after),
        p.force is Some,
    ensures
        after == before,
        p.force->0 is Collection && names::is_object_path(p.frame@.path) ==> p.stage is Matching,
        p.force->0 is Collection && !names::is_object_path(p.frame@.path) ==> p.stage is Done
            && p.stage->Done_0 is Err,
        p.force->0 is Cache ==> p.stage is Listing,
        p.force->0 is Walk && names::is_unique_name(p.frame@.bus_name) && names::is_object_path(
            p.frame@.path,
        ) ==> p.stage is Walking,
        p.force->0 is Mirror && probe::mirrored(before, p.frame@) is Some ==> p.stage is Resolving,
        p.force->0 is Mirror && probe::mirrored(before, p.frame@) is None ==> p.stage is Done
            && p.stage->Done_0 is Err,
{
}

/// Without a way asked for, a warm tree answers at once, with what it offers;
/// next an application is asked unless it is known not to answer; the rest is
/// walked.
pub proof fn the_fastest_sound_way_is_taken(p: Probe, before: MirrorView, after: MirrorView)
    requires
        probe::begins(p, before, after),
        p.force is None,
    ensures
        ({
            let frame = p.frame@;
            let warm = probe::mirrored(before, frame);
            let refuses = before.collection.contains_key(frame.bus_name)
                && !before.collection[frame.bus_name];
            let sound = names::is_object_path(frame.path);
            &&& warm is Some ==> after == before && (p.stage matches probe::Stage::Resolving(c)
                && {
                    let all = probe::offered(warm->0, frame.bus_name, frame.path);
                    &&& c@.provenance is Mirror
                    &&& c@.examined == warm->0.nodes().len()
                    &&& c@.candidates == if all.len() > 500 {
                        all.take(500)
                    } else {
                        all
                    }
                    &&& c@.truncated <==> all.len() > 500
                    &&& c@.known == Some(probe::knows(before, warm->0, p.began))
                })
            &&& warm is None && refuses ==> after == before && (p.stage is Walking || p.stage
                is Done)
            &&& warm is None && !refuses && sound ==> after == before && p.stage is Matching
            &&& warm is None && !refuses && !sound ==> after.collection
                == before.collection.insert(frame.bus_name, false) && p.stage is Done
        }),
{
}

/// What a query matched is taken as it came, of unknown role and name; and an
/// application that was asked of the library's own accord is remembered as one
/// that answers.
pub proof fn a_match_is_taken_as_it_came(
    p: Probe,
    list: Vec<crate::a11y::target::Object>,
    next: probe::Stage,
    before: MirrorView,
    after: MirrorView,
    now: Nanos,
    i: int,
)
    requires
        p.stage is Matching,
        probe::goes_on(p, probe::Reply::Matches(Ok(list)), next, before, after, now),
    ensures
        next is Resolving,
        ({
            let c = next->Resolving_0@;
            &&& c.provenance is Collection
            &&& c.candidates.len() == if list@.len() > 500 {
                500
            } else {
                list@.len()
            }
            &&& c.examined == c.candidates.len()
            &&& c.truncated <==> list@.len() > 500
            &&& c.known is None
            &&& 0 <= i < c.candidates.len() ==> {
                &&& c.candidates[i].object == list@[i]@
                &&& c.candidates[i].role is None
                &&& c.candidates[i].name is None
            }
        }),
        p.force is None ==> after.collection == before.collection.insert(p.frame@.bus_name, true),
        p.force is Some ==> after == before,
        after.apps == before.apps,
{
    assert(probe::bare(walk::objects(list@)).len() == list@.len());
    if 0 <= i < list@.len() {
        assert(probe::bare(walk::objects(list@))[i].object == list@[i]@);
    }
}

/// A query that failed is an error where it was asked for, and else the window
/// is walked and the application remembered as one that does not answer.
pub proof fn a_failed_query_is_walked(
    p: Probe,
    e: crate::a11y::error::Error,
    next: probe::Stage,
    before: MirrorView,
    after: MirrorView,
    now: Nanos,
)
    requires
        p.stage is Matching,
        probe::goes_on(p, probe::Reply::Matches(Err(e)), next, before, after, now),
    ensures
        p.force == Some(Provenance::Collection) ==> after == before && next is Done
            && next->Done_0 is Err && next->Done_0->Err_0 == e,
        p.force is None ==> after.collection == before.collection.insert(
            p.frame@.bus_name,
            false,
        ),
        p.force != Some(Provenance::Collection) && names::is_unique_name(p.frame@.bus_name)
            && names::is_object_path(p.frame@.path) ==> (next matches probe::Stage::Walking(w)
            && probe::fresh(w, p.frame@.bus_name, p.frame@.path, now)),
        after.apps == before.apps,
{
}

/// A cache is a tree of its items, the later of two under one path in place of
/// the earlier.
pub proof fn a_cache_holds_its_last_items(
    items: Seq<mirror::Item>,
    n: nat,
    i: int,
    path: Seq<char>,
)
    requires
        n <= items.len(),
    ensures
        0 <= i < n && items[i].object.path@ == path && (forall|j: int|
            i < j < n ==> (#[trigger] items[j]).object.path@ != path) ==> probe::listed(items, n)
            .contains_key(path) && probe::listed(items, n)[path] == items[i].node(),
        (forall|j: int| 0 <= j < n ==> (#[trigger] items[j]).object.path@ != path)
            ==> !probe::listed(items, n).contains_key(path),
    decreases n,
{
    if n > 0 {
        a_cache_holds_its_last_items(items, (n - 1) as nat, i, path);
        assert(items[n - 1].object.path@ == items[n - 1].object.path@);
    }
}

/// A scan reports the targets and the rejects of what was chosen, and how they
/// were come by.
pub proof fn a_scan_says_how_it_was_come_by(
    scan: Scan,
    picked: probe::PickedView,
    facts: Seq<Option<FactsView>>,
    frame: FrameView,
    metadata: bool,
    now: Nanos,
)
    requires
        probe::tells(scan, picked, facts, frame, metadata, now),
        picked.since <= now,
    ensures
        ({
            let (targets, rejects) = resolve::resolution(
                picked.candidates,
                facts,
                frame.boundary(),
                picked.provenance,
                metadata,
            );
            &&& resolve::targets_of(scan.targets@) == targets
            &&& resolve::rejects_of(scan.rejects@) == rejects
            &&& scan.candidates == scan.targets@.len() + scan.rejects@.len()
        }),
        scan.provenance == picked.provenance,
        scan.examined == picked.examined,
        scan.truncated == picked.truncated,
        scan.select == picked.select,
        scan.resolve == now - picked.since,
        picked.known is None ==> scan.mirror_age is None && scan.mirror_updates is None
            && scan.mirror_seen is None,
        picked.known is Some ==> {
            &&& scan.mirror_age == Some(picked.known->0.age)
            &&& scan.mirror_updates == Some(picked.known->0.updates)
            &&& scan.mirror_seen == Some(picked.known->0.seen)
        },
{
    assert(resolve::targets_of(scan.targets@).len() == scan.targets@.len());
    assert(resolve::rejects_of(scan.rejects@).len() == scan.rejects@.len());
}

/// A window that has no warm tree and may be read in no other way is told so by
/// its application's name.
pub proof fn a_cold_window_is_named(bus: Seq<char>)
    ensures
        probe::cold(bus) == ErrorView::Bus(
            "no warm tree for "@ + bus + " — activate the window, or drop --via mirror"@,
        ),
{
}

} // verus!
