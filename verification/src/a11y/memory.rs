//! What is remembered of an application's tree.
//!
//! The laws of the mirror, in terms of the nodes and events themselves.
use vstd::prelude::*;

use crate::a11y::filter;
use crate::a11y::mirror;
use crate::a11y::mirror::{AppStats, AppTree, Event, Item, MirrorView, NodeView, Nodes};
use crate::a11y::pixels;
use crate::a11y::role::{Role, State};
use crate::a11y::target::{Object, ObjectView};
use crate::book;
use crate::free::Nanos;

verus! {

/// A node is wanted when it has a rectangle of its own, its role is one that
/// can be clicked, and it is visible, showing and sensitive.
pub proof fn a_node_is_wanted_for_role_and_states(n: NodeView)
    ensures
        n.wanted() <==> {
            &&& n.has_component
            &&& (n.role is Button || n.role is PushButtonMenu || n.role is ToggleButton || n.role is CheckBox || n.role is RadioButton || n.role is Link || n.role is MenuItem || n.role is CheckMenuItem || n.role is RadioMenuItem || n.role is PageTab || n.role is Entry || n.role is PasswordText || n.role is ComboBox || n.role is ListItem || n.role is TreeItem || n.role is Slider || n.role is SpinButton)
            &&& n.states.bits & 0x4000_0000 != 0
            &&& n.states.bits & 0x200_0000 != 0
            &&& n.states.bits & 0x100_0000 != 0
        },
{
    pixels::what_can_be_clicked(n.role);
    pixels::a_target_is_visible_showing_and_sensitive(n.states);
}

/// An item is kept as it was announced, under its name, or under its short
/// name where it has no other.
pub proof fn an_item_becomes_its_own_node(item: Item)
    ensures
        item.node().parent == item.parent.path@,
        item.node().role == item.role,
        item.node().states == item.states,
        item.node().has_component == item.component,
        item.name@.len() > 0 ==> item.node().name == item.name@,
        item.name@.len() == 0 ==> item.node().name == item.short_name@,
{
}

/// A node descends from itself, and from every node that is reached from it
/// through fewer than thirty-two parents.
pub proof fn a_node_descends_from_its_ancestors(nodes: Nodes, chain: Seq<Seq<char>>)
    requires
        0 < chain.len() <= 32,
        forall|i: int|
            0 <= i < chain.len() - 1 ==> nodes.contains_key(#[trigger] chain[i])
                && nodes[chain[i]].parent == chain[i + 1],
    ensures
        mirror::descends(nodes, chain[0], chain.last()),
{
    lemma_climbs(nodes, chain, (chain.len() - 1) as nat);
}

proof fn lemma_climbs(nodes: Nodes, chain: Seq<Seq<char>>, k: nat)
    requires
        k < chain.len(),
        forall|i: int|
            0 <= i < chain.len() - 1 ==> nodes.contains_key(#[trigger] chain[i])
                && nodes[chain[i]].parent == chain[i + 1],
    ensures
        mirror::climb(nodes, chain[0], k) == Some(chain[k as int]),
    decreases k,
{
    if k > 0 {
        lemma_climbs(nodes, chain, (k - 1) as nat);
        assert(nodes[chain[k - 1]].parent == chain[k as int]);
    }
}

/// What a node descends from is reached from it parent by parent, through
/// fewer than thirty-two of them.
pub proof fn what_descends_has_its_ancestors_above(
    nodes: Nodes,
    path: Seq<char>,
    ancestor: Seq<char>,
) -> (chain: Seq<Seq<char>>)
    requires
        mirror::descends(nodes, path, ancestor),
    ensures
        0 < chain.len() <= 32,
        chain[0] == path,
        chain.last() == ancestor,
        forall|i: int|
            0 <= i < chain.len() - 1 ==> nodes.contains_key(#[trigger] chain[i])
                && nodes[chain[i]].parent == chain[i + 1],
{
    let k = choose|k: nat|
        k < mirror::DEPTH_LIMIT && #[trigger] mirror::climb(nodes, path, k) == Some(ancestor);
    lemma_climbed(nodes, path, k, ancestor)
}

proof fn lemma_climbed(nodes: Nodes, path: Seq<char>, k: nat, top: Seq<char>) -> (chain: Seq<
    Seq<char>,
>)
    requires
        mirror::climb(nodes, path, k) == Some(top),
    ensures
        chain.len() == k + 1,
        chain[0] == path,
        chain.last() == top,
        forall|i: int|
            0 <= i < chain.len() - 1 ==> nodes.contains_key(#[trigger] chain[i])
                && nodes[chain[i]].parent == chain[i + 1],
    decreases k,
{
    if k == 0 {
        seq![path]
    } else {
        let below = lemma_climbed(
            nodes,
            path,
            (k - 1) as nat,
            mirror::climb(nodes, path, (k - 1) as nat)->0,
        );
        let chain = below.push(top);
        assert forall|i: int| 0 <= i < chain.len() - 1 implies nodes.contains_key(
            #[trigger] chain[i],
        ) && nodes[chain[i]].parent == chain[i + 1] by {
            assert(chain[i] == below[i]);
            if i + 1 < k {
                assert(chain[i + 1] == below[i + 1]);
            }
        }
        chain
    }
}

/// What a window offers is wanted and stands in that window.
pub proof fn a_candidate_is_wanted_and_in_the_window(
    nodes: Nodes,
    path: Seq<char>,
    frame: Seq<char>,
)
    ensures
        mirror::is_candidate(nodes, path, frame) <==> nodes[path].wanted() && mirror::descends(
            nodes,
            path,
            frame,
        ),
{
}

/// Switching a state turns that one on or off, and leaves every other, and
/// everything else about the node, as it was.
pub proof fn a_switch_turns_one_state(before: NodeView, after: NodeView, state: State, on: bool)
    requires
        mirror::switched(before, after, state, on),
    ensures
        after.states.has(state) == on,
        forall|other: State|
            other != state ==> #[trigger] after.states.has(other) == before.states.has(other),
        after.parent == before.parent,
        after.role == before.role,
        after.name == before.name,
        after.has_component == before.has_component,
{
}

/// What comes, goes or changes its state belongs to the application that its
/// object names; a change of focus belongs to none.
pub proof fn an_event_belongs_to_its_object(event: Event)
    ensures
        match event {
            Event::Added(item) => event.app() == Some(
                match item.object.name {
                    Some(n) => n@,
                    None => Seq::empty(),
                },
            ),
            Event::Removed(object) => event.app() == Some(
                match object.name {
                    Some(n) => n@,
                    None => Seq::empty(),
                },
            ),
            Event::StateChanged { object, .. } => event.app() == Some(
                match object.name {
                    Some(n) => n@,
                    None => Seq::empty(),
                },
            ),
            _ => event.app() is None,
        },
{
}

/// What was announced is there, what went is gone, a state is as the event
/// says; every other node stays as it was, and the tree counts the event.
pub proof fn an_event_changes_what_it_is_about(
    event: Event,
    before: AppTree,
    after: AppTree,
    now: Nanos,
    path: Seq<char>,
)
    requires
        event.applies(before, after, now),
    ensures
        ({
            let (old_nodes, new_nodes) = (before.nodes(), after.nodes());
            let same = new_nodes.contains_key(path) == old_nodes.contains_key(path) && (
            old_nodes.contains_key(path) ==> new_nodes[path] == old_nodes[path]);
            match event {
                Event::Added(item) => if path == item.object.path@ {
                    new_nodes.contains_key(path) && new_nodes[path] == item.node()
                } else {
                    same
                },
                Event::Removed(object) => if path == object.path@ {
                    !new_nodes.contains_key(path)
                } else {
                    same
                },
                Event::StateChanged { object, state, on } => if path == object.path@
                    && old_nodes.contains_key(path) {
                    &&& new_nodes.contains_key(path)
                    &&& new_nodes[path].states.has(state) == on
                    &&& forall|other: State|
                        other != state ==> #[trigger] new_nodes[path].states.has(other)
                            == old_nodes[path].states.has(other)
                    &&& new_nodes[path].parent == old_nodes[path].parent
                    &&& new_nodes[path].role == old_nodes[path].role
                    &&& new_nodes[path].name == old_nodes[path].name
                    &&& new_nodes[path].has_component == old_nodes[path].has_component
                } else {
                    same
                },
                _ => same,
            }
        }),
        ({
            let touches = match event {
                Event::Added(_) => true,
                Event::Removed(_) => true,
                Event::StateChanged { object, .. } => before.nodes().contains_key(object.path@),
                _ => false,
            };
            &&& !touches ==> after == before
            &&& touches ==> after.last_update == Some(now)
            &&& touches && before.updates < 0xffff_ffff_ffff_ffff ==> after.updates
                == before.updates + 1
            &&& touches && before.updates == 0xffff_ffff_ffff_ffff ==> after.updates
                == before.updates
            &&& after.warmed == before.warmed
            &&& after.source == before.source
            &&& after.truncated == before.truncated
        }),
{
    assert(after.facts().warmed == after.warmed);
    assert(before.facts().warmed == before.warmed);
    match event {
        Event::StateChanged { object, .. } => {
            let p = object.path@;
            if before.nodes().contains_key(p) && path != p {
                assert(after.nodes().remove(p).contains_key(path) == before.nodes().remove(
                    p,
                ).contains_key(path));
                if before.nodes().contains_key(path) {
                    assert(after.nodes().remove(p)[path] == before.nodes().remove(p)[path]);
                }
            }
        },
        _ => {},
    }
}

/// The window that was activated holds the focus until another is, or until
/// that very window is deactivated.
pub proof fn the_activated_window_holds_the_focus(event: Event, held: Option<ObjectView>)
    ensures
        match event {
            Event::Activated(object) => {
                &&& event.focus(held) is Some
                &&& event.focus(held)->0.path == object.path@
                &&& event.focus(held)->0.name is Some <==> object.name is Some
                &&& object.name is Some ==> event.focus(held)->0.name->0 == object.name->0@
            },
            Event::Deactivated(object) => if held is Some && held->0.path == object.path@ {
                event.focus(held) is None
            } else {
                event.focus(held) == held
            },
            _ => event.focus(held) == held,
        },
{
}

/// A window that is held is known by its connection and its path.
pub proof fn what_is_held_is_an_object(held: Option<Object>)
    ensures
        mirror::focus_of(held) is Some <==> held is Some,
        held matches Some(o) ==> mirror::focus_of(held)->0.path == o.path@ && (
        mirror::focus_of(held)->0.name is Some <==> o.name is Some) && (o.name is Some
            ==> mirror::focus_of(held)->0.name->0 == o.name->0@),
{
}

/// A mirror begins with nothing in it.
pub proof fn a_mirror_begins_empty(bus: Seq<char>, pid: u32, title: Seq<char>)
    ensures
        ({
            let m = MirrorView::blank();
            &&& !m.apps.contains_key(bus)
            &&& m.order.len() == 0
            &&& m.seen == 0
            &&& m.last_event is None
            &&& !m.collection.contains_key(bus)
            &&& !m.app_for_pid.contains_key(pid)
            &&& !m.app_for_title.contains_key(title)
            &&& !m.pid_without_app.contains(pid)
        }),
{
}

/// What is looked up is what stands there, or nothing.
pub proof fn what_is_looked_up_stands_there<K, V>(m: Map<K, V>, k: K)
    ensures
        m.contains_key(k) ==> mirror::looked_up(m, k) == Some(m[k]),
        !m.contains_key(k) ==> mirror::looked_up(m, k) is None,
{
}

/// A counter goes up by one and stops at its end.
pub proof fn a_counter_goes_up_by_one(n: u64)
    ensures
        n < 0xffff_ffff_ffff_ffff ==> mirror::counted(n) == n + 1,
        n == 0xffff_ffff_ffff_ffff ==> mirror::counted(n) == n,
{
}

/// The time since a moment is the difference, and none for one to come.
pub proof fn the_time_since_is_the_difference(then: Nanos, now: Nanos)
    ensures
        then <= now ==> mirror::ago(then, now) == now - then,
        then > now ==> mirror::ago(then, now) == 0,
        then <= now ==> mirror::quiet_since(Some(then), now) == Some((now - then) as u64),
        then > now ==> mirror::quiet_since(Some(then), now) == Some(0u64),
        mirror::quiet_since(None, now) is None,
{
}

/// The numbers of an application are those of its tree.
pub proof fn the_numbers_are_the_trees(s: AppStats, tree: AppTree, now: Nanos)
    requires
        tree.warmed <= now,
        tree.last_update matches Some(t) ==> t <= now,
    ensures
        s.tells(tree, now) <==> {
            &&& s.nodes == tree.nodes().len()
            &&& s.source == tree.source
            &&& s.updates == tree.updates
            &&& s.age == now - tree.warmed
            &&& s.quiet is Some <==> tree.last_update is Some
            &&& tree.last_update is Some ==> s.quiet->0 == now - tree.last_update->0
        },
{
}

/// What is printed of a node is its path, its parent, its role and its name.
pub proof fn a_node_is_printed_with_its_parent(nodes: Nodes, path: Seq<char>)
    ensures
        mirror::printed(nodes, path).0 == path,
        mirror::printed(nodes, path).1 == nodes[path].parent,
        mirror::printed(nodes, path).2 == nodes[path].role,
        mirror::printed(nodes, path).3 == nodes[path].name,
{
}

/// What is listed of a tree are the nodes that can be clicked.
pub proof fn what_can_be_clicked_is_listed(tree: AppTree, path: Seq<char>)
    ensures
        tree.actionable().contains(path) <==> {
            let role = tree.nodes()[path].role;
            &&& tree.order().contains(path)
            &&& (role is Button || role is PushButtonMenu || role is ToggleButton || role is CheckBox || role is RadioButton || role is Link || role is MenuItem || role is CheckMenuItem || role is RadioMenuItem || role is PageTab || role is Entry || role is PasswordText || role is ComboBox || role is ListItem || role is TreeItem || role is Slider || role is SpinButton)
        },
{
    pixels::what_can_be_clicked(tree.nodes()[path].role);
    lemma_kept(
        tree.order(),
        |p: Seq<char>| filter::actionable(tree.nodes()[p].role),
        path,
    );
}

/// The nodes that can be clicked are listed in the order they came.
pub proof fn nodes_are_listed_as_they_came(tree: AppTree, i: int, j: int) -> (at: (int, int))
    requires
        0 <= i < j < tree.actionable().len(),
    ensures
        0 <= at.0 < at.1 < tree.order().len(),
        tree.actionable()[i] == tree.order()[at.0],
        tree.actionable()[j] == tree.order()[at.1],
{
    lemma_kept_in_order(
        tree.order(),
        |p: Seq<char>| filter::actionable(tree.nodes()[p].role),
        i,
        j,
    )
}

/// Taking a key out of a list takes that key and no other.
pub proof fn a_key_is_taken_out_alone(order: Seq<Seq<char>>, key: Seq<char>, other: Seq<char>)
    ensures
        book::without(order, key).contains(other) <==> order.contains(other) && other != key,
    decreases order.len(),
{
    reveal(Seq::filter);
    if order.len() > 0 {
        let rest = order.drop_last();
        a_key_is_taken_out_alone(rest, key, other);
        assert(order =~= rest.push(order.last()));
        lemma_contains_push(rest, order.last(), other);
        if order.last() != key {
            lemma_contains_push(book::without(rest, key), order.last(), other);
        }
    }
}

/// The keys that stay keep their order.
pub proof fn the_keys_that_stay_keep_their_order(
    order: Seq<Seq<char>>,
    key: Seq<char>,
    i: int,
    j: int,
) -> (at: (int, int))
    requires
        0 <= i < j < book::without(order, key).len(),
    ensures
        0 <= at.0 < at.1 < order.len(),
        book::without(order, key)[i] == order[at.0],
        book::without(order, key)[j] == order[at.1],
    decreases order.len(),
{
    reveal(Seq::filter);
    let rest = order.drop_last();
    if order.len() == 0 {
        (0, 0)
    } else if j < book::without(rest, key).len() {
        the_keys_that_stay_keep_their_order(rest, key, i, j)
    } else {
        a_key_is_taken_out_alone(rest, key, book::without(order, key)[i]);
        let left = book::without(rest, key);
        assert(left[i] == book::without(order, key)[i]);
        assert(left.contains(left[i]));
        let at = choose|at: int| 0 <= at < rest.len() && rest[at] == left[i];
        assert(order[at] == rest[at]);
        (at, order.len() - 1)
    }
}

/// What a filter keeps.
pub proof fn lemma_kept<A>(s: Seq<A>, f: spec_fn(A) -> bool, a: A)
    ensures
        s.filter(f).contains(a) <==> s.contains(a) && f(a),
    decreases s.len(),
{
    reveal(Seq::filter);
    if s.len() > 0 {
        let rest = s.drop_last();
        lemma_kept(rest, f, a);
        assert(s =~= rest.push(s.last()));
        lemma_contains_push(rest, s.last(), a);
        if f(s.last()) {
            lemma_contains_push(rest.filter(f), s.last(), a);
        }
    }
}

proof fn lemma_contains_push<A>(s: Seq<A>, b: A, a: A)
    ensures
        s.push(b).contains(a) <==> s.contains(a) || a == b,
{
    let t = s.push(b);
    assert(t[s.len() as int] == b);
    if s.contains(a) {
        let i = choose|i: int| 0 <= i < s.len() && s[i] == a;
        assert(t[i] == a);
    }
    if t.contains(a) && a != b {
        let i = choose|i: int| 0 <= i < t.len() && t[i] == a;
        assert(s[i] == a);
    }
}

/// Where an item that a filter keeps stood.
pub proof fn lemma_kept_at<A>(s: Seq<A>, f: spec_fn(A) -> bool, i: int) -> (at: int)
    requires
        0 <= i < s.filter(f).len(),
    ensures
        0 <= at < s.len(),
        s.filter(f)[i] == s[at],
        f(s[at]),
    decreases s.len(),
{
    reveal(Seq::filter);
    let rest = s.drop_last();
    if s.len() == 0 {
        0
    } else if i < rest.filter(f).len() {
        lemma_kept_at(rest, f, i)
    } else {
        s.len() - 1
    }
}

/// Where two items that a filter keeps stood.
pub proof fn lemma_kept_in_order<A>(s: Seq<A>, f: spec_fn(A) -> bool, i: int, j: int) -> (at: (
    int,
    int,
))
    requires
        0 <= i < j < s.filter(f).len(),
    ensures
        0 <= at.0 < at.1 < s.len(),
        s.filter(f)[i] == s[at.0],
        s.filter(f)[j] == s[at.1],
    decreases s.len(),
{
    reveal(Seq::filter);
    let rest = s.drop_last();
    if s.len() == 0 {
        (0, 0)
    } else if j < rest.filter(f).len() {
        lemma_kept_in_order(rest, f, i, j)
    } else {
        (lemma_kept_at(rest, f, i), s.len() - 1)
    }
}

} // verus!
