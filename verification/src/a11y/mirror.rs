//! A live copy of the applications' accessibility trees.
//!
//! Reading a window costs milliseconds and a cold cache answers with a
//! fraction of it. Both problems disappear if the tree is already in hand:
//! one is held here, warmed when a window is activated and kept current from
//! the bus's events.
//!
//! A mirror is state, and state goes stale. That is acceptable because every
//! click is validated against the live tree before it is sent: the mirror
//! makes hints fast, it is never the last word on what gets clicked.
use std::collections::{HashMap, HashSet};

use vstd::prelude::*;
use vstd::std_specs::hash::*;
use vstd::string::*;

use crate::a11y::filter;
use crate::a11y::role::{Role, State, StateSet};
use crate::a11y::target;
use crate::a11y::target::Object;
use crate::book;
use crate::book::Book;
use crate::free::Nanos;
use crate::sort;

verus! {

/// Depth cap for ancestry walks. Deep enough for a real hierarchy, shallow
/// enough that a cyclic or malformed tree ends as a dropped node rather than
/// a hang.
pub const DEPTH_LIMIT: usize = 32;

/// One node, as much of it as can be known without asking for extents.
#[derive(Debug)]
pub struct Node {
    pub parent: String,
    pub role: Role,
    pub name: String,
    pub states: StateSet,
    /// No component, no extents, so no bounds and therefore no target.
    pub has_component: bool,
}

/// A [`Node`], its texts as their characters.
pub struct NodeView {
    pub parent: Seq<char>,
    pub role: Role,
    pub name: Seq<char>,
    pub states: StateSet,
    pub has_component: bool,
}

impl View for Node {
    type V = NodeView;

    open spec fn view(&self) -> NodeView {
        NodeView {
            parent: self.parent@,
            role: self.role,
            name: self.name@,
            states: self.states,
            has_component: self.has_component,
        }
    }
}

impl Clone for Node {
    fn clone(&self) -> (n: Self)
        ensures
            n@ == self@,
    {
        Node { parent: self.parent.clone(), name: self.name.clone(), ..*self }
    }
}

impl NodeView {
    /// The node passes the role and state halves of the rules, and has bounds
    /// to ask for.
    pub open spec fn wanted(self) -> bool {
        self.has_component && filter::actionable(self.role) && filter::state_fault(
            self.states,
        ) is None
    }
}

impl Node {
    fn is_wanted(&self) -> (r: bool)
        ensures
            r == self@.wanted(),
    {
        if !self.has_component || !filter::role_is_actionable(self.role) {
            return false;
        }
        match filter::states_ok(self.states) {
            Ok(()) => true,
            Err(_) => false,
        }
    }
}

/// One entry of an application's own cache.
#[derive(Debug)]
pub struct Item {
    pub object: Object,
    pub parent: Object,
    pub role: Role,
    pub name: String,
    pub short_name: String,
    pub states: StateSet,
    pub component: bool,
}

impl Item {
    /// The node it describes. A missing name is made up for by the short one.
    pub open spec fn node(self) -> NodeView {
        NodeView {
            parent: self.parent.path@,
            role: self.role,
            name: if self.name@.len() == 0 {
                self.short_name@
            } else {
                self.name@
            },
            states: self.states,
            has_component: self.component,
        }
    }
}

/// How a tree was built, and therefore how much to trust it.
#[derive(Debug, Clone, Copy, PartialEq, Eq, Structural)]
pub enum WarmSource {
    /// The application's own cache: one call, and trustworthy only when its
    /// parent chains actually reach the window.
    Cache,
    /// A recursive walk, the only source that asks the objects directly.
    Walk,
    /// Not mirrored at all: this application answers a query in milliseconds.
    Live,
}

/// One application's tree, keyed by object path.
#[derive(Debug)]
pub struct AppTree {
    pub nodes: Book<Node>,
    /// When the tree was last built from scratch.
    pub warmed: Nanos,
    pub source: WarmSource,
    /// Events applied since. A tree with a warm-up and no events is either a
    /// still application or a missed subscription.
    pub updates: u64,
    /// When the last event was applied to this tree: the difference between a
    /// tree that is old and one that is stale.
    pub last_update: Option<Nanos>,
    /// The walk stopped at its node budget and this tree is a prefix of the
    /// real one.
    pub truncated: bool,
}

/// What a tree holds under its paths.
pub type Nodes = Map<Seq<char>, NodeView>;

/// The object `k` steps up from `path`, as long as every step is known.
pub open spec fn climb(nodes: Nodes, path: Seq<char>, k: nat) -> Option<Seq<char>>
    decreases k,
{
    if k == 0 {
        Some(path)
    } else {
        match climb(nodes, path, (k - 1) as nat) {
            Some(p) if nodes.contains_key(p) => Some(nodes[p].parent),
            _ => None,
        }
    }
}

/// `ancestor` is `path` itself or above it, fewer than the limit's steps away.
pub open spec fn descends(nodes: Nodes, path: Seq<char>, ancestor: Seq<char>) -> bool {
    exists|k: nat| k < DEPTH_LIMIT && #[trigger] climb(nodes, path, k) == Some(ancestor)
}

/// The node under `path` is a candidate of `frame`.
pub open spec fn is_candidate(nodes: Nodes, path: Seq<char>, frame: Seq<char>) -> bool {
    nodes[path].wanted() && descends(nodes, path, frame)
}

/// A climb that once left the tree stays outside.
proof fn lemma_climb_ends(nodes: Nodes, path: Seq<char>, k: nat, m: nat)
    requires
        k <= m,
        climb(nodes, path, k) is None,
    ensures
        climb(nodes, path, m) is None,
    decreases m - k,
{
    if k < m {
        lemma_climb_ends(nodes, path, k, (m - 1) as nat);
    }
}

/// What is kept of an application's tree besides its nodes.
pub struct TreeFacts {
    pub warmed: Nanos,
    pub source: WarmSource,
    pub updates: u64,
    pub last_update: Option<Nanos>,
    pub truncated: bool,
}

impl AppTree {
    /// The nodes, by path.
    pub open spec fn nodes(self) -> Nodes {
        self.nodes@.map_values(|n: Node| n@)
    }

    /// The paths, in the order they came.
    pub open spec fn order(self) -> Seq<Seq<char>> {
        self.nodes.order()
    }

    /// The order names every path that is known, each once.
    pub open spec fn orderly(self) -> bool {
        &&& self.order().no_duplicates()
        &&& forall|p: Seq<char>|
            self.order().contains(p) <==> #[trigger] self.nodes().contains_key(p)
    }

    /// Everything but the nodes.
    pub open spec fn facts(self) -> TreeFacts {
        TreeFacts {
            warmed: self.warmed,
            source: self.source,
            updates: self.updates,
            last_update: self.last_update,
            truncated: self.truncated,
        }
    }

    pub fn new(source: WarmSource, now: Nanos) -> (t: Self)
        ensures
            t.nodes() == Nodes::empty(),
            t.order() == Seq::<Seq<char>>::empty(),
            t.facts() == (TreeFacts {
                warmed: now,
                source,
                updates: 0,
                last_update: None,
                truncated: false,
            }),
    {
        let t: Self = AppTree {
            nodes: Book::new(),
            warmed: now,
            source,
            updates: 0,
            last_update: None,
            truncated: false,
        };
        assert(t.nodes() =~= Nodes::empty());
        t
    }

    pub fn len(&self) -> (n: usize)
        ensures
            n == self.nodes().len(),
            n == self.order().len(),
            self.orderly(),
    {
        assert(self.nodes().dom() =~= self.nodes@.dom());
        let n: usize = self.nodes.len();
        n
    }

    pub fn is_empty(&self) -> (r: bool)
        ensures
            r == (self.nodes().len() == 0),
    {
        self.len() == 0
    }

    pub fn get(&self, path: &str) -> (r: Option<&Node>)
        ensures
            match r {
                Some(n) => self.nodes().contains_key(path@) && n@ == self.nodes()[path@],
                None => !self.nodes().contains_key(path@),
            },
    {
        self.nodes.get(path)
    }

    /// Every path with its node, in the order they came.
    pub fn iter(&self) -> (list: Vec<(&str, &Node)>)
        ensures
            list@.len() == self.order().len(),
            forall|i: int|
                0 <= i < list@.len() ==> (#[trigger] list@[i]).0@ == self.order()[i]
                    && self.nodes().contains_key(list@[i].0@) && list@[i].1@
                    == self.nodes()[list@[i].0@],
    {
        let n: usize = self.nodes.len();
        let mut list: Vec<(&str, &Node)> = Vec::new();
        let mut i: usize = 0;
        while i < n
            invariant
                i <= n,
                n == self.nodes.order().len(),
                list@.len() == i,
                forall|j: int|
                    0 <= j < i ==> (#[trigger] list@[j]).0@ == self.order()[j]
                        && self.nodes().contains_key(list@[j].0@) && list@[j].1@
                        == self.nodes()[list@[j].0@],
            decreases n - i,
        {
            list.push(self.nodes.at(i));
            i = i + 1;
        }
        list
    }

    pub fn insert(&mut self, path: String, node: Node)
        ensures
            final(self).nodes() == old(self).nodes().insert(path@, node@),
            final(self).order() == (if old(self).nodes().contains_key(path@) {
                old(self).order()
            } else {
                old(self).order().push(path@)
            }),
            final(self).facts() == old(self).facts(),
    {
        self.nodes.insert(path, node);
        assert(self.nodes() =~= old(self).nodes().insert(path@, node@));
    }

    pub fn insert_item(&mut self, item: &Item)
        ensures
            final(self).nodes() == old(self).nodes().insert(item.object.path@, item.node()),
            final(self).facts() == old(self).facts(),
    {
        let name: String = if item.name.unicode_len() == 0 {
            item.short_name.clone()
        } else {
            item.name.clone()
        };
        self.insert(
            item.object.path.clone(),
            Node {
                parent: item.parent.path.clone(),
                role: item.role,
                name,
                states: item.states,
                has_component: item.component,
            },
        );
    }

    pub fn remove(&mut self, path: &str)
        ensures
            final(self).nodes() == old(self).nodes().remove(path@),
            final(self).order() == book::without(old(self).order(), path@),
            final(self).facts() == old(self).facts(),
    {
        self.nodes.remove(path);
        assert(self.nodes() =~= old(self).nodes().remove(path@));
    }

    /// Apply one state change. Unknown nodes are ignored rather than
    /// invented: a state change for something never seen means the mirror is
    /// missing a subtree, and guessing at it would be worse than leaving the
    /// gap visible.
    pub fn set_state(&mut self, path: &str, state: State, on: bool) -> (known: bool)
        ensures
            known == old(self).nodes().contains_key(path@),
            !known ==> *final(self) == *old(self),
            known ==> {
                &&& final(self).order() == old(self).order()
                &&& final(self).facts() == old(self).facts()
                &&& final(self).nodes().remove(path@) == old(self).nodes().remove(path@)
                &&& final(self).nodes().contains_key(path@)
                &&& switched(old(self).nodes()[path@], final(self).nodes()[path@], state, on)
            },
    {
        match self.nodes.get_mut(path) {
            Some(node) => {
                let ghost before = node@;
                let mut states: StateSet = node.states;
                if on {
                    states.insert(state);
                } else {
                    states.remove(state);
                }
                node.states = states;
                proof {
                    let after = *node;
                    assert(switched(before, after@, state, on));
                }
            },
            None => {
                return false;
            },
        }
        assert(self.nodes().remove(path@) =~= old(self).nodes().remove(path@));
        true
    }

    /// Does `path` sit under `ancestor`? Depth-limited, so a cycle ends the
    /// search instead of the process.
    pub fn descends_from(&self, path: &str, ancestor: &str) -> (r: bool)
        ensures
            r == descends(self.nodes(), path@, ancestor@),
    {
        let mut at: &str = path;
        let mut k: usize = 0;
        while k < DEPTH_LIMIT
            invariant
                k <= DEPTH_LIMIT,
                climb(self.nodes(), path@, k as nat) == Some(at@),
                forall|j: nat| j < k ==> #[trigger] climb(self.nodes(), path@, j) != Some(ancestor@),
            decreases DEPTH_LIMIT - k,
        {
            if at.eq(ancestor) {
                return true;
            }
            match self.get(at) {
                Some(node) => {
                    at = node.parent.as_str();
                },
                None => {
                    proof {
                        let nodes = self.nodes();
                        assert(climb(nodes, path@, (k + 1) as nat) is None);
                        assert forall|j: nat| j > k implies #[trigger] climb(nodes, path@, j)
                            is None by {
                            lemma_climb_ends(nodes, path@, (k + 1) as nat, j);
                        }
                    }
                    return false;
                },
            }
            k = k + 1;
        }
        false
    }

    /// Everything under `frame` that passes the role and state halves of the
    /// rules. Bounds are not here and cannot be.
    pub fn candidates(&self, frame: &str) -> (list: Vec<(&str, &Node)>)
        ensures
            paths(list@) == self.order().filter(
                |p: Seq<char>| is_candidate(self.nodes(), p, frame@),
            ),
            forall|i: int|
                0 <= i < list@.len() ==> self.nodes().contains_key((#[trigger] list@[i]).0@)
                    && list@[i].1@ == self.nodes()[list@[i].0@],
    {
        let n: usize = self.nodes.len();
        let mut list: Vec<(&str, &Node)> = Vec::new();
        let mut i: usize = 0;
        let ghost keep = |p: Seq<char>| is_candidate(self.nodes(), p, frame@);
        let ghost order = self.order();
        assert(order.take(0).filter(keep) =~= Seq::empty()) by {
            reveal(Seq::filter);
        }
        while i < n
            invariant
                i <= n,
                n == order.len(),
                order == self.order(),
                keep == (|p: Seq<char>| is_candidate(self.nodes(), p, frame@)),
                paths(list@) == order.take(i as int).filter(keep),
                forall|j: int|
                    0 <= j < list@.len() ==> self.nodes().contains_key((#[trigger] list@[j]).0@)
                        && list@[j].1@ == self.nodes()[list@[j].0@],
            decreases n - i,
        {
            let (path, node) = self.nodes.at(i);
            let ghost before = list@;
            proof {
                reveal(Seq::filter);
                assert(order.take(i + 1).drop_last() =~= order.take(i as int));
            }
            if node.is_wanted() && self.descends_from(path, frame) {
                list.push((path, node));
                assert(paths(list@) =~= paths(before).push(path@));
            }
            i = i + 1;
        }
        assert(order.take(n as int) =~= order);
        list
    }
}

/// The paths of a list of nodes.
pub open spec fn paths(list: Seq<(&str, &Node)>) -> Seq<Seq<char>> {
    list.map_values(|e: (&str, &Node)| e.0@)
}

/// One state of a node was switched, and nothing else about it.
pub open spec fn switched(before: NodeView, after: NodeView, state: State, on: bool) -> bool {
    &&& after == (NodeView { states: after.states, ..before })
    &&& forall|other: State| #[trigger]
        after.states.has(other) <==> if other == state {
            on
        } else {
            before.states.has(other)
        }
}

/// Every application that was looked at, keyed by its bus name, and what is
/// remembered about the applications' connections.
#[derive(Debug)]
pub struct Mirror {
    apps: Book<AppTree>,
    /// Every event received. "No events applied" has two very different
    /// causes, a desktop where nothing changed and a subscription that never
    /// delivered, and without this count they look the same. It stops at the
    /// top of its range.
    pub seen: u64,
    /// When the last event arrived, on any application. `None` means none
    /// ever has.
    pub last_event: Option<Nanos>,
    /// Whether an application answers queries, once asked. A property of the
    /// toolkit, so asked once per connection.
    collection: Book<bool>,
    /// Which connection belongs to which process. Verified before it is
    /// trusted.
    app_for_pid: HashMap<u32, String>,
    /// The connection whose window last answered a given title, keyed by the
    /// lower-case title searched for.
    app_for_title: Book<String>,
    /// Processes known to own no connection at all.
    pid_without_app: HashSet<u32>,
}

/// A [`Mirror`], its maps as maps.
pub struct MirrorView {
    pub apps: Map<Seq<char>, AppTree>,
    /// The applications, in the order they came.
    pub order: Seq<Seq<char>>,
    pub seen: u64,
    pub last_event: Option<Nanos>,
    pub collection: Map<Seq<char>, bool>,
    pub app_for_pid: Map<u32, Seq<char>>,
    pub app_for_title: Map<Seq<char>, Seq<char>>,
    pub pid_without_app: Set<u32>,
}

impl View for Mirror {
    type V = MirrorView;

    closed spec fn view(&self) -> MirrorView {
        MirrorView {
            apps: self.apps@,
            order: self.apps.order(),
            seen: self.seen,
            last_event: self.last_event,
            collection: self.collection@,
            app_for_pid: self.app_for_pid@.map_values(|s: String| s@),
            app_for_title: self.app_for_title@.map_values(|s: String| s@),
            pid_without_app: self.pid_without_app@,
        }
    }
}

impl MirrorView {
    /// Nothing is known yet.
    pub open spec fn blank() -> Self {
        MirrorView {
            apps: Map::empty(),
            order: Seq::empty(),
            seen: 0,
            last_event: None,
            collection: Map::empty(),
            app_for_pid: Map::empty(),
            app_for_title: Map::empty(),
            pid_without_app: Set::empty(),
        }
    }
}

/// What a map holds under a key, if it holds anything.
pub open spec fn looked_up<K, V>(m: Map<K, V>, k: K) -> Option<V> {
    if m.contains_key(k) {
        Some(m[k])
    } else {
        None
    }
}

/// A number, one larger unless it is as large as it can be.
pub open spec fn counted(n: u64) -> u64 {
    if n < u64::MAX {
        (n + 1) as u64
    } else {
        n
    }
}

fn count_up(n: u64) -> (r: u64)
    ensures
        r == counted(n),
{
    if n < u64::MAX {
        n + 1
    } else {
        n
    }
}

/// What the bus says happened.
#[derive(Debug)]
pub enum Event {
    /// A window became focused.
    Activated(Object),
    /// A window stopped being focused.
    Deactivated(Object),
    /// An object appeared.
    Added(Item),
    /// An object went away.
    Removed(Object),
    /// An object's state changed.
    StateChanged { object: Object, state: State, on: bool },
    /// Anything else: still a sign of life.
    Other,
}

impl Event {
    /// The application whose tree the event is about, where it is about one.
    pub open spec fn app(self) -> Option<Seq<char>> {
        match self {
            Event::Added(item) => Some(target::or_empty(target::text_of(item.object.name))),
            Event::Removed(object) => Some(target::or_empty(target::text_of(object.name))),
            Event::StateChanged { object, .. } => Some(
                target::or_empty(target::text_of(object.name)),
            ),
            _ => None,
        }
    }

    /// What the event makes of the tree it is about.
    pub open spec fn applies(self, before: AppTree, after: AppTree, now: Nanos) -> bool {
        let touched = TreeFacts {
            updates: counted(before.updates),
            last_update: Some(now),
            ..before.facts()
        };
        match self {
            Event::Added(item) => after.nodes() == before.nodes().insert(
                item.object.path@,
                item.node(),
            ) && after.facts() == touched,
            Event::Removed(object) => after.nodes() == before.nodes().remove(object.path@)
                && after.facts() == touched,
            Event::StateChanged { object, state, on } => if before.nodes().contains_key(
                object.path@,
            ) {
                &&& after.nodes().remove(object.path@) == before.nodes().remove(object.path@)
                &&& after.nodes().contains_key(object.path@)
                &&& switched(
                    before.nodes()[object.path@],
                    after.nodes()[object.path@],
                    state,
                    on,
                )
                &&& after.facts() == touched
            } else {
                after == before
            },
            _ => after == before,
        }
    }

    /// Which window holds the focus afterwards.
    pub open spec fn focus(self, held: Option<target::ObjectView>) -> Option<target::ObjectView> {
        match self {
            Event::Activated(object) => Some(object@),
            Event::Deactivated(object) => if held is Some && held->0.path == object.path@ {
                None
            } else {
                held
            },
            _ => held,
        }
    }
}

/// A focus that may be missing.
pub open spec fn focus_of(held: Option<Object>) -> Option<target::ObjectView> {
    match held {
        Some(object) => Some(object@),
        None => None,
    }
}

impl Default for Mirror {
    fn default() -> (m: Self)
        ensures
            m@ == MirrorView::blank(),
    {
        let m: Self = Mirror {
            apps: Book::new(),
            seen: 0,
            last_event: None,
            collection: Book::new(),
            app_for_pid: HashMap::new(),
            app_for_title: Book::new(),
            pid_without_app: HashSet::new(),
        };
        assert(m@.app_for_pid =~= Map::empty());
        assert(m@.app_for_title =~= Map::empty());
        assert(m@.pid_without_app =~= Set::empty());
        m
    }
}

impl Mirror {
    /// How many events were received.
    pub fn seen(&self) -> (n: u64)
        ensures
            n == self@.seen,
    {
        self.seen
    }

    pub fn app(&self, bus_name: &str) -> (r: Option<&AppTree>)
        ensures
            match r {
                Some(t) => looked_up(self@.apps, bus_name@) == Some(*t),
                None => looked_up(self@.apps, bus_name@) is None,
            },
    {
        self.apps.get(bus_name)
    }

    /// What is known about this application's answers to queries, or `None`
    /// if it has never been asked.
    pub fn collection_capable(&self, bus_name: &str) -> (r: Option<bool>)
        ensures
            r == looked_up(self@.collection, bus_name@),
    {
        match self.collection.get(bus_name) {
            Some(b) => Some(*b),
            None => None,
        }
    }

    pub fn note_collection(&mut self, bus_name: &str, capable: bool)
        ensures
            final(self)@ == (MirrorView {
                collection: old(self)@.collection.insert(bus_name@, capable),
                ..old(self)@
            }),
    {
        self.collection.insert(bus_name.to_owned(), capable);
    }

    /// The connection last seen to belong to `pid`, if any.
    pub fn app_for_pid(&self, pid: u32) -> (r: Option<String>)
        ensures
            target::text_of(r) == looked_up(self@.app_for_pid, pid),
    {
        broadcast use group_hash_axioms;

        match self.app_for_pid.get(&pid) {
            Some(s) => Some(s.clone()),
            None => None,
        }
    }

    pub fn note_app_for_pid(&mut self, pid: u32, bus_name: &str)
        ensures
            final(self)@ == (MirrorView {
                app_for_pid: old(self)@.app_for_pid.insert(pid, bus_name@),
                ..old(self)@
            }),
    {
        broadcast use group_hash_axioms;

        self.app_for_pid.insert(pid, bus_name.to_owned());
        assert(self@.app_for_pid =~= old(self)@.app_for_pid.insert(pid, bus_name@));
    }

    pub fn forget_app_for_pid(&mut self, pid: u32)
        ensures
            final(self)@ == (MirrorView {
                app_for_pid: old(self)@.app_for_pid.remove(pid),
                ..old(self)@
            }),
    {
        broadcast use group_hash_axioms;

        self.app_for_pid.remove(&pid);
        assert(self@.app_for_pid =~= old(self)@.app_for_pid.remove(pid));
    }

    /// Which connection answered this title last time, if one did.
    pub fn app_for_title(&self, title: &str) -> (r: Option<String>)
        ensures
            target::text_of(r) == looked_up(self@.app_for_title, title@),
    {
        match self.app_for_title.get(title) {
            Some(s) => Some(s.clone()),
            None => None,
        }
    }

    pub fn note_app_for_title(&mut self, title: &str, bus_name: &str)
        ensures
            final(self)@ == (MirrorView {
                app_for_title: old(self)@.app_for_title.insert(title@, bus_name@),
                ..old(self)@
            }),
    {
        self.app_for_title.insert(title.to_owned(), bus_name.to_owned());
        assert(self@.app_for_title =~= old(self)@.app_for_title.insert(title@, bus_name@));
    }

    /// Forget a memo that did not pay off. Never sticky: a wrong memo must
    /// cost one slow lookup, not every lookup after it.
    pub fn forget_app_for_title(&mut self, title: &str)
        ensures
            final(self)@ == (MirrorView {
                app_for_title: old(self)@.app_for_title.remove(title@),
                ..old(self)@
            }),
    {
        self.app_for_title.remove(title);
        assert(self@.app_for_title =~= old(self)@.app_for_title.remove(title@));
    }

    /// Has this pid already been searched for, and found to own nothing?
    pub fn pid_owns_nothing(&self, pid: u32) -> (r: bool)
        ensures
            r == self@.pid_without_app.contains(pid),
    {
        broadcast use group_hash_axioms;

        self.pid_without_app.contains(&pid)
    }

    pub fn note_pid_owns_nothing(&mut self, pid: u32)
        ensures
            final(self)@ == (MirrorView {
                pid_without_app: old(self)@.pid_without_app.insert(pid),
                ..old(self)@
            }),
    {
        broadcast use group_hash_axioms;

        self.pid_without_app.insert(pid);
    }

    pub fn forget_pid_owns_nothing(&mut self, pid: u32)
        ensures
            final(self)@ == (MirrorView {
                pid_without_app: old(self)@.pid_without_app.remove(pid),
                ..old(self)@
            }),
    {
        broadcast use group_hash_axioms;

        self.pid_without_app.remove(&pid);
    }

    pub fn app_mut(&mut self, bus_name: &str) -> (r: Option<&mut AppTree>)
        ensures
            match r {
                Some(t) => looked_up(old(self)@.apps, bus_name@) == Some(*t) && final(self)@ == (
                MirrorView {
                    apps: old(self)@.apps.insert(bus_name@, *final(t)),
                    ..old(self)@
                }),
                None => looked_up(old(self)@.apps, bus_name@) is None && *final(self) == *old(
                    self,
                ),
            },
    {
        self.apps.get_mut(bus_name)
    }

    pub fn put(&mut self, bus_name: String, tree: AppTree)
        ensures
            final(self)@ == (MirrorView {
                apps: old(self)@.apps.insert(bus_name@, tree),
                order: if old(self)@.apps.contains_key(bus_name@) {
                    old(self)@.order
                } else {
                    old(self)@.order.push(bus_name@)
                },
                ..old(self)@
            }),
    {
        self.apps.insert(bus_name, tree);
    }

    /// An application went away. Dropping its whole tree is the only correct
    /// response: every path in it belonged to that connection.
    pub fn forget(&mut self, bus_name: &str)
        ensures
            final(self)@ == (MirrorView {
                apps: old(self)@.apps.remove(bus_name@),
                order: book::without(old(self)@.order, bus_name@),
                ..old(self)@
            }),
    {
        self.apps.remove(bus_name);
    }

    /// Every application with its tree, in the order they came.
    pub fn apps(&self) -> (list: Vec<(&str, &AppTree)>)
        ensures
            list@.len() == self@.order.len(),
            forall|i: int|
                0 <= i < list@.len() ==> (#[trigger] list@[i]).0@ == self@.order[i] && looked_up(
                    self@.apps,
                    list@[i].0@,
                ) == Some(*list@[i].1),
            self@.order.no_duplicates(),
            forall|k: Seq<char>| self@.order.contains(k) <==> #[trigger] self@.apps.contains_key(k),
    {
        let n: usize = self.apps.len();
        let mut list: Vec<(&str, &AppTree)> = Vec::new();
        let mut i: usize = 0;
        while i < n
            invariant
                i <= n,
                n == self.apps.order().len(),
                list@.len() == i,
                forall|j: int|
                    0 <= j < i ==> (#[trigger] list@[j]).0@ == self@.order[j] && looked_up(
                        self@.apps,
                        list@[j].0@,
                    ) == Some(*list@[j].1),
            decreases n - i,
        {
            list.push(self.apps.at(i));
            i = i + 1;
        }
        list
    }

    /// Apply one event: count it, keep the focus and the tree it is about
    /// current, and say which window's application is to be warmed.
    ///
    /// Counted whatever it is: the question to be answered is whether the
    /// stream is alive. The focus is let go only by the window that holds it,
    /// because the next window's activation can arrive first.
    pub fn hear(&mut self, focus: &mut Option<Object>, event: Event, now: Nanos) -> (warm: Option<
        (String, String),
    >)
        ensures
            final(self)@ == (MirrorView {
                apps: final(self)@.apps,
                seen: counted(old(self)@.seen),
                last_event: Some(now),
                ..old(self)@
            }),
            match event.app() {
                Some(bus) if old(self)@.apps.contains_key(bus) => {
                    &&& final(self)@.apps.remove(bus) == old(self)@.apps.remove(bus)
                    &&& final(self)@.apps.contains_key(bus)
                    &&& event.applies(old(self)@.apps[bus], final(self)@.apps[bus], now)
                },
                _ => final(self)@.apps == old(self)@.apps,
            },
            focus_of(*final(focus)) == event.focus(focus_of(*old(focus))),
            match event {
                Event::Activated(object) => warm is Some && (warm->0).0@ == target::or_empty(
                    target::text_of(object.name),
                ) && (warm->0).1@ == object.path@,
                _ => warm is None,
            },
    {
        self.seen = count_up(self.seen);
        self.last_event = Some(now);
        let ghost before = self@;
        match event {
            Event::Activated(object) => {
                let bus: String = target::owned_or_empty(&object.name);
                let path: String = object.path.clone();
                *focus = Some(object);
                return Some((bus, path));
            },
            Event::Deactivated(object) => {
                let holds: bool = match focus {
                    Some(held) => held.path.as_str().eq(object.path.as_str()),
                    None => false,
                };
                if holds {
                    *focus = None;
                }
            },
            Event::Added(item) => {
                let bus: String = target::owned_or_empty(&item.object.name);
                match self.app_mut(bus.as_str()) {
                    Some(tree) => {
                        tree.insert_item(&item);
                        tree.updates = count_up(tree.updates);
                        tree.last_update = Some(now);
                    },
                    None => {},
                }
                assert(self@.apps.remove(bus@) =~= before.apps.remove(bus@));
            },
            Event::Removed(object) => {
                let bus: String = target::owned_or_empty(&object.name);
                match self.app_mut(bus.as_str()) {
                    Some(tree) => {
                        tree.remove(object.path.as_str());
                        tree.updates = count_up(tree.updates);
                        tree.last_update = Some(now);
                    },
                    None => {},
                }
                assert(self@.apps.remove(bus@) =~= before.apps.remove(bus@));
            },
            Event::StateChanged { object, state, on } => {
                let bus: String = target::owned_or_empty(&object.name);
                match self.app_mut(bus.as_str()) {
                    Some(tree) => {
                        if tree.set_state(object.path.as_str(), state, on) {
                            tree.updates = count_up(tree.updates);
                            tree.last_update = Some(now);
                        }
                    },
                    None => {},
                }
                assert(self@.apps.remove(bus@) =~= before.apps.remove(bus@));
            },
            Event::Other => {},
        }
        None
    }
}

/// How long ago a moment was. A moment yet to come was just now.
pub open spec fn ago(then: Nanos, now: Nanos) -> Nanos {
    if then <= now {
        (now - then) as u64
    } else {
        0
    }
}

/// How long ago a moment was, if there was one.
pub open spec fn quiet_since(then: Option<Nanos>, now: Nanos) -> Option<Nanos> {
    match then {
        Some(t) => Some(ago(t, now)),
        None => None,
    }
}

pub(crate) fn elapsed(then: Nanos, now: Nanos) -> (r: Nanos)
    ensures
        r == ago(then, now),
{
    if then <= now {
        now - then
    } else {
        0
    }
}

fn quiet(then: Option<Nanos>, now: Nanos) -> (r: Option<Nanos>)
    ensures
        r == quiet_since(then, now),
{
    match then {
        Some(t) => Some(elapsed(t, now)),
        None => None,
    }
}

/// What one application's tree looks like from outside.
#[derive(Debug)]
pub struct AppStats {
    pub bus_name: String,
    pub nodes: usize,
    pub source: WarmSource,
    pub updates: u64,
    pub age: Nanos,
    /// Time since the last event was applied. `None` means none ever was.
    pub quiet: Option<Nanos>,
}

impl AppStats {
    /// The numbers are those of this tree.
    pub open spec fn tells(self, tree: AppTree, now: Nanos) -> bool {
        &&& self.nodes == tree.nodes().len()
        &&& self.source == tree.source
        &&& self.updates == tree.updates
        &&& self.age == ago(tree.warmed, now)
        &&& self.quiet == quiet_since(tree.last_update, now)
    }
}

impl Clone for AppStats {
    fn clone(&self) -> (s: Self)
        ensures
            s == *self,
    {
        AppStats { bus_name: self.bus_name.clone(), ..*self }
    }
}

/// What the mirror looks like from outside.
#[derive(Debug)]
pub struct MirrorStats {
    /// Events received; see [`Mirror::seen`].
    pub seen: u64,
    pub apps: Vec<AppStats>,
    /// Time since *any* event arrived. `None` means none ever has.
    pub quiet: Option<Nanos>,
}

impl Clone for MirrorStats {
    fn clone(&self) -> (s: Self)
        ensures
            s.seen == self.seen,
            s.apps@ == self.apps@,
            s.quiet == self.quiet,
    {
        let apps: Vec<AppStats> = self.apps.clone();
        assert(apps@ =~= self.apps@);
        MirrorStats { apps, ..*self }
    }
}

impl Mirror {
    /// A snapshot, the most recently warmed application first: the only
    /// window onto whether the feed is alive.
    pub fn stats(&self, now: Nanos) -> (s: MirrorStats)
        ensures
            s.seen == self@.seen,
            s.quiet == quiet_since(self@.last_event, now),
            s.apps@.len() == self@.apps.len(),
            forall|i: int|
                0 <= i < s.apps@.len() ==> self@.apps.contains_key(
                    (#[trigger] s.apps@[i]).bus_name@,
                ) && s.apps@[i].tells(self@.apps[s.apps@[i].bus_name@], now),
            forall|i: int, j: int|
                0 <= i < j < s.apps@.len() ==> (#[trigger] s.apps@[i]).age <= (
                #[trigger] s.apps@[j]).age && s.apps@[i].bus_name@ != s.apps@[j].bus_name@,
    {
        let n: usize = self.apps.len();
        let mut ages: Vec<sort::Key> = Vec::new();
        let mut i: usize = 0;
        while i < n
            invariant
                i <= n,
                n == self.apps.order().len(),
                ages@.len() == i,
                forall|j: int|
                    0 <= j < i ==> (#[trigger] ages@[j]) == (
                        ago(self@.apps[self@.order[j]].warmed, now) as i128,
                        0i128,
                        0i128,
                        j as usize,
                    ),
            decreases n - i,
        {
            let (_, tree) = self.apps.at(i);
            ages.push((elapsed(tree.warmed, now) as i128, 0, 0, i));
            i = i + 1;
        }
        let ghost loose = ages@;
        let ages: Vec<sort::Key> = sort::sort(ages);
        let ghost tight = ages@;
        proof {
            assert(loose.no_duplicates());
            sort::lemma_still_distinct(loose, tight);
        }
        let mut apps: Vec<AppStats> = Vec::new();
        let mut k: usize = 0;
        while k < n
            invariant
                k <= n,
                n == self.apps.order().len(),
                n == loose.len(),
                n == tight.len(),
                ages@ == tight,
                sort::in_order(tight),
                tight.no_duplicates(),
                tight.to_multiset() == loose.to_multiset(),
                self@.order.no_duplicates(),
                forall|j: int|
                    0 <= j < n ==> (#[trigger] loose[j]) == (
                        ago(self@.apps[self@.order[j]].warmed, now) as i128,
                        0i128,
                        0i128,
                        j as usize,
                    ),
                apps@.len() == k,
                forall|j: int|
                    0 <= j < k ==> tight[j].3 < n && (#[trigger] apps@[j]).bus_name@
                        == self@.order[tight[j].3 as int] && self@.apps.contains_key(
                        apps@[j].bus_name@,
                    ) && apps@[j].tells(self@.apps[apps@[j].bus_name@], now) && apps@[j].age
                        == tight[j].0,
                forall|i: int, j: int|
                    0 <= i < j < k ==> (#[trigger] apps@[i]).age <= (#[trigger] apps@[j]).age
                        && apps@[i].bus_name@ != apps@[j].bus_name@,
            decreases n - k,
        {
            let at: usize = ages[k].3;
            proof {
                let j = sort::lemma_also_in(tight, loose, k as int);
                assert forall|i: int| 0 <= i < k implies tight[i].3 != at by {
                    let m = sort::lemma_also_in(tight, loose, i);
                    assert(loose[m] == tight[i] && loose[j] == tight[k as int]);
                    assert(tight[i] != tight[k as int]);
                }
            }
            let (bus_name, tree) = self.apps.at(at);
            let ghost before = apps@;
            apps.push(
                AppStats {
                    bus_name: bus_name.to_owned(),
                    nodes: tree.len(),
                    source: tree.source,
                    updates: tree.updates,
                    age: elapsed(tree.warmed, now),
                    quiet: quiet(tree.last_update, now),
                },
            );
            proof {
                assert forall|i: int, j: int| 0 <= i < j < k + 1 implies (
                #[trigger] apps@[i]).age <= (#[trigger] apps@[j]).age && apps@[i].bus_name@
                    != apps@[j].bus_name@ by {
                    if j == k {
                        assert(sort::key_le(tight[i], tight[j]));
                        assert(apps@[i] == before[i]);
                    } else {
                        assert(apps@[i] == before[i] && apps@[j] == before[j]);
                    }
                }
            }
            k = k + 1;
        }
        MirrorStats { seen: self.seen, apps, quiet: quiet(self.last_event, now) }
    }
}

/// A node as it is printed: its path, its parent's, its role and its name.
pub open spec fn printed(nodes: Nodes, path: Seq<char>) -> (Seq<char>, Seq<char>, Role, Seq<char>) {
    (path, nodes[path].parent, nodes[path].role, nodes[path].name)
}

/// Nodes as they are printed, their texts as their characters.
pub open spec fn listing(list: Seq<(String, String, Role, String)>) -> Seq<
    (Seq<char>, Seq<char>, Role, Seq<char>),
> {
    list.map_values(|e: (String, String, Role, String)| (e.0@, e.1@, e.2, e.3@))
}

impl AppTree {
    /// The paths of the actionable nodes, in the order they came.
    pub open spec fn actionable(self) -> Seq<Seq<char>> {
        self.order().filter(|p: Seq<char>| filter::actionable(self.nodes()[p].role))
    }
}

impl Mirror {
    /// The first actionable nodes of an application, with their parents: the
    /// diagnostic for "the mirror has nodes but finds none in my window",
    /// which is always an ancestry question.
    pub fn nodes(&self, bus_name: &str, limit: usize) -> (list: Vec<
        (String, String, Role, String),
    >)
        ensures
            listing(list@) == match looked_up(self@.apps, bus_name@) {
                Some(tree) => {
                    let all = tree.actionable().map_values(
                        |p: Seq<char>| printed(tree.nodes(), p),
                    );
                    if limit < all.len() {
                        all.take(limit as int)
                    } else {
                        all
                    }
                },
                None => Seq::empty(),
            },
    {
        let mut list: Vec<(String, String, Role, String)> = Vec::new();
        assert(listing(list@) =~= Seq::empty());
        let tree: &AppTree = match self.app(bus_name) {
            Some(t) => t,
            None => {
                return list;
            },
        };
        let n: usize = tree.nodes.len();
        let ghost order = tree.order();
        let ghost keep = |p: Seq<char>| filter::actionable(tree.nodes()[p].role);
        let ghost show = |p: Seq<char>| printed(tree.nodes(), p);
        let mut i: usize = 0;
        proof {
            reveal(Seq::filter);
            assert(order.take(0).filter(keep).map_values(show) =~= Seq::empty());
        }
        while i < n && list.len() < limit
            invariant
                i <= n,
                n == order.len(),
                order == tree.order(),
                keep == (|p: Seq<char>| filter::actionable(tree.nodes()[p].role)),
                show == (|p: Seq<char>| printed(tree.nodes(), p)),
                list@.len() <= limit,
                listing(list@) == order.take(i as int).filter(keep).map_values(show),
            decreases n - i,
        {
            let (path, node) = tree.nodes.at(i);
            let ghost before = listing(list@);
            proof {
                reveal(Seq::filter);
                assert(order.take(i + 1).drop_last() =~= order.take(i as int));
            }
            if filter::role_is_actionable(node.role) {
                let e: (String, String, Role, String) = (
                    path.to_owned(),
                    node.parent.clone(),
                    node.role,
                    node.name.clone(),
                );
                list.push(e);
                assert(listing(list@) =~= before.push((e.0@, e.1@, e.2, e.3@)));
                assert(order.take(i as int).filter(keep).push(path@).map_values(show)
                    =~= order.take(i as int).filter(keep).map_values(show).push(show(path@)));
            }
            i = i + 1;
        }
        proof {
            let all = tree.actionable().map_values(show);
            lemma_filter_prefix(order, keep, i as int);
            assert(listing(list@).len() == list@.len());
            if i == n {
                assert(order.take(i as int) =~= order);
                if limit < all.len() {
                    assert(false);
                }
            } else {
                let some = order.take(i as int).filter(keep).map_values(show);
                assert(some =~= all.take(limit as int));
                if limit >= all.len() {
                    assert(all.take(limit as int) =~= all);
                }
            }
        }
        list
    }
}

/// What is kept of the beginning of a list is the beginning of what is kept.
proof fn lemma_filter_prefix(
    order: Seq<Seq<char>>,
    keep: spec_fn(Seq<char>) -> bool,
    i: int,
)
    requires
        0 <= i <= order.len(),
    ensures
        order.take(i).filter(keep).is_prefix_of(order.filter(keep)),
    decreases order.len() - i,
{
    if i == order.len() {
        assert(order.take(i) =~= order);
    } else {
        lemma_filter_prefix(order, keep, i + 1);
        reveal(Seq::filter);
        assert(order.take(i + 1).drop_last() =~= order.take(i));
    }
}

/// Switching off any of the three states a target needs makes a node no
/// target, without anything being read again.
pub proof fn a_greyed_out_node_is_no_target(before: NodeView, after: NodeView, state: State)
    requires
        state == State::Visible || state == State::Showing || state == State::Sensitive,
        switched(before, after, state, false),
    ensures
        !after.wanted(),
{
    assert(!after.states.has(state));
}

/// Switching a state off and on again makes a target of what was one.
pub proof fn a_state_change_can_be_taken_back(
    before: NodeView,
    off: NodeView,
    on: NodeView,
    state: State,
)
    requires
        before.wanted(),
        switched(before, off, state, false),
        switched(off, on, state, true),
    ensures
        on.wanted(),
{
    assert(on.states.has(State::Visible));
    assert(on.states.has(State::Showing));
    assert(on.states.has(State::Sensitive));
}

} // verus!
