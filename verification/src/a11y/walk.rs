//! Reading a tree object by object.
//!
//! The slow way in, and the reference the fast ones are checked against: it
//! asks the objects themselves. One level at a time, every object of a level
//! at once.
use vstd::prelude::*;
use vstd::string::*;

use crate::a11y::error::Error;
use crate::a11y::mirror;
use crate::a11y::mirror::{AppTree, Node, WarmSource, DEPTH_LIMIT};
use crate::a11y::names;
use crate::a11y::role::{Role, StateSet};
use crate::a11y::target;
use crate::a11y::target::Object;
use crate::free::Nanos;

verus! {

/// How many *tree nodes* the walk will read before giving up. A tree is a
/// different size entirely from what can be labelled in it: one of two
/// thousand nodes may hold sixty targets. Stopping here is reported, because
/// an incomplete tree that looks complete is a wrong answer.
pub const WALK_NODES: usize = 5000;

/// What an object says of itself on a walk. Its name and its children are
/// forgone if they are not given.
#[derive(Debug)]
pub struct Walked {
    pub role: Role,
    pub name: Option<String>,
    pub states: StateSet,
    pub component: bool,
    pub children: Option<Vec<Object>>,
}

/// A [`Walked`], its texts as their characters.
pub struct WalkedView {
    pub role: Role,
    pub name: Option<Seq<char>>,
    pub states: StateSet,
    pub component: bool,
    pub children: Seq<target::ObjectView>,
}

/// A list of objects, their texts as their characters.
pub open spec fn objects(list: Seq<Object>) -> Seq<target::ObjectView> {
    list.map_values(|o: Object| o@)
}

impl View for Walked {
    type V = WalkedView;

    open spec fn view(&self) -> WalkedView {
        WalkedView {
            role: self.role,
            name: target::text_of(self.name),
            states: self.states,
            component: self.component,
            children: match self.children {
                Some(list) => objects(list@),
                None => Seq::empty(),
            },
        }
    }
}

/// The answers to a level. An object that would not say its role, states or
/// interfaces has none.
pub open spec fn answers(list: Seq<Option<Walked>>) -> Seq<Option<WalkedView>> {
    list.map_values(
        |w: Option<Walked>|
            match w {
                Some(w) => Some(w@),
                None => None,
            },
    )
}

/// An object to be read, and the path of the one it was found under.
pub type Found = (target::ObjectView, Seq<char>);

/// A level, its texts as their characters.
pub open spec fn level_of(list: Seq<(Object, String)>) -> Seq<Found> {
    list.map_values(|e: (Object, String)| (e.0@, e.1@))
}

impl WalkedView {
    /// The node this is, under its parent.
    pub open spec fn node(self, parent: Seq<char>) -> mirror::NodeView {
        mirror::NodeView {
            parent,
            role: self.role,
            name: target::or_empty(self.name),
            states: self.states,
            has_component: self.component,
        }
    }

    /// What is found under it.
    pub open spec fn finds(self, path: Seq<char>) -> Seq<Found> {
        self.children.map_values(|o: target::ObjectView| (o, path))
    }
}

/// The tree once the first `n` answers to a level are in it.
pub open spec fn grown(
    nodes: mirror::Nodes,
    level: Seq<Found>,
    said: Seq<Option<WalkedView>>,
    n: nat,
) -> mirror::Nodes
    decreases n,
{
    if n == 0 {
        nodes
    } else {
        let before = grown(nodes, level, said, (n - 1) as nat);
        match said[n - 1] {
            Some(w) => before.insert(level[n - 1].0.path, w.node(level[n - 1].1)),
            None => before,
        }
    }
}

/// What the first `n` answers to a level lead to.
pub open spec fn beneath(level: Seq<Found>, said: Seq<Option<WalkedView>>, n: nat) -> Seq<Found>
    decreases n,
{
    if n == 0 {
        Seq::empty()
    } else {
        let before = beneath(level, said, (n - 1) as nat);
        match said[n - 1] {
            Some(w) => before + w.finds(level[n - 1].0.path),
            None => before,
        }
    }
}

/// A walk under way.
#[derive(Debug)]
pub struct Walk {
    pub tree: AppTree,
    /// The objects to be read next. None means the walk is over.
    pub level: Vec<(Object, String)>,
    /// How many levels may still be read.
    pub left: usize,
}

impl Walk {
    /// The walk from an object down.
    pub fn new(bus_name: &str, path: &str, now: Nanos) -> (r: Result<Self, Error>)
        ensures
            match r {
                Ok(w) => {
                    &&& names::addressable(bus_name@, path@)
                    &&& w.tree.nodes() == mirror::Nodes::empty()
                    &&& w.tree.facts() == (mirror::TreeFacts {
                        warmed: now,
                        source: WarmSource::Walk,
                        updates: 0,
                        last_update: None,
                        truncated: false,
                    })
                    &&& level_of(w.level@) == seq![
                        (
                            target::ObjectView { name: Some(bus_name@), path: path@ },
                            Seq::<char>::empty(),
                        ),
                    ]
                    &&& w.left == DEPTH_LIMIT
                },
                Err(e) => !names::addressable(bus_name@, path@) && e@
                    == names::address_fault(bus_name@, path@),
            },
    {
        let root: Object = match names::object_ref(bus_name, path) {
            Ok(o) => o,
            Err(e) => {
                return Err(e);
            },
        };
        let w: Walk = Walk {
            tree: AppTree::new(WarmSource::Walk, now),
            level: vec![(root, String::new())],
            left: DEPTH_LIMIT,
        };
        assert(level_of(w.level@) =~= seq![
            (target::ObjectView { name: Some(bus_name@), path: path@ }, Seq::<char>::empty()),
        ]);
        Ok(w)
    }

    /// Whether there is another level to be read.
    pub fn wants_more(&self) -> (r: bool)
        ensures
            r == (self.level@.len() > 0),
    {
        self.level.len() > 0
    }

    /// Take what the objects of the level said. The level after it is what
    /// they lead to, unless the walk has gone deep enough or the tree grown
    /// large enough; the latter is reported.
    pub fn absorb(self, said: Vec<Option<Walked>>) -> (next: Self)
        requires
            said@.len() == self.level@.len(),
            self.left > 0,
        ensures
            next.left == self.left - 1,
            ({
                let level = level_of(self.level@);
                let more = beneath(level, answers(said@), level.len());
                let full = next.left > 0 && more.len() > 0 && next.tree.nodes().len()
                    >= WALK_NODES;
                &&& next.tree.nodes() == grown(
                    self.tree.nodes(),
                    level,
                    answers(said@),
                    level.len(),
                )
                &&& next.tree.facts() == (mirror::TreeFacts {
                    truncated: self.tree.truncated || full,
                    ..self.tree.facts()
                })
                &&& level_of(next.level@) == if next.left == 0 || full {
                    Seq::empty()
                } else {
                    more
                }
            }),
    {
        let ghost level = level_of(self.level@);
        let ghost says = answers(said@);
        let ghost start = self.tree.nodes();
        let ghost facts = self.tree.facts();
        let Walk { mut tree, level: here, left } = self;
        let mut more: Vec<(Object, String)> = Vec::new();
        let mut i: usize = 0;
        assert(level_of(more@) =~= Seq::empty());
        while i < here.len()
            invariant
                i <= here@.len(),
                said@.len() == here@.len(),
                level == level_of(here@),
                says == answers(said@),
                tree.nodes() == grown(start, level, says, i as nat),
                tree.facts() == facts,
                level_of(more@) == beneath(level, says, i as nat),
            decreases here.len() - i,
        {
            let ghost before = level_of(more@);
            assert(level[i as int] == (here@[i as int].0@, here@[i as int].1@));
            match &said[i] {
                Some(w) => {
                    let path: String = here[i].0.path.clone();
                    tree.insert(
                        path.clone(),
                        Node {
                            parent: here[i].1.clone(),
                            role: w.role,
                            name: target::owned_or_empty(&w.name),
                            states: w.states,
                            has_component: w.component,
                        },
                    );
                    match &w.children {
                        Some(children) => {
                            let mut k: usize = 0;
                            let ghost all = objects(children@);
                            assert(before + w@.finds(path@).take(0) =~= before);
                            while k < children.len()
                                invariant
                                    k <= children@.len(),
                                    all == objects(children@),
                                    w@.children == all,
                                    level_of(more@) == before + w@.finds(path@).take(k as int),
                                decreases children.len() - k,
                            {
                                let ghost so_far = level_of(more@);
                                more.push((children[k].clone(), path.clone()));
                                assert(level_of(more@) =~= so_far.push((all[k as int], path@)));
                                assert(w@.finds(path@).take(k + 1) =~= w@.finds(path@).take(
                                    k as int,
                                ).push((all[k as int], path@)));
                                assert(level_of(more@) =~= before + w@.finds(path@).take(k + 1));
                                k = k + 1;
                            }
                            assert(w@.finds(path@).take(k as int) =~= w@.finds(path@));
                        },
                        None => {
                            assert(before + w@.finds(path@) =~= before);
                        },
                    }
                    assert(says[i as int] == Some(w@));
                },
                None => {},
            }
            i = i + 1;
        }
        let left: usize = left - 1;
        let full: bool = left > 0 && more.len() > 0 && tree.len() >= WALK_NODES;
        assert(level_of(more@).len() == more@.len());
        if full {
            tree.truncated = true;
        }
        if full || left == 0 {
            more = Vec::new();
            assert(level_of(more@) =~= Seq::empty());
        }
        Walk { tree, level: more, left }
    }
}

/// Whatever the objects say, what a walk has read it keeps.
pub proof fn a_walk_forgets_nothing(
    nodes: mirror::Nodes,
    level: Seq<Found>,
    said: Seq<Option<WalkedView>>,
    n: nat,
    path: Seq<char>,
)
    requires
        n <= level.len(),
        n <= said.len(),
        nodes.contains_key(path),
    ensures
        grown(nodes, level, said, n).contains_key(path),
    decreases n,
{
    if n > 0 {
        a_walk_forgets_nothing(nodes, level, said, (n - 1) as nat, path);
    }
}

/// A walk knows exactly what it knew before and the objects that answered.
pub proof fn a_walk_reads_what_answers(
    nodes: mirror::Nodes,
    level: Seq<Found>,
    said: Seq<Option<WalkedView>>,
    n: nat,
    path: Seq<char>,
)
    requires
        n <= level.len(),
        n <= said.len(),
    ensures
        grown(nodes, level, said, n).contains_key(path) <==> nodes.contains_key(path) || exists|
            i: int,
        |
            0 <= i < n && #[trigger] said[i] is Some && level[i].0.path == path,
    decreases n,
{
    if n > 0 {
        a_walk_reads_what_answers(nodes, level, said, (n - 1) as nat, path);
        if said[n - 1] is Some && level[n - 1].0.path == path {
            assert(said[n - 1] is Some);
        }
    }
}

} // verus!
