//! From candidates to targets.
//!
//! The second pass: everything the candidate step could not know, asked for
//! survivors only, and what is dropped once it is known.
use vstd::prelude::*;
use vstd::string::*;

use crate::a11y::filter;
use crate::a11y::filter::Reject;
use crate::a11y::role::Role;
use crate::a11y::spots;
use crate::a11y::target;
use crate::a11y::target::{Object, Provenance, Target, WindowRect};

verus! {

/// A node on its way to becoming a [`Target`]. `role` and `name` are `None`
/// when the path that produced it did not already know them.
#[derive(Debug)]
pub struct Candidate {
    pub object: Object,
    pub role: Option<Role>,
    pub name: Option<String>,
}

/// A [`Candidate`], its texts as their characters.
pub struct CandidateView {
    pub object: target::ObjectView,
    pub role: Option<Role>,
    pub name: Option<Seq<char>>,
}

impl View for Candidate {
    type V = CandidateView;

    open spec fn view(&self) -> CandidateView {
        CandidateView {
            object: self.object@,
            role: self.role,
            name: target::text_of(self.name),
        }
    }
}

/// A list of candidates, their texts as their characters.
pub open spec fn candidates_of(list: Seq<Candidate>) -> Seq<CandidateView> {
    list.map_values(|c: Candidate| c@)
}

/// What an object said when it was asked for its extents, and for its role
/// and name where those were wanted.
#[derive(Debug)]
pub struct Facts {
    pub role: Option<Role>,
    pub name: Option<String>,
    pub bounds: WindowRect,
}

/// A [`Facts`], its texts as their characters.
pub struct FactsView {
    pub role: Option<Role>,
    pub name: Option<Seq<char>>,
    pub bounds: WindowRect,
}

impl View for Facts {
    type V = FactsView;

    open spec fn view(&self) -> FactsView {
        FactsView { role: self.role, name: target::text_of(self.name), bounds: self.bounds }
    }
}

/// A list of answers, their texts as their characters.
pub open spec fn facts_of(list: Seq<Option<Facts>>) -> Seq<Option<FactsView>> {
    list.map_values(
        |f: Option<Facts>|
            match f {
                Some(f) => Some(f@),
                None => None,
            },
    )
}

/// One node dropped, and why.
#[derive(Debug)]
pub struct Rejected {
    pub role: Role,
    pub name: String,
    pub path: String,
    pub why: Reject,
}

/// A [`Rejected`], its texts as their characters.
pub struct RejectedView {
    pub role: Role,
    pub name: Seq<char>,
    pub path: Seq<char>,
    pub why: Reject,
}

impl View for Rejected {
    type V = RejectedView;

    open spec fn view(&self) -> RejectedView {
        RejectedView { role: self.role, name: self.name@, path: self.path@, why: self.why }
    }
}

impl Clone for Rejected {
    fn clone(&self) -> (r: Self)
        ensures
            r@ == self@,
    {
        Rejected { name: self.name.clone(), path: self.path.clone(), ..*self }
    }
}

/// Targets, their texts as their characters.
pub open spec fn targets_of(list: Seq<Target>) -> Seq<target::TargetView> {
    list.map_values(|t: Target| t@)
}

/// Dropped nodes, their texts as their characters.
pub open spec fn rejects_of(list: Seq<Rejected>) -> Seq<RejectedView> {
    list.map_values(|r: Rejected| r@)
}

impl CandidateView {
    /// The role is to be asked for: it is not known and it is wanted.
    pub open spec fn lacks_role(self, metadata: bool) -> bool {
        self.role is None && metadata
    }

    /// The name is to be asked for.
    pub open spec fn lacks_name(self, metadata: bool) -> bool {
        self.name is None && metadata
    }

    /// The role it turns out to have. Without extents there is nothing to be
    /// had, and neither without a role that was asked for.
    pub open spec fn resolved(self, facts: Option<FactsView>, metadata: bool) -> Option<
        (Role, Seq<char>, WindowRect),
    > {
        match facts {
            Some(f) => if self.lacks_role(metadata) && f.role is None {
                None
            } else {
                Some(
                    (
                        if self.role is Some {
                            self.role->0
                        } else if metadata {
                            f.role->0
                        } else {
                            Role::Invalid
                        },
                        if self.name is Some {
                            self.name->0
                        } else if metadata {
                            target::or_empty(f.name)
                        } else {
                            Seq::empty()
                        },
                        f.bounds,
                    ),
                )
            },
            None => None,
        }
    }

    /// What becomes of it: a target, or a dropped node.
    pub open spec fn outcome(
        self,
        facts: Option<FactsView>,
        clip: Option<WindowRect>,
        provenance: Provenance,
        metadata: bool,
    ) -> Result<target::TargetView, RejectedView> {
        match self.resolved(facts, metadata) {
            None => Err(
                RejectedView {
                    role: if self.role is Some {
                        self.role->0
                    } else {
                        Role::Invalid
                    },
                    name: target::or_empty(self.name),
                    path: self.object.path,
                    why: Reject::NoBounds,
                },
            ),
            Some((role, name, bounds)) => match filter::bounds_fault(bounds, clip) {
                None => Ok(
                    target::TargetView {
                        role,
                        name,
                        bounds,
                        provenance,
                        bus_name: target::or_empty(self.object.name),
                        path: self.object.path,
                    },
                ),
                Some(why) => Err(RejectedView { role, name, path: self.object.path, why }),
            },
        }
    }
}

impl Candidate {
    /// Whether the object is to be asked for its role. A hint needs bounds
    /// and nothing else; role and name are for those who print them.
    pub fn wants_role(&self, metadata: bool) -> (r: bool)
        ensures
            r == self@.lacks_role(metadata),
    {
        match self.role {
            Some(_) => false,
            None => metadata,
        }
    }

    /// Whether the object is to be asked for its name.
    pub fn wants_name(&self, metadata: bool) -> (r: bool)
        ensures
            r == self@.lacks_name(metadata),
    {
        match self.name {
            Some(_) => false,
            None => metadata,
        }
    }
}

/// What is known of a candidate once it was asked.
fn resolve_one(c: &Candidate, facts: &Option<Facts>, metadata: bool) -> (r: Option<
    (Role, String, WindowRect),
>)
    ensures
        match r {
            Some(r) => c@.resolved(
                match *facts {
                    Some(f) => Some(f@),
                    None => None,
                },
                metadata,
            ) == Some((r.0, r.1@, r.2)),
            None => c@.resolved(
                match *facts {
                    Some(f) => Some(f@),
                    None => None,
                },
                metadata,
            ) is None,
        },
{
    let f: &Facts = match facts {
        Some(f) => f,
        None => {
            return None;
        },
    };
    let role: Role = match c.role {
        Some(r) => r,
        None => if !metadata {
            Role::Invalid
        } else {
            match f.role {
                Some(r) => r,
                None => {
                    return None;
                },
            }
        },
    };
    let name: String = match &c.name {
        Some(n) => n.clone(),
        None => if !metadata {
            String::new()
        } else {
            target::owned_or_empty(&f.name)
        },
    };
    Some((role, name, f.bounds))
}

/// What there is after the first `n` candidates.
pub open spec fn sorted_out(
    cands: Seq<CandidateView>,
    facts: Seq<Option<FactsView>>,
    clip: Option<WindowRect>,
    provenance: Provenance,
    metadata: bool,
    n: nat,
) -> (Seq<target::TargetView>, Seq<RejectedView>)
    decreases n,
{
    if n == 0 {
        (Seq::empty(), Seq::empty())
    } else {
        let (targets, rejects) = sorted_out(
            cands,
            facts,
            clip,
            provenance,
            metadata,
            (n - 1) as nat,
        );
        match cands[n - 1].outcome(facts[n - 1], clip, provenance, metadata) {
            Ok(t) => (targets.push(t), rejects),
            Err(r) => (targets, rejects.push(r)),
        }
    }
}

/// Drop targets that click the same pixel as one that is kept: of those on
/// one spot the preferred one stays, whichever came first.
pub fn dedupe(targets: Vec<Target>, rejects: &mut Vec<Rejected>) -> (kept: Vec<Target>)
    ensures
        targets_of(kept@) == spots::kept(targets_of(targets@)),
        rejects_of(final(rejects)@) == rejects_of(old(rejects)@) + spots::dropped(
            targets_of(targets@),
        ),
        forall|i: int, j: int|
            0 <= i < j < kept@.len() ==> !filter::same_place(
                (#[trigger] kept@[i]).bounds,
                (#[trigger] kept@[j]).bounds,
            ),
        forall|i: int|
            0 <= i < targets@.len() ==> targets_of(kept@).contains((#[trigger] targets@[i])@)
                || spots::dropped(targets_of(targets@)).contains(spots::duplicate(targets@[i]@)),
        kept@.len() + final(rejects)@.len() == targets@.len() + old(rejects)@.len(),
{
    let ghost ts = targets_of(targets@);
    let ghost start = rejects_of(rejects@);
    let stay: Vec<bool> = spots::settle(&targets);
    let turns: Vec<Option<usize>> = spots::turns_to_stay(&targets, &stay);
    assert(spots::turns_of(turns@).len() == turns@.len());
    let staying: Vec<usize> = spots::take_turns(&turns);
    let ghost ones = spots::indices(staying@);
    let mut kept: Vec<Target> = Vec::new();
    let mut k: usize = 0;
    while k < staying.len()
        invariant
            k <= staying@.len(),
            ts == targets_of(targets@),
            ones == spots::indices(staying@),
            forall|a: int| 0 <= a < staying@.len() ==> (#[trigger] staying@[a]) < targets@.len(),
            kept@.len() == k,
            forall|a: int| 0 <= a < k ==> (#[trigger] kept@[a])@ == ts[ones[a]],
        decreases staying.len() - k,
    {
        assert(ones[k as int] == staying@[k as int]);
        assert(ts[ones[k as int]] == targets@[staying@[k as int] as int]@);
        kept.push(targets[staying[k]].clone());
        k = k + 1;
    }
    assert(targets_of(kept@) =~= spots::kept(ts));
    let turns: Vec<Option<usize>> = spots::turns_to_go(&targets, &stay);
    assert(spots::turns_of(turns@).len() == turns@.len());
    let going: Vec<usize> = spots::take_turns(&turns);
    let ghost others = spots::indices(going@);
    let mut m: usize = 0;
    assert(start + spots::dropped(ts).take(0) =~= start);
    while m < going.len()
        invariant
            m <= going@.len(),
            ts == targets_of(targets@),
            others == spots::indices(going@),
            others == spots::dropped_ones(ts),
            forall|a: int| 0 <= a < going@.len() ==> (#[trigger] going@[a]) < targets@.len(),
            rejects_of(rejects@) == start + spots::dropped(ts).take(m as int),
        decreases going.len() - m,
    {
        let ghost before = rejects_of(rejects@);
        let t: &Target = &targets[going[m]];
        let gone: Rejected = Rejected {
            role: t.role,
            name: t.name.clone(),
            path: t.path.clone(),
            why: Reject::Duplicate,
        };
        rejects.push(gone);
        proof {
            assert(others[m as int] == going@[m as int]);
            assert(spots::dropped(ts)[m as int] == gone@);
            assert(rejects_of(rejects@) =~= before.push(gone@));
            assert(spots::dropped(ts).take(m + 1) =~= spots::dropped(ts).take(m as int).push(
                gone@,
            ));
        }
        m = m + 1;
    }
    proof {
        assert(spots::dropped(ts).take(m as int) =~= spots::dropped(ts));
        spots::none_is_lost(ts);
        assert(targets_of(kept@).len() == kept@.len());
        assert(rejects_of(rejects@).len() == rejects@.len());
        assert(start.len() == old(rejects)@.len());
        assert forall|i: int, j: int| 0 <= i < j < kept@.len() implies !filter::same_place(
            (#[trigger] kept@[i]).bounds,
            (#[trigger] kept@[j]).bounds,
        ) by {
            spots::one_hint_per_spot(ts, i, j);
            assert(spots::kept(ts)[i] == kept@[i]@ && spots::kept(ts)[j] == kept@[j]@);
        }
        assert forall|i: int| 0 <= i < targets@.len() implies spots::kept(ts).contains(
            (#[trigger] targets@[i])@,
        ) || spots::dropped(ts).contains(spots::duplicate(targets@[i]@)) by {
            assert(ts[i] == targets@[i]@);
            spots::each_target_stays_or_goes(ts, i);
            if spots::stays(ts, i) {
                let k = choose|k: int|
                    0 <= k < spots::kept_ones(ts).len() && spots::kept_ones(ts)[k] == i;
                assert(spots::kept(ts)[k] == ts[i]);
            } else {
                let k = choose|k: int|
                    0 <= k < spots::dropped_ones(ts).len() && spots::dropped_ones(ts)[k] == i;
                assert(spots::dropped(ts)[k] == spots::duplicate(ts[i]));
            }
        }
    }
    kept
}

/// What becomes of candidates: the targets among them, and what was dropped
/// and why.
pub open spec fn resolution(
    cands: Seq<CandidateView>,
    facts: Seq<Option<FactsView>>,
    clip: Option<WindowRect>,
    provenance: Provenance,
    metadata: bool,
) -> (Seq<target::TargetView>, Seq<RejectedView>) {
    let (targets, rejects) = sorted_out(cands, facts, clip, provenance, metadata, cands.len());
    (spots::kept(targets), rejects + spots::dropped(targets))
}

/// The second pass, once every candidate was asked.
pub fn resolve(
    candidates: &Vec<Candidate>,
    facts: &Vec<Option<Facts>>,
    clip: Option<WindowRect>,
    provenance: Provenance,
    metadata: bool,
) -> (r: (Vec<Target>, Vec<Rejected>))
    requires
        facts@.len() == candidates@.len(),
    ensures
        (targets_of(r.0@), rejects_of(r.1@)) == resolution(
            candidates_of(candidates@),
            facts_of(facts@),
            clip,
            provenance,
            metadata,
        ),
{
    let ghost cands = candidates_of(candidates@);
    let ghost said = facts_of(facts@);
    let mut targets: Vec<Target> = Vec::new();
    let mut rejects: Vec<Rejected> = Vec::new();
    let mut n: usize = 0;
    assert(targets_of(targets@) =~= Seq::empty());
    assert(rejects_of(rejects@) =~= Seq::empty());
    while n < candidates.len()
        invariant
            n <= candidates@.len(),
            facts@.len() == candidates@.len(),
            cands == candidates_of(candidates@),
            said == facts_of(facts@),
            (targets_of(targets@), rejects_of(rejects@)) == sorted_out(
                cands,
                said,
                clip,
                provenance,
                metadata,
                n as nat,
            ),
        decreases candidates.len() - n,
    {
        let c: &Candidate = &candidates[n];
        let ghost t0 = targets_of(targets@);
        let ghost r0 = rejects_of(rejects@);
        assert(cands[n as int] == c@);
        let path: String = c.object.path.clone();
        match resolve_one(c, &facts[n], metadata) {
            None => {
                let role: Role = match c.role {
                    Some(r) => r,
                    None => Role::Invalid,
                };
                let dropped: Rejected = Rejected {
                    role,
                    name: target::owned_or_empty(&c.name),
                    path,
                    why: Reject::NoBounds,
                };
                rejects.push(dropped);
                assert(rejects_of(rejects@) =~= r0.push(dropped@));
            },
            Some((role, name, bounds)) => match filter::bounds_ok(bounds, clip) {
                Ok(()) => {
                    let t: Target = Target {
                        role,
                        name,
                        bounds,
                        provenance,
                        bus_name: target::owned_or_empty(&c.object.name),
                        path,
                    };
                    targets.push(t);
                    assert(targets_of(targets@) =~= t0.push(t@));
                },
                Err(why) => {
                    let dropped: Rejected = Rejected { role, name, path, why };
                    rejects.push(dropped);
                    assert(rejects_of(rejects@) =~= r0.push(dropped@));
                },
            },
        }
        n = n + 1;
    }
    assert(targets_of(targets@).len() == targets@.len());
    let kept: Vec<Target> = dedupe(targets, &mut rejects);
    (kept, rejects)
}

/// Every candidate is accounted for: it is a target, or it was dropped and it
/// is said why.
pub proof fn nothing_is_lost(
    cands: Seq<CandidateView>,
    facts: Seq<Option<FactsView>>,
    clip: Option<WindowRect>,
    provenance: Provenance,
    metadata: bool,
)
    ensures
        ({
            let (targets, rejects) = resolution(cands, facts, clip, provenance, metadata);
            targets.len() + rejects.len() == cands.len()
        }),
{
    lemma_sorted_len(cands, facts, clip, provenance, metadata, cands.len());
    let (targets, rejects) = sorted_out(cands, facts, clip, provenance, metadata, cands.len());
    spots::none_is_lost(targets);
}

proof fn lemma_sorted_len(
    cands: Seq<CandidateView>,
    facts: Seq<Option<FactsView>>,
    clip: Option<WindowRect>,
    provenance: Provenance,
    metadata: bool,
    n: nat,
)
    ensures
        ({
            let (targets, rejects) = sorted_out(cands, facts, clip, provenance, metadata, n);
            &&& targets.len() + rejects.len() == n
            &&& forall|i: int|
                0 <= i < targets.len() ==> filter::bounds_fault(
                    (#[trigger] targets[i]).bounds,
                    clip,
                ) is None && targets[i].provenance == provenance
        }),
    decreases n,
{
    if n > 0 {
        lemma_sorted_len(cands, facts, clip, provenance, metadata, (n - 1) as nat);
    }
}

/// Every target passes the rules on bounds and says where it came from.
pub proof fn a_target_is_worth_a_hint(
    cands: Seq<CandidateView>,
    facts: Seq<Option<FactsView>>,
    clip: Option<WindowRect>,
    provenance: Provenance,
    metadata: bool,
    i: int,
)
    requires
        0 <= i < resolution(cands, facts, clip, provenance, metadata).0.len(),
    ensures
        ({
            let t = resolution(cands, facts, clip, provenance, metadata).0[i];
            filter::bounds_fault(t.bounds, clip) is None && t.provenance == provenance
        }),
{
    lemma_sorted_len(cands, facts, clip, provenance, metadata, cands.len());
    let (targets, rejects) = sorted_out(cands, facts, clip, provenance, metadata, cands.len());
    spots::lemma_listed(targets);
    let j = spots::kept_ones(targets)[i];
    assert(spots::kept(targets)[i] == targets[j]);
}

} // verus!
