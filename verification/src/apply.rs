//! The landing gate-satisfied apply, fanned out per source: which lines land, under
//! which lease, and what the ledger records of each outcome.

use crate::config::{Actor, ActorView};
use crate::coordination::{
    FactView,
    StoreView,
    duplicate_fact,
    epochs_exhausted,
    expiry_overflow,
    has_fact,
    in_source_order,
    keyed,
    request_with,
    requests_moved,
    sessions_moved,
    source_key,
};
use crate::error::{Error, ErrorView};
use crate::gate::request_with_moved;
use crate::journal::Act;
use crate::landing::{GateOutcome, Landing, RequestId, RequestState, landing_views, request_label};
use crate::lease::{LeaseClaim, claimable, claimed, in_tenancy, next_epoch, released, renewed};
use crate::ledger::{
    Ledger,
    LedgerView,
    entry_of,
    request_view,
    scoped,
    scoped_text,
    source_list,
    source_list_is,
    two_words,
    two_words_text,
    with_entry,
};
use crate::session::{SessionId, SessionState};
use crate::words::{debug_quoted, joined, opt_text, owned, owned_opt, quoted, same, same_opt};
use vstd::prelude::*;

verus! {

/// The lease point of the root's line; a mount's is this, a slash, and the
/// mount's name.
pub const LANDING_LEASE_POINT: &'static str = "landing";

/// The bookmark a landing moves when no adopted branch names one; exported
/// as a git branch so plain `git push` carries the shared line.
pub const LANDED_BOOKMARK: &'static str = "atelier";

/// How long a landing lease lives; a holder that dies mid-apply frees the
/// point when this passes.
pub const LANDING_LEASE_TTL_MS: i64 = 30_000;

/// One mounted source: its name, and the adopted branch landings move.
#[derive(Debug, Clone, PartialEq, Eq)]
pub struct Mount {
    pub name: String,
    pub branch: Option<String>,
}

/// Each source's session tip: the root's, and every mount's by name.
#[derive(Debug, Clone, PartialEq, Eq)]
pub struct SessionTips {
    pub root: String,
    pub mounts: Vec<(String, String)>,
}

/// What one landing attempt did to a shared line.
#[derive(Debug, Clone, PartialEq, Eq)]
pub enum LandOutcome {
    /// The line advanced to this snapshot.
    Landed { snapshot: String },
    /// The rebase produced conflicts; nothing moved: the shared line never
    /// carries a conflicted state.
    Conflicted,
}

/// What a landing attempt comes to, once the line's tenancy was fenced:
/// nothing under a superseded one, not even a conflict judged from a stale
/// head; else it parks on a conflict, or lands as the rebased commit.
pub fn judge_land(fence: Result<(), Error>, conflicted: bool, rebased: String) -> (r: Result<
    LandOutcome,
    Error,
>)
    ensures
        match fence {
            Err(error) => r is Err && (r->Err_0)@ == error@,
            Ok(()) => r is Ok && r->Ok_0 == if conflicted {
                LandOutcome::Conflicted
            } else {
                LandOutcome::Landed { snapshot: rebased }
            },
        },
{
    match fence {
        Err(error) => Err(error),
        Ok(()) => if conflicted {
            Ok(LandOutcome::Conflicted)
        } else {
            Ok(LandOutcome::Landed { snapshot: rebased })
        },
    }
}

/// The mounts and tips of a session's sources.
pub open spec fn tip_views(mounts: Seq<(String, String)>) -> Seq<(Seq<char>, Seq<char>)> {
    mounts.map_values(|tip: (String, String)| (tip.0@, tip.1@))
}

/// The first tip of the mount called `name`.
pub open spec fn mount_tip(mounts: Seq<(Seq<char>, Seq<char>)>, name: Seq<char>) -> Option<Seq<char>>
    decreases mounts.len(),
{
    if mounts.len() == 0 {
        None
    } else if mounts[0].0 == name {
        Some(mounts[0].1)
    } else {
        mount_tip(mounts.drop_first(), name)
    }
}

impl SessionTips {
    /// The tip of `source`, the root's when `None`. A session always has a
    /// tip for every source it spans; a name it does not span gets the
    /// root's.
    pub fn tip_of(&self, source: &Option<String>) -> (r: String)
        ensures
            source is None ==> r@ == self.root@,
            source is Some ==> r@ == match mount_tip(tip_views(self.mounts@), (source->0)@) {
                Some(tip) => tip,
                None => self.root@,
            },
    {
        let name = match source {
            None => return owned(self.root.as_str()),
            Some(name) => name,
        };
        let ghost all = tip_views(self.mounts@);
        let mut i: usize = 0;
        assert(all.skip(0) =~= all);
        while i < self.mounts.len()
            invariant
                i <= self.mounts@.len(),
                *source == Some(*name),
                all == tip_views(self.mounts@),
                mount_tip(all, name@) == mount_tip(all.skip(i as int), name@),
            decreases self.mounts@.len() - i,
        {
            assert(all.skip(i as int)[0] == all[i as int]);
            assert(all.skip(i as int).drop_first() =~= all.skip(i + 1));
            if same(self.mounts[i].0.as_str(), name.as_str()) {
                return owned(self.mounts[i].1.as_str());
            }
            i = i + 1;
        }
        owned(self.root.as_str())
    }
}

// ---------------------------------------------------------------------
// Which lines land.

/// The mounts whose session change carries work, with their tips, that the
/// request has not landed on yet; in order.
pub open spec fn planned_mounts(
    landings: Set<FactView>,
    request: int,
    mounts: Seq<(Seq<char>, Seq<char>)>,
    changed: Seq<bool>,
) -> Seq<(Option<Seq<char>>, Seq<char>)>
    decreases mounts.len(),
{
    if mounts.len() == 0 || changed.len() == 0 {
        Seq::empty()
    } else {
        let before = planned_mounts(landings, request, mounts.drop_last(), changed.drop_last());
        let (name, tip) = mounts.last();
        if changed.last() && !has_fact(landings, request, name) {
            before.push((Some(name), tip))
        } else {
            before
        }
    }
}

/// The lines an apply of the request lands: the root first, always, then
/// the mounts that carry work, in name order; a landing already recorded
/// for this request is never repeated.
pub open spec fn apply_plan(
    landings: Set<FactView>,
    request: int,
    root_tip: Seq<char>,
    mounts: Seq<(Seq<char>, Seq<char>)>,
    changed: Seq<bool>,
) -> Seq<(Option<Seq<char>>, Seq<char>)> {
    let root = if has_fact(landings, request, source_key(None)) {
        Seq::<(Option<Seq<char>>, Seq<char>)>::empty()
    } else {
        seq![(None::<Seq<char>>, root_tip)]
    };
    root + planned_mounts(landings, request, mounts, changed)
}

/// The sources and tips of a plan.
pub open spec fn plan_views(plan: Seq<(Option<String>, String)>) -> Seq<
    (Option<Seq<char>>, Seq<char>),
> {
    plan.map_values(|step: (Option<String>, String)| (opt_text(step.0), step.1@))
}

/// The relation has a fact about a source exactly when the list in source
/// order does.
proof fn listed_iff_fact(
    facts: Set<FactView>,
    owner: int,
    list: Seq<(Seq<char>, Seq<char>)>,
    source: Seq<char>,
)
    requires
        in_source_order(facts, owner, list),
    ensures
        has_fact(facts, owner, source) <==> exists|i: int|
            #![trigger list[i]]
            0 <= i < list.len() && list[i].0 == source,
{
    if has_fact(facts, owner, source) {
        let value = choose|value: Seq<char>| facts.contains((owner, source, value));
        assert(list.contains((source, value)));
        let i = choose|i: int| 0 <= i < list.len() && list[i] == (source, value);
        assert(list[i].0 == source);
    }
    if exists|i: int| #![trigger list[i]] 0 <= i < list.len() && list[i].0 == source {
        let i = choose|i: int| #![trigger list[i]] 0 <= i < list.len() && list[i].0 == source;
        assert(facts.contains((owner, list[i].0, list[i].1)));
    }
}

/// Whether a landing on `source` is among those recorded.
fn landed_on(already: &Vec<(Option<String>, String)>, source: &Option<String>) -> (r: bool)
    requires
        opt_text(*source) != Some(crate::config::ROOT_MOUNT@),
        forall|i: int|
            0 <= i < already@.len() ==> opt_text((#[trigger] already@[i]).0) != Some(
                crate::config::ROOT_MOUNT@,
            ),
    ensures
        r == exists|i: int|
            #![trigger keyed(already@)[i]]
            0 <= i < already@.len() && keyed(already@)[i].0 == source_key(opt_text(*source)),
{
    let mut i: usize = 0;
    while i < already.len()
        invariant
            i <= already@.len(),
            opt_text(*source) != Some(crate::config::ROOT_MOUNT@),
            forall|j: int|
                0 <= j < already@.len() ==> opt_text((#[trigger] already@[j]).0) != Some(
                    crate::config::ROOT_MOUNT@,
                ),
            forall|j: int|
                #![trigger keyed(already@)[j]]
                0 <= j < i ==> keyed(already@)[j].0 != source_key(opt_text(*source)),
        decreases already@.len() - i,
    {
        assert(keyed(already@)[i as int].0 == source_key(opt_text(already@[i as int].0)));
        proof {
            crate::coordination::source_key_round_trips(opt_text(*source));
            crate::coordination::source_key_round_trips(opt_text(already@[i as int].0));
        }
        if same_opt(&already[i].0, source) {
            return true;
        }
        i = i + 1;
    }
    false
}

impl Ledger {
    /// The lines an apply of the request lands. `changed` says of each
    /// mount whether the session's change carries work on it.
    pub fn plan_apply(&self, id: RequestId, tips: &SessionTips, changed: &Vec<bool>) -> (r: Vec<
        (Option<String>, String),
    >)
        requires
            self.wf(),
            changed@.len() == tips.mounts@.len(),
            forall|i: int|
                0 <= i < tips.mounts@.len() ==> (#[trigger] tips.mounts@[i]).0@
                    != crate::config::ROOT_MOUNT@,
        ensures
            plan_views(r@) == apply_plan(
                self@.store.landings,
                id.0 as int,
                tips.root@,
                tip_views(tips.mounts@),
                changed@,
            ),
    {
        let already = self.store.landings(id.0);
        let ghost facts = self@.store.landings;
        let ghost list = keyed(already@);
        let ghost mounts = tip_views(tips.mounts@);
        let mut plan: Vec<(Option<String>, String)> = Vec::new();
        let root: Option<String> = None;
        proof {
            listed_iff_fact(facts, id.0 as int, list, source_key(None));
        }
        let ghost start = if has_fact(facts, id.0 as int, source_key(None)) {
            Seq::<(Option<Seq<char>>, Seq<char>)>::empty()
        } else {
            seq![(None::<Seq<char>>, tips.root@)]
        };
        if !landed_on(&already, &root) {
            plan.push((None, owned(tips.root.as_str())));
        }
        let mut i: usize = 0;
        assert(mounts.take(0) =~= Seq::<(Seq<char>, Seq<char>)>::empty());
        assert(plan_views(plan@) =~= start + planned_mounts(
            facts,
            id.0 as int,
            mounts.take(0),
            changed@.take(0),
        ));
        while i < tips.mounts.len()
            invariant
                i <= tips.mounts@.len(),
                changed@.len() == tips.mounts@.len(),
                mounts == tip_views(tips.mounts@),
                list == keyed(already@),
                in_source_order(facts, id.0 as int, list),
                forall|k: int|
                    0 <= k < tips.mounts@.len() ==> (#[trigger] tips.mounts@[k]).0@
                        != crate::config::ROOT_MOUNT@,
                forall|k: int|
                    0 <= k < already@.len() ==> opt_text((#[trigger] already@[k]).0) != Some(
                        crate::config::ROOT_MOUNT@,
                    ),
                plan_views(plan@) == start + planned_mounts(
                    facts,
                    id.0 as int,
                    mounts.take(i as int),
                    changed@.take(i as int),
                ),
            decreases tips.mounts@.len() - i,
        {
            let ghost seen = plan_views(plan@);
            let source = Some(owned(tips.mounts[i].0.as_str()));
            let ghost name = tips.mounts@[i as int].0@;
            let ghost tip = tips.mounts@[i as int].1@;
            proof {
                assert(mounts[i as int] == (name, tip));
                listed_iff_fact(facts, id.0 as int, list, name);
                assert(mounts.take(i + 1).drop_last() =~= mounts.take(i as int));
                assert(mounts.take(i + 1).last() == (name, tip));
                assert(changed@.take(i + 1).drop_last() =~= changed@.take(i as int));
                assert(changed@.take(i + 1).last() == changed@[i as int]);
            }
            if changed[i] && !landed_on(&already, &source) {
                plan.push((source, owned(tips.mounts[i].1.as_str())));
                assert(plan_views(plan@) =~= seen.push((Some(name), tip)));
            }
            i = i + 1;
            assert(plan_views(plan@) =~= start + planned_mounts(
                facts,
                id.0 as int,
                mounts.take(i as int),
                changed@.take(i as int),
            ));
        }
        assert(mounts.take(mounts.len() as int) =~= mounts);
        assert(changed@.take(changed@.len() as int) =~= changed@);
        plan
    }
}

/// Whether a step of a plan is about another source.
pub open spec fn other_than(source: Option<Seq<char>>) -> spec_fn(
    (Option<Seq<char>>, Seq<char>),
) -> bool {
    |step: (Option<Seq<char>>, Seq<char>)| step.0 != source
}

/// The steps of a plan that are about another source.
pub open spec fn about_others(
    plan: Seq<(Option<Seq<char>>, Seq<char>)>,
    source: Option<Seq<char>>,
) -> Seq<(Option<Seq<char>>, Seq<char>)> {
    plan.filter(other_than(source))
}

/// Recording a landing takes that mount out of the planned ones, and leaves
/// the others.
proof fn planned_mounts_shrink(
    landings: Set<FactView>,
    request: int,
    mounts: Seq<(Seq<char>, Seq<char>)>,
    changed: Seq<bool>,
    source: Option<Seq<char>>,
    snapshot: Seq<char>,
)
    requires
        source != Some(crate::config::ROOT_MOUNT@),
        forall|i: int|
            0 <= i < mounts.len() ==> (#[trigger] mounts[i]).0 != crate::config::ROOT_MOUNT@,
    ensures
        planned_mounts(
            landings.insert((request, source_key(source), snapshot)),
            request,
            mounts,
            changed,
        ) == about_others(planned_mounts(landings, request, mounts, changed), source),
    decreases mounts.len(),
{
    reveal(Seq::filter);
    if mounts.len() > 0 && changed.len() > 0 {
        let rest = mounts.drop_last();
        let after = landings.insert((request, source_key(source), snapshot));
        assert forall|i: int| 0 <= i < rest.len() implies (#[trigger] rest[i]).0
            != crate::config::ROOT_MOUNT@ by {
            assert(rest[i] == mounts[i]);
        }
        planned_mounts_shrink(landings, request, rest, changed.drop_last(), source, snapshot);
        let (name, tip) = mounts.last();
        assert(mounts[mounts.len() - 1].0 == name);
        fact_added(landings, request, source_key(source), snapshot, name);
        let before = planned_mounts(landings, request, rest, changed.drop_last());
        let grown = before.push((Some(name), tip));
        assert(grown.drop_last() =~= before);
    }
}

/// One more fact makes its own source one with a fact, and no other.
proof fn fact_added(
    facts: Set<FactView>,
    owner: int,
    source: Seq<char>,
    value: Seq<char>,
    other: Seq<char>,
)
    ensures
        has_fact(facts.insert((owner, source, value)), owner, other) <==> (has_fact(
            facts,
            owner,
            other,
        ) || other == source),
{
    let after = facts.insert((owner, source, value));
    if has_fact(facts, owner, other) {
        let known = choose|known: Seq<char>| facts.contains((owner, other, known));
        assert(after.contains((owner, other, known)));
    }
    assert(after.contains((owner, source, value)));
    if has_fact(after, owner, other) && other != source {
        let known = choose|known: Seq<char>| after.contains((owner, other, known));
        assert(facts.contains((owner, other, known)));
    }
}

/// A retry finishes what remains: once a landing is recorded on a line, the
/// request's plan is what it was without that line, in the same order.
pub proof fn a_retry_finishes_what_remains(
    landings: Set<FactView>,
    request: int,
    root_tip: Seq<char>,
    mounts: Seq<(Seq<char>, Seq<char>)>,
    changed: Seq<bool>,
    source: Option<Seq<char>>,
    snapshot: Seq<char>,
)
    requires
        source != Some(crate::config::ROOT_MOUNT@),
        forall|i: int|
            0 <= i < mounts.len() ==> (#[trigger] mounts[i]).0 != crate::config::ROOT_MOUNT@,
    ensures
        apply_plan(
            landings.insert((request, source_key(source), snapshot)),
            request,
            root_tip,
            mounts,
            changed,
        ) == about_others(apply_plan(landings, request, root_tip, mounts, changed), source),
{
    let other = other_than(source);
    let root = if has_fact(landings, request, source_key(None)) {
        Seq::<(Option<Seq<char>>, Seq<char>)>::empty()
    } else {
        seq![(None::<Seq<char>>, root_tip)]
    };
    let rest = planned_mounts(landings, request, mounts, changed);
    planned_mounts_shrink(landings, request, mounts, changed, source, snapshot);
    fact_added(landings, request, source_key(source), snapshot, source_key(None));
    Seq::filter_distributes_over_add(root, rest, other);
    reveal(Seq::filter);
    if root.len() > 0 {
        assert(root.drop_last() =~= Seq::empty());
    }
    assert(Seq::<(Option<Seq<char>>, Seq<char>)>::empty().filter(other) =~= Seq::empty());
    assert(root.filter(other) =~= if has_fact(
        landings.insert((request, source_key(source), snapshot)),
        request,
        source_key(None),
    ) {
        Seq::<(Option<Seq<char>>, Seq<char>)>::empty()
    } else {
        seq![(None::<Seq<char>>, root_tip)]
    });
}

/// Whether `at` gives, in order, exactly the mounts whose change carries work
/// and that no landing of the request is recorded on, and `steps` are those
/// mounts with their tips.
pub open spec fn lands_exactly(
    landings: Set<FactView>,
    request: int,
    mounts: Seq<(Seq<char>, Seq<char>)>,
    changed: Seq<bool>,
    steps: Seq<(Option<Seq<char>>, Seq<char>)>,
    at: Seq<int>,
) -> bool {
    &&& at.len() == steps.len()
    &&& forall|j: int, k: int| #![trigger at[j], at[k]] 0 <= j < k < at.len() ==> at[j] < at[k]
    &&& forall|k: int|
        #![trigger at[k]]
        0 <= k < at.len() ==> 0 <= at[k] < mounts.len() && steps[k] == (
            Some(mounts[at[k]].0),
            mounts[at[k]].1,
        )
    &&& forall|i: int|
        #![trigger mounts[i]]
        0 <= i < mounts.len() ==> (at.contains(i) <==> changed[i] && forall|landed: Seq<char>|
            !landings.contains((request, mounts[i].0, landed)))
}

/// The mounts of a plan are exactly those that carry work and are not landed
/// on yet.
proof fn mounts_land_exactly(
    landings: Set<FactView>,
    request: int,
    mounts: Seq<(Seq<char>, Seq<char>)>,
    changed: Seq<bool>,
) -> (at: Seq<int>)
    requires
        changed.len() == mounts.len(),
    ensures
        lands_exactly(
            landings,
            request,
            mounts,
            changed,
            planned_mounts(landings, request, mounts, changed),
            at,
        ),
    decreases mounts.len(),
{
    let steps = planned_mounts(landings, request, mounts, changed);
    if mounts.len() == 0 {
        Seq::empty()
    } else {
        let last = mounts.len() - 1;
        let rest = mounts.drop_last();
        let (name, tip) = mounts.last();
        let before = mounts_land_exactly(landings, request, rest, changed.drop_last());
        let planned = changed.last() && !has_fact(landings, request, name);
        let at = if planned {
            before.push(last)
        } else {
            before
        };
        assert forall|k: int| #![trigger at[k]] 0 <= k < at.len() implies 0 <= at[k] < mounts.len()
            && steps[k] == (Some(mounts[at[k]].0), mounts[at[k]].1) by {
            if k < before.len() {
                assert(at[k] == before[k]);
                assert(rest[before[k]] == mounts[before[k]]);
            }
        }
        assert forall|j: int, k: int| #![trigger at[j], at[k]] 0 <= j < k < at.len() implies at[j]
            < at[k] by {
            assert(at[j] == before[j]);
            if k < before.len() {
                assert(at[k] == before[k]);
            }
        }
        assert forall|i: int| #![trigger mounts[i]] 0 <= i < mounts.len() implies (at.contains(i)
            <==> changed[i] && forall|landed: Seq<char>|
            !landings.contains((request, mounts[i].0, landed))) by {
            if before.contains(i) {
                let k = choose|k: int| 0 <= k < before.len() && before[k] == i;
                assert(at[k] == i);
                assert(i < rest.len());
            }
            if at.contains(i) && !before.contains(i) {
                let k = choose|k: int| 0 <= k < at.len() && at[k] == i;
                if k < before.len() {
                    assert(before[k] == i);
                }
                assert(planned && i == last);
            }
            if i < last {
                assert(rest[i] == mounts[i]);
                assert(changed.drop_last()[i] == changed[i]);
            } else {
                assert(mounts[i] == mounts.last());
                assert(changed[i] == changed.last());
                if planned {
                    assert(at[before.len() as int] == i);
                }
                assert(has_fact(landings, request, name) <==> !(forall|landed: Seq<char>|
                    !landings.contains((request, name, landed))));
            }
        }
        at
    }
}

/// The steps of a plan behind the root's, where it has one.
pub open spec fn behind_the_root(
    plan: Seq<(Option<Seq<char>>, Seq<char>)>,
) -> Seq<(Option<Seq<char>>, Seq<char>)> {
    if plan.len() > 0 && plan[0].0 is None {
        plan.drop_first()
    } else {
        plan
    }
}

/// An apply plans every line that is still to land, and no other: the root
/// first unless a landing of the request is recorded on it, and then, in the
/// order of the mounts, each mount whose change carries work and that no
/// landing of the request is recorded on, once each and with its own tip.
pub proof fn plans_land_every_line(
    landings: Set<FactView>,
    request: int,
    root_tip: Seq<char>,
    mounts: Seq<(Seq<char>, Seq<char>)>,
    changed: Seq<bool>,
)
    requires
        changed.len() == mounts.len(),
    ensures
        ({
            let plan = apply_plan(landings, request, root_tip, mounts, changed);
            &&& (plan.len() > 0 && plan[0].0 is None) <==> forall|landed: Seq<char>|
                !landings.contains((request, "/"@, landed))
            &&& plan.len() > 0 && plan[0].0 is None ==> plan[0].1 == root_tip
            &&& exists|at: Seq<int>| #[trigger]
                lands_exactly(landings, request, mounts, changed, behind_the_root(plan), at)
        }),
{
    let at = mounts_land_exactly(landings, request, mounts, changed);
    let plan = apply_plan(landings, request, root_tip, mounts, changed);
    let steps = planned_mounts(landings, request, mounts, changed);
    assert(source_key(None) == "/"@);
    if has_fact(landings, request, "/"@) {
        assert(plan =~= steps);
        if steps.len() > 0 {
            assert(at[0] >= 0);
        }
    }
    assert(behind_the_root(plan) =~= steps);
    assert(lands_exactly(landings, request, mounts, changed, behind_the_root(plan), at));
}

/// A mount is in the plan exactly when its change carries work and no landing
/// of the request is recorded on it, where the mounts have different names.
pub proof fn every_changed_mount_is_planned(
    landings: Set<FactView>,
    request: int,
    root_tip: Seq<char>,
    mounts: Seq<(Seq<char>, Seq<char>)>,
    changed: Seq<bool>,
    i: int,
)
    requires
        changed.len() == mounts.len(),
        0 <= i < mounts.len(),
        forall|j: int, k: int|
            #![trigger mounts[j], mounts[k]]
            0 <= j < k < mounts.len() ==> mounts[j].0 != mounts[k].0,
    ensures
        apply_plan(landings, request, root_tip, mounts, changed).contains(
            (Some(mounts[i].0), mounts[i].1),
        ) <==> changed[i] && forall|landed: Seq<char>|
            !landings.contains((request, mounts[i].0, landed)),
        apply_plan(landings, request, root_tip, mounts, changed).contains(
            (None::<Seq<char>>, root_tip),
        ) <==> forall|landed: Seq<char>| !landings.contains((request, "/"@, landed)),
{
    let plan = apply_plan(landings, request, root_tip, mounts, changed);
    let steps = planned_mounts(landings, request, mounts, changed);
    let at = mounts_land_exactly(landings, request, mounts, changed);
    let root = if has_fact(landings, request, source_key(None)) {
        Seq::<(Option<Seq<char>>, Seq<char>)>::empty()
    } else {
        seq![(None::<Seq<char>>, root_tip)]
    };
    let n = root.len() as int;
    assert(source_key(None) == "/"@);
    let step = (Some(mounts[i].0), mounts[i].1);
    if at.contains(i) {
        let k = choose|k: int| 0 <= k < at.len() && at[k] == i;
        assert(plan[n + k] == step);
    }
    if plan.contains(step) {
        let k = choose|k: int| 0 <= k < plan.len() && plan[k] == step;
        assert(k >= n);
        assert(steps[k - n] == step);
        let j = at[k - n];
        assert(mounts[j].0 == mounts[i].0);
        if j < i {
            assert(mounts[j].0 != mounts[i].0);
        }
        if i < j {
            assert(mounts[i].0 != mounts[j].0);
        }
        assert(at.contains(i));
    }
    let first = (None::<Seq<char>>, root_tip);
    if n > 0 {
        assert(plan[0] == first);
    }
    if plan.contains(first) {
        let k = choose|k: int| 0 <= k < plan.len() && plan[k] == first;
        if k >= n {
            assert(steps[k - n] == first);
            assert(at[k - n] >= 0);
        }
    }
}

/// No line the request already landed on is planned again.
pub proof fn plan_repeats_nothing(
    landings: Set<FactView>,
    request: int,
    root_tip: Seq<char>,
    mounts: Seq<(Seq<char>, Seq<char>)>,
    changed: Seq<bool>,
    i: int,
)
    requires
        0 <= i < apply_plan(landings, request, root_tip, mounts, changed).len(),
    ensures
        !has_fact(
            landings,
            request,
            source_key(apply_plan(landings, request, root_tip, mounts, changed)[i].0),
        ),
{
    let root = if has_fact(landings, request, source_key(None)) {
        Seq::<(Option<Seq<char>>, Seq<char>)>::empty()
    } else {
        seq![(None::<Seq<char>>, root_tip)]
    };
    let rest = planned_mounts(landings, request, mounts, changed);
    if i >= root.len() {
        planned_mounts_are_new(landings, request, mounts, changed, i - root.len());
        assert(apply_plan(landings, request, root_tip, mounts, changed)[i] == rest[i - root.len()]);
    }
}

proof fn planned_mounts_are_new(
    landings: Set<FactView>,
    request: int,
    mounts: Seq<(Seq<char>, Seq<char>)>,
    changed: Seq<bool>,
    i: int,
)
    requires
        0 <= i < planned_mounts(landings, request, mounts, changed).len(),
    ensures
        !has_fact(
            landings,
            request,
            source_key(planned_mounts(landings, request, mounts, changed)[i].0),
        ),
    decreases mounts.len(),
{
    if mounts.len() > 0 && changed.len() > 0 {
        let before = planned_mounts(landings, request, mounts.drop_last(), changed.drop_last());
        if i < before.len() {
            planned_mounts_are_new(landings, request, mounts.drop_last(), changed.drop_last(), i);
        }
    }
}

// ---------------------------------------------------------------------
// The line's bookmark and its lease.

/// The first mount called `name`.
pub open spec fn mount_named(mounts: Seq<Mount>, name: Seq<char>) -> Option<Mount>
    decreases mounts.len(),
{
    if mounts.len() == 0 {
        None
    } else if mounts[0].name@ == name {
        Some(mounts[0])
    } else {
        mount_named(mounts.drop_first(), name)
    }
}

/// The error of a source no mount carries.
pub open spec fn not_mounted(name: Seq<char>) -> ErrorView {
    ErrorView::Engine("no source is mounted at "@ + debug_quoted(name))
}

/// The mounted source called `name`.
pub fn find_mount<'a>(mounts: &'a Vec<Mount>, name: &str) -> (r: Result<&'a Mount, Error>)
    ensures
        r is Ok <==> mount_named(mounts@, name@) is Some,
        r is Ok ==> Some(*r->Ok_0) == mount_named(mounts@, name@),
        r is Err ==> (r->Err_0)@ == not_mounted(name@),
{
    let mut i: usize = 0;
    assert(mounts@.skip(0) =~= mounts@);
    while i < mounts.len()
        invariant
            i <= mounts@.len(),
            mount_named(mounts@, name@) == mount_named(mounts@.skip(i as int), name@),
        decreases mounts@.len() - i,
    {
        assert(mounts@.skip(i as int)[0] == mounts@[i as int]);
        assert(mounts@.skip(i as int).drop_first() =~= mounts@.skip(i + 1));
        if same(mounts[i].name.as_str(), name) {
            return Ok(&mounts[i]);
        }
        i = i + 1;
    }
    Err(Error::Engine(joined("no source is mounted at ", quoted(name).as_str())))
}

/// The bookmark a landing on the source moves: the adopted branch of a
/// mount that has one, the landed bookmark otherwise.
pub fn bookmark_for(mounts: &Vec<Mount>, source: &Option<String>) -> (r: Result<String, Error>)
    ensures
        source is None ==> r is Ok && (r->Ok_0)@ == LANDED_BOOKMARK@,
        source is Some ==> match mount_named(mounts@, (source->0)@) {
            None => r is Err && (r->Err_0)@ == not_mounted((source->0)@),
            Some(mount) => r is Ok && (r->Ok_0)@ == match mount.branch {
                Some(branch) => branch@,
                None => LANDED_BOOKMARK@,
            },
        },
{
    match source {
        None => Ok(owned(LANDED_BOOKMARK)),
        Some(name) => match find_mount(mounts, name.as_str()) {
            Ok(mount) => match &mount.branch {
                Some(branch) => Ok(owned(branch.as_str())),
                None => Ok(owned(LANDED_BOOKMARK)),
            },
            Err(error) => Err(error),
        },
    }
}

/// The lease point of a source's line.
pub open spec fn lease_point(source: Option<Seq<char>>) -> Seq<char> {
    match source {
        Some(name) => LANDING_LEASE_POINT@ + "/"@ + name,
        None => LANDING_LEASE_POINT@,
    }
}

/// The lease point of a source's line.
pub fn lease_point_of(source: &Option<String>) -> (r: String)
    ensures
        r@ == lease_point(opt_text(*source)),
{
    match source {
        Some(name) => {
            let mut out = joined(LANDING_LEASE_POINT, "/");
            out.push_str(name.as_str());
            out
        },
        None => owned(LANDING_LEASE_POINT),
    }
}

/// Different sources' lines have different lease points.
pub proof fn lease_points_differ(a: Option<Seq<char>>, b: Option<Seq<char>>)
    requires
        lease_point(a) == lease_point(b),
    ensures
        a == b,
{
    reveal_strlit("landing");
    reveal_strlit("/");
    let n = LANDING_LEASE_POINT@.len() as int;
    if a is Some {
        assert(lease_point(a)[n] == '/');
        assert(a->0 =~= lease_point(a).skip(n + 1));
    }
    if b is Some {
        assert(lease_point(b)[n] == '/');
        assert(b->0 =~= lease_point(b).skip(n + 1));
    }
}

/// Who claims a lease: the actor's name and the process id.
pub fn lease_holder(actor: &Actor, process: u32) -> (r: String)
    ensures
        r@ == actor.name@ + ":"@ + crate::words::decimal(process as nat),
{
    let mut out = joined(actor.name.as_str(), ":");
    out.push_str(crate::words::decimal_text(process as u64).as_str());
    out
}

/// The ledger with other leases.
pub open spec fn with_leases(ledger: LedgerView, leases: crate::lease::Leases) -> LedgerView {
    LedgerView { store: StoreView { leases, ..ledger.store }, ..ledger }
}

/// What a line's fence does: it refuses a superseded tenancy, and renews a
/// standing one.
pub open spec fn fenced(
    ledger: LedgerView,
    source: Option<Seq<char>>,
    holder: Seq<char>,
    epoch: int,
    now_ms: int,
    ttl_ms: int,
) -> (Option<ErrorView>, LedgerView) {
    let point = lease_point(source);
    if !(i64::MIN <= now_ms + ttl_ms <= i64::MAX) {
        (Some(expiry_overflow(now_ms, ttl_ms)), ledger)
    } else {
        let after = with_leases(
            ledger,
            renewed(ledger.store.leases, point, holder, epoch, now_ms + ttl_ms),
        );
        if in_tenancy(ledger.store.leases, point, holder, epoch) {
            (None, after)
        } else {
            (Some(ErrorView::LeaseSuperseded { point }), after)
        }
    }
}

impl Ledger {
    /// Claim the source's line for an apply: the epoch of the tenancy, or
    /// the refusal that names who holds the line.
    pub fn claim_line(&mut self, source: &Option<String>, holder: &str, now_ms: i64, ttl_ms: i64) -> (r:
        Result<i64, Error>)
        requires
            old(self).wf(),
        ensures
            final(self).wf(),
            !(i64::MIN <= now_ms + ttl_ms <= i64::MAX) ==> {
                &&& r is Err
                &&& (r->Err_0)@ == expiry_overflow(now_ms as int, ttl_ms as int)
                &&& final(self)@ == old(self)@
            },
            i64::MIN <= now_ms + ttl_ms <= i64::MAX ==> {
                let point = lease_point(opt_text(*source));
                let leases = old(self)@.store.leases;
                let free = claimable(leases, point, holder@, now_ms as int);
                &&& !free ==> {
                    &&& r is Err
                    &&& (r->Err_0)@ == (ErrorView::LeaseHeld {
                        holder: leases[point].holder,
                        expires_at_ms: leases[point].expires_at_ms,
                    })
                    &&& final(self)@ == old(self)@
                }
                &&& free && next_epoch(leases, point) <= i64::MAX ==> {
                    &&& r is Ok
                    &&& r->Ok_0 == next_epoch(leases, point)
                    &&& final(self)@ == with_leases(
                        old(self)@,
                        claimed(leases, point, holder@, now_ms + ttl_ms),
                    )
                }
                &&& free && next_epoch(leases, point) > i64::MAX ==> {
                    &&& r is Err
                    &&& (r->Err_0)@ == epochs_exhausted()
                    &&& final(self)@ == old(self)@
                }
            },
    {
        let point = lease_point_of(source);
        match self.store.claim_lease(point.as_str(), holder, now_ms, ttl_ms) {
            Ok(LeaseClaim::Held { epoch }) => Ok(epoch),
            Ok(LeaseClaim::HeldByOther { holder, expires_at_ms }) => Err(
                Error::LeaseHeld { holder, expires_at_ms },
            ),
            Err(error) => Err(error),
        }
    }

    /// The fence a leased line move runs at its last pure moment, after the
    /// long phases and before the first externally visible write. It renews
    /// a standing tenancy and refuses a superseded one; on refusal nothing
    /// has published.
    pub fn fence_line(
        &mut self,
        source: &Option<String>,
        holder: &str,
        epoch: i64,
        now_ms: i64,
        ttl_ms: i64,
    ) -> (r: Result<(), Error>)
        requires
            old(self).wf(),
        ensures
            final(self).wf(),
            r is Ok <==> fenced(
                old(self)@,
                opt_text(*source),
                holder@,
                epoch as int,
                now_ms as int,
                ttl_ms as int,
            ).0 is None,
            r is Err ==> Some((r->Err_0)@) == fenced(
                old(self)@,
                opt_text(*source),
                holder@,
                epoch as int,
                now_ms as int,
                ttl_ms as int,
            ).0,
            final(self)@ == fenced(
                old(self)@,
                opt_text(*source),
                holder@,
                epoch as int,
                now_ms as int,
                ttl_ms as int,
            ).1,
    {
        let point = lease_point_of(source);
        match self.store.renew_lease(point.as_str(), holder, epoch, now_ms, ttl_ms) {
            Ok(true) => Ok(()),
            Ok(false) => Err(Error::LeaseSuperseded { point }),
            Err(error) => Err(error),
        }
    }

    /// Give the line back after an apply.
    pub fn release_line(&mut self, source: &Option<String>, holder: &str, epoch: i64) -> (r: Result<
        (),
        Error,
    >)
        requires
            old(self).wf(),
        ensures
            final(self).wf(),
            ({
                let point = lease_point(opt_text(*source));
                let leases = old(self)@.store.leases;
                let spent = in_tenancy(leases, point, holder@, epoch as int) && epoch == i64::MAX;
                &&& spent ==> {
                    &&& r is Err
                    &&& (r->Err_0)@ == epochs_exhausted()
                    &&& final(self)@ == old(self)@
                }
                &&& !spent ==> {
                    &&& r is Ok
                    &&& final(self)@ == with_leases(
                        old(self)@,
                        released(leases, point, holder@, epoch as int),
                    )
                }
            }),
    {
        let point = lease_point_of(source);
        self.store.release_lease(point.as_str(), holder, epoch)
    }
}

// ---------------------------------------------------------------------
// What the ledger records of a line's outcome.

/// The ledger after a line parked on a conflict.
pub open spec fn after_line_parked(
    ledger: LedgerView,
    id: int,
    session_id: int,
    source: Option<Seq<char>>,
    approver: ActorView,
    at_ms: int,
) -> LedgerView {
    with_entry(
        ledger,
        entry_of(
            approver,
            Act::LandParked,
            Some(session_id),
            Some(scoped(source, request_label(id))),
            at_ms,
        ),
    )
}

/// The ledger after a line landed: the landing recorded with its source,
/// and journaled.
pub open spec fn after_line_landed(
    ledger: LedgerView,
    id: int,
    session_id: int,
    source: Option<Seq<char>>,
    snapshot: Seq<char>,
    approver: ActorView,
    at_ms: int,
) -> LedgerView {
    with_entry(
        LedgerView {
            store: StoreView {
                landings: ledger.store.landings.insert((id, source_key(source), snapshot)),
                ..ledger.store
            },
            ..ledger
        },
        entry_of(
            approver,
            Act::Land,
            Some(session_id),
            Some(scoped(source, two_words(request_label(id), snapshot))),
            at_ms,
        ),
    )
}

impl Ledger {
    /// Record what one line's apply did: a landing with its source, so
    /// nothing repeats it and nothing mistakes it for another line's; a
    /// conflict as a journal entry alone.
    pub fn record_line(
        &mut self,
        id: RequestId,
        session_id: SessionId,
        source: &Option<String>,
        outcome: &LandOutcome,
        approver: &Actor,
        at_ms: i64,
    ) -> (r: Result<(), Error>)
        requires
            old(self).wf(),
        ensures
            final(self).wf(),
            *outcome is Conflicted ==> {
                &&& r is Ok
                &&& final(self)@ == after_line_parked(
                    old(self)@,
                    id.0 as int,
                    session_id.0 as int,
                    opt_text(*source),
                    approver@,
                    at_ms as int,
                )
            },
            *outcome is Landed && !has_fact(
                old(self)@.store.landings,
                id.0 as int,
                source_key(opt_text(*source)),
            ) ==> {
                &&& r is Ok
                &&& final(self)@ == after_line_landed(
                    old(self)@,
                    id.0 as int,
                    session_id.0 as int,
                    opt_text(*source),
                    (outcome->snapshot)@,
                    approver@,
                    at_ms as int,
                )
            },
            *outcome is Landed && has_fact(
                old(self)@.store.landings,
                id.0 as int,
                source_key(opt_text(*source)),
            ) ==> {
                &&& r is Err
                &&& (r->Err_0)@ == duplicate_fact(
                    "request_landings.request_id, request_landings.source"@,
                )
                &&& final(self)@ == old(self)@
            },
    {
        match outcome {
            LandOutcome::Conflicted => {
                let reference = scoped_text(source, id.to_text().as_str());
                self.append_session_entry(
                    approver,
                    Act::LandParked,
                    session_id,
                    Some(reference),
                    at_ms,
                );
                Ok(())
            },
            LandOutcome::Landed { snapshot } => {
                match self.store.record_landing(id.0, source, snapshot.as_str()) {
                    Ok(_) => {},
                    Err(error) => return Err(error),
                }
                let named = two_words_text(id.to_text().as_str(), snapshot.as_str());
                let reference = scoped_text(source, named.as_str());
                self.append_session_entry(
                    approver,
                    Act::Land,
                    session_id,
                    Some(reference),
                    at_ms,
                );
                Ok(())
            },
        }
    }
}

// ---------------------------------------------------------------------
// Settling the request.

/// The ledger after every planned line landed: the request and its session
/// landed, unless the landing gate re-opened or the session was abandoned
/// meanwhile; the winner's state stands then.
pub open spec fn after_landed(ledger: LedgerView, id: int, session_id: int) -> LedgerView {
    match request_with(ledger.store.requests, id) {
        Some(row) => if row.state == RequestState::Approved {
            LedgerView {
                store: StoreView {
                    requests: requests_moved(
                        ledger.store.requests,
                        id,
                        seq![RequestState::Approved],
                        RequestState::Landed,
                    ),
                    sessions: sessions_moved(
                        ledger.store.sessions,
                        session_id,
                        SessionState::Open,
                        SessionState::Landed,
                    ),
                    ..ledger.store
                },
                ..ledger
            }
        } else {
            ledger
        },
        None => ledger,
    }
}

/// The ledger after a line parked: the landing gate closes until a new snapshot.
pub open spec fn after_parked(ledger: LedgerView, id: int) -> LedgerView {
    LedgerView {
        store: StoreView {
            requests: requests_moved(
                ledger.store.requests,
                id,
                seq![RequestState::Approved],
                RequestState::Parked,
            ),
            ..ledger.store
        },
        ..ledger
    }
}

/// The request's recorded landings, as an outcome lists them.
pub open spec fn recorded_landings(store: StoreView, id: int) -> Seq<(Option<Seq<char>>, Seq<char>)> {
    source_list(store.landings, id).map_values(
        |landing: (Seq<char>, Seq<char>)|
            (crate::coordination::source_of_key(landing.0), landing.1),
    )
}

/// Landings with the root's first, the others in their order.
pub open spec fn landings_first_root(landings: Seq<(Option<Seq<char>>, Seq<char>)>) -> Seq<
    (Option<Seq<char>>, Seq<char>),
> {
    landings_where(landings, true) + landings_where(landings, false)
}

/// The landings of the root, or those of the mounts.
pub open spec fn landings_where(landings: Seq<(Option<Seq<char>>, Seq<char>)>, root: bool) -> Seq<
    (Option<Seq<char>>, Seq<char>),
>
    decreases landings.len(),
{
    if landings.len() == 0 {
        landings
    } else if (landings.last().0 is None) == root {
        landings_where(landings.drop_last(), root).push(landings.last())
    } else {
        landings_where(landings.drop_last(), root)
    }
}

/// The landings with the root's first, the others in their order.
pub fn root_first(landings: Vec<Landing>) -> (r: Vec<Landing>)
    ensures
        landing_views(r@) == landings_first_root(landing_views(landings@)),
{
    let ghost all = landing_views(landings@);
    let mut roots: Vec<Landing> = Vec::new();
    let mut mounts: Vec<Landing> = Vec::new();
    let mut i: usize = 0;
    assert(all.take(0) =~= Seq::<(Option<Seq<char>>, Seq<char>)>::empty());
    assert(landing_views(roots@) =~= landings_where(all.take(0), true));
    assert(landing_views(mounts@) =~= landings_where(all.take(0), false));
    while i < landings.len()
        invariant
            i <= landings@.len(),
            all == landing_views(landings@),
            landing_views(roots@) == landings_where(all.take(i as int), true),
            landing_views(mounts@) == landings_where(all.take(i as int), false),
        decreases landings@.len() - i,
    {
        let ghost seen_roots = landing_views(roots@);
        let ghost seen_mounts = landing_views(mounts@);
        let landing = Landing {
            source: owned_opt(&landings[i].source),
            snapshot: owned(landings[i].snapshot.as_str()),
        };
        let ghost view = landing@;
        assert(view == all[i as int]);
        assert(all.take(i + 1).drop_last() =~= all.take(i as int));
        assert(all.take(i + 1).last() == view);
        if landing.source.is_none() {
            roots.push(landing);
            assert(landing_views(roots@) =~= seen_roots.push(view));
        } else {
            mounts.push(landing);
            assert(landing_views(mounts@) =~= seen_mounts.push(view));
        }
        i = i + 1;
    }
    assert(all.take(all.len() as int) =~= all);
    let ghost first = landing_views(roots@);
    let ghost second = landing_views(mounts@);
    roots.append(&mut mounts);
    assert(landing_views(roots@) =~= first + second);
    roots
}

/// The sources of a list.
pub open spec fn source_names(sources: Seq<Option<String>>) -> Seq<Option<Seq<char>>> {
    sources.map_values(|source: Option<String>| opt_text(source))
}

impl Ledger {
    /// The landings recorded for the request, in source order.
    pub fn landings_of(&self, id: RequestId) -> (r: Vec<Landing>)
        requires
            self.wf(),
        ensures
            landing_views(r@) == recorded_landings(self@.store, id.0 as int),
    {
        let rows = self.store.landings(id.0);
        let ghost list = keyed(rows@);
        let ghost expected = recorded_landings(self@.store, id.0 as int);
        proof {
            source_list_is(self@.store.landings, id.0 as int, list);
        }
        let mut out: Vec<Landing> = Vec::new();
        let mut i: usize = 0;
        while i < rows.len()
            invariant
                i <= rows@.len(),
                list == keyed(rows@),
                expected == list.map_values(
                    |landing: (Seq<char>, Seq<char>)|
                        (crate::coordination::source_of_key(landing.0), landing.1),
                ),
                forall|k: int|
                    0 <= k < rows@.len() ==> opt_text((#[trigger] rows@[k]).0) != Some(
                        crate::config::ROOT_MOUNT@,
                    ),
                landing_views(out@) == expected.take(i as int),
            decreases rows@.len() - i,
        {
            let ghost seen = landing_views(out@);
            let landing = Landing {
                source: owned_opt(&rows[i].0),
                snapshot: owned(rows[i].1.as_str()),
            };
            proof {
                assert(list[i as int] == (source_key(opt_text(rows@[i as int].0)), rows@[i as int].1@));
                crate::coordination::source_key_round_trips(opt_text(rows@[i as int].0));
                assert(landing@ == expected[i as int]);
            }
            out.push(landing);
            assert(landing_views(out@) =~= seen.push(expected[i as int]));
            assert(expected.take(i + 1) =~= expected.take(i as int).push(expected[i as int]));
            i = i + 1;
        }
        assert(expected.take(expected.len() as int) =~= expected);
        out
    }

    /// Settle the request once every planned line has been tried: landed
    /// when none parked, parked otherwise. What landed stands either way.
    pub fn settle(&mut self, id: RequestId, session_id: SessionId, parked: Vec<Option<String>>) -> (r:
        Result<GateOutcome, Error>)
        requires
            old(self).wf(),
        ensures
            final(self).wf(),
            parked@.len() == 0 ==> {
                &&& r is Ok
                &&& r->Ok_0 is Landed
                &&& landing_views((r->Ok_0->Landed_landings)@) == recorded_landings(
                    old(self)@.store,
                    id.0 as int,
                )
                &&& final(self)@ == after_landed(old(self)@, id.0 as int, session_id.0 as int)
            },
            parked@.len() > 0 ==> {
                &&& final(self)@ == after_parked(old(self)@, id.0 as int)
                &&& r is Ok <==> request_with(old(self)@.store.requests, id.0 as int) is Some
                &&& r is Err ==> (r->Err_0)@ == ErrorView::RequestNotFound(
                    request_label(id.0 as int),
                )
                &&& r is Ok ==> {
                    &&& r->Ok_0 is Parked
                    &&& (r->Ok_0->Parked_request)@ == request_view(
                        final(self)@.store,
                        request_with(final(self)@.store.requests, id.0 as int)->0,
                    )
                    &&& landing_views((r->Ok_0->Parked_landings)@) == recorded_landings(
                        old(self)@.store,
                        id.0 as int,
                    )
                    &&& r->Ok_0->parked == parked
                }
            },
    {
        let ghost before = self@;
        let landings = self.landings_of(id);
        let from = [RequestState::Approved];
        assert(from@ =~= seq![RequestState::Approved]);
        if parked.len() == 0 {
            let moved = self.store.move_request_state(id.0, &from, RequestState::Landed);
            assert(moved == (request_with(before.store.requests, id.0 as int) is Some && (
            request_with(before.store.requests, id.0 as int)->0).state == RequestState::Approved))
                by {
                assert(seq![RequestState::Approved][0] == RequestState::Approved);
            }
            if moved {
                let _closed = self.store.move_session_state(
                    session_id.0,
                    SessionState::Open,
                    SessionState::Landed,
                );
            }
            assert(self@ =~= after_landed(before, id.0 as int, session_id.0 as int));
            return Ok(GateOutcome::Landed { landings });
        }
        let _moved = self.store.move_request_state(id.0, &from, RequestState::Parked);
        assert(self@ =~= after_parked(before, id.0 as int));
        proof {
            request_with_moved(
                before.store.requests,
                id.0 as int,
                seq![RequestState::Approved],
                RequestState::Parked,
                id.0 as int,
            );
        }
        match self.request(id) {
            Ok(request) => Ok(GateOutcome::Parked { request, landings, parked }),
            Err(error) => Err(error),
        }
    }
}

// ---------------------------------------------------------------------
// The walk over the plan.

/// An apply under way: the plan, how far it has come, and the sources that
/// parked so far.
pub struct ApplyRun {
    plan: Vec<(Option<String>, String)>,
    next: usize,
    parked: Vec<Option<String>>,
}

impl ApplyRun {
    /// The lines planned.
    pub closed spec fn plan(self) -> Seq<(Option<Seq<char>>, Seq<char>)> {
        plan_views(self.plan@)
    }

    /// How many lines have been tried.
    pub closed spec fn tried(self) -> int {
        self.next as int
    }

    /// The sources that parked, in the order they were tried.
    pub closed spec fn parked(self) -> Seq<Option<Seq<char>>> {
        source_names(self.parked@)
    }

    /// Whether the run has not passed its plan.
    pub closed spec fn wf(self) -> bool {
        self.next <= self.plan@.len()
    }

    /// An apply that has tried nothing yet.
    pub fn start(plan: Vec<(Option<String>, String)>) -> (r: Self)
        ensures
            r.wf(),
            r.plan() == plan_views(plan@),
            r.tried() == 0,
            r.parked() == Seq::<Option<Seq<char>>>::empty(),
    {
        let r = ApplyRun { plan, next: 0, parked: Vec::new() };
        assert(r.parked() =~= Seq::<Option<Seq<char>>>::empty());
        r
    }

    /// The next line to try, `None` when the plan is done.
    pub fn next_line(&self) -> (r: Option<(Option<String>, String)>)
        requires
            self.wf(),
        ensures
            r is None <==> self.tried() == self.plan().len(),
            r is Some ==> (opt_text((r->0).0), (r->0).1@) == self.plan()[self.tried()],
    {
        if self.next == self.plan.len() {
            return None;
        }
        let step = &self.plan[self.next];
        Some((owned_opt(&step.0), owned(step.1.as_str())))
    }

    /// Take note of what the line just tried did.
    pub fn note(&mut self, outcome: &LandOutcome)
        requires
            old(self).wf(),
            old(self).tried() < old(self).plan().len(),
        ensures
            final(self).wf(),
            final(self).plan() == old(self).plan(),
            final(self).tried() == old(self).tried() + 1,
            *outcome is Landed ==> final(self).parked() == old(self).parked(),
            *outcome is Conflicted ==> final(self).parked() == old(self).parked().push(
                old(self).plan()[old(self).tried()].0,
            ),
    {
        let ghost before = self.parked();
        let total = self.plan.len();
        assert(self.next < total);
        match outcome {
            LandOutcome::Landed { .. } => {},
            LandOutcome::Conflicted => {
                let source = owned_opt(&self.plan[self.next].0);
                self.parked.push(source);
                assert(self.parked() =~= before.push(self.plan()[self.tried()].0));
            },
        }
        self.next = self.next + 1;
    }

    /// The sources that parked.
    pub fn into_parked(self) -> (r: Vec<Option<String>>)
        ensures
            source_names(r@) == self.parked(),
    {
        self.parked
    }
}

/// A mount's tip is the one given under its name, and there is none exactly
/// where no mount has it.
pub proof fn tips_are_found(mounts: Seq<(Seq<char>, Seq<char>)>, name: Seq<char>)
    ensures
        mount_tip(mounts, name) is None <==> forall|i: int|
            #![trigger mounts[i]]
            0 <= i < mounts.len() ==> mounts[i].0 != name,
        mount_tip(mounts, name) is Some ==> exists|i: int|
            #![trigger mounts[i]]
            0 <= i < mounts.len() && mounts[i] == (name, mount_tip(mounts, name)->0) && forall|
                j: int,
            |
                #![trigger mounts[j]]
                0 <= j < i ==> mounts[j].0 != name,
    decreases mounts.len(),
{
    if mounts.len() > 0 && mounts[0].0 != name {
        let rest = mounts.drop_first();
        tips_are_found(rest, name);
        if mount_tip(rest, name) is Some {
            let i = choose|i: int|
                #![trigger rest[i]]
                0 <= i < rest.len() && rest[i] == (name, mount_tip(rest, name)->0) && forall|j: int|
                    #![trigger rest[j]]
                    0 <= j < i ==> rest[j].0 != name;
            assert(mounts[i + 1] == rest[i]);
            assert forall|j: int| #![trigger mounts[j]] 0 <= j < i + 1 implies mounts[j].0
                != name by {
                if j > 0 {
                    assert(mounts[j] == rest[j - 1]);
                }
            }
        } else {
            assert forall|j: int| #![trigger mounts[j]] 0 <= j < mounts.len() implies mounts[j].0
                != name by {
                if j > 0 {
                    assert(mounts[j] == rest[j - 1]);
                }
            }
        }
    } else if mounts.len() > 0 {
        assert(mounts[0] == (name, mounts[0].1));
    }
}

/// A mount is found by its name, and there is none exactly where no mount
/// has it.
pub proof fn mounts_are_found(mounts: Seq<Mount>, name: Seq<char>)
    ensures
        mount_named(mounts, name) is None <==> forall|i: int|
            #![trigger mounts[i]]
            0 <= i < mounts.len() ==> mounts[i].name@ != name,
        mount_named(mounts, name) is Some ==> mounts.contains(mount_named(mounts, name)->0) && (
        mount_named(mounts, name)->0).name@ == name,
    decreases mounts.len(),
{
    if mounts.len() > 0 && mounts[0].name@ != name {
        let rest = mounts.drop_first();
        mounts_are_found(rest, name);
        if mount_named(rest, name) is Some {
            let i = choose|i: int|
                0 <= i < rest.len() && rest[i] == mount_named(rest, name)->0;
            assert(mounts[i + 1] == rest[i]);
        } else {
            assert forall|j: int| #![trigger mounts[j]] 0 <= j < mounts.len() implies
                mounts[j].name@ != name by {
                if j > 0 {
                    assert(mounts[j] == rest[j - 1]);
                }
            }
        }
    } else if mounts.len() > 0 {
        assert(mounts.contains(mounts[0]));
    }
}

/// A fenced line goes on exactly while its lease is the holder's under that
/// epoch: it is kept on from now; else the line is told that its lease is
/// superseded, and nothing changes.
pub proof fn fences_hold_back_the_superseded(
    ledger: LedgerView,
    source: Option<Seq<char>>,
    holder: Seq<char>,
    epoch: int,
    now_ms: int,
    ttl_ms: int,
)
    requires
        i64::MIN <= now_ms + ttl_ms <= i64::MAX,
    ensures
        ({
            let point = lease_point(source);
            let leases = ledger.store.leases;
            let (refusal, after) = fenced(ledger, source, holder, epoch, now_ms, ttl_ms);
            let holds = leases.dom().contains(point) && leases[point].holder == holder
                && leases[point].epoch == epoch;
            &&& refusal is None <==> holds
            &&& !holds ==> refusal == Some(ErrorView::LeaseSuperseded { point }) && after == ledger
            &&& holds ==> after == LedgerView {
                store: StoreView { leases: after.store.leases, ..ledger.store },
                ..ledger
            } && after.store.leases == leases.insert(point, after.store.leases[point])
                && after.store.leases[point].holder == holder && after.store.leases[point].epoch
                == epoch && after.store.leases[point].expires_at_ms == now_ms + ttl_ms
        }),
{
}

/// A request's landings are read back as recorded, by name, each of its
/// source: the one under `/` is the root's.
pub proof fn landings_read_as_recorded(
    store: StoreView,
    id: int,
    list: Seq<(Seq<char>, Seq<char>)>,
)
    requires
        in_source_order(store.landings, id, list),
    ensures
        recorded_landings(store, id).len() == list.len(),
        forall|k: int|
            #![trigger list[k]]
            0 <= k < list.len() ==> recorded_landings(store, id)[k].1 == list[k].1 && (
            recorded_landings(store, id)[k].0 is None <==> list[k].0 == seq!['/']) && (
            recorded_landings(store, id)[k].0 is Some ==> recorded_landings(store, id)[k].0
                == Some(list[k].0)),
{
    reveal_strlit("/");
    assert("/"@ =~= seq!['/']);
    source_list_is(store.landings, id, list);
}

} // verus!
