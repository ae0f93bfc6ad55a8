//! The landing lease: who may move a line, and the fence that keeps a
//! superseded holder from moving it late.

use vstd::prelude::*;

verus! {

/// One point's lease as stored: its holder, when it expires, and the epoch
/// of its tenancy.
#[derive(Debug, Clone, PartialEq, Eq)]
pub struct LeaseRow {
    pub holder: String,
    pub expires_at_ms: i64,
    pub epoch: i64,
}

/// What a [`LeaseRow`] says.
pub struct LeaseView {
    pub holder: Seq<char>,
    pub expires_at_ms: int,
    pub epoch: int,
}

impl View for LeaseRow {
    type V = LeaseView;

    open spec fn view(&self) -> LeaseView {
        LeaseView {
            holder: self.holder@,
            expires_at_ms: self.expires_at_ms as int,
            epoch: self.epoch as int,
        }
    }
}

/// What one attempt to claim a lease produced. A successful claim opens a
/// new tenancy: the point's epoch bumps, and the epoch is the fencing token
/// every leased line move re-validates before publishing.
#[derive(Debug, Clone, PartialEq, Eq)]
pub enum LeaseClaim {
    /// The claimant holds the point, in the tenancy `epoch` names.
    Held { epoch: i64 },
    /// Another holder's tenancy has not expired.
    HeldByOther { holder: String, expires_at_ms: i64 },
}

/// The leases of every point.
pub type Leases = Map<Seq<char>, LeaseView>;

/// Whether `holder` may claim `point` at `now_ms`: the point is free, its
/// tenancy expired, or it is already this holder's.
pub open spec fn claimable(leases: Leases, point: Seq<char>, holder: Seq<char>, now_ms: int) -> bool {
    !leases.dom().contains(point) || leases[point].expires_at_ms <= now_ms || leases[point].holder
        == holder
}

/// The epoch the next tenancy of `point` gets: one past the last, or one.
pub open spec fn next_epoch(leases: Leases, point: Seq<char>) -> int {
    if leases.dom().contains(point) {
        leases[point].epoch + 1
    } else {
        1
    }
}

/// The leases after `holder` claimed `point` until `expires_at_ms`.
pub open spec fn claimed(
    leases: Leases,
    point: Seq<char>,
    holder: Seq<char>,
    expires_at_ms: int,
) -> Leases {
    leases.insert(
        point,
        LeaseView { holder, expires_at_ms, epoch: next_epoch(leases, point) },
    )
}

/// Whether `(holder, epoch)` is the tenancy `point` is in.
pub open spec fn in_tenancy(leases: Leases, point: Seq<char>, holder: Seq<char>, epoch: int) -> bool {
    leases.dom().contains(point) && leases[point].holder == holder && leases[point].epoch == epoch
}

/// The leases after the tenancy `(holder, epoch)` of `point` was extended;
/// unchanged when that is not the point's tenancy.
pub open spec fn renewed(
    leases: Leases,
    point: Seq<char>,
    holder: Seq<char>,
    epoch: int,
    expires_at_ms: int,
) -> Leases {
    if in_tenancy(leases, point, holder, epoch) {
        leases.insert(point, LeaseView { holder, expires_at_ms, epoch })
    } else {
        leases
    }
}

/// The leases after the tenancy `(holder, epoch)` of `point` ended: the row
/// stays, expired, and the epoch burns; unchanged when that is not the
/// point's tenancy.
pub open spec fn released(leases: Leases, point: Seq<char>, holder: Seq<char>, epoch: int) -> Leases {
    if in_tenancy(leases, point, holder, epoch) {
        leases.insert(point, LeaseView { holder, expires_at_ms: 0, epoch: epoch + 1 })
    } else {
        leases
    }
}

// ---------------------------------------------------------------------
// What holds of every run of claims, renewals and releases.

/// One thing that can happen to the leases.
pub enum LeaseStep {
    Claim { point: Seq<char>, holder: Seq<char>, now_ms: int, expires_at_ms: int },
    Renew { point: Seq<char>, holder: Seq<char>, epoch: int, expires_at_ms: int },
    Release { point: Seq<char>, holder: Seq<char>, epoch: int },
}

/// The leases after one step.
pub open spec fn after_step(leases: Leases, step: LeaseStep) -> Leases {
    match step {
        LeaseStep::Claim { point, holder, now_ms, expires_at_ms } => if claimable(
            leases,
            point,
            holder,
            now_ms,
        ) {
            claimed(leases, point, holder, expires_at_ms)
        } else {
            leases
        },
        LeaseStep::Renew { point, holder, epoch, expires_at_ms } => renewed(
            leases,
            point,
            holder,
            epoch,
            expires_at_ms,
        ),
        LeaseStep::Release { point, holder, epoch } => released(leases, point, holder, epoch),
    }
}

/// The leases after a run of steps.
pub open spec fn after_steps(leases: Leases, steps: Seq<LeaseStep>) -> Leases
    decreases steps.len(),
{
    if steps.len() == 0 {
        leases
    } else {
        after_step(after_steps(leases, steps.drop_last()), steps.last())
    }
}

/// The point a step is about.
pub open spec fn step_point(step: LeaseStep) -> Seq<char> {
    match step {
        LeaseStep::Claim { point, .. } => point,
        LeaseStep::Renew { point, .. } => point,
        LeaseStep::Release { point, .. } => point,
    }
}

/// Whether the point has moved past the tenancy `epoch`.
pub open spec fn burned(leases: Leases, point: Seq<char>, epoch: int) -> bool {
    leases.dom().contains(point) && leases[point].epoch > epoch
}

/// A successful claim supersedes every earlier tenancy of the point, and
/// opens one of its own.
pub proof fn claim_supersedes(
    leases: Leases,
    point: Seq<char>,
    holder: Seq<char>,
    expires_at_ms: int,
    epoch: int,
)
    requires
        leases.dom().contains(point) ==> epoch <= leases[point].epoch,
        !leases.dom().contains(point) ==> epoch <= 0,
    ensures
        burned(claimed(leases, point, holder, expires_at_ms), point, epoch),
        in_tenancy(
            claimed(leases, point, holder, expires_at_ms),
            point,
            holder,
            next_epoch(leases, point),
        ),
{
}

/// A release ends its tenancy for good: the epoch burns.
pub proof fn release_burns(leases: Leases, point: Seq<char>, holder: Seq<char>, epoch: int)
    requires
        in_tenancy(leases, point, holder, epoch),
    ensures
        burned(released(leases, point, holder, epoch), point, epoch),
{
}

/// Once a tenancy is superseded its fence can never validate again,
/// whatever happens to the leases afterwards.
pub proof fn superseded_stays_superseded(
    leases: Leases,
    steps: Seq<LeaseStep>,
    point: Seq<char>,
    holder: Seq<char>,
    epoch: int,
)
    requires
        burned(leases, point, epoch),
    ensures
        burned(after_steps(leases, steps), point, epoch),
        !in_tenancy(after_steps(leases, steps), point, holder, epoch),
        forall|expires_at_ms: int|
            renewed(after_steps(leases, steps), point, holder, epoch, expires_at_ms)
                == after_steps(leases, steps),
    decreases steps.len(),
{
    if steps.len() > 0 {
        superseded_stays_superseded(leases, steps.drop_last(), point, holder, epoch);
    }
}

/// Landing points are independent: a step about one point leaves every
/// other point's lease as it was.
pub proof fn points_are_independent(leases: Leases, step: LeaseStep, other: Seq<char>)
    requires
        other != step_point(step),
    ensures
        after_step(leases, step).dom().contains(other) == leases.dom().contains(other),
        leases.dom().contains(other) ==> after_step(leases, step)[other] == leases[other],
{
}

/// While a tenancy has not expired, no other holder's claim takes the
/// point.
pub proof fn unexpired_tenancy_excludes(
    leases: Leases,
    point: Seq<char>,
    holder: Seq<char>,
    rival: Seq<char>,
    epoch: int,
    now_ms: int,
    expires_at_ms: int,
)
    requires
        in_tenancy(leases, point, holder, epoch),
        now_ms < leases[point].expires_at_ms,
        rival != holder,
    ensures
        after_step(leases, LeaseStep::Claim { point, holder: rival, now_ms, expires_at_ms })
            == leases,
{
}

/// Expiry alone is a non-event: a tenancy nobody superseded renews, however
/// late.
pub proof fn expired_tenancy_renews(
    leases: Leases,
    point: Seq<char>,
    holder: Seq<char>,
    epoch: int,
    expires_at_ms: int,
)
    requires
        in_tenancy(leases, point, holder, epoch),
    ensures
        in_tenancy(
            renewed(leases, point, holder, epoch, expires_at_ms),
            point,
            holder,
            epoch,
        ),
        renewed(leases, point, holder, epoch, expires_at_ms)[point].expires_at_ms == expires_at_ms,
{
}

/// A point is in one tenancy at a time.
pub proof fn one_tenancy_per_point(
    leases: Leases,
    point: Seq<char>,
    a: Seq<char>,
    a_epoch: int,
    b: Seq<char>,
    b_epoch: int,
)
    requires
        in_tenancy(leases, point, a, a_epoch),
        in_tenancy(leases, point, b, b_epoch),
    ensures
        a == b,
        a_epoch == b_epoch,
{
}

/// A point is claimed exactly when nobody holds it, its time is up, or the
/// claimant holds it already; it is then the claimant's until the new expiry,
/// under an epoch one past every earlier one. A refused claim changes nothing.
pub proof fn claims_take_what_is_free(
    leases: Leases,
    point: Seq<char>,
    holder: Seq<char>,
    now_ms: int,
    expires_at_ms: int,
)
    ensures
        ({
            let after = after_step(
                leases,
                LeaseStep::Claim { point, holder, now_ms, expires_at_ms },
            );
            let free = !leases.dom().contains(point) || leases[point].expires_at_ms <= now_ms
                || leases[point].holder == holder;
            &&& claimable(leases, point, holder, now_ms) <==> free
            &&& !free ==> after == leases
            &&& free ==> after.dom().contains(point) && after[point].holder == holder
                && after[point].expires_at_ms == expires_at_ms && after[point].epoch
                == if leases.dom().contains(point) {
                leases[point].epoch + 1
            } else {
                1
            }
            &&& free ==> after == leases.insert(point, after[point])
        }),
{
}

/// A tenancy is kept on and given up only by the holder of the point's
/// epoch: a renewal moves its expiry and nothing else, and a release leaves
/// the point free to anybody at once, under an epoch nobody holds.
pub proof fn only_holders_renew_and_release(
    leases: Leases,
    point: Seq<char>,
    holder: Seq<char>,
    epoch: int,
    expires_at_ms: int,
)
    ensures
        ({
            let holds = leases.dom().contains(point) && leases[point].holder == holder
                && leases[point].epoch == epoch;
            let kept = renewed(leases, point, holder, epoch, expires_at_ms);
            let given_up = released(leases, point, holder, epoch);
            &&& in_tenancy(leases, point, holder, epoch) <==> holds
            &&& !holds ==> kept == leases && given_up == leases
            &&& holds ==> kept == leases.insert(
                point,
                LeaseView { expires_at_ms, ..leases[point] },
            )
            &&& holds ==> given_up == leases.insert(point, given_up[point])
                && given_up[point].holder == holder && given_up[point].epoch == epoch + 1
                && given_up[point].expires_at_ms == 0
            &&& holds ==> forall|rival: Seq<char>, now_ms: int|
                now_ms >= 0 ==> #[trigger] claimable(given_up, point, rival, now_ms)
        }),
{
}

} // verus!
