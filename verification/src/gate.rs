//! The landing gate: landing requests gather approvals under the workspace's
//! landing policy, react to new snapshots, and close.

use crate::config::{Actor, ActorKind, ActorView, LandingPolicy};
use crate::coordination::{
    ApprovalRow,
    ApprovalRowView,
    RequestRow,
    RequestRowView,
    StoreView,
    approval_row_views,
    dismissed,
    fresh_request,
    gated_with,
    ids_exhausted,
    live,
    request_with,
    requests_moved,
    session_with,
    sessions_moved,
};
use crate::error::{Error, ErrorView};
use crate::journal::Act;
use crate::landing::{GateOutcome, LandingRequest, RequestId, RequestState, request_label};
use crate::ledger::{
    Ledger,
    LedgerView,
    entry_of,
    gate_refusal,
    recorded_views,
    request_view,
    scoped,
    scoped_text,
    session_actor,
    session_refusal,
    session_view,
    two_words,
    two_words_text,
    with_entry,
};
use crate::session::{Session, SessionId, SessionState};
use crate::words::{opt_text, same};
use vstd::prelude::*;

verus! {

// ---------------------------------------------------------------------
// A new snapshot on a session's change.

/// The ledger after a new snapshot on the session's change ran the landing gate's
/// side effects: the gated request's approvals are dismissed where policy
/// says so, and an approved or parked request re-opens.
pub open spec fn gate_after_snapshot(
    ledger: LedgerView,
    session_id: int,
    actor: ActorView,
    snapshot: Seq<char>,
    dismiss: bool,
    at_ms: int,
) -> LedgerView {
    match gated_with(ledger.store.requests, session_id) {
        None => ledger,
        Some(request) => {
            let counting = live(ledger.store.approvals, request.id);
            let noted = if dismiss && counting.len() > 0 {
                with_entry(
                    ledger,
                    entry_of(
                        actor,
                        Act::ApprovalsDismissed,
                        Some(session_id),
                        Some(two_words(request_label(request.id), snapshot)),
                        at_ms,
                    ),
                )
            } else {
                ledger
            };
            LedgerView {
                store: StoreView {
                    approvals: if dismiss {
                        dismissed(ledger.store.approvals, request.id)
                    } else {
                        ledger.store.approvals
                    },
                    requests: requests_moved(
                        ledger.store.requests,
                        request.id,
                        seq![RequestState::Approved, RequestState::Parked],
                        RequestState::Open,
                    ),
                    ..ledger.store
                },
                ..noted
            }
        },
    }
}

/// The ledger after each new snapshot of `recorded` on the session's change
/// was journaled and ran the landing gate's side effects, in turn.
pub open spec fn after_session_snapshots(
    ledger: LedgerView,
    session_id: int,
    actor: ActorView,
    recorded: Seq<(Option<Seq<char>>, Seq<char>)>,
    dismiss: bool,
    at_ms: int,
) -> LedgerView
    decreases recorded.len(),
{
    if recorded.len() == 0 {
        ledger
    } else {
        let (source, snapshot) = recorded.last();
        let before = after_session_snapshots(
            ledger,
            session_id,
            actor,
            recorded.drop_last(),
            dismiss,
            at_ms,
        );
        gate_after_snapshot(
            with_entry(
                before,
                entry_of(
                    actor,
                    Act::Snapshot,
                    Some(session_id),
                    Some(scoped(source, snapshot)),
                    at_ms,
                ),
            ),
            session_id,
            actor,
            snapshot,
            dismiss,
            at_ms,
        )
    }
}

/// A gated request is one of the session's, still holding the landing gate.
pub proof fn gated_with_is_gated(rows: Seq<RequestRowView>, session_id: int)
    requires
        gated_with(rows, session_id) is Some,
    ensures
        exists|i: int|
            #![trigger rows[i]]
            0 <= i < rows.len() && gated_with(rows, session_id) == Some(rows[i]) && rows[i].session_id
                == session_id && crate::coordination::is_gated(rows[i].state),
    decreases rows.len(),
{
    if rows.last().session_id == session_id && crate::coordination::is_gated(rows.last().state) {
        assert(rows[rows.len() - 1] == rows.last());
    } else {
        let rest = rows.drop_last();
        gated_with_is_gated(rest, session_id);
        let i = choose|i: int|
            #![trigger rest[i]]
            0 <= i < rest.len() && gated_with(rest, session_id) == Some(rest[i])
                && rest[i].session_id == session_id && crate::coordination::is_gated(rest[i].state);
        assert(rows[i] == rest[i]);
    }
}

impl Ledger {
    /// Run the landing gate's side effects of a new snapshot on the session's
    /// change. A new snapshot re-opens the landing gate: an approved apply no
    /// longer covers the change, a parked conflict may now be resolved.
    pub fn gate_reacts_to_snapshot(
        &mut self,
        session_id: SessionId,
        actor: &Actor,
        snapshot: &str,
        dismiss: bool,
        at_ms: i64,
    )
        requires
            old(self).wf(),
        ensures
            final(self).wf(),
            final(self)@ == gate_after_snapshot(
                old(self)@,
                session_id.0 as int,
                actor@,
                snapshot@,
                dismiss,
                at_ms as int,
            ),
    {
        let ghost before = self@;
        let request = match self.store.gated_request_for_session(session_id.0) {
            Some(request) => request,
            None => return ,
        };
        if dismiss {
            let count = self.store.dismiss_approvals(request.id);
            if count > 0 {
                let reference = two_words_text(
                    RequestId(request.id).to_text().as_str(),
                    snapshot,
                );
                self.append_session_entry(
                    actor,
                    Act::ApprovalsDismissed,
                    session_id,
                    Some(reference),
                    at_ms,
                );
            }
        }
        let from = [RequestState::Approved, RequestState::Parked];
        let ghost noted = self@;
        let _moved = self.store.move_request_state(request.id, &from, RequestState::Open);
        proof {
            assert(from@ =~= seq![RequestState::Approved, RequestState::Parked]);
            assert(self@ =~= gate_after_snapshot(
                before,
                session_id.0 as int,
                actor@,
                snapshot@,
                dismiss,
                at_ms as int,
            ));
        }
    }

    /// Journal the new snapshots on the session's change, and run the
    /// gate's side effects of each.
    pub fn record_session_snapshots(
        &mut self,
        session_id: SessionId,
        actor: &Actor,
        recorded: &Vec<(Option<String>, String)>,
        dismiss: bool,
        at_ms: i64,
    )
        requires
            old(self).wf(),
        ensures
            final(self).wf(),
            final(self)@ == after_session_snapshots(
                old(self)@,
                session_id.0 as int,
                actor@,
                recorded_views(recorded@),
                dismiss,
                at_ms as int,
            ),
    {
        let ghost before = self@;
        let ghost all = recorded_views(recorded@);
        let mut i: usize = 0;
        assert(all.take(0) =~= Seq::<(Option<Seq<char>>, Seq<char>)>::empty());
        while i < recorded.len()
            invariant
                i <= recorded@.len(),
                self.wf(),
                all == recorded_views(recorded@),
                self@ == after_session_snapshots(
                    before,
                    session_id.0 as int,
                    actor@,
                    all.take(i as int),
                    dismiss,
                    at_ms as int,
                ),
            decreases recorded@.len() - i,
        {
            let reference = scoped_text(&recorded[i].0, recorded[i].1.as_str());
            self.append_session_entry(actor, Act::Snapshot, session_id, Some(reference), at_ms);
            self.gate_reacts_to_snapshot(
                session_id,
                actor,
                recorded[i].1.as_str(),
                dismiss,
                at_ms,
            );
            assert(all.take(i + 1).drop_last() =~= all.take(i as int));
            assert(all.take(i + 1).last() == all[i as int]);
            i = i + 1;
        }
        assert(all.take(all.len() as int) =~= all);
    }
}

// ---------------------------------------------------------------------
// Opening a request.

/// The ledger after the session opened a landing request.
pub open spec fn after_request(
    ledger: LedgerView,
    session_id: int,
    requester: ActorView,
    at_ms: int,
) -> LedgerView {
    let id = ledger.store.last_request + 1;
    with_entry(
        LedgerView {
            store: StoreView {
                requests: ledger.store.requests.push(
                    fresh_request(id, session_id, requester, at_ms),
                ),
                last_request: id,
                ..ledger.store
            },
            ..ledger
        },
        entry_of(
            requester,
            Act::LandRequest,
            Some(session_id),
            Some(request_label(id)),
            at_ms,
        ),
    )
}

impl Ledger {
    /// Open the session's landing request: the landing gate's object, never a
    /// direct write, asked for by the session's own actor. Asking again
    /// returns the request already holding its gate; a session that is not
    /// open refuses.
    pub fn request_land(&mut self, id: SessionId, at_ms: i64) -> (r: Result<LandingRequest, Error>)
        requires
            old(self).wf(),
        ensures
            final(self).wf(),
            session_refusal(old(self)@.store, id.0 as int) is Some ==> {
                &&& r is Err
                &&& Some((r->Err_0)@) == session_refusal(old(self)@.store, id.0 as int)
                &&& final(self)@ == old(self)@
            },
            session_refusal(old(self)@.store, id.0 as int) is None && gated_with(
                old(self)@.store.requests,
                id.0 as int,
            ) is Some ==> {
                &&& r is Ok
                &&& (r->Ok_0)@ == request_view(
                    old(self)@.store,
                    gated_with(old(self)@.store.requests, id.0 as int)->0,
                )
                &&& final(self)@ == old(self)@
            },
            session_refusal(old(self)@.store, id.0 as int) is None && gated_with(
                old(self)@.store.requests,
                id.0 as int,
            ) is None && old(self)@.store.last_request < i64::MAX ==> {
                &&& r is Ok
                &&& final(self)@ == after_request(
                    old(self)@,
                    id.0 as int,
                    session_actor(old(self)@.store, id.0 as int),
                    at_ms as int,
                )
                &&& (r->Ok_0)@ == request_view(
                    final(self)@.store,
                    fresh_request(
                        old(self)@.store.last_request + 1,
                        id.0 as int,
                        session_actor(old(self)@.store, id.0 as int),
                        at_ms as int,
                    ),
                )
            },
            session_refusal(old(self)@.store, id.0 as int) is None && gated_with(
                old(self)@.store.requests,
                id.0 as int,
            ) is None && old(self)@.store.last_request >= i64::MAX ==> {
                &&& r is Err
                &&& (r->Err_0)@ == ids_exhausted()
                &&& final(self)@ == old(self)@
            },
    {
        let ghost before = self@;
        let session = match self.open_session_row(id) {
            Ok(session) => session,
            Err(error) => return Err(error),
        };
        let actor = Actor { name: session.actor_name, kind: session.actor_kind };
        assert(actor@ == session_actor(before.store, id.0 as int));
        if let Some(row) = self.store.gated_request_for_session(id.0) {
            return Ok(self.request_from_row(row));
        }
        let row = match self.store.create_request(id.0, &actor, at_ms) {
            Ok(row) => row,
            Err(error) => return Err(error),
        };
        let request_id = RequestId(row);
        self.append_session_entry(
            &actor,
            Act::LandRequest,
            id,
            Some(request_id.to_text()),
            at_ms,
        );
        proof {
            let rows = self@.store.requests;
            assert(rows.last() == fresh_request(row as int, id.0 as int, actor@, at_ms as int));
            assert(request_with(rows, row as int) == Some(rows.last()));
            assert(self@ =~= after_request(before, id.0 as int, actor@, at_ms as int));
        }
        self.request(request_id)
    }
}

// ---------------------------------------------------------------------
// Approving.

/// Why `approver` cannot approve the request, if they cannot: its gate no
/// longer decides, its session is not open, or it is their own and policy
/// forbids that.
pub open spec fn approve_refusal(
    store: StoreView,
    id: int,
    approver: ActorView,
    policy: LandingPolicy,
) -> Option<ErrorView> {
    if gate_refusal(store, id) is Some {
        gate_refusal(store, id)
    } else {
        let row = request_with(store.requests, id)->0;
        if session_refusal(store, row.session_id) is Some {
            session_refusal(store, row.session_id)
        } else if !policy.allow_self_approve && approver == (ActorView {
            name: row.requester_name,
            kind: row.requester_kind,
        }) {
            Some(ErrorView::SelfApprovalForbidden)
        } else {
            None
        }
    }
}

/// The actors that granted the approvals.
pub open spec fn approvers(rows: Seq<ApprovalRowView>) -> Set<(Seq<char>, ActorKind)> {
    rows.map_values(|row: ApprovalRowView| (row.actor_name, row.actor_kind)).to_set()
}

/// The ledger after `approver` approved the request, when its gate was
/// open: an approval of the snapshot `tip` names, journaled.
pub open spec fn with_approval(
    ledger: LedgerView,
    id: int,
    session_id: int,
    approver: ActorView,
    tip: Seq<char>,
    at_ms: int,
) -> LedgerView {
    if (request_with(ledger.store.requests, id)->0).state == RequestState::Open {
        with_entry(
            LedgerView {
                store: StoreView {
                    approvals: ledger.store.approvals.push(
                        ApprovalRowView {
                            request_id: id,
                            actor_name: approver.name,
                            actor_kind: approver.kind,
                            snapshot_id: tip,
                            at_ms,
                            dismissed: false,
                        },
                    ),
                    ..ledger.store
                },
                ..ledger
            },
            entry_of(
                approver,
                Act::Approve,
                Some(session_id),
                Some(two_words(request_label(id), tip)),
                at_ms,
            ),
        )
    } else {
        ledger
    }
}

/// Whether enough distinct actors approved the request.
pub open spec fn gate_satisfied(ledger: LedgerView, id: int, policy: LandingPolicy) -> bool {
    approvers(live(ledger.store.approvals, id)).len() >= policy.approvals
}

/// The ledger with the request approved, when it was open.
pub open spec fn with_approved(ledger: LedgerView, id: int) -> LedgerView {
    LedgerView {
        store: StoreView {
            requests: requests_moved(
                ledger.store.requests,
                id,
                seq![RequestState::Open],
                RequestState::Approved,
            ),
            ..ledger.store
        },
        ..ledger
    }
}

/// How many distinct actors granted the approvals.
fn count_approvers(rows: &Vec<ApprovalRow>) -> (r: usize)
    ensures
        r == approvers(approval_row_views(rows@)).len(),
{
    let ghost keys = approval_row_views(rows@).map_values(
        |row: ApprovalRowView| (row.actor_name, row.actor_kind),
    );
    let mut count: usize = 0;
    let mut i: usize = 0;
    assert(keys.take(0).to_set() =~= Set::<(Seq<char>, ActorKind)>::empty());
    while i < rows.len()
        invariant
            i <= rows@.len(),
            count <= i,
            keys == approval_row_views(rows@).map_values(
                |row: ApprovalRowView| (row.actor_name, row.actor_kind),
            ),
            keys.take(i as int).to_set().finite(),
            count == keys.take(i as int).to_set().len(),
        decreases rows@.len() - i,
    {
        let mut seen = false;
        let mut j: usize = 0;
        while j < i
            invariant
                j <= i < rows@.len(),
                keys == approval_row_views(rows@).map_values(
                    |row: ApprovalRowView| (row.actor_name, row.actor_kind),
                ),
                seen == exists|k: int| 0 <= k < j && #[trigger] keys[k] == keys[i as int],
            decreases i - j,
        {
            assert(keys[j as int] == (rows@[j as int].actor_name@, rows@[j as int].actor_kind));
            assert(keys[i as int] == (rows@[i as int].actor_name@, rows@[i as int].actor_kind));
            if rows[j].actor_kind == rows[i].actor_kind && same(
                rows[j].actor_name.as_str(),
                rows[i].actor_name.as_str(),
            ) {
                seen = true;
            }
            j = j + 1;
        }
        proof {
            let before = keys.take(i as int);
            let after = keys.take(i + 1);
            let key = keys[i as int];
            assert(after =~= before.push(key));
            assert(after.to_set() =~= before.to_set().insert(key)) by {
                assert forall|k: (Seq<char>, ActorKind)| after.to_set().contains(k)
                    == before.to_set().insert(key).contains(k) by {
                    if before.contains(k) {
                        let x = choose|x: int| 0 <= x < before.len() && before[x] == k;
                        assert(after[x] == k);
                    }
                    if k == key {
                        assert(after[i as int] == k);
                    }
                    if after.contains(k) && k != key {
                        let x = choose|x: int| 0 <= x < after.len() && after[x] == k;
                        assert(before[x] == k);
                    }
                }
            }
            if seen {
                let x = choose|x: int| 0 <= x < i && #[trigger] keys[x] == keys[i as int];
                assert(before[x] == key);
                assert(before.to_set().contains(key));
                assert(before.to_set().insert(key) =~= before.to_set());
            } else {
                if before.to_set().contains(key) {
                    let x = choose|x: int| 0 <= x < before.len() && before[x] == key;
                    assert(keys[x] == key);
                }
            }
        }
        if !seen {
            count = count + 1;
        }
        i = i + 1;
    }
    assert(keys.take(keys.len() as int) =~= keys);
    count
}

impl Ledger {
    /// Judge whether `approver` may approve the request; its session.
    pub fn approvable(
        &self,
        root: &str,
        id: RequestId,
        approver: &Actor,
        policy: &LandingPolicy,
    ) -> (r: Result<Session, Error>)
        requires
            self.wf(),
        ensures
            r is Ok <==> approve_refusal(self@.store, id.0 as int, approver@, *policy) is None,
            r is Ok ==> (r->Ok_0)@ == session_view(
                self@.store,
                root@,
                session_with(
                    self@.store.sessions,
                    (request_with(self@.store.requests, id.0 as int)->0).session_id,
                )->0,
            ),
            r is Err ==> Some((r->Err_0)@) == approve_refusal(
                self@.store,
                id.0 as int,
                approver@,
                *policy,
            ),
    {
        match self.approvable_row(id, approver, policy) {
            Ok(row) => self.open_session_only(root, SessionId(row.session_id)),
            Err(error) => Err(error),
        }
    }

    /// The request `approver` may approve.
    fn approvable_row(&self, id: RequestId, approver: &Actor, policy: &LandingPolicy) -> (r: Result<
        RequestRow,
        Error,
    >)
        requires
            self.wf(),
        ensures
            r is Ok <==> approve_refusal(self@.store, id.0 as int, approver@, *policy) is None,
            r is Ok ==> (r->Ok_0).id == id.0 && Some((r->Ok_0)@) == request_with(
                self@.store.requests,
                id.0 as int,
            ),
            r is Err ==> Some((r->Err_0)@) == approve_refusal(
                self@.store,
                id.0 as int,
                approver@,
                *policy,
            ),
    {
        let row = match self.gated_request(id) {
            Ok(row) => row,
            Err(error) => return Err(error),
        };
        if let Err(error) = self.open_session_row(SessionId(row.session_id)) {
            return Err(error);
        }
        if !policy.allow_self_approve && row.requester_kind == approver.kind && same(
            row.requester_name.as_str(),
            approver.name.as_str(),
        ) {
            return Err(Error::SelfApprovalForbidden);
        }
        Ok(row)
    }

    /// Record `approver`'s approval of the change as its root tip names it,
    /// and judge the landing gate on what the store holds now: `None` when it is
    /// satisfied and the apply may run, else the pending outcome. Whoever may
    /// not approve the request is refused, and nothing is recorded.
    pub fn judge(
        &mut self,
        id: RequestId,
        approver: &Actor,
        tip: &str,
        policy: &LandingPolicy,
        at_ms: i64,
    ) -> (r: Result<Option<GateOutcome>, Error>)
        requires
            old(self).wf(),
        ensures
            final(self).wf(),
            approve_refusal(old(self)@.store, id.0 as int, approver@, *policy) is Some ==> {
                &&& r is Err
                &&& Some((r->Err_0)@) == approve_refusal(
                    old(self)@.store,
                    id.0 as int,
                    approver@,
                    *policy,
                )
                &&& final(self)@ == old(self)@
            },
            approve_refusal(old(self)@.store, id.0 as int, approver@, *policy) is None ==> {
                let approved = with_approval(
                    old(self)@,
                    id.0 as int,
                    (request_with(old(self)@.store.requests, id.0 as int)->0).session_id,
                    approver@,
                    tip@,
                    at_ms as int,
                );
                &&& r is Ok
                &&& gate_satisfied(approved, id.0 as int, *policy) ==> {
                    &&& r->Ok_0 is None
                    &&& final(self)@ == with_approved(approved, id.0 as int)
                }
                &&& !gate_satisfied(approved, id.0 as int, *policy) ==> {
                    &&& r->Ok_0 is Some
                    &&& (r->Ok_0)->0 is Pending
                    &&& ((r->Ok_0)->0->Pending_request)@ == request_view(
                        approved.store,
                        request_with(approved.store.requests, id.0 as int)->0,
                    )
                    &&& (r->Ok_0)->0->required == policy.approvals
                    &&& final(self)@ == approved
                }
            },
    {
        let ghost before = self@;
        let row = match self.approvable_row(id, approver, policy) {
            Ok(row) => row,
            Err(error) => return Err(error),
        };
        let session_id = SessionId(row.session_id);
        if let RequestState::Open = row.state {
            self.store.add_approval(row.id, approver, tip, at_ms);
            let reference = two_words_text(id.to_text().as_str(), tip);
            self.append_session_entry(approver, Act::Approve, session_id, Some(reference), at_ms);
        }
        let ghost approved = self@;
        assert(approved =~= with_approval(
            before,
            id.0 as int,
            session_id.0 as int,
            approver@,
            tip@,
            at_ms as int,
        ));
        let approvals = self.store.live_approvals(row.id);
        let count = count_approvers(&approvals);
        if (count as u64) < policy.approvals as u64 {
            let request = match self.request(id) {
                Ok(request) => request,
                Err(error) => return Err(error),
            };
            return Ok(Some(GateOutcome::Pending { request, required: policy.approvals }));
        }
        let from = [RequestState::Open];
        let _moved = self.store.move_request_state(row.id, &from, RequestState::Approved);
        proof {
            assert(from@ =~= seq![RequestState::Open]);
            assert(self@ =~= with_approved(approved, id.0 as int));
        }
        Ok(None)
    }
}

// ---------------------------------------------------------------------
// Rejecting.

/// The ledger after the request was rejected.
pub open spec fn after_reject(
    ledger: LedgerView,
    id: int,
    actor: ActorView,
    reason: Option<Seq<char>>,
    at_ms: int,
) -> LedgerView {
    let row = request_with(ledger.store.requests, id)->0;
    with_entry(
        LedgerView {
            store: StoreView {
                requests: requests_moved(
                    ledger.store.requests,
                    id,
                    seq![RequestState::Open, RequestState::Approved],
                    RequestState::Rejected,
                ),
                ..ledger.store
            },
            ..ledger
        },
        entry_of(
            actor,
            Act::Reject,
            Some(row.session_id),
            Some(
                match reason {
                    Some(reason) => two_words(request_label(id), reason),
                    None => request_label(id),
                },
            ),
            at_ms,
        ),
    )
}

/// What looking a request up gives after a move.
pub proof fn request_with_moved(
    rows: Seq<RequestRowView>,
    id: int,
    from: Seq<RequestState>,
    to: RequestState,
    other: int,
)
    ensures
        request_with(requests_moved(rows, id, from, to), other) == match request_with(rows, other) {
            None => None,
            Some(row) => Some(
                if row.id == id && from.contains(row.state) {
                    RequestRowView { state: to, ..row }
                } else {
                    row
                },
            ),
        },
    decreases rows.len(),
{
    let moved = requests_moved(rows, id, from, to);
    if rows.len() > 0 {
        assert(moved.drop_last() =~= requests_moved(rows.drop_last(), id, from, to));
        assert(moved.last() == requests_moved(rows, id, from, to)[rows.len() - 1]);
        request_with_moved(rows.drop_last(), id, from, to, other);
    }
}

impl Ledger {
    /// Reject the request: the landing gate closes, the session stays open. A
    /// rejection closes a gate still deciding, open or approved.
    pub fn reject(
        &mut self,
        id: RequestId,
        actor: &Actor,
        reason: &Option<String>,
        at_ms: i64,
    ) -> (r: Result<LandingRequest, Error>)
        requires
            old(self).wf(),
        ensures
            final(self).wf(),
            gate_refusal(old(self)@.store, id.0 as int) is Some ==> {
                &&& r is Err
                &&& Some((r->Err_0)@) == gate_refusal(old(self)@.store, id.0 as int)
                &&& final(self)@ == old(self)@
            },
            gate_refusal(old(self)@.store, id.0 as int) is None ==> {
                &&& r is Ok
                &&& final(self)@ == after_reject(
                    old(self)@,
                    id.0 as int,
                    actor@,
                    opt_text(*reason),
                    at_ms as int,
                )
                &&& (r->Ok_0)@ == request_view(
                    final(self)@.store,
                    RequestRowView {
                        state: RequestState::Rejected,
                        ..request_with(old(self)@.store.requests, id.0 as int)->0
                    },
                )
            },
    {
        let ghost before = self@;
        let row = match self.gated_request(id) {
            Ok(row) => row,
            Err(error) => return Err(error),
        };
        let from = [RequestState::Open, RequestState::Approved];
        let _moved = self.store.move_request_state(row.id, &from, RequestState::Rejected);
        let reference = match reason {
            Some(reason) => two_words_text(id.to_text().as_str(), reason.as_str()),
            None => id.to_text(),
        };
        self.append_session_entry(
            actor,
            Act::Reject,
            SessionId(row.session_id),
            Some(reference),
            at_ms,
        );
        proof {
            let states = seq![RequestState::Open, RequestState::Approved];
            assert(from@ =~= states);
            assert(states[0] == RequestState::Open && states[1] == RequestState::Approved);
            request_with_moved(
                before.store.requests,
                id.0 as int,
                states,
                RequestState::Rejected,
                id.0 as int,
            );
            assert(self@ =~= after_reject(
                before,
                id.0 as int,
                actor@,
                opt_text(*reason),
                at_ms as int,
            ));
        }
        self.request(id)
    }
}

// ---------------------------------------------------------------------
// Landing in one step.

/// What landing a session's request does next where policy is asked first:
/// the pending outcome where self-approval is forbidden, `None` where the
/// session's own actor may approve at once.
pub fn land_waits(request: LandingRequest, policy: &LandingPolicy) -> (r: Option<GateOutcome>)
    ensures
        r is None <==> policy.allow_self_approve,
        r is Some ==> r == Some(GateOutcome::Pending { request, required: policy.approvals }),
{
    if policy.allow_self_approve {
        None
    } else {
        Some(GateOutcome::Pending { request, required: policy.approvals })
    }
}

// ---------------------------------------------------------------------
// Abandoning.

/// The states that hold the landing gate.
pub open spec fn gated_states() -> Seq<RequestState> {
    seq![RequestState::Open, RequestState::Approved, RequestState::Parked]
}

/// The ledger with the session's gated request abandoned, if it has one.
pub open spec fn with_gate_abandoned(ledger: LedgerView, session_id: int) -> LedgerView {
    match gated_with(ledger.store.requests, session_id) {
        None => ledger,
        Some(request) => LedgerView {
            store: StoreView {
                requests: requests_moved(
                    ledger.store.requests,
                    request.id,
                    gated_states(),
                    RequestState::Abandoned,
                ),
                ..ledger.store
            },
            ..ledger
        },
    }
}

/// The ledger after the session was abandoned.
pub open spec fn after_abandon(
    ledger: LedgerView,
    session_id: int,
    actor: ActorView,
    at_ms: int,
) -> LedgerView {
    let closed = with_gate_abandoned(ledger, session_id);
    with_entry(
        LedgerView {
            store: StoreView {
                sessions: sessions_moved(
                    closed.store.sessions,
                    session_id,
                    SessionState::Open,
                    SessionState::Abandoned,
                ),
                ..closed.store
            },
            ..closed
        },
        entry_of(
            actor,
            Act::SessionAbandon,
            Some(session_id),
            match gated_with(ledger.store.requests, session_id) {
                Some(request) => Some(request_label(request.id)),
                None => None,
            },
            at_ms,
        ),
    )
}

/// What looking a session up gives after a move.
pub proof fn session_with_moved(
    rows: Seq<crate::coordination::SessionRowView>,
    id: int,
    from: SessionState,
    to: SessionState,
    other: int,
)
    ensures
        session_with(sessions_moved(rows, id, from, to), other) == match session_with(rows, other) {
            None => None,
            Some(row) => Some(
                if row.id == id && row.state == from {
                    crate::coordination::SessionRowView { state: to, ..row }
                } else {
                    row
                },
            ),
        },
    decreases rows.len(),
{
    let moved = sessions_moved(rows, id, from, to);
    if rows.len() > 0 {
        assert(moved.drop_last() =~= sessions_moved(rows.drop_last(), id, from, to));
        assert(moved.last() == sessions_moved(rows, id, from, to)[rows.len() - 1]);
        session_with_moved(rows.drop_last(), id, from, to, other);
    }
}

impl Ledger {
    /// Close the session without landing; its work stays in history and its
    /// working copy stays on disk. Abandonment closes any still-gated
    /// request, and is journaled as the session's own actor's. A session that
    /// is not open refuses, and nothing changes: where an apply landed it in
    /// the meantime, the landing stands.
    pub fn abandon(&mut self, root: &str, id: SessionId, at_ms: i64) -> (r: Result<Session, Error>)
        requires
            old(self).wf(),
        ensures
            final(self).wf(),
            session_refusal(old(self)@.store, id.0 as int) is Some ==> {
                &&& r is Err
                &&& Some((r->Err_0)@) == session_refusal(old(self)@.store, id.0 as int)
                &&& final(self)@ == old(self)@
            },
            session_refusal(old(self)@.store, id.0 as int) is None ==> {
                &&& r is Ok
                &&& final(self)@ == after_abandon(
                    old(self)@,
                    id.0 as int,
                    session_actor(old(self)@.store, id.0 as int),
                    at_ms as int,
                )
                &&& (r->Ok_0)@ == session_view(
                    final(self)@.store,
                    root@,
                    crate::coordination::SessionRowView {
                        state: SessionState::Abandoned,
                        ..session_with(old(self)@.store.sessions, id.0 as int)->0
                    },
                )
            },
    {
        let ghost before = self@;
        let session = match self.open_session_row(id) {
            Ok(session) => session,
            Err(error) => return Err(error),
        };
        let actor = Actor { name: session.actor_name, kind: session.actor_kind };
        assert(actor@ == session_actor(before.store, id.0 as int));
        let mut reference: Option<String> = None;
        if let Some(request) = self.store.gated_request_for_session(id.0) {
            let from = [RequestState::Open, RequestState::Approved, RequestState::Parked];
            let _moved = self.store.move_request_state(request.id, &from, RequestState::Abandoned);
            assert(from@ =~= gated_states());
            reference = Some(RequestId(request.id).to_text());
        }
        let ghost closed = self@;
        assert(closed =~= with_gate_abandoned(before, id.0 as int));
        proof {
            crate::ledger::session_with_id(before.store.sessions, id.0 as int);
            session_with_moved(
                before.store.sessions,
                id.0 as int,
                SessionState::Open,
                SessionState::Abandoned,
                id.0 as int,
            );
        }
        let _moved = self.store.move_session_state(
            id.0,
            SessionState::Open,
            SessionState::Abandoned,
        );
        self.append_session_entry(&actor, Act::SessionAbandon, id, reference, at_ms);
        assert(self@ =~= after_abandon(before, id.0 as int, actor@, at_ms as int));
        self.session(root, id)
    }
}

} // verus!
