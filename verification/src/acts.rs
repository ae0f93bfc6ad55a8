//! What each act leaves behind in a workspace's ledger, row by row and entry
//! by entry: which rows it moves and to where, which it leaves alone, and
//! what the journal says of it.

use crate::apply::{after_landed, after_line_landed, after_line_parked, after_parked};
use crate::attach::attached;
use crate::config::{ActorKind, ActorView, LandingPolicy};
use crate::coordination::{
    ApprovalRowView,
    FactView,
    RequestRowView,
    SessionRowView,
    StoreView,
    gated_with,
    live,
    request_ids_ascend,
    request_with,
    requests_moved,
    session_ids_ascend,
    session_with,
};
use crate::error::ErrorView;
use crate::fold::{GitFold, after_fold};
use crate::gate::{
    after_abandon,
    after_reject,
    after_request,
    after_session_snapshots,
    approve_refusal,
    approvers,
    gate_after_snapshot,
    gate_satisfied,
    gated_states,
    with_approval,
    with_approved,
};
use crate::invariants::{a_new_snapshot_reopens, gates_sound, snapshot_keeps_gates_sound, waits_for};
use crate::journal::{Act, EntryView};
use crate::landing::{RequestState, request_state_name};
use crate::ledger::{
    LedgerView,
    entry_of,
    gate_refusal,
    session_refusal,
    session_unreadable,
    with_entry,
    with_snapshots,
};
use crate::session::{SessionState, session_state_name};
use crate::sync::{pulled, sync_parked, synced, with_sync};
use crate::undo::{after_line_stepped, after_undo, undo_refusal};
use crate::words::signed_decimal;
use vstd::prelude::*;

verus! {

// ---------------------------------------------------------------------
// What is told.

/// A row's id as people read it: a letter, and the row.
pub open spec fn called(letter: char, row: int) -> Seq<char> {
    seq![letter] + signed_decimal(row)
}

/// A word about a source: behind the mount's name and a blank, bare for the
/// root.
pub open spec fn about(source: Option<Seq<char>>, word: Seq<char>) -> Seq<char> {
    match source {
        Some(mount) => mount + seq![' '] + word,
        None => word,
    }
}

/// Whether a journal says one thing more than before, last: who did what
/// when, in which session, with what reference; and no instruction.
pub open spec fn tells(
    before: Seq<EntryView>,
    after: Seq<EntryView>,
    actor: ActorView,
    act: Act,
    session: Option<Seq<char>>,
    reference: Option<Seq<char>>,
    at_ms: int,
) -> bool {
    &&& after.len() == before.len() + 1
    &&& forall|i: int| 0 <= i < before.len() ==> #[trigger] after[i] == before[i]
    &&& after.last().at_ms == at_ms
    &&& after.last().actor_name == actor.name
    &&& after.last().actor_kind == actor.kind
    &&& after.last().act == act
    &&& after.last().session == session
    &&& after.last().instruction_summary is None
    &&& after.last().instruction_run_ref is None
    &&& after.last().instruction_verbatim is None
    &&& after.last().reference == reference
}

/// A word about a source is one scoped by it.
proof fn about_is_scoped(source: Option<Seq<char>>, word: Seq<char>)
    ensures
        crate::ledger::scoped(source, word) == about(source, word),
{
    reveal_strlit(" ");
    if source is Some {
        assert(source->0 + " "@ + word =~= source->0 + seq![' '] + word);
    }
}

/// Two words are their words around a blank.
proof fn two_words_are(a: Seq<char>, b: Seq<char>)
    ensures
        crate::ledger::two_words(a, b) == a + seq![' '] + b,
{
    reveal_strlit(" ");
    assert(a + " "@ + b =~= a + seq![' '] + b);
}

// ---------------------------------------------------------------------
// Looking rows up.

/// A looked-up request is the stored one of that id, and there is none
/// exactly where no stored request has it.
pub proof fn requests_are_found(rows: Seq<RequestRowView>, last: int, id: int)
    requires
        request_ids_ascend(rows, last),
    ensures
        request_with(rows, id) is None <==> forall|i: int|
            #![trigger rows[i]]
            0 <= i < rows.len() ==> rows[i].id != id,
        forall|i: int|
            #![trigger rows[i]]
            0 <= i < rows.len() && rows[i].id == id ==> request_with(rows, id) == Some(rows[i]),
    decreases rows.len(),
{
    if rows.len() > 0 {
        let rest = rows.drop_last();
        assert forall|i: int, j: int| #![trigger rest[i], rest[j]] 0 <= i < j < rest.len() implies
            rest[i].id < rest[j].id by {
            assert(rows[i].id < rows[j].id);
        }
        assert forall|i: int| #![trigger rest[i]] 0 <= i < rest.len() implies rest[i].id
            <= last by {
            assert(rows[i].id <= last);
        }
        requests_are_found(rest, last, id);
        assert forall|i: int| #![trigger rows[i]] 0 <= i < rows.len() && rows[i].id == id implies
            request_with(rows, id) == Some(rows[i]) by {
            if i < rest.len() {
                assert(rest[i] == rows[i]);
                assert(rows[i].id < rows[rows.len() - 1].id);
            }
        }
        if request_with(rows, id) is None {
            assert forall|i: int| #![trigger rows[i]] 0 <= i < rows.len() implies rows[i].id
                != id by {
                if i < rest.len() {
                    assert(rest[i] == rows[i]);
                }
            }
        }
        if forall|i: int| #![trigger rows[i]] 0 <= i < rows.len() ==> rows[i].id != id {
            assert(rows[rows.len() - 1].id != id);
            assert forall|i: int| #![trigger rest[i]] 0 <= i < rest.len() implies rest[i].id
                != id by {
                assert(rest[i] == rows[i]);
            }
        }
    }
}

/// A looked-up session is the stored one of that id, and there is none
/// exactly where no stored session has it.
pub proof fn sessions_are_found(rows: Seq<SessionRowView>, last: int, id: int)
    requires
        session_ids_ascend(rows, last),
    ensures
        session_with(rows, id) is None <==> forall|i: int|
            #![trigger rows[i]]
            0 <= i < rows.len() ==> rows[i].id != id,
        forall|i: int|
            #![trigger rows[i]]
            0 <= i < rows.len() && rows[i].id == id ==> session_with(rows, id) == Some(rows[i]),
    decreases rows.len(),
{
    if rows.len() > 0 {
        let rest = rows.drop_last();
        assert forall|i: int, j: int| #![trigger rest[i], rest[j]] 0 <= i < j < rest.len() implies
            rest[i].id < rest[j].id by {
            assert(rows[i].id < rows[j].id);
        }
        assert forall|i: int| #![trigger rest[i]] 0 <= i < rest.len() implies rest[i].id
            <= last by {
            assert(rows[i].id <= last);
        }
        sessions_are_found(rest, last, id);
        assert forall|i: int| #![trigger rows[i]] 0 <= i < rows.len() && rows[i].id == id implies
            session_with(rows, id) == Some(rows[i]) by {
            if i < rest.len() {
                assert(rest[i] == rows[i]);
                assert(rows[i].id < rows[rows.len() - 1].id);
            }
        }
        if session_with(rows, id) is None {
            assert forall|i: int| #![trigger rows[i]] 0 <= i < rows.len() implies rows[i].id
                != id by {
                if i < rest.len() {
                    assert(rest[i] == rows[i]);
                }
            }
        }
        if forall|i: int| #![trigger rows[i]] 0 <= i < rows.len() ==> rows[i].id != id {
            assert(rows[rows.len() - 1].id != id);
            assert forall|i: int| #![trigger rest[i]] 0 <= i < rest.len() implies rest[i].id
                != id by {
                assert(rest[i] == rows[i]);
            }
        }
    }
}

/// The request a session waits for is its newest that is open, approved, or
/// parked, and there is none exactly where no request of it is.
pub proof fn waiting_requests_are_found(rows: Seq<RequestRowView>, session_id: int)
    ensures
        gated_with(rows, session_id) is None <==> forall|i: int|
            #![trigger rows[i]]
            0 <= i < rows.len() ==> !waits_for(rows[i], session_id),
        gated_with(rows, session_id) is Some ==> exists|i: int|
            #![trigger rows[i]]
            0 <= i < rows.len() && gated_with(rows, session_id) == Some(rows[i]) && waits_for(
                rows[i],
                session_id,
            ) && forall|j: int|
                #![trigger rows[j]]
                i < j < rows.len() ==> !waits_for(rows[j], session_id),
    decreases rows.len(),
{
    if rows.len() > 0 {
        let rest = rows.drop_last();
        waiting_requests_are_found(rest, session_id);
        let last = rows.len() - 1;
        assert(rows[last] == rows.last());
        if waits_for(rows.last(), session_id) {
            assert(gated_with(rows, session_id) == Some(rows[last]));
        } else if gated_with(rest, session_id) is Some {
            let i = choose|i: int|
                #![trigger rest[i]]
                0 <= i < rest.len() && gated_with(rest, session_id) == Some(rest[i]) && waits_for(
                    rest[i],
                    session_id,
                ) && forall|j: int|
                    #![trigger rest[j]]
                    i < j < rest.len() ==> !waits_for(rest[j], session_id);
            assert(rows[i] == rest[i]);
            assert forall|j: int| #![trigger rows[j]] i < j < rows.len() implies !waits_for(
                rows[j],
                session_id,
            ) by {
                if j < rest.len() {
                    assert(rows[j] == rest[j]);
                }
            }
        } else {
            assert forall|i: int| #![trigger rows[i]] 0 <= i < rows.len() implies !waits_for(
                rows[i],
                session_id,
            ) by {
                if i < rest.len() {
                    assert(rows[i] == rest[i]);
                }
            }
        }
    }
}

/// Whether an approval counts toward a request.
pub open spec fn counts_for(row: ApprovalRowView, request_id: int) -> bool {
    row.request_id == request_id && !row.dismissed
}

/// The approvals that count toward a request are all of its that were not
/// dismissed, once each and in order.
pub proof fn counting_approvals_are_all(rows: Seq<ApprovalRowView>, id: int) -> (at: Seq<int>)
    ensures
        at.len() == live(rows, id).len(),
        forall|j: int, k: int| #![trigger at[j], at[k]] 0 <= j < k < at.len() ==> at[j] < at[k],
        forall|k: int|
            #![trigger at[k]]
            0 <= k < at.len() ==> 0 <= at[k] < rows.len() && live(rows, id)[k] == rows[at[k]]
                && counts_for(rows[at[k]], id),
        forall|i: int|
            #![trigger rows[i]]
            0 <= i < rows.len() && counts_for(rows[i], id) ==> at.contains(i),
    decreases rows.len(),
{
    if rows.len() == 0 {
        Seq::empty()
    } else {
        let rest = rows.drop_last();
        let before = counting_approvals_are_all(rest, id);
        let last = rows.len() - 1;
        let at = if counts_for(rows.last(), id) {
            before.push(last)
        } else {
            before
        };
        assert forall|k: int| #![trigger at[k]] 0 <= k < at.len() implies 0 <= at[k] < rows.len()
            && live(rows, id)[k] == rows[at[k]] && counts_for(rows[at[k]], id) by {
            if k < before.len() {
                assert(at[k] == before[k]);
                assert(rest[before[k]] == rows[before[k]]);
            }
        }
        assert forall|j: int, k: int| #![trigger at[j], at[k]] 0 <= j < k < at.len() implies at[j]
            < at[k] by {
            assert(at[j] == before[j]);
            if k < before.len() {
                assert(at[k] == before[k]);
            }
        }
        assert forall|i: int|
            #![trigger rows[i]]
            0 <= i < rows.len() && counts_for(rows[i], id) implies at.contains(i) by {
            if i < last {
                assert(rest[i] == rows[i]);
                let k = choose|k: int| 0 <= k < before.len() && before[k] == i;
                assert(at[k] == i);
            } else {
                assert(at[before.len() as int] == i);
            }
        }
        at
    }
}

/// Whether some actor's approval counts toward a request.
pub open spec fn approved_by(
    rows: Seq<ApprovalRowView>,
    id: int,
    name: Seq<char>,
    kind: ActorKind,
) -> bool {
    exists|i: int|
        #![trigger rows[i]]
        0 <= i < rows.len() && counts_for(rows[i], id) && rows[i].actor_name == name
            && rows[i].actor_kind == kind
}

/// The approvers of a request are the actors whose approval counts, each
/// once; its gate is satisfied exactly when they are as many as policy asks.
pub proof fn gates_count_actors(ledger: LedgerView, id: int, policy: LandingPolicy)
    ensures
        forall|name: Seq<char>, kind: ActorKind|
            #![trigger approved_by(ledger.store.approvals, id, name, kind)]
            approvers(live(ledger.store.approvals, id)).contains((name, kind)) <==> approved_by(
                ledger.store.approvals,
                id,
                name,
                kind,
            ),
        approvers(live(ledger.store.approvals, id)).finite(),
        gate_satisfied(ledger, id, policy) <==> policy.approvals <= approvers(
            live(ledger.store.approvals, id),
        ).len(),
{
    let rows = ledger.store.approvals;
    let counted = live(rows, id);
    let at = counting_approvals_are_all(rows, id);
    let keys = counted.map_values(|row: ApprovalRowView| (row.actor_name, row.actor_kind));
    vstd::seq_lib::seq_to_set_is_finite(keys);
    assert forall|name: Seq<char>, kind: ActorKind|
        #![trigger approved_by(rows, id, name, kind)]
        approvers(counted).contains((name, kind)) <==> approved_by(rows, id, name, kind) by {
        if keys.contains((name, kind)) {
            let k = choose|k: int| 0 <= k < keys.len() && keys[k] == (name, kind);
            assert(rows[at[k]] == counted[k]);
        }
        if approved_by(rows, id, name, kind) {
            let i = choose|i: int|
                #![trigger rows[i]]
                0 <= i < rows.len() && counts_for(rows[i], id) && rows[i].actor_name == name
                    && rows[i].actor_kind == kind;
            assert(at.contains(i));
            let k = choose|k: int| 0 <= k < at.len() && at[k] == i;
            assert(keys[k] == (name, kind));
        }
    }
}

// ---------------------------------------------------------------------
// Who may.

/// A request is decided only while it is open or approved: one that is
/// parked, closed, or not there refuses by its name, and a closed one by its
/// state.
pub proof fn decided_requests_refuse(store: StoreView, id: int)
    requires
        request_ids_ascend(store.requests, store.last_request),
    ensures
        gate_refusal(store, id) is None <==> exists|i: int|
            #![trigger store.requests[i]]
            0 <= i < store.requests.len() && store.requests[i].id == id && (
            store.requests[i].state == RequestState::Open || store.requests[i].state
                == RequestState::Approved),
        forall|i: int|
            #![trigger store.requests[i]]
            0 <= i < store.requests.len() && store.requests[i].id == id ==> {
                let state = store.requests[i].state;
                &&& state == RequestState::Parked ==> gate_refusal(store, id) == Some(
                    ErrorView::RequestParked(called('r', id)),
                )
                &&& state == RequestState::Landed || state == RequestState::Rejected || state
                    == RequestState::Abandoned ==> gate_refusal(store, id) == Some(
                    ErrorView::RequestClosed {
                        id: called('r', id),
                        state: request_state_name(state),
                    },
                )
            },
        (forall|i: int|
            #![trigger store.requests[i]]
            0 <= i < store.requests.len() ==> store.requests[i].id != id) ==> gate_refusal(
            store,
            id,
        ) == Some(ErrorView::RequestNotFound(called('r', id))),
{
    let rows = store.requests;
    requests_are_found(rows, store.last_request, id);
    if request_with(rows, id) is Some {
        let i = choose|i: int| #![trigger rows[i]] 0 <= i < rows.len() && rows[i].id == id;
        assert(request_with(rows, id) == Some(rows[i]));
        let state = rows[i].state;
        assert(state == RequestState::Open || state == RequestState::Approved || state
            == RequestState::Parked || state == RequestState::Landed || state
            == RequestState::Rejected || state == RequestState::Abandoned);
    }
}

/// A session is worked in only while it is open and has its change.
pub proof fn closed_sessions_refuse(store: StoreView, id: int)
    requires
        session_ids_ascend(store.sessions, store.last_session),
    ensures
        session_refusal(store, id) is None <==> exists|i: int|
            #![trigger store.sessions[i]]
            0 <= i < store.sessions.len() && store.sessions[i].id == id
                && store.sessions[i].change_id is Some && store.sessions[i].state
                == SessionState::Open,
        session_unreadable(store, id) is None <==> exists|i: int|
            #![trigger store.sessions[i]]
            0 <= i < store.sessions.len() && store.sessions[i].id == id
                && store.sessions[i].change_id is Some,
        forall|i: int|
            #![trigger store.sessions[i]]
            0 <= i < store.sessions.len() && store.sessions[i].id == id
                && store.sessions[i].change_id is Some && store.sessions[i].state
                != SessionState::Open ==> session_refusal(store, id) == Some(
                ErrorView::SessionClosed {
                    id: called('s', id),
                    state: session_state_name(store.sessions[i].state),
                },
            ),
        (forall|i: int|
            #![trigger store.sessions[i]]
            0 <= i < store.sessions.len() ==> store.sessions[i].id != id) ==> session_refusal(
            store,
            id,
        ) == Some(ErrorView::SessionNotFound(called('s', id))),
{
    let rows = store.sessions;
    sessions_are_found(rows, store.last_session, id);
    if session_with(rows, id) is Some {
        let i = choose|i: int| #![trigger rows[i]] 0 <= i < rows.len() && rows[i].id == id;
        assert(session_with(rows, id) == Some(rows[i]));
    }
}

/// Whoever approves may approve: the request is still decided, its session is
/// open, and it is somebody else's unless policy lets actors approve their
/// own. Nobody else is refused.
pub proof fn approvals_are_granted(
    store: StoreView,
    id: int,
    approver: ActorView,
    policy: LandingPolicy,
    i: int,
)
    requires
        request_ids_ascend(store.requests, store.last_request),
        0 <= i < store.requests.len(),
        store.requests[i].id == id,
    ensures
        approve_refusal(store, id, approver, policy) is None <==> {
            let row = store.requests[i];
            &&& row.state == RequestState::Open || row.state == RequestState::Approved
            &&& session_refusal(store, row.session_id) is None
            &&& policy.allow_self_approve || approver.name != row.requester_name || approver.kind
                != row.requester_kind
        },
        approve_refusal(store, id, approver, policy) == Some(
            ErrorView::SelfApprovalForbidden,
        ) <==> {
            let row = store.requests[i];
            &&& row.state == RequestState::Open || row.state == RequestState::Approved
            &&& session_refusal(store, row.session_id) is None
            &&& !policy.allow_self_approve
            &&& approver.name == row.requester_name
            &&& approver.kind == row.requester_kind
        },
{
    requests_are_found(store.requests, store.last_request, id);
    decided_requests_refuse(store, id);
    let row = store.requests[i];
    assert(request_with(store.requests, id) == Some(row));
}

/// Only a landed request is undone.
pub proof fn only_landed_requests_undo(store: StoreView, id: int)
    requires
        request_ids_ascend(store.requests, store.last_request),
    ensures
        undo_refusal(store, id) is None <==> exists|i: int|
            #![trigger store.requests[i]]
            0 <= i < store.requests.len() && store.requests[i].id == id && store.requests[i].state
                == RequestState::Landed,
{
    requests_are_found(store.requests, store.last_request, id);
    let rows = store.requests;
    if request_with(rows, id) is Some {
        let i = choose|i: int| #![trigger rows[i]] 0 <= i < rows.len() && rows[i].id == id;
        assert(request_with(rows, id) == Some(rows[i]));
    }
}

// ---------------------------------------------------------------------
// Requests.

/// Whether the requests are as before but for the one at `i`, which is now in
/// the state `to`.
pub open spec fn moved_at(
    before: Seq<RequestRowView>,
    after: Seq<RequestRowView>,
    i: int,
    to: RequestState,
) -> bool {
    &&& after.len() == before.len()
    &&& forall|k: int|
        #![trigger after[k]]
        0 <= k < before.len() ==> after[k] == if k == i {
            RequestRowView { state: to, ..before[k] }
        } else {
            before[k]
        }
}

/// Moving the request at `i` from a state it is in moves it alone.
proof fn moving_moves_one(
    rows: Seq<RequestRowView>,
    last: int,
    i: int,
    from: Seq<RequestState>,
    to: RequestState,
)
    requires
        request_ids_ascend(rows, last),
        0 <= i < rows.len(),
    ensures
        from.contains(rows[i].state) ==> moved_at(
            rows,
            requests_moved(rows, rows[i].id, from, to),
            i,
            to,
        ),
        !from.contains(rows[i].state) ==> requests_moved(rows, rows[i].id, from, to) == rows,
{
    let after = requests_moved(rows, rows[i].id, from, to);
    assert forall|k: int| #![trigger after[k]] 0 <= k < rows.len() && k != i implies after[k]
        == rows[k] by {
        if k < i {
            assert(rows[k].id < rows[i].id);
        } else {
            assert(rows[i].id < rows[k].id);
        }
    }
    if !from.contains(rows[i].state) {
        assert(after =~= rows);
    }
}

/// Asking to land stores one open request more, the session's and under a new
/// id, and changes nothing else; it is told as the requester's act.
pub proof fn asking_to_land(
    ledger: LedgerView,
    session_id: int,
    requester: ActorView,
    at_ms: int,
)
    ensures
        ({
            let after = after_request(ledger, session_id, requester, at_ms);
            let before = ledger.store.requests;
            let rows = after.store.requests;
            let id = ledger.store.last_request + 1;
            &&& after.store == StoreView {
                requests: rows,
                last_request: id,
                ..ledger.store
            }
            &&& rows.len() == before.len() + 1
            &&& forall|i: int| 0 <= i < before.len() ==> #[trigger] rows[i] == before[i]
            &&& rows.last().id == id
            &&& rows.last().session_id == session_id
            &&& rows.last().requester_name == requester.name
            &&& rows.last().requester_kind == requester.kind
            &&& rows.last().state == RequestState::Open
            &&& rows.last().created_at_ms == at_ms
            &&& tells(
                ledger.journal,
                after.journal,
                requester,
                Act::LandRequest,
                Some(called('s', session_id)),
                Some(called('r', id)),
                at_ms,
            )
        }),
{
}

/// Approving an open request stores one counting approval more, of the
/// snapshot approved, and is told; a request that is not open is left as it
/// is, and nothing is told. No request moves, and no approval goes.
pub proof fn approving(
    ledger: LedgerView,
    session_id: int,
    approver: ActorView,
    tip: Seq<char>,
    at_ms: int,
    i: int,
)
    requires
        request_ids_ascend(ledger.store.requests, ledger.store.last_request),
        0 <= i < ledger.store.requests.len(),
    ensures
        ({
            let id = ledger.store.requests[i].id;
            let after = with_approval(ledger, id, session_id, approver, tip, at_ms);
            let before = ledger.store.approvals;
            let rows = after.store.approvals;
            &&& after.store == StoreView { approvals: rows, ..ledger.store }
            &&& ledger.store.requests[i].state != RequestState::Open ==> after == ledger
            &&& ledger.store.requests[i].state == RequestState::Open ==> {
                &&& rows.len() == before.len() + 1
                &&& forall|k: int| 0 <= k < before.len() ==> #[trigger] rows[k] == before[k]
                &&& rows.last().request_id == id
                &&& rows.last().actor_name == approver.name
                &&& rows.last().actor_kind == approver.kind
                &&& rows.last().snapshot_id == tip
                &&& rows.last().at_ms == at_ms
                &&& !rows.last().dismissed
                &&& tells(
                    ledger.journal,
                    after.journal,
                    approver,
                    Act::Approve,
                    Some(called('s', session_id)),
                    Some(called('r', id) + seq![' '] + tip),
                    at_ms,
                )
            }
        }),
{
    let id = ledger.store.requests[i].id;
    requests_are_found(ledger.store.requests, ledger.store.last_request, id);
    assert(request_with(ledger.store.requests, id) == Some(ledger.store.requests[i]));
    two_words_are(crate::landing::request_label(id), tip);
}

/// A satisfied gate approves an open request, and moves nothing else.
pub proof fn satisfying(ledger: LedgerView, i: int)
    requires
        request_ids_ascend(ledger.store.requests, ledger.store.last_request),
        0 <= i < ledger.store.requests.len(),
    ensures
        ({
            let rows = ledger.store.requests;
            let after = with_approved(ledger, rows[i].id);
            &&& after == LedgerView {
                store: StoreView { requests: after.store.requests, ..ledger.store },
                ..ledger
            }
            &&& rows[i].state == RequestState::Open ==> moved_at(
                rows,
                after.store.requests,
                i,
                RequestState::Approved,
            )
            &&& rows[i].state != RequestState::Open ==> after.store.requests == rows
        }),
{
    let from = seq![RequestState::Open];
    assert(from[0] == RequestState::Open);
    moving_moves_one(
        ledger.store.requests,
        ledger.store.last_request,
        i,
        from,
        RequestState::Approved,
    );
}

/// Rejecting closes a request that is still decided, and nothing else: its
/// session stays as it is, and approvals are kept. It is told with the
/// reason, in the request's session.
pub proof fn rejecting(
    ledger: LedgerView,
    actor: ActorView,
    reason: Option<Seq<char>>,
    at_ms: int,
    i: int,
)
    requires
        request_ids_ascend(ledger.store.requests, ledger.store.last_request),
        0 <= i < ledger.store.requests.len(),
        ledger.store.requests[i].state == RequestState::Open || ledger.store.requests[i].state
            == RequestState::Approved,
    ensures
        ({
            let rows = ledger.store.requests;
            let id = rows[i].id;
            let after = after_reject(ledger, id, actor, reason, at_ms);
            &&& after.store == StoreView { requests: after.store.requests, ..ledger.store }
            &&& moved_at(rows, after.store.requests, i, RequestState::Rejected)
            &&& tells(
                ledger.journal,
                after.journal,
                actor,
                Act::Reject,
                Some(called('s', rows[i].session_id)),
                Some(
                    match reason {
                        Some(reason) => called('r', id) + seq![' '] + reason,
                        None => called('r', id),
                    },
                ),
                at_ms,
            )
        }),
{
    let rows = ledger.store.requests;
    let id = rows[i].id;
    let from = seq![RequestState::Open, RequestState::Approved];
    assert(from[0] == RequestState::Open && from[1] == RequestState::Approved);
    requests_are_found(rows, ledger.store.last_request, id);
    assert(request_with(rows, id) == Some(rows[i]));
    moving_moves_one(rows, ledger.store.last_request, i, from, RequestState::Rejected);
    if reason is Some {
        two_words_are(crate::landing::request_label(id), reason->0);
    }
}

// ---------------------------------------------------------------------
// Sessions.

/// Whether the sessions are as before but for the one of the given id, which
/// is now in the state `to`.
pub open spec fn session_moved(
    before: Seq<SessionRowView>,
    after: Seq<SessionRowView>,
    id: int,
    to: SessionState,
) -> bool {
    &&& after.len() == before.len()
    &&& forall|k: int|
        #![trigger after[k]]
        0 <= k < before.len() ==> after[k] == if before[k].id == id {
            SessionRowView { state: to, ..before[k] }
        } else {
            before[k]
        }
}

/// Abandoning an open session closes it, and the request it waits for if
/// there is one; no other session, no other request, and no approval or
/// landing changes. It is told, with that request.
pub proof fn abandoning(ledger: LedgerView, session_id: int, actor: ActorView, at_ms: int)
    requires
        gates_sound(ledger.store),
        session_refusal(ledger.store, session_id) is None,
    ensures
        ({
            let rows = ledger.store.requests;
            let after = after_abandon(ledger, session_id, actor, at_ms);
            &&& after.store == StoreView {
                requests: after.store.requests,
                sessions: after.store.sessions,
                ..ledger.store
            }
            &&& session_moved(
                ledger.store.sessions,
                after.store.sessions,
                session_id,
                SessionState::Abandoned,
            )
            &&& after.store.requests.len() == rows.len()
            &&& forall|k: int|
                #![trigger after.store.requests[k]]
                0 <= k < rows.len() ==> after.store.requests[k] == if waits_for(
                    rows[k],
                    session_id,
                ) {
                    RequestRowView { state: RequestState::Abandoned, ..rows[k] }
                } else {
                    rows[k]
                }
            &&& tells(
                ledger.journal,
                after.journal,
                actor,
                Act::SessionAbandon,
                Some(called('s', session_id)),
                after.journal.last().reference,
                at_ms,
            )
            &&& after.journal.last().reference is None <==> forall|k: int|
                #![trigger rows[k]]
                0 <= k < rows.len() ==> !waits_for(rows[k], session_id)
            &&& forall|k: int|
                #![trigger rows[k]]
                0 <= k < rows.len() && waits_for(rows[k], session_id)
                    ==> after.journal.last().reference == Some(called('r', rows[k].id))
        }),
{
    let rows = ledger.store.requests;
    let sessions = ledger.store.sessions;
    let after = after_abandon(ledger, session_id, actor, at_ms);
    waiting_requests_are_found(rows, session_id);
    closed_sessions_refuse(ledger.store, session_id);
    sessions_are_found(sessions, ledger.store.last_session, session_id);
    let open = choose|k: int|
        #![trigger sessions[k]]
        0 <= k < sessions.len() && sessions[k].id == session_id && sessions[k].change_id is Some
            && sessions[k].state == SessionState::Open;
    assert forall|k: int| #![trigger after.store.sessions[k]] 0 <= k < sessions.len() implies
        after.store.sessions[k] == (if sessions[k].id == session_id {
        SessionRowView { state: SessionState::Abandoned, ..sessions[k] }
    } else {
        sessions[k]
    }) by {
        if sessions[k].id == session_id {
            if k < open {
                assert(sessions[k].id < sessions[open].id);
            }
            if open < k {
                assert(sessions[open].id < sessions[k].id);
            }
        }
    }
    if gated_with(rows, session_id) is Some {
        let i = choose|i: int|
            #![trigger rows[i]]
            0 <= i < rows.len() && gated_with(rows, session_id) == Some(rows[i]) && waits_for(
                rows[i],
                session_id,
            ) && forall|j: int|
                #![trigger rows[j]]
                i < j < rows.len() ==> !waits_for(rows[j], session_id);
        let states = gated_states();
        assert(states[0] == RequestState::Open && states[1] == RequestState::Approved && states[2]
            == RequestState::Parked);
        moving_moves_one(rows, ledger.store.last_request, i, states, RequestState::Abandoned);
        assert forall|k: int| #![trigger rows[k]] 0 <= k < rows.len() && waits_for(
            rows[k],
            session_id,
        ) implies k == i by {
            if k < i {
                assert(!crate::invariants::is_standing(rows[k].state)
                    || !crate::invariants::is_standing(rows[i].state));
            }
        }
    }
}

/// An apply that parked nothing lands an approved request and its open
/// session, and nothing else moves; a request that is no longer approved, or
/// a session that is no longer open, keeps the state it was given meanwhile.
pub proof fn landing(ledger: LedgerView, i: int)
    requires
        request_ids_ascend(ledger.store.requests, ledger.store.last_request),
        session_ids_ascend(ledger.store.sessions, ledger.store.last_session),
        0 <= i < ledger.store.requests.len(),
    ensures
        ({
            let row = ledger.store.requests[i];
            let sessions = ledger.store.sessions;
            let after = after_landed(ledger, row.id, row.session_id);
            &&& after == LedgerView {
                store: StoreView {
                    requests: after.store.requests,
                    sessions: after.store.sessions,
                    ..ledger.store
                },
                ..ledger
            }
            &&& row.state != RequestState::Approved ==> after == ledger
            &&& row.state == RequestState::Approved ==> moved_at(
                ledger.store.requests,
                after.store.requests,
                i,
                RequestState::Landed,
            ) && after.store.sessions.len() == sessions.len() && forall|k: int|
                #![trigger after.store.sessions[k]]
                0 <= k < sessions.len() ==> after.store.sessions[k] == if sessions[k].id
                    == row.session_id && sessions[k].state == SessionState::Open {
                    SessionRowView { state: SessionState::Landed, ..sessions[k] }
                } else {
                    sessions[k]
                }
        }),
{
    let row = ledger.store.requests[i];
    let from = seq![RequestState::Approved];
    assert(from[0] == RequestState::Approved);
    requests_are_found(ledger.store.requests, ledger.store.last_request, row.id);
    assert(request_with(ledger.store.requests, row.id) == Some(row));
    moving_moves_one(
        ledger.store.requests,
        ledger.store.last_request,
        i,
        from,
        RequestState::Landed,
    );
}

/// An apply that parked a line parks an approved request, and nothing else
/// moves: its session stays open, and what landed stays recorded.
pub proof fn parking(ledger: LedgerView, i: int)
    requires
        request_ids_ascend(ledger.store.requests, ledger.store.last_request),
        0 <= i < ledger.store.requests.len(),
    ensures
        ({
            let rows = ledger.store.requests;
            let after = after_parked(ledger, rows[i].id);
            &&& after == LedgerView {
                store: StoreView { requests: after.store.requests, ..ledger.store },
                ..ledger
            }
            &&& rows[i].state == RequestState::Approved ==> moved_at(
                rows,
                after.store.requests,
                i,
                RequestState::Parked,
            )
            &&& rows[i].state != RequestState::Approved ==> after.store.requests == rows
        }),
{
    let from = seq![RequestState::Approved];
    assert(from[0] == RequestState::Approved);
    moving_moves_one(
        ledger.store.requests,
        ledger.store.last_request,
        i,
        from,
        RequestState::Parked,
    );
}

/// Undoing re-opens a landed request and its landed session, and no approval
/// of the request counts any longer; no other row changes, and the recorded
/// landings are left to the lines that step back.
pub proof fn undoing(ledger: LedgerView, i: int)
    requires
        request_ids_ascend(ledger.store.requests, ledger.store.last_request),
        0 <= i < ledger.store.requests.len(),
        ledger.store.requests[i].state == RequestState::Landed,
    ensures
        ({
            let row = ledger.store.requests[i];
            let sessions = ledger.store.sessions;
            let approvals = ledger.store.approvals;
            let after = after_undo(ledger, row.id, row.session_id);
            &&& after == LedgerView {
                store: StoreView {
                    requests: after.store.requests,
                    sessions: after.store.sessions,
                    approvals: after.store.approvals,
                    ..ledger.store
                },
                ..ledger
            }
            &&& moved_at(
                ledger.store.requests,
                after.store.requests,
                i,
                RequestState::Open,
            )
            &&& after.store.sessions.len() == sessions.len()
            &&& forall|k: int|
                #![trigger after.store.sessions[k]]
                0 <= k < sessions.len() ==> after.store.sessions[k] == if sessions[k].id
                    == row.session_id && sessions[k].state == SessionState::Landed {
                    SessionRowView { state: SessionState::Open, ..sessions[k] }
                } else {
                    sessions[k]
                }
            &&& after.store.approvals.len() == approvals.len()
            &&& forall|k: int|
                #![trigger after.store.approvals[k]]
                0 <= k < approvals.len() ==> after.store.approvals[k] == if approvals[k].request_id
                    == row.id {
                    ApprovalRowView { dismissed: true, ..approvals[k] }
                } else {
                    approvals[k]
                }
        }),
{
    let from = seq![RequestState::Landed];
    assert(from[0] == RequestState::Landed);
    moving_moves_one(
        ledger.store.requests,
        ledger.store.last_request,
        i,
        from,
        RequestState::Open,
    );
}

// ---------------------------------------------------------------------
// Lines.

/// The key a source's facts are stored under.
pub open spec fn stored_as(source: Option<Seq<char>>) -> Seq<char> {
    match source {
        Some(mount) => mount,
        None => seq!['/'],
    }
}

/// A line's landing is recorded as its source's and told; nothing else
/// changes, and no other landing goes.
pub proof fn recording_a_landing(
    ledger: LedgerView,
    id: int,
    session_id: int,
    source: Option<Seq<char>>,
    snapshot: Seq<char>,
    approver: ActorView,
    at_ms: int,
)
    ensures
        ({
            let after = after_line_landed(
                ledger,
                id,
                session_id,
                source,
                snapshot,
                approver,
                at_ms,
            );
            &&& after.store == StoreView { landings: after.store.landings, ..ledger.store }
            &&& forall|fact: FactView|
                #![trigger after.store.landings.contains(fact)]
                after.store.landings.contains(fact) <==> ledger.store.landings.contains(fact)
                    || fact == (id, stored_as(source), snapshot)
            &&& tells(
                ledger.journal,
                after.journal,
                approver,
                Act::Land,
                Some(called('s', session_id)),
                Some(about(source, called('r', id) + seq![' '] + snapshot)),
                at_ms,
            )
        }),
{
    reveal_strlit("/");
    assert("/"@ =~= seq!['/']);
    two_words_are(crate::landing::request_label(id), snapshot);
    about_is_scoped(source, called('r', id) + seq![' '] + snapshot);
}

/// A line that parks is told, and nothing is recorded.
pub proof fn recording_a_conflict(
    ledger: LedgerView,
    id: int,
    session_id: int,
    source: Option<Seq<char>>,
    approver: ActorView,
    at_ms: int,
)
    ensures
        ({
            let after = after_line_parked(ledger, id, session_id, source, approver, at_ms);
            &&& after.store == ledger.store
            &&& tells(
                ledger.journal,
                after.journal,
                approver,
                Act::LandParked,
                Some(called('s', session_id)),
                Some(about(source, called('r', id))),
                at_ms,
            )
        }),
{
    about_is_scoped(source, called('r', id));
}

/// A line that steps back loses the landing it stepped off, and only that;
/// the step is told with where the line stands now.
pub proof fn recording_a_step_back(
    ledger: LedgerView,
    id: int,
    session_id: int,
    source: Option<Seq<char>>,
    landed: Seq<char>,
    restored: Seq<char>,
    actor: ActorView,
    at_ms: int,
)
    ensures
        ({
            let after = after_line_stepped(
                ledger,
                id,
                session_id,
                source,
                landed,
                restored,
                actor,
                at_ms,
            );
            &&& after.store == StoreView { landings: after.store.landings, ..ledger.store }
            &&& forall|fact: FactView|
                #![trigger after.store.landings.contains(fact)]
                after.store.landings.contains(fact) <==> ledger.store.landings.contains(fact)
                    && fact != (id, stored_as(source), landed)
            &&& tells(
                ledger.journal,
                after.journal,
                actor,
                Act::Undo,
                Some(called('s', session_id)),
                Some(about(source, called('r', id) + seq![' '] + restored)),
                at_ms,
            )
        }),
{
    reveal_strlit("/");
    assert("/"@ =~= seq!['/']);
    two_words_are(crate::landing::request_label(id), restored);
    about_is_scoped(source, called('r', id) + seq![' '] + restored);
}

/// A step back undoes a landing's record: what was recorded on a line before
/// it landed is recorded after it stepped back.
pub proof fn stepping_back_unrecords(
    ledger: LedgerView,
    id: int,
    session_id: int,
    source: Option<Seq<char>>,
    snapshot: Seq<char>,
    restored: Seq<char>,
    actor: ActorView,
    at_ms: int,
)
    requires
        !ledger.store.landings.contains((id, stored_as(source), snapshot)),
    ensures
        after_line_stepped(
            after_line_landed(ledger, id, session_id, source, snapshot, actor, at_ms),
            id,
            session_id,
            source,
            snapshot,
            restored,
            actor,
            at_ms,
        ).store == ledger.store,
{
    let landed = after_line_landed(ledger, id, session_id, source, snapshot, actor, at_ms);
    let after = after_line_stepped(
        landed,
        id,
        session_id,
        source,
        snapshot,
        restored,
        actor,
        at_ms,
    );
    recording_a_landing(ledger, id, session_id, source, snapshot, actor, at_ms);
    recording_a_step_back(landed, id, session_id, source, snapshot, restored, actor, at_ms);
    assert(after.store.landings =~= ledger.store.landings) by {
        assert forall|fact: FactView| after.store.landings.contains(fact)
            == ledger.store.landings.contains(fact) by {
            assert(landed.store.landings.contains(fact) == landed.store.landings.contains(fact));
        }
    }
}

// ---------------------------------------------------------------------
// Snapshots.

/// Each snapshot of the shared lines is told once, in order and with its
/// source, and nothing else changes.
pub proof fn recording_snapshots(
    ledger: LedgerView,
    actor: ActorView,
    recorded: Seq<(Option<Seq<char>>, Seq<char>)>,
    at_ms: int,
)
    ensures
        ({
            let after = with_snapshots(ledger, actor, recorded, at_ms);
            let n = ledger.journal.len();
            &&& after.store == ledger.store
            &&& after.journal.len() == n + recorded.len()
            &&& forall|i: int| 0 <= i < n ==> #[trigger] after.journal[i] == ledger.journal[i]
            &&& forall|i: int|
                #![trigger after.journal[n + i]]
                0 <= i < recorded.len() ==> {
                    let entry = after.journal[n + i];
                    &&& entry.act == Act::Snapshot
                    &&& entry.actor_name == actor.name
                    &&& entry.actor_kind == actor.kind
                    &&& entry.at_ms == at_ms
                    &&& entry.session is None
                    &&& entry.reference == Some(about(recorded[i].0, recorded[i].1))
                }
        }),
    decreases recorded.len(),
{
    if recorded.len() > 0 {
        let rest = recorded.drop_last();
        let before = with_snapshots(ledger, actor, rest, at_ms);
        let after = with_snapshots(ledger, actor, recorded, at_ms);
        let n = ledger.journal.len();
        recording_snapshots(ledger, actor, rest, at_ms);
        about_is_scoped(recorded.last().0, recorded.last().1);
        assert forall|i: int| 0 <= i < n implies #[trigger] after.journal[i]
            == ledger.journal[i] by {
            assert(after.journal[i] == before.journal[i]);
        }
        assert forall|i: int| #![trigger after.journal[n + i]] 0 <= i < recorded.len() implies {
            let entry = after.journal[n + i];
            &&& entry.act == Act::Snapshot
            &&& entry.actor_name == actor.name
            &&& entry.actor_kind == actor.kind
            &&& entry.at_ms == at_ms
            &&& entry.session is None
            &&& entry.reference == Some(about(recorded[i].0, recorded[i].1))
        } by {
            if i < rest.len() {
                assert(after.journal[n + i] == before.journal[n + i]);
                assert(rest[i] == recorded[i]);
            } else {
                assert(recorded[i] == recorded.last());
            }
        }
    }
}

/// New snapshots on a session's change leave the request it waits for open,
/// whatever policy says; where policy dismisses approvals none of that
/// request's counts any longer, and where it does not every approval stays.
/// Other requests, sessions, and landings stay as they are.
pub proof fn recording_session_snapshots(
    ledger: LedgerView,
    session_id: int,
    actor: ActorView,
    recorded: Seq<(Option<Seq<char>>, Seq<char>)>,
    dismiss: bool,
    at_ms: int,
)
    requires
        gates_sound(ledger.store),
    ensures
        ({
            let after = after_session_snapshots(
                ledger,
                session_id,
                actor,
                recorded,
                dismiss,
                at_ms,
            );
            let rows = ledger.store.requests;
            &&& gates_sound(after.store)
            &&& after.store == StoreView {
                requests: after.store.requests,
                approvals: after.store.approvals,
                ..ledger.store
            }
            &&& after.store.requests.len() == rows.len()
            &&& forall|i: int|
                #![trigger after.store.requests[i]]
                0 <= i < rows.len() ==> after.store.requests[i] == if recorded.len() > 0
                    && waits_for(rows[i], session_id) {
                    RequestRowView { state: RequestState::Open, ..rows[i] }
                } else {
                    rows[i]
                }
            &&& !dismiss ==> after.store.approvals == ledger.store.approvals
            &&& after.store.approvals.len() == ledger.store.approvals.len()
            &&& forall|k: int, i: int|
                #![trigger after.store.approvals[k], rows[i]]
                0 <= k < after.store.approvals.len() && 0 <= i < rows.len() && waits_for(
                    rows[i],
                    session_id,
                ) && recorded.len() > 0 && dismiss && after.store.approvals[k].request_id
                    == rows[i].id ==> after.store.approvals[k].dismissed
        }),
    decreases recorded.len(),
{
    if recorded.len() > 0 {
        let rest = recorded.drop_last();
        let (source, snapshot) = recorded.last();
        let rows = ledger.store.requests;
        recording_session_snapshots(ledger, session_id, actor, rest, dismiss, at_ms);
        let before = after_session_snapshots(ledger, session_id, actor, rest, dismiss, at_ms);
        let noted = with_entry(
            before,
            entry_of(
                actor,
                Act::Snapshot,
                Some(session_id),
                Some(crate::ledger::scoped(source, snapshot)),
                at_ms,
            ),
        );
        let after = after_session_snapshots(ledger, session_id, actor, recorded, dismiss, at_ms);
        assert(after == gate_after_snapshot(noted, session_id, actor, snapshot, dismiss, at_ms));
        snapshot_keeps_gates_sound(noted, session_id, actor, snapshot, dismiss, at_ms);
        waiting_requests_are_found(noted.store.requests, session_id);
        assert forall|i: int| #![trigger after.store.requests[i]] 0 <= i < rows.len() implies
            after.store.requests[i] == (if waits_for(rows[i], session_id) {
            RequestRowView { state: RequestState::Open, ..rows[i] }
        } else {
            rows[i]
        }) by {
            a_new_snapshot_reopens(noted, session_id, actor, snapshot, dismiss, at_ms, i);
            assert(before.store.requests[i] == noted.store.requests[i]);
        }
        assert forall|k: int, i: int|
            #![trigger after.store.approvals[k], rows[i]]
            0 <= k < after.store.approvals.len() && 0 <= i < rows.len() && waits_for(
                rows[i],
                session_id,
            ) && dismiss && after.store.approvals[k].request_id
                == rows[i].id implies after.store.approvals[k].dismissed by {
            assert(before.store.requests[i] == noted.store.requests[i]);
            crate::invariants::a_new_snapshot_dismisses_by_policy(
                noted,
                session_id,
                actor,
                snapshot,
                dismiss,
                at_ms,
                i,
            );
        }
    }
}

/// One more snapshot on a session's change is told in that session, with its
/// source, behind what the earlier ones told; the approvals it dismisses, if
/// any counted and policy dismisses them, are told behind it, once, with the
/// request and the snapshot.
pub proof fn telling_of_session_snapshots(
    ledger: LedgerView,
    session_id: int,
    actor: ActorView,
    recorded: Seq<(Option<Seq<char>>, Seq<char>)>,
    source: Option<Seq<char>>,
    snapshot: Seq<char>,
    dismiss: bool,
    at_ms: int,
)
    requires
        gates_sound(ledger.store),
    ensures
        ({
            let before = after_session_snapshots(
                ledger,
                session_id,
                actor,
                recorded,
                dismiss,
                at_ms,
            );
            let after = after_session_snapshots(
                ledger,
                session_id,
                actor,
                recorded.push((source, snapshot)),
                dismiss,
                at_ms,
            );
            let n = before.journal.len() as int;
            let told = Some(about(source, snapshot));
            let rows = before.store.requests;
            let votes = before.store.approvals;
            let undone = dismiss && exists|i: int, k: int|
                #![trigger rows[i], votes[k]]
                0 <= i < rows.len() && 0 <= k < votes.len() && waits_for(rows[i], session_id)
                    && counts_for(votes[k], rows[i].id);
            let first = after.journal.take(n + 1);
            &&& tells(
                before.journal,
                first,
                actor,
                Act::Snapshot,
                Some(called('s', session_id)),
                told,
                at_ms,
            )
            &&& !undone ==> after.journal == first
            &&& undone ==> exists|i: int|
                #![trigger rows[i]]
                0 <= i < rows.len() && waits_for(rows[i], session_id) && tells(
                    first,
                    after.journal,
                    actor,
                    Act::ApprovalsDismissed,
                    Some(called('s', session_id)),
                    Some(called('r', rows[i].id) + seq![' '] + snapshot),
                    at_ms,
                )
        }),
{
    let longer = recorded.push((source, snapshot));
    assert(longer.drop_last() =~= recorded);
    assert(longer.last() == (source, snapshot));
    let before = after_session_snapshots(ledger, session_id, actor, recorded, dismiss, at_ms);
    let after = after_session_snapshots(ledger, session_id, actor, longer, dismiss, at_ms);
    recording_session_snapshots(ledger, session_id, actor, recorded, dismiss, at_ms);
    about_is_scoped(source, snapshot);
    let rows = before.store.requests;
    let votes = before.store.approvals;
    let n = before.journal.len() as int;
    waiting_requests_are_found(rows, session_id);
    let entry = entry_of(
        actor,
        Act::Snapshot,
        Some(session_id),
        Some(crate::ledger::scoped(source, snapshot)),
        at_ms,
    );
    let noted = with_entry(before, entry);
    assert(after == gate_after_snapshot(noted, session_id, actor, snapshot, dismiss, at_ms));
    assert(after.journal.take(n + 1) =~= noted.journal);
    if gated_with(rows, session_id) is Some {
        let i = choose|i: int|
            #![trigger rows[i]]
            0 <= i < rows.len() && gated_with(rows, session_id) == Some(rows[i]) && waits_for(
                rows[i],
                session_id,
            );
        two_words_are(crate::landing::request_label(rows[i].id), snapshot);
        let at = counting_approvals_are_all(votes, rows[i].id);
        if at.len() > 0 {
            assert(counts_for(votes[at[0]], rows[i].id));
        }
        assert forall|j: int, k: int|
            #![trigger rows[j], votes[k]]
            0 <= j < rows.len() && 0 <= k < votes.len() && waits_for(rows[j], session_id)
                && counts_for(votes[k], rows[j].id) implies at.len() > 0 by {
            if j != i {
                let (a, b) = if i < j {
                    (i, j)
                } else {
                    (j, i)
                };
                assert(!crate::invariants::is_standing(rows[a].state)
                    || !crate::invariants::is_standing(rows[b].state));
            }
            assert(at.contains(k));
        }
    }
}

// ---------------------------------------------------------------------
// Origins.

/// A sync is remembered under its source, with the fingerprint and the
/// snapshot it left the origin at, and told; no other source's changes.
pub proof fn recording_a_sync(
    ledger: LedgerView,
    actor: ActorView,
    source: Option<Seq<char>>,
    fingerprint: Seq<char>,
    snapshot: Seq<char>,
    at_ms: int,
    key: Seq<char>,
)
    ensures
        ({
            let after = synced(ledger, actor, source, fingerprint, snapshot, at_ms);
            &&& after.store == StoreView { syncs: after.store.syncs, ..ledger.store }
            &&& after.store.syncs.dom().contains(stored_as(source))
            &&& after.store.syncs[stored_as(source)] == (fingerprint, snapshot)
            &&& key != stored_as(source) ==> (after.store.syncs.dom().contains(key)
                <==> ledger.store.syncs.dom().contains(key)) && after.store.syncs[key]
                == ledger.store.syncs[key]
            &&& tells(
                ledger.journal,
                after.journal,
                actor,
                Act::Sync,
                None,
                Some(about(source, snapshot)),
                at_ms,
            )
        }),
{
    reveal_strlit("/");
    assert("/"@ =~= seq!['/']);
    about_is_scoped(source, snapshot);
}

/// A pull is remembered like a sync, and told as a pull.
pub proof fn recording_a_pull(
    ledger: LedgerView,
    actor: ActorView,
    source: Option<Seq<char>>,
    fingerprint: Seq<char>,
    snapshot: Seq<char>,
    at_ms: int,
)
    ensures
        ({
            let after = pulled(ledger, actor, source, fingerprint, snapshot, at_ms);
            &&& after.store == synced(
                ledger,
                actor,
                source,
                fingerprint,
                snapshot,
                at_ms,
            ).store
            &&& after.store == with_sync(ledger, stored_as(source), fingerprint, snapshot).store
            &&& tells(
                ledger.journal,
                after.journal,
                actor,
                Act::Pull,
                None,
                Some(about(source, snapshot)),
                at_ms,
            )
        }),
{
    reveal_strlit("/");
    assert("/"@ =~= seq!['/']);
    about_is_scoped(source, snapshot);
}

/// A sync that found the origin changed is told, and nothing is remembered of
/// it: the next one finds the same.
pub proof fn recording_a_parked_sync(
    ledger: LedgerView,
    actor: ActorView,
    source: Option<Seq<char>>,
    snapshot: Seq<char>,
    at_ms: int,
)
    ensures
        ({
            let after = sync_parked(ledger, actor, source, snapshot, at_ms);
            &&& after.store == ledger.store
            &&& tells(
                ledger.journal,
                after.journal,
                actor,
                Act::SyncParked,
                None,
                Some(about(source, snapshot + " origin changed"@)),
                at_ms,
            )
        }),
{
    about_is_scoped(source, snapshot + " origin changed"@);
}

/// An attach is told with the snapshot it recorded, if it recorded one, and
/// its mount.
pub proof fn recording_an_attach(
    ledger: LedgerView,
    actor: ActorView,
    mount: Option<Seq<char>>,
    snapshot: Option<Seq<char>>,
    at_ms: int,
)
    ensures
        ({
            let after = attached(ledger, actor, mount, snapshot, at_ms);
            &&& after.store == ledger.store
            &&& tells(
                ledger.journal,
                after.journal,
                actor,
                Act::SourceAttach,
                None,
                match snapshot {
                    Some(id) => Some(about(mount, id)),
                    None => None,
                },
                at_ms,
            )
        }),
{
    if snapshot is Some {
        about_is_scoped(mount, snapshot->0);
    }
}

/// A fold that moved the line is told as a pull that names the line and its
/// new head; one that left the line is not told.
pub proof fn recording_a_fold(
    ledger: LedgerView,
    actor: ActorView,
    source: Option<Seq<char>>,
    fold: GitFold,
    at_ms: int,
)
    ensures
        ({
            let after = after_fold(ledger, actor, source, fold, at_ms);
            &&& after.store == ledger.store
            &&& fold == GitFold::Current ==> after == ledger
            &&& fold matches GitFold::Folded { head } ==> tells(
                ledger.journal,
                after.journal,
                actor,
                Act::Pull,
                None,
                Some(about(source, head@)),
                at_ms,
            )
        }),
{
    if let GitFold::Folded { head } = fold {
        about_is_scoped(source, head@);
    }
}

} // verus!
