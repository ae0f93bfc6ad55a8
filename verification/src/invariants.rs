//! What every state of a workspace's gates satisfies, and what no step of
//! the landing gate can undo.

use crate::apply::{after_landed, after_line_landed, after_line_parked, after_parked};
use crate::attach::attached;
use crate::config::{Actor, ActorKind, ActorView, LandingPolicy};
use crate::coordination::{
    ApprovalRowView,
    RequestRowView,
    SessionRowView,
    StoreView,
    fresh_request,
    fresh_session,
    gated_with,
    is_gated,
    live,
    request_ids_ascend,
    request_with,
    requests_moved,
    session_ids_ascend,
    session_with,
    sessions_moved,
};
use crate::gate::{
    after_abandon,
    after_reject,
    after_request,
    after_session_snapshots,
    approvers,
    gate_after_snapshot,
    gate_satisfied,
    gated_states,
    gated_with_is_gated,
    session_with_moved,
    with_approval,
    with_approved,
};
use crate::journal::{Act, EntryView};
use crate::landing::RequestState;
use crate::ledger::{
    LedgerView,
    gate_refusal,
    session_refusal,
    session_unreadable,
    session_with_id,
    with_snapshots,
};
use crate::session::SessionState;
use crate::sync::{pulled, sync_parked, synced};
use crate::undo::{after_line_stepped, after_undo, undo_refusal};
use vstd::prelude::*;

verus! {

/// Whether a request still stands for its session's change: it holds the
/// gate, or it landed.
pub open spec fn is_standing(state: RequestState) -> bool {
    is_gated(state) || state == RequestState::Landed
}

/// Whether the gates are sound: a session has at most one standing request;
/// the session of a request that holds the landing gate is open; the session of a
/// landed request is landed.
pub open spec fn gates_sound(store: StoreView) -> bool {
    &&& session_ids_ascend(store.sessions, store.last_session)
    &&& request_ids_ascend(store.requests, store.last_request)
    &&& one_standing(store.requests)
    &&& sessions_agree(store.sessions, store.requests)
}

/// Whether no session has two standing requests.
pub open spec fn one_standing(requests: Seq<RequestRowView>) -> bool {
    forall|i: int, j: int|
        #![trigger requests[i], requests[j]]
        0 <= i < j < requests.len() && requests[i].session_id == requests[j].session_id
            ==> !is_standing(requests[i].state) || !is_standing(requests[j].state)
}

/// Whether every standing request's session is in the state it implies.
pub open spec fn sessions_agree(sessions: Seq<SessionRowView>, requests: Seq<RequestRowView>) -> bool {
    forall|i: int|
        #![trigger requests[i]]
        0 <= i < requests.len() ==> agrees(sessions, requests[i])
}

/// Whether the request's session is in the state the request implies.
pub open spec fn agrees(sessions: Seq<SessionRowView>, request: RequestRowView) -> bool {
    let session = session_with(sessions, request.session_id);
    &&& is_gated(request.state) ==> session is Some && (session->0).state == SessionState::Open
    &&& request.state == RequestState::Landed ==> session is Some && (session->0).state
        == SessionState::Landed
}

/// Gates are sound where there is no request yet.
pub proof fn no_request_is_sound(store: StoreView)
    requires
        session_ids_ascend(store.sessions, store.last_session),
        store.requests.len() == 0,
    ensures
        gates_sound(store),
{
}

// ---------------------------------------------------------------------
// Lemmas on moves.

/// Ids and sessions of requests survive a move; so does which of them stand
/// when standing requests move to standing states.
proof fn move_keeps(
    rows: Seq<RequestRowView>,
    id: int,
    from: Seq<RequestState>,
    to: RequestState,
    last: int,
)
    requires
        request_ids_ascend(rows, last),
    ensures
        request_ids_ascend(requests_moved(rows, id, from, to), last),
{
    let moved = requests_moved(rows, id, from, to);
    assert forall|i: int, j: int|
        #![trigger moved[i], moved[j]]
        0 <= i < j < moved.len() implies moved[i].id < moved[j].id by {
        assert(rows[i].id < rows[j].id);
    }
    assert forall|i: int| #![trigger moved[i]] 0 <= i < moved.len() implies moved[i].id <= last by {
        assert(rows[i].id <= last);
    }
}

/// Moving requests between standing states, or out of them, leaves at most
/// one standing per session.
proof fn move_keeps_one_standing(
    rows: Seq<RequestRowView>,
    id: int,
    from: Seq<RequestState>,
    to: RequestState,
)
    requires
        one_standing(rows),
        forall|k: int| 0 <= k < from.len() ==> is_standing(#[trigger] from[k]),
    ensures
        one_standing(requests_moved(rows, id, from, to)),
{
    let moved = requests_moved(rows, id, from, to);
    assert forall|i: int, j: int|
        #![trigger moved[i], moved[j]]
        0 <= i < j < moved.len() && moved[i].session_id == moved[j].session_id implies !is_standing(
        moved[i].state,
    ) || !is_standing(moved[j].state) by {
        assert(!is_standing(rows[i].state) || !is_standing(rows[j].state));
        assert(is_standing(moved[i].state) ==> is_standing(rows[i].state));
        assert(is_standing(moved[j].state) ==> is_standing(rows[j].state));
    }
}

/// A request looked up stands at some index.
proof fn request_with_at(rows: Seq<RequestRowView>, id: int) -> (at: int)
    requires
        request_with(rows, id) is Some,
    ensures
        0 <= at < rows.len(),
        rows[at] == request_with(rows, id)->0,
        rows[at].id == id,
    decreases rows.len(),
{
    if rows.last().id == id {
        rows.len() - 1
    } else {
        let at = request_with_at(rows.drop_last(), id);
        at
    }
}

/// The gated request of a session stands at some index.
proof fn gated_with_at(rows: Seq<RequestRowView>, session_id: int) -> (at: int)
    requires
        gated_with(rows, session_id) is Some,
    ensures
        0 <= at < rows.len(),
        rows[at] == gated_with(rows, session_id)->0,
        rows[at].session_id == session_id,
        is_gated(rows[at].state),
{
    gated_with_is_gated(rows, session_id);
    choose|i: int|
        #![trigger rows[i]]
        0 <= i < rows.len() && gated_with(rows, session_id) == Some(rows[i]) && rows[i].session_id
            == session_id && is_gated(rows[i].state)
}

/// A session without a gated request has none at any index.
proof fn none_gated(rows: Seq<RequestRowView>, session_id: int)
    requires
        gated_with(rows, session_id) is None,
    ensures
        forall|i: int|
            #![trigger rows[i]]
            0 <= i < rows.len() && rows[i].session_id == session_id ==> !is_gated(rows[i].state),
    decreases rows.len(),
{
    if rows.len() > 0 {
        let rest = rows.drop_last();
        none_gated(rest, session_id);
        assert forall|i: int|
            #![trigger rows[i]]
            0 <= i < rows.len() && rows[i].session_id == session_id implies !is_gated(
            rows[i].state,
        ) by {
            if i < rest.len() {
                assert(rest[i] == rows[i]);
            }
        }
    }
}

/// Session ids survive a move.
proof fn session_move_keeps(
    rows: Seq<SessionRowView>,
    id: int,
    from: SessionState,
    to: SessionState,
    last: int,
)
    requires
        session_ids_ascend(rows, last),
    ensures
        session_ids_ascend(sessions_moved(rows, id, from, to), last),
{
    let moved = sessions_moved(rows, id, from, to);
    assert forall|i: int, j: int|
        #![trigger moved[i], moved[j]]
        0 <= i < j < moved.len() implies moved[i].id < moved[j].id by {
        assert(rows[i].id < rows[j].id);
    }
    assert forall|i: int| #![trigger moved[i]] 0 <= i < moved.len() implies moved[i].id <= last by {
        assert(rows[i].id <= last);
    }
}

// ---------------------------------------------------------------------
// Every step keeps the gates sound.

/// A new session leaves the gates sound.
pub proof fn new_session_keeps_gates_sound(
    store: StoreView,
    actor: Actor,
    summary: Seq<char>,
    run_ref: Option<Seq<char>>,
    verbatim: Option<Seq<char>>,
    at_ms: int,
)
    requires
        gates_sound(store),
    ensures
        gates_sound(
            StoreView {
                sessions: store.sessions.push(
                    fresh_session(
                        store.last_session + 1,
                        actor,
                        summary,
                        run_ref,
                        verbatim,
                        at_ms,
                    ),
                ),
                last_session: store.last_session + 1,
                ..store
            },
        ),
{
    let row = fresh_session(store.last_session + 1, actor, summary, run_ref, verbatim, at_ms);
    let rows = store.sessions.push(row);
    assert forall|i: int, j: int|
        #![trigger rows[i], rows[j]]
        0 <= i < j < rows.len() implies rows[i].id < rows[j].id by {
        if j < store.sessions.len() {
            assert(store.sessions[i].id < store.sessions[j].id);
        } else {
            assert(store.sessions[i].id <= store.last_session);
        }
    }
    assert forall|i: int|
        #![trigger rows[i]]
        0 <= i < rows.len() implies rows[i].id <= store.last_session + 1 by {
        if i < store.sessions.len() {
            assert(store.sessions[i].id <= store.last_session);
        }
    }
    assert(rows.drop_last() =~= store.sessions);
    assert forall|i: int|
        #![trigger store.requests[i]]
        0 <= i < store.requests.len() implies agrees(rows, store.requests[i]) by {
        assert(agrees(store.sessions, store.requests[i]));
        let sid = store.requests[i].session_id;
        if session_with(store.sessions, sid) is Some {
            session_found_below(store.sessions, sid, store.last_session);
        }
    }
}

/// A session found has an id that was given out.
proof fn session_found_below(rows: Seq<SessionRowView>, id: int, last: int)
    requires
        session_ids_ascend(rows, last),
        session_with(rows, id) is Some,
    ensures
        id <= last,
    decreases rows.len(),
{
    if rows.last().id == id {
        assert(rows[rows.len() - 1].id <= last);
    } else {
        let rest = rows.drop_last();
        assert forall|i: int, j: int|
            #![trigger rest[i], rest[j]]
            0 <= i < j < rest.len() implies rest[i].id < rest[j].id by {
            assert(rows[i].id < rows[j].id);
        }
        assert forall|i: int| #![trigger rest[i]] 0 <= i < rest.len() implies rest[i].id <= last by {
            assert(rows[i].id <= last);
        }
        session_found_below(rest, id, last);
    }
}

/// A new snapshot on a session's change leaves the gates sound.
pub proof fn snapshot_keeps_gates_sound(
    ledger: LedgerView,
    session_id: int,
    actor: ActorView,
    snapshot: Seq<char>,
    dismiss: bool,
    at_ms: int,
)
    requires
        gates_sound(ledger.store),
    ensures
        gates_sound(
            gate_after_snapshot(ledger, session_id, actor, snapshot, dismiss, at_ms).store,
        ),
{
    if gated_with(ledger.store.requests, session_id) is Some {
        let rows = ledger.store.requests;
        let id = (gated_with(rows, session_id)->0).id;
        let from = seq![RequestState::Approved, RequestState::Parked];
        let moved = requests_moved(rows, id, from, RequestState::Open);
        move_keeps(rows, id, from, RequestState::Open, ledger.store.last_request);
        move_keeps_one_standing(rows, id, from, RequestState::Open);
        assert forall|i: int| #![trigger moved[i]] 0 <= i < moved.len() implies agrees(
            ledger.store.sessions,
            moved[i],
        ) by {
            assert(agrees(ledger.store.sessions, rows[i]));
            if rows[i].id == id && from.contains(rows[i].state) {
                let k = choose|k: int| 0 <= k < from.len() && from[k] == rows[i].state;
                assert(is_gated(rows[i].state));
            }
        }
    }
}

/// Opening a request for an open session that has none leaves the gates
/// sound: at most one request per session holds the landing gate.
pub proof fn request_keeps_gates_sound(
    ledger: LedgerView,
    session_id: int,
    requester: ActorView,
    at_ms: int,
)
    requires
        gates_sound(ledger.store),
        session_refusal(ledger.store, session_id) is None,
        gated_with(ledger.store.requests, session_id) is None,
    ensures
        gates_sound(after_request(ledger, session_id, requester, at_ms).store),
{
    let rows = ledger.store.requests;
    let id = ledger.store.last_request + 1;
    let row = fresh_request(id, session_id, requester, at_ms);
    let grown = rows.push(row);
    none_gated(rows, session_id);
    assert forall|i: int, j: int|
        #![trigger grown[i], grown[j]]
        0 <= i < j < grown.len() implies grown[i].id < grown[j].id by {
        if j < rows.len() {
            assert(rows[i].id < rows[j].id);
        } else {
            assert(rows[i].id <= ledger.store.last_request);
        }
    }
    assert forall|i: int| #![trigger grown[i]] 0 <= i < grown.len() implies grown[i].id <= id by {
        if i < rows.len() {
            assert(rows[i].id <= ledger.store.last_request);
        }
    }
    assert forall|i: int, j: int|
        #![trigger grown[i], grown[j]]
        0 <= i < j < grown.len() && grown[i].session_id == grown[j].session_id implies !is_standing(
        grown[i].state,
    ) || !is_standing(grown[j].state) by {
        if j < rows.len() {
            assert(!is_standing(rows[i].state) || !is_standing(rows[j].state));
        } else {
            assert(agrees(ledger.store.sessions, rows[i]));
            assert(!is_gated(rows[i].state));
        }
    }
    assert forall|i: int| #![trigger grown[i]] 0 <= i < grown.len() implies agrees(
        ledger.store.sessions,
        grown[i],
    ) by {
        if i < rows.len() {
            assert(agrees(ledger.store.sessions, rows[i]));
        }
    }
}

/// Approving leaves the gates sound.
pub proof fn approval_keeps_gates_sound(
    ledger: LedgerView,
    id: int,
    session_id: int,
    approver: ActorView,
    tip: Seq<char>,
    at_ms: int,
)
    requires
        gates_sound(ledger.store),
    ensures
        gates_sound(with_approval(ledger, id, session_id, approver, tip, at_ms).store),
        gates_sound(
            with_approved(with_approval(ledger, id, session_id, approver, tip, at_ms), id).store,
        ),
{
    let rows = ledger.store.requests;
    let from = seq![RequestState::Open];
    let moved = requests_moved(rows, id, from, RequestState::Approved);
    move_keeps(rows, id, from, RequestState::Approved, ledger.store.last_request);
    move_keeps_one_standing(rows, id, from, RequestState::Approved);
    assert forall|i: int| #![trigger moved[i]] 0 <= i < moved.len() implies agrees(
        ledger.store.sessions,
        moved[i],
    ) by {
        assert(agrees(ledger.store.sessions, rows[i]));
        if rows[i].id == id && from.contains(rows[i].state) {
            let k = choose|k: int| 0 <= k < from.len() && from[k] == rows[i].state;
            assert(is_gated(rows[i].state));
        }
    }
}

/// Rejecting leaves the gates sound.
pub proof fn reject_keeps_gates_sound(
    ledger: LedgerView,
    id: int,
    actor: ActorView,
    reason: Option<Seq<char>>,
    at_ms: int,
)
    requires
        gates_sound(ledger.store),
    ensures
        gates_sound(after_reject(ledger, id, actor, reason, at_ms).store),
{
    let rows = ledger.store.requests;
    let from = seq![RequestState::Open, RequestState::Approved];
    let moved = requests_moved(rows, id, from, RequestState::Rejected);
    move_keeps(rows, id, from, RequestState::Rejected, ledger.store.last_request);
    move_keeps_one_standing(rows, id, from, RequestState::Rejected);
    assert forall|i: int| #![trigger moved[i]] 0 <= i < moved.len() implies agrees(
        ledger.store.sessions,
        moved[i],
    ) by {
        assert(agrees(ledger.store.sessions, rows[i]));
    }
}

/// Abandoning leaves the gates sound.
pub proof fn abandon_keeps_gates_sound(
    ledger: LedgerView,
    session_id: int,
    actor: ActorView,
    at_ms: int,
)
    requires
        gates_sound(ledger.store),
        session_refusal(ledger.store, session_id) is None,
    ensures
        gates_sound(after_abandon(ledger, session_id, actor, at_ms).store),
{
    let rows = ledger.store.requests;
    let sessions = ledger.store.sessions;
    let from = gated_states();
    let gated = gated_with(rows, session_id);
    let id = (gated->0).id;
    let moved = if gated is Some {
        requests_moved(rows, id, from, RequestState::Abandoned)
    } else {
        rows
    };
    let closed = sessions_moved(sessions, session_id, SessionState::Open, SessionState::Abandoned);
    session_move_keeps(
        sessions,
        session_id,
        SessionState::Open,
        SessionState::Abandoned,
        ledger.store.last_session,
    );
    if gated is Some {
        move_keeps(rows, id, from, RequestState::Abandoned, ledger.store.last_request);
        move_keeps_one_standing(rows, id, from, RequestState::Abandoned);
    } else {
        none_gated(rows, session_id);
    }
    assert forall|i: int| #![trigger moved[i]] 0 <= i < moved.len() implies agrees(
        closed,
        moved[i],
    ) by {
        assert(agrees(sessions, rows[i]));
        let sid = rows[i].session_id;
        session_with_moved(
            sessions,
            session_id,
            SessionState::Open,
            SessionState::Abandoned,
            sid,
        );
        if session_with(sessions, sid) is Some {
            session_with_id(sessions, sid);
        }
        if sid == session_id && is_standing(rows[i].state) {
            assert(is_gated(rows[i].state));
            assert(gated is Some);
            let at = gated_with_at(rows, session_id);
            if at < i {
                assert(!is_standing(rows[at].state) || !is_standing(rows[i].state));
            } else if i < at {
                assert(!is_standing(rows[i].state) || !is_standing(rows[at].state));
            }
            assert(i == at);
            assert(from[0] == RequestState::Open && from[1] == RequestState::Approved && from[2]
                == RequestState::Parked);
            assert(from.contains(rows[i].state));
        }
    }
}

/// Settling an apply leaves the gates sound.
pub proof fn settling_keeps_gates_sound(ledger: LedgerView, id: int, session_id: int)
    requires
        gates_sound(ledger.store),
        request_with(ledger.store.requests, id) is Some ==> (request_with(
            ledger.store.requests,
            id,
        )->0).session_id == session_id,
    ensures
        gates_sound(after_landed(ledger, id, session_id).store),
        gates_sound(after_parked(ledger, id).store),
{
    let rows = ledger.store.requests;
    let sessions = ledger.store.sessions;
    let from = seq![RequestState::Approved];
    assert(from[0] == RequestState::Approved);
    let parked = requests_moved(rows, id, from, RequestState::Parked);
    move_keeps(rows, id, from, RequestState::Parked, ledger.store.last_request);
    move_keeps_one_standing(rows, id, from, RequestState::Parked);
    assert forall|i: int| #![trigger parked[i]] 0 <= i < parked.len() implies agrees(
        sessions,
        parked[i],
    ) by {
        assert(agrees(sessions, rows[i]));
        if rows[i].id == id && from.contains(rows[i].state) {
            let k = choose|k: int| 0 <= k < from.len() && from[k] == rows[i].state;
            assert(is_gated(rows[i].state));
        }
    }
    if request_with(rows, id) is Some && (request_with(rows, id)->0).state
        == RequestState::Approved {
        let at = request_with_at(rows, id);
        let landed = requests_moved(rows, id, from, RequestState::Landed);
        let closed = sessions_moved(sessions, session_id, SessionState::Open, SessionState::Landed);
        move_keeps(rows, id, from, RequestState::Landed, ledger.store.last_request);
        move_keeps_one_standing(rows, id, from, RequestState::Landed);
        session_move_keeps(
            sessions,
            session_id,
            SessionState::Open,
            SessionState::Landed,
            ledger.store.last_session,
        );
        assert forall|i: int| #![trigger landed[i]] 0 <= i < landed.len() implies agrees(
            closed,
            landed[i],
        ) by {
            assert(agrees(sessions, rows[i]));
            assert(agrees(sessions, rows[at]));
            let sid = rows[i].session_id;
            session_with_moved(
                sessions,
                session_id,
                SessionState::Open,
                SessionState::Landed,
                sid,
            );
            if session_with(sessions, sid) is Some {
                session_with_id(sessions, sid);
            }
            if i < at {
                assert(rows[i].id < rows[at].id);
                assert(rows[i].session_id == rows[at].session_id ==> !is_standing(rows[i].state)
                    || !is_standing(rows[at].state));
            } else if at < i {
                assert(rows[at].id < rows[i].id);
                assert(rows[at].session_id == rows[i].session_id ==> !is_standing(rows[at].state)
                    || !is_standing(rows[i].state));
            }
        }
    }
}

/// Undoing a landed request leaves the gates sound.
pub proof fn undo_keeps_gates_sound(ledger: LedgerView, id: int)
    requires
        gates_sound(ledger.store),
        undo_refusal(ledger.store, id) is None,
    ensures
        gates_sound(
            after_undo(
                ledger,
                id,
                (request_with(ledger.store.requests, id)->0).session_id,
            ).store,
        ),
{
    let rows = ledger.store.requests;
    let sessions = ledger.store.sessions;
    let session_id = (request_with(rows, id)->0).session_id;
    let from = seq![RequestState::Landed];
    assert(from[0] == RequestState::Landed);
    let at = request_with_at(rows, id);
    let opened = requests_moved(rows, id, from, RequestState::Open);
    let reopened = sessions_moved(sessions, session_id, SessionState::Landed, SessionState::Open);
    move_keeps(rows, id, from, RequestState::Open, ledger.store.last_request);
    move_keeps_one_standing(rows, id, from, RequestState::Open);
    session_move_keeps(
        sessions,
        session_id,
        SessionState::Landed,
        SessionState::Open,
        ledger.store.last_session,
    );
    assert forall|i: int| #![trigger opened[i]] 0 <= i < opened.len() implies agrees(
        reopened,
        opened[i],
    ) by {
        assert(agrees(sessions, rows[i]));
        assert(agrees(sessions, rows[at]));
        let sid = rows[i].session_id;
        session_with_moved(sessions, session_id, SessionState::Landed, SessionState::Open, sid);
        if session_with(sessions, sid) is Some {
            session_with_id(sessions, sid);
        }
        if i < at {
            assert(rows[i].id < rows[at].id);
            assert(rows[i].session_id == rows[at].session_id ==> !is_standing(rows[i].state)
                || !is_standing(rows[at].state));
        } else if at < i {
            assert(rows[at].id < rows[i].id);
            assert(rows[at].session_id == rows[i].session_id ==> !is_standing(rows[at].state)
                || !is_standing(rows[i].state));
        }
    }
}

// ---------------------------------------------------------------------
// What no step can undo.

/// Whether the landing gate of a request closed for good, short of an undo.
pub open spec fn is_closed(state: RequestState) -> bool {
    !is_gated(state)
}

/// A closed gate stays closed: a new snapshot, an approval, a rejection, an
/// abandonment and a settling apply each leave a closed request as it was.
pub proof fn closed_stays_closed(
    ledger: LedgerView,
    i: int,
    session_id: int,
    id: int,
    actor: ActorView,
    text: Seq<char>,
    reason: Option<Seq<char>>,
    dismiss: bool,
    at_ms: int,
)
    requires
        0 <= i < ledger.store.requests.len(),
        is_closed(ledger.store.requests[i].state),
    ensures
        gate_after_snapshot(ledger, session_id, actor, text, dismiss, at_ms).store.requests[i]
            == ledger.store.requests[i],
        with_approved(
            with_approval(ledger, id, session_id, actor, text, at_ms),
            id,
        ).store.requests[i] == ledger.store.requests[i],
        after_reject(ledger, id, actor, reason, at_ms).store.requests[i]
            == ledger.store.requests[i],
        after_abandon(ledger, session_id, actor, at_ms).store.requests[i]
            == ledger.store.requests[i],
        after_landed(ledger, id, session_id).store.requests[i] == ledger.store.requests[i],
        after_parked(ledger, id).store.requests[i] == ledger.store.requests[i],
{
    let state = ledger.store.requests[i].state;
    assert(!seq![RequestState::Approved, RequestState::Parked].contains(state));
    assert(!seq![RequestState::Open].contains(state));
    assert(!seq![RequestState::Approved].contains(state));
    assert(!seq![RequestState::Open, RequestState::Approved].contains(state));
    assert(!gated_states().contains(state));
}

/// Where policy dismisses approvals on new snapshots, a new snapshot on a
/// session's change leaves no approval counting toward its request, and the
/// request open: a stale approval never carries later work.
pub proof fn snapshot_dismisses(
    ledger: LedgerView,
    session_id: int,
    actor: ActorView,
    snapshot: Seq<char>,
    at_ms: int,
)
    requires
        gates_sound(ledger.store),
        gated_with(ledger.store.requests, session_id) is Some,
    ensures
        ({
            let after = gate_after_snapshot(ledger, session_id, actor, snapshot, true, at_ms);
            let id = (gated_with(ledger.store.requests, session_id)->0).id;
            &&& live(after.store.approvals, id).len() == 0
            &&& request_with(after.store.requests, id) is Some
            &&& (request_with(after.store.requests, id)->0).state == RequestState::Open
        }),
{
    let rows = ledger.store.requests;
    let id = (gated_with(rows, session_id)->0).id;
    crate::coordination::dismissed_no_longer_count(ledger.store.approvals, id);
    let at = gated_with_at(rows, session_id);
    let from = seq![RequestState::Approved, RequestState::Parked];
    assert(from[0] == RequestState::Approved && from[1] == RequestState::Parked);
    unique_request(rows, at, ledger.store.last_request);
    crate::gate::request_with_moved(rows, id, from, RequestState::Open, id);
}

/// Whether a stored request of the session is still being decided, or waits
/// on a conflict.
pub open spec fn waits_for(row: RequestRowView, session_id: int) -> bool {
    row.session_id == session_id && (row.state == RequestState::Open || row.state
        == RequestState::Approved || row.state == RequestState::Parked)
}

/// A new snapshot on a session's change re-opens the session's waiting
/// request, whatever policy says of approvals: an approval no longer covers
/// the change, and a conflict may be resolved. No other request moves.
pub proof fn a_new_snapshot_reopens(
    ledger: LedgerView,
    session_id: int,
    actor: ActorView,
    snapshot: Seq<char>,
    dismiss: bool,
    at_ms: int,
    i: int,
)
    requires
        gates_sound(ledger.store),
        0 <= i < ledger.store.requests.len(),
    ensures
        ({
            let before = ledger.store.requests;
            let after = gate_after_snapshot(ledger, session_id, actor, snapshot, dismiss, at_ms)
                .store.requests;
            &&& after.len() == before.len()
            &&& waits_for(before[i], session_id) ==> after[i] == (RequestRowView {
                state: RequestState::Open,
                ..before[i]
            })
            &&& !waits_for(before[i], session_id) ==> after[i] == before[i]
        }),
{
    let rows = ledger.store.requests;
    let from = seq![RequestState::Approved, RequestState::Parked];
    assert(from[0] == RequestState::Approved && from[1] == RequestState::Parked);
    if gated_with(rows, session_id) is None {
        none_gated(rows, session_id);
    } else {
        let at = gated_with_at(rows, session_id);
        if i < at {
            assert(rows[i].id < rows[at].id);
        }
        if at < i {
            assert(rows[at].id < rows[i].id);
        }
        if waits_for(rows[i], session_id) && i != at {
            let (x, y) = if i < at {
                (i, at)
            } else {
                (at, i)
            };
            assert(!is_standing(rows[x].state) || !is_standing(rows[y].state));
        }
        let after = gate_after_snapshot(ledger, session_id, actor, snapshot, dismiss, at_ms)
            .store.requests;
        assert(after[i] =~= if i == at {
            RequestRowView { state: RequestState::Open, ..rows[i] }
        } else {
            rows[i]
        });
    }
}

/// What a new snapshot does to approvals: where policy dismisses them, those
/// of the session's waiting request stop counting, and the journal says so
/// exactly when one counted; where it does not, every approval and the
/// journal stay as they are. No other approval changes in either case, and
/// nothing else in the store does.
pub proof fn a_new_snapshot_dismisses_by_policy(
    ledger: LedgerView,
    session_id: int,
    actor: ActorView,
    snapshot: Seq<char>,
    dismiss: bool,
    at_ms: int,
    i: int,
)
    requires
        gates_sound(ledger.store),
        0 <= i < ledger.store.requests.len(),
        waits_for(ledger.store.requests[i], session_id),
    ensures
        ({
            let after = gate_after_snapshot(ledger, session_id, actor, snapshot, dismiss, at_ms);
            let id = ledger.store.requests[i].id;
            let approvals = ledger.store.approvals;
            &&& !dismiss ==> after.store.approvals == approvals && after.journal == ledger.journal
            &&& after.store.approvals.len() == approvals.len()
            &&& forall|k: int|
                #![trigger after.store.approvals[k]]
                0 <= k < approvals.len() ==> after.store.approvals[k] == (if dismiss
                    && approvals[k].request_id == id {
                    ApprovalRowView { dismissed: true, ..approvals[k] }
                } else {
                    approvals[k]
                })
            &&& dismiss ==> (after.journal != ledger.journal <==> exists|k: int|
                #![trigger approvals[k]]
                0 <= k < approvals.len() && approvals[k].request_id == id
                    && !approvals[k].dismissed)
            &&& after.journal != ledger.journal ==> after.journal.len() == ledger.journal.len() + 1
                && after.journal.drop_last() == ledger.journal && after.journal.last().act
                == Act::ApprovalsDismissed && after.journal.last().actor_name == actor.name
                && after.journal.last().actor_kind == actor.kind
            &&& after.store.sessions == ledger.store.sessions
            &&& after.store.last_session == ledger.store.last_session
            &&& after.store.last_request == ledger.store.last_request
            &&& after.store.session_changes == ledger.store.session_changes
            &&& after.store.landings == ledger.store.landings
            &&& after.store.leases == ledger.store.leases
            &&& after.store.syncs == ledger.store.syncs
        }),
{
    let rows = ledger.store.requests;
    let approvals = ledger.store.approvals;
    let after = gate_after_snapshot(ledger, session_id, actor, snapshot, dismiss, at_ms);
    if gated_with(rows, session_id) is None {
        none_gated(rows, session_id);
    }
    let at = gated_with_at(rows, session_id);
    if i != at {
        let (x, y) = if i < at {
            (i, at)
        } else {
            (at, i)
        };
        assert(!is_standing(rows[x].state) || !is_standing(rows[y].state));
    }
    let id = rows[i].id;
    counting_is_live(approvals, id);
    if after.journal.len() > ledger.journal.len() {
        assert(after.journal.drop_last() =~= ledger.journal);
    }
}

/// A request has a counting approval exactly when one of its approvals is not
/// dismissed.
proof fn counting_is_live(rows: Seq<ApprovalRowView>, id: int)
    ensures
        live(rows, id).len() > 0 <==> exists|k: int|
            #![trigger rows[k]]
            0 <= k < rows.len() && rows[k].request_id == id && !rows[k].dismissed,
    decreases rows.len(),
{
    if rows.len() > 0 {
        let rest = rows.drop_last();
        counting_is_live(rest, id);
        if live(rest, id).len() > 0 {
            let k = choose|k: int|
                #![trigger rest[k]]
                0 <= k < rest.len() && rest[k].request_id == id && !rest[k].dismissed;
            assert(rows[k] == rest[k]);
        }
        if exists|k: int|
            #![trigger rows[k]]
            0 <= k < rows.len() && rows[k].request_id == id && !rows[k].dismissed {
            let k = choose|k: int|
                #![trigger rows[k]]
                0 <= k < rows.len() && rows[k].request_id == id && !rows[k].dismissed;
            if k < rest.len() {
                assert(rest[k] == rows[k]);
            }
        }
        if live(rows, id).len() > 0 && live(rest, id).len() == 0 {
            assert(rows[rows.len() - 1] == rows.last());
        }
    }
}

/// Looking up the id of a row finds that row.
pub proof fn unique_request(rows: Seq<RequestRowView>, at: int, last: int)
    requires
        request_ids_ascend(rows, last),
        0 <= at < rows.len(),
    ensures
        request_with(rows, rows[at].id) == Some(rows[at]),
    decreases rows.len(),
{
    if at < rows.len() - 1 {
        let rest = rows.drop_last();
        assert(rows[at].id < rows[rows.len() - 1].id);
        assert forall|i: int, j: int|
            #![trigger rest[i], rest[j]]
            0 <= i < j < rest.len() implies rest[i].id < rest[j].id by {
            assert(rows[i].id < rows[j].id);
        }
        assert forall|i: int| #![trigger rest[i]] 0 <= i < rest.len() implies rest[i].id <= last by {
            assert(rows[i].id <= last);
        }
        unique_request(rest, at, last);
        assert(rest[at] == rows[at]);
    }
}

/// An undo gives the request's gate back as it first stood: open, with no
/// approval counting.
pub proof fn undo_reopens(ledger: LedgerView, id: int, session_id: int)
    requires
        undo_refusal(ledger.store, id) is None,
    ensures
        gate_refusal(after_undo(ledger, id, session_id).store, id) is None,
        (request_with(after_undo(ledger, id, session_id).store.requests, id)->0).state
            == RequestState::Open,
        live(after_undo(ledger, id, session_id).store.approvals, id).len() == 0,
{
    crate::coordination::dismissed_no_longer_count(ledger.store.approvals, id);
    let from = seq![RequestState::Landed];
    assert(from[0] == RequestState::Landed);
    crate::ledger::request_with_id(ledger.store.requests, id);
    crate::gate::request_with_moved(ledger.store.requests, id, from, RequestState::Open, id);
}

/// The loop ends on the line: for an open session whose change no request
/// holds, asking to land, approving, and an apply that parks nothing leave
/// the request landed and its session landed, where one approval is enough.
/// `applied` is the ledger once the lines are recorded, which leaves requests
/// and sessions as they are.
pub proof fn a_request_lands(
    ledger: LedgerView,
    session_id: int,
    requester: ActorView,
    approver: ActorView,
    tip: Seq<char>,
    policy: LandingPolicy,
    asked_ms: int,
    approved_ms: int,
    applied: LedgerView,
)
    requires
        session_refusal(ledger.store, session_id) is None,
        policy.approvals <= 1,
        ({
            let id = ledger.store.last_request + 1;
            let requested = after_request(ledger, session_id, requester, asked_ms);
            let approved = with_approval(requested, id, session_id, approver, tip, approved_ms);
            &&& applied.store.requests == with_approved(approved, id).store.requests
            &&& applied.store.sessions == ledger.store.sessions
        }),
    ensures
        ({
            let id = ledger.store.last_request + 1;
            let requested = after_request(ledger, session_id, requester, asked_ms);
            let approved = with_approval(requested, id, session_id, approver, tip, approved_ms);
            let landed = after_landed(applied, id, session_id);
            &&& gate_satisfied(approved, id, policy)
            &&& request_with(landed.store.requests, id) is Some
            &&& (request_with(landed.store.requests, id)->0).state == RequestState::Landed
            &&& session_with(landed.store.sessions, session_id) is Some
            &&& (session_with(landed.store.sessions, session_id)->0).state == SessionState::Landed
        }),
{
    let id = ledger.store.last_request + 1;
    let requested = after_request(ledger, session_id, requester, asked_ms);
    let approved = with_approval(requested, id, session_id, approver, tip, approved_ms);
    let rows = requested.store.requests;
    assert(rows.last() == fresh_request(id, session_id, requester, asked_ms));
    assert(request_with(rows, id) == Some(rows.last()));
    let all = approved.store.approvals;
    let counted = live(all, id);
    assert(counted.last() == all.last());
    let keys = counted.map_values(
        |row: ApprovalRowView| (row.actor_name, row.actor_kind),
    );
    assert(keys[keys.len() - 1] == (approver.name, approver.kind));
    assert(approvers(counted).contains((approver.name, approver.kind)));
    vstd::seq_lib::seq_to_set_is_finite(keys);
    let open = seq![RequestState::Open];
    let moved = seq![RequestState::Approved];
    assert(open[0] == RequestState::Open);
    assert(moved[0] == RequestState::Approved);
    crate::gate::request_with_moved(rows, id, open, RequestState::Approved, id);
    crate::gate::request_with_moved(
        requests_moved(rows, id, open, RequestState::Approved),
        id,
        moved,
        RequestState::Landed,
        id,
    );
    session_with_id(ledger.store.sessions, session_id);
    session_with_moved(
        ledger.store.sessions,
        session_id,
        SessionState::Open,
        SessionState::Landed,
        session_id,
    );
}

/// An actor counts once toward a request, however often they approve it.
pub proof fn approving_twice_counts_once(
    ledger: LedgerView,
    id: int,
    session_id: int,
    approver: ActorView,
    tip: Seq<char>,
    at_ms: int,
)
    requires
        approvers(live(ledger.store.approvals, id)).contains((approver.name, approver.kind)),
    ensures
        approvers(
            live(with_approval(ledger, id, session_id, approver, tip, at_ms).store.approvals, id),
        ) == approvers(live(ledger.store.approvals, id)),
{
    let before = ledger.store.approvals;
    let after = with_approval(ledger, id, session_id, approver, tip, at_ms).store.approvals;
    if (request_with(ledger.store.requests, id)->0).state == RequestState::Open {
        assert(after.drop_last() =~= before);
        let old_rows = live(before, id);
        let new_rows = live(after, id);
        assert(new_rows == old_rows.push(after.last()));
        let key = |row: ApprovalRowView| (row.actor_name, row.actor_kind);
        let old_keys = old_rows.map_values(key);
        let new_keys = new_rows.map_values(key);
        assert(new_keys =~= old_keys.push((approver.name, approver.kind)));
        assert forall|k: (Seq<char>, ActorKind)| new_keys.to_set().contains(k)
            == old_keys.to_set().contains(k) by {
            if old_keys.contains(k) {
                let i = choose|i: int| 0 <= i < old_keys.len() && old_keys[i] == k;
                assert(new_keys[i] == k);
            }
        }
        assert(new_keys.to_set() =~= old_keys.to_set());
    }
}

/// An undone landing can be decided again: its request takes approvals, and
/// its session is open for work.
pub proof fn undone_is_decided_again(ledger: LedgerView, id: int)
    requires
        gates_sound(ledger.store),
        undo_refusal(ledger.store, id) is None,
        session_unreadable(
            ledger.store,
            (request_with(ledger.store.requests, id)->0).session_id,
        ) is None,
    ensures
        ({
            let session_id = (request_with(ledger.store.requests, id)->0).session_id;
            let after = after_undo(ledger, id, session_id);
            &&& gate_refusal(after.store, id) is None
            &&& session_refusal(after.store, session_id) is None
        }),
{
    let rows = ledger.store.requests;
    let session_id = (request_with(rows, id)->0).session_id;
    undo_reopens(ledger, id, session_id);
    let at = request_with_at(rows, id);
    assert(agrees(ledger.store.sessions, rows[at]));
    session_with_id(ledger.store.sessions, session_id);
    session_with_moved(
        ledger.store.sessions,
        session_id,
        SessionState::Landed,
        SessionState::Open,
        session_id,
    );
}

/// Whether everything journaled before is still there, in place, after.
pub open spec fn keeps_journal(before: LedgerView, after: LedgerView) -> bool {
    before.journal.is_prefix_of(after.journal)
}

/// Snapshots only append to the journal.
proof fn snapshots_only_append(
    ledger: LedgerView,
    session_id: int,
    actor: ActorView,
    recorded: Seq<(Option<Seq<char>>, Seq<char>)>,
    dismiss: bool,
    at_ms: int,
)
    ensures
        keeps_journal(ledger, with_snapshots(ledger, actor, recorded, at_ms)),
        keeps_journal(
            ledger,
            after_session_snapshots(ledger, session_id, actor, recorded, dismiss, at_ms),
        ),
    decreases recorded.len(),
{
    let own = ledger.journal;
    assert(own.subrange(0, own.len() as int) =~= own);
    if recorded.len() > 0 {
        snapshots_only_append(ledger, session_id, actor, recorded.drop_last(), dismiss, at_ms);
        let plain = with_snapshots(ledger, actor, recorded, at_ms).journal;
        let gated = after_session_snapshots(ledger, session_id, actor, recorded, dismiss, at_ms);
        let before = after_session_snapshots(
            ledger,
            session_id,
            actor,
            recorded.drop_last(),
            dismiss,
            at_ms,
        );
        assert(plain.subrange(0, own.len() as int) =~= own);
        assert(before.journal.is_prefix_of(gated.journal)) by {
            assert(gated.journal.subrange(0, before.journal.len() as int) =~= before.journal);
        }
        assert(gated.journal.subrange(0, own.len() as int) =~= own);
    }
}

/// The journal only grows: whatever is done to a workspace, every entry that
/// was there stays there, in its place.
pub proof fn the_journal_only_grows(
    ledger: LedgerView,
    id: int,
    session_id: int,
    requester: ActorView,
    actor: ActorView,
    source: Option<Seq<char>>,
    snapshot: Seq<char>,
    fingerprint: Seq<char>,
    reason: Option<Seq<char>>,
    recorded: Seq<(Option<Seq<char>>, Seq<char>)>,
    dismiss: bool,
    at_ms: int,
)
    ensures
        keeps_journal(ledger, with_snapshots(ledger, actor, recorded, at_ms)),
        keeps_journal(
            ledger,
            after_session_snapshots(ledger, session_id, actor, recorded, dismiss, at_ms),
        ),
        keeps_journal(ledger, after_request(ledger, session_id, requester, at_ms)),
        keeps_journal(ledger, with_approval(ledger, id, session_id, actor, snapshot, at_ms)),
        keeps_journal(ledger, with_approved(ledger, id)),
        keeps_journal(ledger, after_reject(ledger, id, actor, reason, at_ms)),
        keeps_journal(ledger, after_abandon(ledger, session_id, actor, at_ms)),
        keeps_journal(
            ledger,
            after_line_landed(ledger, id, session_id, source, snapshot, actor, at_ms),
        ),
        keeps_journal(ledger, after_line_parked(ledger, id, session_id, source, actor, at_ms)),
        keeps_journal(ledger, after_landed(ledger, id, session_id)),
        keeps_journal(ledger, after_parked(ledger, id)),
        keeps_journal(
            ledger,
            after_line_stepped(
                ledger,
                id,
                session_id,
                source,
                snapshot,
                fingerprint,
                actor,
                at_ms,
            ),
        ),
        keeps_journal(ledger, after_undo(ledger, id, session_id)),
        keeps_journal(ledger, synced(ledger, actor, source, fingerprint, snapshot, at_ms)),
        keeps_journal(ledger, sync_parked(ledger, actor, source, snapshot, at_ms)),
        keeps_journal(ledger, pulled(ledger, actor, source, fingerprint, snapshot, at_ms)),
        keeps_journal(ledger, attached(ledger, actor, source, reason, at_ms)),
{
    snapshots_only_append(ledger, session_id, actor, recorded, dismiss, at_ms);
    let own = ledger.journal;
    assert(own.subrange(0, own.len() as int) =~= own);
    assert forall|entry: EntryView| own.is_prefix_of(#[trigger] own.push(entry)) by {
        assert(own.push(entry).subrange(0, own.len() as int) =~= own);
    }
}

} // verus!
