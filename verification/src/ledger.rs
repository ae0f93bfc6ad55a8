//! The ledger: a workspace's durable state, the coordination store and the
//! journal together, and the read models over it.

use crate::config::{Actor, ActorView, join_path, path_under};
use crate::coordination::{
    ApprovalRowView,
    Coordination,
    FactView,
    RequestRow,
    RequestRowView,
    SessionRow,
    SessionRowView,
    StoreView,
    approval_row_views,
    in_source_order,
    live,
    request_row_views,
    request_with,
    session_row_views,
    session_with,
    source_order_is_unique,
};
use crate::error::{Error, ErrorView};
use crate::journal::{Act, EntryView, Journal, JournalEntry};
use crate::landing::{
    Approval,
    ApprovalView,
    LandingRequest,
    LandingRequestView,
    RequestId,
    RequestState,
    approval_views,
    request_label,
    request_state_name,
};
use crate::session::{
    Session,
    SessionId,
    SessionState,
    SessionView,
    SourceChange,
    session_label,
    session_state_name,
    source_change_views,
};
use crate::words::{joined, lex_lt, opt_text, owned, signed_decimal};
use vstd::prelude::*;

verus! {

/// The workspace's control directory.
pub const CONTROL_DIR: &'static str = ".atelier";

/// The control directory's subdirectory of session working copies.
pub const SESSIONS_DIR: &'static str = "sessions";

/// A workspace's durable state: who coordinates with whom, and what was
/// done.
pub struct Ledger {
    pub store: Coordination,
    pub journal: Journal,
}

/// What a [`Ledger`] holds.
#[verifier::ext_equal]
pub struct LedgerView {
    pub store: StoreView,
    pub journal: Seq<EntryView>,
}

impl Ledger {
    /// What the ledger holds.
    pub open spec fn view(self) -> LedgerView {
        LedgerView { store: self.store@, journal: self.journal@ }
    }

    /// Whether the store is well formed.
    pub open spec fn wf(self) -> bool {
        self.store.wf()
    }

    /// A ledger over a store and a journal.
    pub fn new(store: Coordination, journal: Journal) -> (r: Self)
        requires
            store.wf(),
        ensures
            r.wf(),
            r@ == (LedgerView { store: store@, journal: journal@ }),
    {
        Ledger { store, journal }
    }
}

// ---------------------------------------------------------------------
// Journal entries.

/// The entry of an act, inside a session or outside any.
pub open spec fn entry_of(
    actor: ActorView,
    act: Act,
    session: Option<int>,
    reference: Option<Seq<char>>,
    at_ms: int,
) -> EntryView {
    EntryView {
        at_ms,
        actor_name: actor.name,
        actor_kind: actor.kind,
        act,
        session: match session {
            Some(row) => Some(session_label(row)),
            None => None,
        },
        instruction_summary: None,
        instruction_run_ref: None,
        instruction_verbatim: None,
        reference,
    }
}

/// The ledger with one more journal entry.
pub open spec fn with_entry(ledger: LedgerView, entry: EntryView) -> LedgerView {
    LedgerView { journal: ledger.journal.push(entry), ..ledger }
}

/// A reference scoped by the source it is about: behind the mount's name,
/// bare for the root.
pub open spec fn scoped(source: Option<Seq<char>>, text: Seq<char>) -> Seq<char> {
    match source {
        Some(mount) => mount + " "@ + text,
        None => text,
    }
}

/// A reference scoped by the source it is about.
pub fn scoped_text(source: &Option<String>, text: &str) -> (r: String)
    ensures
        r@ == scoped(opt_text(*source), text@),
{
    match source {
        Some(mount) => {
            let mut out = joined(mount.as_str(), " ");
            out.push_str(text);
            out
        },
        None => owned(text),
    }
}

/// Two words of a reference.
pub open spec fn two_words(a: Seq<char>, b: Seq<char>) -> Seq<char> {
    a + " "@ + b
}

/// Two words of a reference.
pub fn two_words_text(a: &str, b: &str) -> (r: String)
    ensures
        r@ == two_words(a@, b@),
{
    let mut out = joined(a, " ");
    out.push_str(b);
    out
}

impl Ledger {
    /// Journal an act that happened outside any session.
    pub fn append_entry(&mut self, actor: &Actor, act: Act, reference: Option<String>, at_ms: i64)
        requires
            old(self).wf(),
        ensures
            final(self).wf(),
            final(self)@ == with_entry(
                old(self)@,
                entry_of(actor@, act, None, opt_text(reference), at_ms as int),
            ),
    {
        self.journal.append(
            JournalEntry {
                at_ms,
                actor_name: owned(actor.name.as_str()),
                actor_kind: actor.kind,
                act,
                session: None,
                instruction_summary: None,
                instruction_run_ref: None,
                instruction_verbatim: None,
                reference,
            },
        );
    }

    /// Journal an act that happened inside a session.
    pub fn append_session_entry(
        &mut self,
        actor: &Actor,
        act: Act,
        session: SessionId,
        reference: Option<String>,
        at_ms: i64,
    )
        requires
            old(self).wf(),
        ensures
            final(self).wf(),
            final(self)@ == with_entry(
                old(self)@,
                entry_of(actor@, act, Some(session.0 as int), opt_text(reference), at_ms as int),
            ),
    {
        self.journal.append(
            JournalEntry {
                at_ms,
                actor_name: owned(actor.name.as_str()),
                actor_kind: actor.kind,
                act,
                session: Some(session.to_text()),
                instruction_summary: None,
                instruction_run_ref: None,
                instruction_verbatim: None,
                reference,
            },
        );
    }
}

/// The ledger after each snapshot of `recorded` was journaled in turn,
/// scoped by the source that took it.
pub open spec fn with_snapshots(
    ledger: LedgerView,
    actor: ActorView,
    recorded: Seq<(Option<Seq<char>>, Seq<char>)>,
    at_ms: int,
) -> LedgerView
    decreases recorded.len(),
{
    if recorded.len() == 0 {
        ledger
    } else {
        let (source, snapshot) = recorded.last();
        with_entry(
            with_snapshots(ledger, actor, recorded.drop_last(), at_ms),
            entry_of(actor, Act::Snapshot, None, Some(scoped(source, snapshot)), at_ms),
        )
    }
}

/// The sources and snapshots a list names.
pub open spec fn recorded_views(recorded: Seq<(Option<String>, String)>) -> Seq<
    (Option<Seq<char>>, Seq<char>),
> {
    recorded.map_values(|item: (Option<String>, String)| (opt_text(item.0), item.1@))
}

impl Ledger {
    /// Journal the snapshots the shared lines' engines recorded, root first
    /// then mounts in name order.
    pub fn record_snapshots(
        &mut self,
        actor: &Actor,
        recorded: &Vec<(Option<String>, String)>,
        at_ms: i64,
    )
        requires
            old(self).wf(),
        ensures
            final(self).wf(),
            final(self)@ == with_snapshots(
                old(self)@,
                actor@,
                recorded_views(recorded@),
                at_ms as int,
            ),
    {
        let ghost before = self@;
        let ghost all = recorded_views(recorded@);
        let mut i: usize = 0;
        assert(all.take(0) =~= Seq::<(Option<Seq<char>>, Seq<char>)>::empty());
        while i < recorded.len()
            invariant
                i <= recorded@.len(),
                self.wf(),
                all == recorded_views(recorded@),
                self@ == with_snapshots(before, actor@, all.take(i as int), at_ms as int),
            decreases recorded@.len() - i,
        {
            let reference = scoped_text(&recorded[i].0, recorded[i].1.as_str());
            self.append_entry(actor, Act::Snapshot, Some(reference), at_ms);
            assert(all.take(i + 1).drop_last() =~= all.take(i as int));
            assert(all.take(i + 1).last() == all[i as int]);
            i = i + 1;
        }
        assert(all.take(all.len() as int) =~= all);
    }
}

// ---------------------------------------------------------------------
// Read models.

/// Where a session's working copy stands under the workspace's root.
pub open spec fn session_dir(root: Seq<char>, id: int) -> Seq<char> {
    path_under(path_under(path_under(root, CONTROL_DIR@), SESSIONS_DIR@), session_label(id))
}

/// Where a session's working copy stands under the workspace's root.
pub fn session_root(root: &str, id: SessionId) -> (r: String)
    ensures
        r@ == session_dir(root@, id.0 as int),
{
    join_path(
        join_path(join_path(root, CONTROL_DIR).as_str(), SESSIONS_DIR).as_str(),
        id.to_text().as_str(),
    )
}

/// An owner's facts in source order.
pub open spec fn source_list(facts: Set<FactView>, owner: int) -> Seq<(Seq<char>, Seq<char>)> {
    choose|list: Seq<(Seq<char>, Seq<char>)>| in_source_order(facts, owner, list)
}

/// The one list in source order is the one a reading returns.
pub proof fn source_list_is(facts: Set<FactView>, owner: int, list: Seq<(Seq<char>, Seq<char>)>)
    requires
        in_source_order(facts, owner, list),
    ensures
        source_list(facts, owner) == list,
{
    source_order_is_unique(facts, owner, source_list(facts, owner), list);
}

/// A session as read: its row, its change on the root first, then its
/// change on each mount in name order.
pub open spec fn session_view(store: StoreView, root: Seq<char>, row: SessionRowView) -> SessionView {
    SessionView {
        id: row.id,
        actor: ActorView { name: row.actor_name, kind: row.actor_kind },
        state: row.state,
        change_id: row.change_id->0,
        changes: seq![(None::<Seq<char>>, row.change_id->0)] + source_list(
            store.session_changes,
            row.id,
        ).map_values(|change: (Seq<char>, Seq<char>)| (Some(change.0), change.1)),
        working_copy: session_dir(root, row.id),
        instruction_summary: row.instruction_summary,
        instruction_run_ref: row.instruction_run_ref,
        opened_at_ms: row.opened_at_ms,
    }
}

/// The error of a session whose engine bootstrap never gave it a change.
pub open spec fn no_change_error(id: int) -> ErrorView {
    ErrorView::Engine("session "@ + session_label(id) + " has no change; its bootstrap failed"@)
}

/// Why a session cannot be read, if it cannot.
pub open spec fn session_unreadable(store: StoreView, id: int) -> Option<ErrorView> {
    match session_with(store.sessions, id) {
        None => Some(ErrorView::SessionNotFound(session_label(id))),
        Some(row) => if row.change_id is None {
            Some(no_change_error(id))
        } else {
            None
        },
    }
}

/// Why a session cannot be worked in, if it cannot: it cannot be read, or
/// it left the open state.
pub open spec fn session_refusal(store: StoreView, id: int) -> Option<ErrorView> {
    if session_unreadable(store, id) is Some {
        session_unreadable(store, id)
    } else {
        let row = session_with(store.sessions, id)->0;
        if row.state == SessionState::Open {
            None
        } else {
            Some(
                ErrorView::SessionClosed {
                    id: session_label(id),
                    state: session_state_name(row.state),
                },
            )
        }
    }
}

/// The actor a session was opened for.
pub open spec fn session_actor(store: StoreView, id: int) -> ActorView {
    let row = session_with(store.sessions, id)->0;
    ActorView { name: row.actor_name, kind: row.actor_kind }
}

/// A landing request as read: its row and the approvals still counting.
pub open spec fn request_view(store: StoreView, row: RequestRowView) -> LandingRequestView {
    LandingRequestView {
        id: row.id,
        session_id: row.session_id,
        requester: ActorView { name: row.requester_name, kind: row.requester_kind },
        state: row.state,
        approvals: live(store.approvals, row.id).map_values(
            |approval: ApprovalRowView| approval_of(approval),
        ),
        created_at_ms: row.created_at_ms,
    }
}

/// An approval as read.
pub open spec fn approval_of(row: ApprovalRowView) -> ApprovalView {
    ApprovalView {
        actor: ActorView { name: row.actor_name, kind: row.actor_kind },
        snapshot: row.snapshot_id,
        at_ms: row.at_ms,
    }
}

/// Why a request's gate no longer decides, if it does not: there is no such
/// request, it parked, or it closed.
pub open spec fn gate_refusal(store: StoreView, id: int) -> Option<ErrorView> {
    match request_with(store.requests, id) {
        None => Some(ErrorView::RequestNotFound(request_label(id))),
        Some(row) => match row.state {
            RequestState::Open | RequestState::Approved => None,
            RequestState::Parked => Some(ErrorView::RequestParked(request_label(id))),
            RequestState::Landed | RequestState::Rejected | RequestState::Abandoned => Some(
                ErrorView::RequestClosed {
                    id: request_label(id),
                    state: request_state_name(row.state),
                },
            ),
        },
    }
}

/// A looked-up session has the id it was looked up by.
pub proof fn session_with_id(rows: Seq<SessionRowView>, id: int)
    requires
        session_with(rows, id) is Some,
    ensures
        (session_with(rows, id)->0).id == id,
    decreases rows.len(),
{
    if rows.len() > 0 && rows.last().id != id {
        session_with_id(rows.drop_last(), id);
    }
}

/// A looked-up request has the id it was looked up by.
pub proof fn request_with_id(rows: Seq<RequestRowView>, id: int)
    requires
        request_with(rows, id) is Some,
    ensures
        (request_with(rows, id)->0).id == id,
    decreases rows.len(),
{
    if rows.len() > 0 && rows.last().id != id {
        request_with_id(rows.drop_last(), id);
    }
}

/// The refusal of a session without a change.
fn no_change(id: SessionId) -> (r: Error)
    ensures
        r@ == no_change_error(id.0 as int),
{
    let mut detail = joined("session ", id.to_text().as_str());
    detail.push_str(" has no change; its bootstrap failed");
    Error::Engine(detail)
}

impl Ledger {
    /// The session a row describes.
    fn session_from(&self, root: &str, row: SessionRow) -> (r: Result<Session, Error>)
        requires
            self.wf(),
        ensures
            row@.change_id is Some ==> r is Ok && (r->Ok_0)@ == session_view(
                self@.store,
                root@,
                row@,
            ),
            row@.change_id is None ==> r is Err && (r->Err_0)@ == no_change_error(row.id as int),
    {
        let id = SessionId(row.id);
        let ghost view = row@;
        let change_id = match row.change_id {
            Some(change_id) => change_id,
            None => {
                return Err(no_change(id));
            },
        };
        let mounted = self.store.session_source_changes(row.id);
        let ghost list = mounted@.map_values(|change: (String, String)| (change.0@, change.1@));
        let ghost rest = list.map_values(|change: (Seq<char>, Seq<char>)| (Some(change.0), change.1));
        let ghost head = seq![(None::<Seq<char>>, change_id@)];
        proof {
            source_list_is(self@.store.session_changes, row.id as int, list);
        }
        let mut changes: Vec<SourceChange> = Vec::new();
        changes.push(SourceChange { source: None, change_id: owned(change_id.as_str()) });
        assert(source_change_views(changes@) =~= head + rest.take(0));
        let mut i: usize = 0;
        while i < mounted.len()
            invariant
                i <= mounted@.len(),
                list == mounted@.map_values(|change: (String, String)| (change.0@, change.1@)),
                rest == list.map_values(
                    |change: (Seq<char>, Seq<char>)| (Some(change.0), change.1),
                ),
                source_change_views(changes@) == head + rest.take(i as int),
            decreases mounted@.len() - i,
        {
            let ghost seen = source_change_views(changes@);
            let change = SourceChange {
                source: Some(owned(mounted[i].0.as_str())),
                change_id: owned(mounted[i].1.as_str()),
            };
            assert(list[i as int] == (mounted@[i as int].0@, mounted@[i as int].1@));
            assert(change@ == rest[i as int]);
            changes.push(change);
            assert(source_change_views(changes@) =~= seen.push(rest[i as int]));
            assert(rest.take(i + 1) =~= rest.take(i as int).push(rest[i as int]));
            i = i + 1;
            assert(source_change_views(changes@) =~= head + rest.take(i as int));
        }
        assert(rest.take(rest.len() as int) =~= rest);
        let r = Session {
            id,
            actor: Actor { name: row.actor_name, kind: row.actor_kind },
            state: row.state,
            change_id,
            changes,
            working_copy: session_root(root, id),
            instruction_summary: row.instruction_summary,
            instruction_run_ref: row.instruction_run_ref,
            opened_at_ms: row.opened_at_ms,
        };
        assert(r@ == session_view(self@.store, root@, view));
        Ok(r)
    }

    /// The session named `id`.
    pub fn session(&self, root: &str, id: SessionId) -> (r: Result<Session, Error>)
        requires
            self.wf(),
        ensures
            r is Ok <==> session_unreadable(self@.store, id.0 as int) is None,
            r is Ok ==> (r->Ok_0)@ == session_view(
                self@.store,
                root@,
                session_with(self@.store.sessions, id.0 as int)->0,
            ),
            r is Err ==> Some((r->Err_0)@) == session_unreadable(self@.store, id.0 as int),
    {
        match self.store.session(id.0) {
            Some(row) => {
                proof {
                    session_with_id(self@.store.sessions, id.0 as int);
                }
                self.session_from(root, row)
            },
            None => Err(Error::SessionNotFound(id.to_text())),
        }
    }

    /// The session when it is still open for work.
    pub fn open_session_only(&self, root: &str, id: SessionId) -> (r: Result<Session, Error>)
        requires
            self.wf(),
        ensures
            r is Ok <==> session_refusal(self@.store, id.0 as int) is None,
            r is Ok ==> (r->Ok_0)@ == session_view(
                self@.store,
                root@,
                session_with(self@.store.sessions, id.0 as int)->0,
            ),
            r is Err ==> Some((r->Err_0)@) == session_refusal(self@.store, id.0 as int),
    {
        match self.open_session_row(id) {
            Ok(row) => self.session_from(root, row),
            Err(error) => Err(error),
        }
    }

    /// The row of the session when it is still open for work.
    pub(crate) fn open_session_row(&self, id: SessionId) -> (r: Result<SessionRow, Error>)
        requires
            self.wf(),
        ensures
            r is Ok <==> session_refusal(self@.store, id.0 as int) is None,
            r is Ok ==> Some((r->Ok_0)@) == session_with(self@.store.sessions, id.0 as int),
            r is Err ==> Some((r->Err_0)@) == session_refusal(self@.store, id.0 as int),
    {
        let row = match self.store.session(id.0) {
            Some(row) => row,
            None => return Err(Error::SessionNotFound(id.to_text())),
        };
        if row.change_id.is_none() {
            return Err(no_change(id));
        }
        match row.state {
            SessionState::Open => Ok(row),
            SessionState::Landed | SessionState::Abandoned => Err(
                Error::SessionClosed { id: id.to_text(), state: owned(row.state.as_str()) },
            ),
        }
    }

    /// Every session, newest first. Sessions are durable rows plus real
    /// directories: they survive process restarts, and nothing deletes
    /// them. A session without a change, found newest first, refuses the
    /// listing.
    pub fn sessions(&self, root: &str) -> (r: Result<Vec<Session>, Error>)
        requires
            self.wf(),
        ensures
            r is Ok <==> forall|i: int|
                #![trigger self@.store.sessions[i]]
                0 <= i < self@.store.sessions.len() ==> self@.store.sessions[i].change_id is Some,
            r is Ok ==> (r->Ok_0)@.map_values(|session: Session| session@)
                == self@.store.sessions.reverse().map_values(
                |row: SessionRowView| session_view(self@.store, root@, row),
            ),
            r is Err ==> exists|i: int|
                #![trigger self@.store.sessions[i]]
                0 <= i < self@.store.sessions.len() && self@.store.sessions[i].change_id is None
                    && (r->Err_0)@ == no_change_error(self@.store.sessions[i].id) && forall|j: int|
                    #![trigger self@.store.sessions[j]]
                    i < j < self@.store.sessions.len() ==> self@.store.sessions[j].change_id
                        is Some,
    {
        let rows = self.store.sessions();
        let ghost all = self@.store.sessions;
        let ghost newest = all.reverse();
        let ghost expected = newest.map_values(
            |row: SessionRowView| session_view(self@.store, root@, row),
        );
        let mut out: Vec<Session> = Vec::new();
        let mut i: usize = 0;
        while i < rows.len()
            invariant
                self.wf(),
                i <= rows@.len(),
                all == self@.store.sessions,
                newest == all.reverse(),
                session_row_views(rows@) == newest,
                expected == newest.map_values(
                    |row: SessionRowView| session_view(self@.store, root@, row),
                ),
                out@.map_values(|session: Session| session@) == expected.take(i as int),
                forall|j: int|
                    #![trigger all[j]]
                    all.len() - i <= j < all.len() ==> all[j].change_id is Some,
            decreases rows@.len() - i,
        {
            let ghost seen = out@.map_values(|session: Session| session@);
            assert(rows@[i as int]@ == session_row_views(rows@)[i as int]);
            assert(newest[i as int] == all[all.len() - 1 - i]);
            match self.session_from(root, rows[i].copy()) {
                Ok(session) => {
                    assert(session@ == expected[i as int]);
                    out.push(session);
                    assert(out@.map_values(|session: Session| session@) =~= seen.push(
                        expected[i as int],
                    ));
                    assert(expected.take(i + 1) =~= expected.take(i as int).push(
                        expected[i as int],
                    ));
                },
                Err(error) => {
                    assert(all[all.len() - 1 - i].change_id is None);
                    return Err(error);
                },
            }
            i = i + 1;
        }
        assert(expected.take(expected.len() as int) =~= expected);
        Ok(out)
    }

    /// The landing request a row describes.
    pub fn request_from_row(&self, row: RequestRow) -> (r: LandingRequest)
        ensures
            r@ == request_view(self@.store, row@),
    {
        let ghost view = row@;
        let rows = self.store.live_approvals(row.id);
        let ghost expected = live(self@.store.approvals, row.id as int).map_values(
            |approval: ApprovalRowView| approval_of(approval),
        );
        let mut approvals: Vec<Approval> = Vec::new();
        let mut i: usize = 0;
        while i < rows.len()
            invariant
                i <= rows@.len(),
                expected == approval_row_views(rows@).map_values(
                    |approval: ApprovalRowView| approval_of(approval),
                ),
                approval_views(approvals@) == expected.take(i as int),
            decreases rows@.len() - i,
        {
            let ghost seen = approval_views(approvals@);
            let approval = Approval {
                actor: Actor { name: owned(rows[i].actor_name.as_str()), kind: rows[i].actor_kind },
                snapshot: owned(rows[i].snapshot_id.as_str()),
                at_ms: rows[i].at_ms,
            };
            assert(approval_row_views(rows@)[i as int] == rows@[i as int]@);
            assert(approval@ == expected[i as int]);
            approvals.push(approval);
            assert(approval_views(approvals@) =~= seen.push(expected[i as int]));
            assert(expected.take(i + 1) =~= expected.take(i as int).push(expected[i as int]));
            i = i + 1;
        }
        assert(expected.take(expected.len() as int) =~= expected);
        LandingRequest {
            id: RequestId(row.id),
            session_id: SessionId(row.session_id),
            requester: Actor { name: row.requester_name, kind: row.requester_kind },
            state: row.state,
            approvals,
            created_at_ms: row.created_at_ms,
        }
    }

    /// The landing request named `id`.
    pub fn request(&self, id: RequestId) -> (r: Result<LandingRequest, Error>)
        requires
            self.wf(),
        ensures
            r is Ok <==> request_with(self@.store.requests, id.0 as int) is Some,
            r is Ok ==> (r->Ok_0)@ == request_view(
                self@.store,
                request_with(self@.store.requests, id.0 as int)->0,
            ),
            r is Err ==> (r->Err_0)@ == ErrorView::RequestNotFound(request_label(id.0 as int)),
    {
        match self.store.request(id.0) {
            Some(row) => Ok(self.request_from_row(row)),
            None => Err(Error::RequestNotFound(id.to_text())),
        }
    }

    /// Every landing request, newest first.
    pub fn landing_requests(&self) -> (r: Vec<LandingRequest>)
        ensures
            r@.map_values(|request: LandingRequest| request@)
                == self@.store.requests.reverse().map_values(
                |row: RequestRowView| request_view(self@.store, row),
            ),
    {
        let rows = self.store.requests();
        let ghost newest = self@.store.requests.reverse();
        let ghost expected = newest.map_values(|row: RequestRowView| request_view(self@.store, row));
        let mut out: Vec<LandingRequest> = Vec::new();
        let mut i: usize = 0;
        while i < rows.len()
            invariant
                i <= rows@.len(),
                request_row_views(rows@) == newest,
                expected == newest.map_values(
                    |row: RequestRowView| request_view(self@.store, row),
                ),
                out@.map_values(|request: LandingRequest| request@) == expected.take(i as int),
            decreases rows@.len() - i,
        {
            let ghost seen = out@.map_values(|request: LandingRequest| request@);
            assert(rows@[i as int]@ == request_row_views(rows@)[i as int]);
            let request = self.request_from_row(rows[i].copy());
            assert(request@ == expected[i as int]);
            out.push(request);
            assert(out@.map_values(|request: LandingRequest| request@) =~= seen.push(
                expected[i as int],
            ));
            assert(expected.take(i + 1) =~= expected.take(i as int).push(expected[i as int]));
            i = i + 1;
        }
        assert(expected.take(expected.len() as int) =~= expected);
        out
    }

    /// The request while its gate is still deciding; closed states refuse
    /// by name, and a parked request points at its way back (a new
    /// snapshot).
    pub fn gated_request(&self, id: RequestId) -> (r: Result<RequestRow, Error>)
        requires
            self.wf(),
        ensures
            r is Ok <==> gate_refusal(self@.store, id.0 as int) is None,
            r is Ok ==> Some((r->Ok_0)@) == request_with(self@.store.requests, id.0 as int),
            r is Ok ==> (r->Ok_0).id == id.0,
            r is Err ==> Some((r->Err_0)@) == gate_refusal(self@.store, id.0 as int),
    {
        let row = match self.store.request(id.0) {
            Some(row) => row,
            None => return Err(Error::RequestNotFound(id.to_text())),
        };
        proof {
            request_with_id(self@.store.requests, id.0 as int);
        }
        match row.state {
            RequestState::Open | RequestState::Approved => Ok(row),
            RequestState::Parked => Err(Error::RequestParked(id.to_text())),
            RequestState::Landed | RequestState::Rejected | RequestState::Abandoned => Err(
                Error::RequestClosed { id: id.to_text(), state: owned(row.state.as_str()) },
            ),
        }
    }
}

/// An owner's facts are listed by their sources' names, each once and none
/// left out.
pub proof fn facts_are_listed_by_name(
    facts: Set<FactView>,
    owner: int,
    list: Seq<(Seq<char>, Seq<char>)>,
    source: Seq<char>,
    value: Seq<char>,
)
    requires
        in_source_order(facts, owner, list),
    ensures
        facts.contains((owner, source, value)) <==> list.contains((source, value)),
        forall|i: int, j: int|
            #![trigger list[i], list[j]]
            0 <= i < j < list.len() ==> lex_lt(list[i].0, list[j].0),
        source_list(facts, owner) == list,
{
    source_list_is(facts, owner, list);
    if list.contains((source, value)) {
        let i = choose|i: int| 0 <= i < list.len() && list[i] == (source, value);
        assert(facts.contains((owner, list[i].0, list[i].1)));
    }
}

/// A request reads as it is stored, with the approvals that count, in order.
pub proof fn requests_read_as_stored(store: StoreView, row: RequestRowView)
    ensures
        ({
            let seen = request_view(store, row);
            let counting = live(store.approvals, row.id);
            &&& seen.id == row.id
            &&& seen.session_id == row.session_id
            &&& seen.requester.name == row.requester_name
            &&& seen.requester.kind == row.requester_kind
            &&& seen.state == row.state
            &&& seen.created_at_ms == row.created_at_ms
            &&& seen.approvals.len() == counting.len()
            &&& forall|i: int|
                #![trigger seen.approvals[i]]
                0 <= i < counting.len() ==> seen.approvals[i].actor.name == counting[i].actor_name
                    && seen.approvals[i].actor.kind == counting[i].actor_kind
                    && seen.approvals[i].snapshot == counting[i].snapshot_id
                    && seen.approvals[i].at_ms == counting[i].at_ms
        }),
{
}

/// A session reads as it is stored: its change on the root first, then those
/// on the mounts, by name; its working copy is the workspace's, under the
/// session's own name.
pub proof fn sessions_read_as_stored(
    store: StoreView,
    root: Seq<char>,
    row: SessionRowView,
    mounts: Seq<(Seq<char>, Seq<char>)>,
)
    requires
        row.change_id is Some,
        in_source_order(store.session_changes, row.id, mounts),
    ensures
        ({
            let seen = session_view(store, root, row);
            &&& seen.id == row.id
            &&& seen.actor.name == row.actor_name
            &&& seen.actor.kind == row.actor_kind
            &&& seen.state == row.state
            &&& Some(seen.change_id) == row.change_id
            &&& seen.instruction_summary == row.instruction_summary
            &&& seen.instruction_run_ref == row.instruction_run_ref
            &&& seen.opened_at_ms == row.opened_at_ms
            &&& seen.changes.len() == mounts.len() + 1
            &&& seen.changes[0] == (None::<Seq<char>>, row.change_id->0)
            &&& forall|i: int|
                #![trigger mounts[i]]
                0 <= i < mounts.len() ==> seen.changes[i + 1] == (Some(mounts[i].0), mounts[i].1)
            &&& root.len() > 0 && root.last() != '/' ==> seen.working_copy == root
                + "/.atelier/sessions/s"@ + signed_decimal(row.id)
        }),
{
    source_list_is(store.session_changes, row.id, mounts);
    reveal_strlit("/");
    reveal_strlit(".atelier");
    reveal_strlit("sessions");
    reveal_strlit("/.atelier/sessions/s");
    let seen = session_view(store, root, row);
    if root.len() > 0 && root.last() != '/' {
        let control = root + "/"@ + ".atelier"@;
        assert(control.last() == 'r');
        let sessions = control + "/"@ + "sessions"@;
        assert(sessions.last() == 's');
        assert(path_under(root, CONTROL_DIR@) == control);
        assert(path_under(control, SESSIONS_DIR@) == sessions);
        let name = session_label(row.id);
        assert(seen.working_copy == sessions + "/"@ + name);
        assert(sessions + "/"@ + name =~= root + "/.atelier/sessions/s"@ + signed_decimal(
            row.id,
        ));
    }
}

} // verus!
