//! The coordination store: sessions, landing requests, approvals, recorded
//! landings, origin fingerprints and the landing leases, as relations whose
//! every change is one atomic operation.

use crate::config::{Actor, ActorKind, ActorView, ROOT_MOUNT};
use crate::error::{Error, ErrorView};
use crate::landing::RequestState;
use crate::lease::{
    LeaseClaim,
    LeaseRow,
    Leases,
    claimable,
    claimed,
    in_tenancy,
    next_epoch,
    released,
    renewed,
};
use crate::session::SessionState;
use crate::table::Table;
use crate::words::{lex_asymmetric, lex_lt, opt_text, owned, owned_opt, same, signed_decimal, signed_text};
use vstd::prelude::*;

verus! {

// ---------------------------------------------------------------------
// Rows.

/// A session as stored.
#[derive(Debug, Clone, PartialEq, Eq)]
pub struct SessionRow {
    pub id: i64,
    pub actor_name: String,
    pub actor_kind: ActorKind,
    pub instruction_summary: String,
    pub instruction_run_ref: Option<String>,
    pub instruction_verbatim: Option<String>,
    pub change_id: Option<String>,
    pub state: SessionState,
    pub opened_at_ms: i64,
}

/// What a [`SessionRow`] says.
pub struct SessionRowView {
    pub id: int,
    pub actor_name: Seq<char>,
    pub actor_kind: ActorKind,
    pub instruction_summary: Seq<char>,
    pub instruction_run_ref: Option<Seq<char>>,
    pub instruction_verbatim: Option<Seq<char>>,
    pub change_id: Option<Seq<char>>,
    pub state: SessionState,
    pub opened_at_ms: int,
}

impl View for SessionRow {
    type V = SessionRowView;

    open spec fn view(&self) -> SessionRowView {
        SessionRowView {
            id: self.id as int,
            actor_name: self.actor_name@,
            actor_kind: self.actor_kind,
            instruction_summary: self.instruction_summary@,
            instruction_run_ref: opt_text(self.instruction_run_ref),
            instruction_verbatim: opt_text(self.instruction_verbatim),
            change_id: opt_text(self.change_id),
            state: self.state,
            opened_at_ms: self.opened_at_ms as int,
        }
    }
}

impl SessionRow {
    /// An owned copy of the row.
    pub fn copy(&self) -> (r: Self)
        ensures
            r@ == self@,
    {
        SessionRow {
            id: self.id,
            actor_name: owned(self.actor_name.as_str()),
            actor_kind: self.actor_kind,
            instruction_summary: owned(self.instruction_summary.as_str()),
            instruction_run_ref: owned_opt(&self.instruction_run_ref),
            instruction_verbatim: owned_opt(&self.instruction_verbatim),
            change_id: owned_opt(&self.change_id),
            state: self.state,
            opened_at_ms: self.opened_at_ms,
        }
    }
}

/// A landing request as stored.
#[derive(Debug, Clone, PartialEq, Eq)]
pub struct RequestRow {
    pub id: i64,
    pub session_id: i64,
    pub requester_name: String,
    pub requester_kind: ActorKind,
    pub state: RequestState,
    pub created_at_ms: i64,
}

/// What a [`RequestRow`] says.
pub struct RequestRowView {
    pub id: int,
    pub session_id: int,
    pub requester_name: Seq<char>,
    pub requester_kind: ActorKind,
    pub state: RequestState,
    pub created_at_ms: int,
}

impl View for RequestRow {
    type V = RequestRowView;

    open spec fn view(&self) -> RequestRowView {
        RequestRowView {
            id: self.id as int,
            session_id: self.session_id as int,
            requester_name: self.requester_name@,
            requester_kind: self.requester_kind,
            state: self.state,
            created_at_ms: self.created_at_ms as int,
        }
    }
}

impl RequestRow {
    /// An owned copy of the row.
    pub fn copy(&self) -> (r: Self)
        ensures
            r@ == self@,
    {
        RequestRow {
            id: self.id,
            session_id: self.session_id,
            requester_name: owned(self.requester_name.as_str()),
            requester_kind: self.requester_kind,
            state: self.state,
            created_at_ms: self.created_at_ms,
        }
    }
}

/// An approval as stored.
#[derive(Debug, Clone, PartialEq, Eq)]
pub struct ApprovalRow {
    pub request_id: i64,
    pub actor_name: String,
    pub actor_kind: ActorKind,
    pub snapshot_id: String,
    pub at_ms: i64,
    pub dismissed: bool,
}

/// What an [`ApprovalRow`] says.
pub struct ApprovalRowView {
    pub request_id: int,
    pub actor_name: Seq<char>,
    pub actor_kind: ActorKind,
    pub snapshot_id: Seq<char>,
    pub at_ms: int,
    pub dismissed: bool,
}

impl View for ApprovalRow {
    type V = ApprovalRowView;

    open spec fn view(&self) -> ApprovalRowView {
        ApprovalRowView {
            request_id: self.request_id as int,
            actor_name: self.actor_name@,
            actor_kind: self.actor_kind,
            snapshot_id: self.snapshot_id@,
            at_ms: self.at_ms as int,
            dismissed: self.dismissed,
        }
    }
}

impl ApprovalRow {
    /// An owned copy of the row.
    pub fn copy(&self) -> (r: Self)
        ensures
            r@ == self@,
    {
        ApprovalRow {
            request_id: self.request_id,
            actor_name: owned(self.actor_name.as_str()),
            actor_kind: self.actor_kind,
            snapshot_id: owned(self.snapshot_id.as_str()),
            at_ms: self.at_ms,
            dismissed: self.dismissed,
        }
    }
}

/// A fact recorded per source under an owner: a session's change on a
/// source, or a request's landing on one.
#[derive(Debug, Clone, PartialEq, Eq)]
pub struct SourceFact {
    pub owner: i64,
    pub source: String,
    pub value: String,
}

/// What a [`SourceFact`] says: the owner, the source, and the value.
pub type FactView = (int, Seq<char>, Seq<char>);

impl View for SourceFact {
    type V = FactView;

    open spec fn view(&self) -> FactView {
        (self.owner as int, self.source@, self.value@)
    }
}

impl SourceFact {
    /// An owned copy of the fact.
    pub fn copy(&self) -> (r: Self)
        ensures
            r@ == self@,
    {
        SourceFact {
            owner: self.owner,
            source: owned(self.source.as_str()),
            value: owned(self.value.as_str()),
        }
    }
}

/// The origin fingerprint and the line snapshot a source last synced at.
#[derive(Debug, Clone, PartialEq, Eq)]
pub struct SyncRow {
    pub fingerprint: String,
    pub snapshot_id: String,
}

impl View for SyncRow {
    type V = (Seq<char>, Seq<char>);

    open spec fn view(&self) -> (Seq<char>, Seq<char>) {
        (self.fingerprint@, self.snapshot_id@)
    }
}

// ---------------------------------------------------------------------
// The store.

/// The coordination store.
pub struct Coordination {
    sessions: Vec<SessionRow>,
    last_session: i64,
    requests: Vec<RequestRow>,
    last_request: i64,
    approvals: Vec<ApprovalRow>,
    session_changes: Vec<SourceFact>,
    landings: Vec<SourceFact>,
    leases: Table<LeaseRow>,
    syncs: Table<SyncRow>,
}

/// What the store holds.
#[verifier::ext_equal]
pub struct StoreView {
    /// Every session, oldest first.
    pub sessions: Seq<SessionRowView>,
    /// The largest session id ever given out.
    pub last_session: int,
    /// Every landing request, oldest first.
    pub requests: Seq<RequestRowView>,
    /// The largest request id ever given out.
    pub last_request: int,
    /// Every approval, oldest first, dismissed ones included.
    pub approvals: Seq<ApprovalRowView>,
    /// Each session's change per mounted source.
    pub session_changes: Set<FactView>,
    /// Each request's landing per source; the root records as `/`.
    pub landings: Set<FactView>,
    /// The lease of each landing point.
    pub leases: Leases,
    /// The fingerprint and snapshot each source last synced at.
    pub syncs: Map<Seq<char>, (Seq<char>, Seq<char>)>,
}

pub open spec fn session_row_views(rows: Seq<SessionRow>) -> Seq<SessionRowView> {
    rows.map_values(|row: SessionRow| row@)
}

pub open spec fn request_row_views(rows: Seq<RequestRow>) -> Seq<RequestRowView> {
    rows.map_values(|row: RequestRow| row@)
}

pub open spec fn approval_row_views(rows: Seq<ApprovalRow>) -> Seq<ApprovalRowView> {
    rows.map_values(|row: ApprovalRow| row@)
}

pub open spec fn fact_views(facts: Seq<SourceFact>) -> Seq<FactView> {
    facts.map_values(|fact: SourceFact| fact@)
}

/// The facts as a relation.
pub open spec fn fact_set(facts: Seq<SourceFact>) -> Set<FactView> {
    Set::new(|fact: FactView| fact_views(facts).contains(fact))
}

/// Whether ids ascend strictly up to `last`.
pub open spec fn session_ids_ascend(rows: Seq<SessionRowView>, last: int) -> bool {
    &&& forall|i: int, j: int|
        #![trigger rows[i], rows[j]]
        0 <= i < j < rows.len() ==> rows[i].id < rows[j].id
    &&& forall|i: int| #![trigger rows[i]] 0 <= i < rows.len() ==> rows[i].id <= last
}

/// Whether ids ascend strictly up to `last`.
pub open spec fn request_ids_ascend(rows: Seq<RequestRowView>, last: int) -> bool {
    &&& forall|i: int, j: int|
        #![trigger rows[i], rows[j]]
        0 <= i < j < rows.len() ==> rows[i].id < rows[j].id
    &&& forall|i: int| #![trigger rows[i]] 0 <= i < rows.len() ==> rows[i].id <= last
}

/// Whether no owner has two facts about one source.
pub open spec fn one_fact_per_source(facts: Seq<FactView>) -> bool {
    forall|i: int, j: int|
        #![trigger facts[i], facts[j]]
        0 <= i < j < facts.len() ==> facts[i].0 != facts[j].0 || facts[i].1 != facts[j].1
}

/// Whether the relation holds a fact of `owner` about `source`.
pub open spec fn has_fact(facts: Set<FactView>, owner: int, source: Seq<char>) -> bool {
    exists|value: Seq<char>| facts.contains((owner, source, value))
}

/// The session with the given id.
pub open spec fn session_with(rows: Seq<SessionRowView>, id: int) -> Option<SessionRowView>
    decreases rows.len(),
{
    if rows.len() == 0 {
        None
    } else if rows.last().id == id {
        Some(rows.last())
    } else {
        session_with(rows.drop_last(), id)
    }
}

/// The landing request with the given id.
pub open spec fn request_with(rows: Seq<RequestRowView>, id: int) -> Option<RequestRowView>
    decreases rows.len(),
{
    if rows.len() == 0 {
        None
    } else if rows.last().id == id {
        Some(rows.last())
    } else {
        request_with(rows.drop_last(), id)
    }
}

/// Whether a request still holds a claim on the landing gate.
pub open spec fn is_gated(state: RequestState) -> bool {
    state == RequestState::Open || state == RequestState::Approved || state == RequestState::Parked
}

/// The newest request of the session that still holds a claim on the landing gate.
pub open spec fn gated_with(rows: Seq<RequestRowView>, session_id: int) -> Option<RequestRowView>
    decreases rows.len(),
{
    if rows.len() == 0 {
        None
    } else if rows.last().session_id == session_id && is_gated(rows.last().state) {
        Some(rows.last())
    } else {
        gated_with(rows.drop_last(), session_id)
    }
}

/// The sessions without the one of the given id.
pub open spec fn without_session(rows: Seq<SessionRowView>, id: int) -> Seq<SessionRowView>
    decreases rows.len(),
{
    if rows.len() == 0 {
        rows
    } else if rows.last().id == id {
        without_session(rows.drop_last(), id)
    } else {
        without_session(rows.drop_last(), id).push(rows.last())
    }
}

/// The sessions with the change of one of them set.
pub open spec fn with_change(rows: Seq<SessionRowView>, id: int, change: Seq<char>) -> Seq<
    SessionRowView,
> {
    rows.map_values(
        |row: SessionRowView|
            if row.id == id {
                SessionRowView { change_id: Some(change), ..row }
            } else {
                row
            },
    )
}

/// The sessions after one of them moved from `from` to `to`; unchanged when
/// it does not stand at `from`.
pub open spec fn sessions_moved(
    rows: Seq<SessionRowView>,
    id: int,
    from: SessionState,
    to: SessionState,
) -> Seq<SessionRowView> {
    rows.map_values(
        |row: SessionRowView|
            if row.id == id && row.state == from {
                SessionRowView { state: to, ..row }
            } else {
                row
            },
    )
}

/// The requests after one of them moved from one of `from` to `to`;
/// unchanged when it stands at none of them.
pub open spec fn requests_moved(
    rows: Seq<RequestRowView>,
    id: int,
    from: Seq<RequestState>,
    to: RequestState,
) -> Seq<RequestRowView> {
    rows.map_values(
        |row: RequestRowView|
            if row.id == id && from.contains(row.state) {
                RequestRowView { state: to, ..row }
            } else {
                row
            },
    )
}

/// The approvals still counting toward the request's gate, oldest first.
pub open spec fn live(rows: Seq<ApprovalRowView>, request_id: int) -> Seq<ApprovalRowView>
    decreases rows.len(),
{
    if rows.len() == 0 {
        rows
    } else if rows.last().request_id == request_id && !rows.last().dismissed {
        live(rows.drop_last(), request_id).push(rows.last())
    } else {
        live(rows.drop_last(), request_id)
    }
}

/// The approvals after those counting toward the request were dismissed.
pub open spec fn dismissed(rows: Seq<ApprovalRowView>, request_id: int) -> Seq<ApprovalRowView> {
    rows.map_values(
        |row: ApprovalRowView|
            if row.request_id == request_id {
                ApprovalRowView { dismissed: true, ..row }
            } else {
                row
            },
    )
}

/// Whether `list` gives the owner's facts in the order of their sources.
pub open spec fn in_source_order(
    facts: Set<FactView>,
    owner: int,
    list: Seq<(Seq<char>, Seq<char>)>,
) -> bool {
    &&& forall|i: int, j: int|
        #![trigger list[i], list[j]]
        0 <= i < j < list.len() ==> lex_lt(list[i].0, list[j].0)
    &&& forall|i: int|
        #![trigger list[i]]
        0 <= i < list.len() ==> facts.contains((owner, list[i].0, list[i].1))
    &&& forall|source: Seq<char>, value: Seq<char>|
        #![trigger facts.contains((owner, source, value))]
        facts.contains((owner, source, value)) ==> list.contains((source, value))
}

/// How a source is recorded: by its mount name, the root as `/`.
pub open spec fn source_key(source: Option<Seq<char>>) -> Seq<char> {
    match source {
        Some(mount) => mount,
        None => ROOT_MOUNT@,
    }
}

/// The source a record names: `None` for `/`.
pub open spec fn source_of_key(key: Seq<char>) -> Option<Seq<char>> {
    if key == ROOT_MOUNT@ {
        None
    } else {
        Some(key)
    }
}

/// A list of landings under the names they are recorded by.
pub open spec fn keyed(list: Seq<(Option<String>, String)>) -> Seq<(Seq<char>, Seq<char>)> {
    list.map_values(
        |landing: (Option<String>, String)| (source_key(opt_text(landing.0)), landing.1@),
    )
}

/// A mount name recorded and read back is itself; only `/` reads as the
/// root.
pub proof fn source_key_round_trips(source: Option<Seq<char>>)
    requires
        source != Some(ROOT_MOUNT@),
    ensures
        source_of_key(source_key(source)) == source,
{
}

/// When a tenancy claimed or renewed now expires. An expiry past `i64`
/// would wrap into the past and hand the point away.
fn lease_expiry(now_ms: i64, ttl_ms: i64) -> (r: Result<i64, Error>)
    ensures
        i64::MIN <= now_ms + ttl_ms <= i64::MAX ==> r is Ok && r->Ok_0 == now_ms + ttl_ms,
        !(i64::MIN <= now_ms + ttl_ms <= i64::MAX) ==> r is Err && (r->Err_0)@ == expiry_overflow(
            now_ms as int,
            ttl_ms as int,
        ),
{
    match now_ms.checked_add(ttl_ms) {
        Some(expires_at_ms) => Ok(expires_at_ms),
        None => {
            let mut detail = owned("lease expiry overflows: ");
            detail.push_str(signed_text(now_ms).as_str());
            detail.push_str(" + ");
            detail.push_str(signed_text(ttl_ms).as_str());
            Err(Error::Engine(detail))
        },
    }
}

/// The error of an expiry past `i64`.
pub open spec fn expiry_overflow(now_ms: int, ttl_ms: int) -> ErrorView {
    ErrorView::Engine(
        "lease expiry overflows: "@ + signed_decimal(now_ms) + " + "@ + signed_decimal(ttl_ms),
    )
}

/// The error of a table whose ids have run out.
pub open spec fn ids_exhausted() -> ErrorView {
    ErrorView::Engine("database or disk is full"@)
}

/// The error of a second fact of one owner about one source.
pub open spec fn duplicate_fact(table: Seq<char>) -> ErrorView {
    ErrorView::Engine("UNIQUE constraint failed: "@ + table)
}

/// The error of a lease whose epochs have run out.
pub open spec fn epochs_exhausted() -> ErrorView {
    ErrorView::Engine("integer overflow"@)
}

impl Coordination {
    /// What the store holds.
    pub closed spec fn view(self) -> StoreView {
        StoreView {
            sessions: session_row_views(self.sessions@),
            last_session: self.last_session as int,
            requests: request_row_views(self.requests@),
            last_request: self.last_request as int,
            approvals: approval_row_views(self.approvals@),
            session_changes: fact_set(self.session_changes@),
            landings: fact_set(self.landings@),
            leases: self.leases@.map_values(|row: LeaseRow| row@),
            syncs: self.syncs@.map_values(|row: SyncRow| row@),
        }
    }

    /// Whether ids ascend, no key occurs twice, and the tables are in
    /// order.
    pub closed spec fn wf(self) -> bool {
        &&& session_ids_ascend(session_row_views(self.sessions@), self.last_session as int)
        &&& request_ids_ascend(request_row_views(self.requests@), self.last_request as int)
        &&& one_fact_per_source(fact_views(self.session_changes@))
        &&& one_fact_per_source(fact_views(self.landings@))
        &&& self.leases.wf()
        &&& self.syncs.wf()
        &&& self.last_session >= 0
        &&& self.last_request >= 0
    }

    /// Ids ascend in every well-formed store.
    pub proof fn ids_ascend(self)
        requires
            self.wf(),
        ensures
            session_ids_ascend(self@.sessions, self@.last_session),
            request_ids_ascend(self@.requests, self@.last_request),
            0 <= self@.last_session <= i64::MAX,
            0 <= self@.last_request <= i64::MAX,
    {
    }

    /// An empty store.
    pub fn new() -> (r: Self)
        ensures
            r.wf(),
            r@ == empty_store(),
    {
        let r = Coordination {
            sessions: Vec::new(),
            last_session: 0,
            requests: Vec::new(),
            last_request: 0,
            approvals: Vec::new(),
            session_changes: Vec::new(),
            landings: Vec::new(),
            leases: Table::new(),
            syncs: Table::new(),
        };
        proof {
            assert(r@.sessions =~= empty_store().sessions);
            assert(r@.requests =~= empty_store().requests);
            assert(r@.approvals =~= empty_store().approvals);
            assert(fact_views(r.landings@).len() == 0);
            assert(fact_views(r.session_changes@).len() == 0);
            assert(r@.landings =~= empty_store().landings);
            assert(r@.session_changes =~= empty_store().session_changes);
            assert(r@.leases =~= empty_store().leases);
            assert(r@.syncs =~= empty_store().syncs);
        }
        r
    }
}

/// A session as first stored.
pub open spec fn fresh_session(
    id: int,
    actor: Actor,
    summary: Seq<char>,
    run_ref: Option<Seq<char>>,
    verbatim: Option<Seq<char>>,
    at_ms: int,
) -> SessionRowView {
    SessionRowView {
        id,
        actor_name: actor.name@,
        actor_kind: actor.kind,
        instruction_summary: summary,
        instruction_run_ref: run_ref,
        instruction_verbatim: verbatim,
        change_id: None,
        state: SessionState::Open,
        opened_at_ms: at_ms,
    }
}

/// A landing request as first stored.
pub open spec fn fresh_request(
    id: int,
    session_id: int,
    requester: ActorView,
    at_ms: int,
) -> RequestRowView {
    RequestRowView {
        id,
        session_id,
        requester_name: requester.name,
        requester_kind: requester.kind,
        state: RequestState::Open,
        created_at_ms: at_ms,
    }
}

// ---------------------------------------------------------------------
// Sessions.

impl Coordination {
    /// Store a new open session under the next id.
    pub fn create_session(
        &mut self,
        actor: &Actor,
        summary: &str,
        run_ref: &Option<String>,
        verbatim: &Option<String>,
        at_ms: i64,
    ) -> (r: Result<i64, Error>)
        requires
            old(self).wf(),
        ensures
            final(self).wf(),
            old(self)@.last_session < i64::MAX ==> {
                &&& r is Ok
                &&& r->Ok_0 == old(self)@.last_session + 1
                &&& final(self)@ == (StoreView {
                    sessions: old(self)@.sessions.push(
                        fresh_session(
                            old(self)@.last_session + 1,
                            *actor,
                            summary@,
                            opt_text(*run_ref),
                            opt_text(*verbatim),
                            at_ms as int,
                        ),
                    ),
                    last_session: old(self)@.last_session + 1,
                    ..old(self)@
                })
            },
            old(self)@.last_session >= i64::MAX ==> {
                &&& r is Err
                &&& (r->Err_0)@ == ids_exhausted()
                &&& final(self)@ == old(self)@
            },
    {
        if self.last_session == i64::MAX {
            return Err(Error::Engine(owned("database or disk is full")));
        }
        let ghost before = self@;
        let id: i64 = self.last_session + 1;
        let row = SessionRow {
            id,
            actor_name: owned(actor.name.as_str()),
            actor_kind: actor.kind,
            instruction_summary: owned(summary),
            instruction_run_ref: owned_opt(run_ref),
            instruction_verbatim: owned_opt(verbatim),
            change_id: None,
            state: SessionState::Open,
            opened_at_ms: at_ms,
        };
        self.sessions.push(row);
        self.last_session = id;
        assert(self@.sessions =~= before.sessions.push(row@));
        Ok(id)
    }

    /// Remove a session whose engine bootstrap failed: its row never
    /// carried a change, so nothing refers to it. Its id is never given out
    /// again.
    pub fn delete_session(&mut self, id: i64)
        requires
            old(self).wf(),
        ensures
            final(self).wf(),
            final(self)@ == (StoreView {
                sessions: without_session(old(self)@.sessions, id as int),
                ..old(self)@
            }),
    {
        let ghost before = self@;
        let ghost all = before.sessions;
        let mut kept: Vec<SessionRow> = Vec::new();
        let mut i: usize = 0;
        assert(all.take(0) =~= Seq::<SessionRowView>::empty());
        assert(session_row_views(kept@) =~= without_session(all.take(0), id as int));
        while i < self.sessions.len()
            invariant
                i <= self.sessions@.len(),
                self@ == before,
                self.wf(),
                all == session_row_views(self.sessions@),
                session_row_views(kept@) == without_session(all.take(i as int), id as int),
            decreases self.sessions@.len() - i,
        {
            let ghost seen = session_row_views(kept@);
            let row = self.sessions[i].copy();
            let ghost view = row@;
            assert(view == all[i as int]);
            if row.id != id {
                kept.push(row);
                assert(session_row_views(kept@) =~= seen.push(view));
            }
            assert(all.take(i + 1).drop_last() =~= all.take(i as int));
            assert(all.take(i + 1).last() == all[i as int]);
            i = i + 1;
        }
        assert(all.take(all.len() as int) =~= all);
        proof {
            without_session_keeps(all, id as int, self.last_session as int);
        }
        self.sessions = kept;
    }

    /// Set the session's change on the root.
    pub fn set_session_change(&mut self, id: i64, change_id: &str)
        requires
            old(self).wf(),
        ensures
            final(self).wf(),
            final(self)@ == (StoreView {
                sessions: with_change(old(self)@.sessions, id as int, change_id@),
                ..old(self)@
            }),
    {
        let ghost all = self@.sessions;
        match self.session_index(id) {
            Some(at) => {
                let mut row = self.sessions[at].copy();
                row.change_id = Some(owned(change_id));
                let ghost view = row@;
                assert(view == (SessionRowView { change_id: Some(change_id@), ..all[at as int] }));
                self.sessions[at] = row;
                assert(self@.sessions =~= all.update(at as int, view));
                assert(self@.sessions =~= with_change(all, id as int, change_id@));
            },
            None => {
                proof {
                    no_session_with(all, id as int);
                }
                assert(self@.sessions =~= with_change(all, id as int, change_id@));
            },
        }
    }

    /// Move the session's state when it still holds `from`; whether the row
    /// moved. A stale writer, racing another process past the same check,
    /// loses here instead of overwriting.
    pub fn move_session_state(&mut self, id: i64, from: SessionState, to: SessionState) -> (r: bool)
        requires
            old(self).wf(),
        ensures
            final(self).wf(),
            r == (session_with(old(self)@.sessions, id as int) is Some && (session_with(
                old(self)@.sessions,
                id as int,
            )->0).state == from),
            final(self)@ == (StoreView {
                sessions: sessions_moved(old(self)@.sessions, id as int, from, to),
                ..old(self)@
            }),
            !r ==> final(self)@ == old(self)@,
    {
        let ghost all = self@.sessions;
        match self.session_index(id) {
            Some(at) => if self.sessions[at].state == from {
                let mut row = self.sessions[at].copy();
                row.state = to;
                let ghost view = row@;
                assert(view == (SessionRowView { state: to, ..all[at as int] }));
                self.sessions[at] = row;
                assert(self@.sessions =~= all.update(at as int, view));
                assert(self@.sessions =~= sessions_moved(all, id as int, from, to));
                true
            } else {
                assert forall|i: int| 0 <= i < all.len() implies #[trigger] all[i]
                    == sessions_moved(all, id as int, from, to)[i] by {
                    assert(all[i].id == id ==> i == at as int);
                }
                assert(self@.sessions =~= sessions_moved(all, id as int, from, to));
                false
            },
            None => {
                proof {
                    no_session_with(all, id as int);
                }
                assert(self@.sessions =~= sessions_moved(all, id as int, from, to));
                false
            },
        }
    }

    /// The index at which the session stands.
    fn session_index(&self, id: i64) -> (r: Option<usize>)
        requires
            self.wf(),
        ensures
            r is Some ==> {
                &&& r->0 < self.sessions@.len()
                &&& self@.sessions[r->0 as int].id == id
                &&& session_with(self@.sessions, id as int) == Some(self@.sessions[r->0 as int])
            },
            r is None ==> session_with(self@.sessions, id as int) is None,
    {
        let ghost all = self@.sessions;
        let mut i: usize = self.sessions.len();
        assert(all.take(i as int) =~= all);
        while i > 0
            invariant
                i <= self.sessions@.len(),
                all == session_row_views(self.sessions@),
                session_with(all, id as int) == session_with(all.take(i as int), id as int),
            decreases i,
        {
            assert(all.take(i as int).last() == all[i - 1]);
            assert(all.take(i as int).drop_last() =~= all.take(i - 1));
            assert(all[i - 1] == self.sessions@[i - 1]@);
            if self.sessions[i - 1].id == id {
                return Some(i - 1);
            }
            i = i - 1;
        }
        None
    }

    /// The session with the given id.
    pub fn session(&self, id: i64) -> (r: Option<SessionRow>)
        requires
            self.wf(),
        ensures
            r is Some <==> session_with(self@.sessions, id as int) is Some,
            r is Some ==> Some((r->0)@) == session_with(self@.sessions, id as int),
    {
        match self.session_index(id) {
            Some(at) => Some(self.sessions[at].copy()),
            None => None,
        }
    }

    /// Every session, newest first.
    pub fn sessions(&self) -> (r: Vec<SessionRow>)
        ensures
            session_row_views(r@) == self@.sessions.reverse(),
    {
        let mut out: Vec<SessionRow> = Vec::new();
        let ghost all = self@.sessions;
        let mut i: usize = self.sessions.len();
        while i > 0
            invariant
                i <= self.sessions@.len(),
                all == session_row_views(self.sessions@),
                session_row_views(out@) == all.reverse().take(all.len() - i),
            decreases i,
        {
            let ghost seen = session_row_views(out@);
            out.push(self.sessions[i - 1].copy());
            assert(session_row_views(out@) =~= seen.push(all[i - 1]));
            assert(all.reverse().take(all.len() - i + 1) =~= all.reverse().take(
                all.len() - i,
            ).push(all.reverse()[all.len() - i]));
            i = i - 1;
        }
        assert(all.reverse().take(all.len() as int) =~= all.reverse());
        out
    }
}

/// No row has an id that looking it up does not find.
proof fn no_session_with(rows: Seq<SessionRowView>, id: int)
    requires
        session_with(rows, id) is None,
    ensures
        forall|i: int| 0 <= i < rows.len() ==> (#[trigger] rows[i]).id != id,
    decreases rows.len(),
{
    if rows.len() > 0 {
        no_session_with(rows.drop_last(), id);
        assert forall|i: int| 0 <= i < rows.len() implies (#[trigger] rows[i]).id != id by {
            if i < rows.len() - 1 {
                assert(rows.drop_last()[i] == rows[i]);
            }
        }
    }
}

/// Taking a session out leaves the ids ascending.
proof fn without_session_keeps(rows: Seq<SessionRowView>, id: int, last: int)
    requires
        session_ids_ascend(rows, last),
    ensures
        session_ids_ascend(without_session(rows, id), last),
        forall|i: int|
            0 <= i < without_session(rows, id).len() ==> rows.contains(
                #[trigger] without_session(rows, id)[i],
            ),
    decreases rows.len(),
{
    if rows.len() > 0 {
        let rest = rows.drop_last();
        assert forall|i: int, j: int|
            #![trigger rest[i], rest[j]]
            0 <= i < j < rest.len() implies rest[i].id < rest[j].id by {
            assert(rows[i].id < rows[j].id);
        }
        assert forall|i: int| #![trigger rest[i]] 0 <= i < rest.len() implies rest[i].id <= last by {
            assert(rows[i].id <= last);
        }
        without_session_keeps(rest, id, last);
        let kept = without_session(rest, id);
        let out = without_session(rows, id);
        assert forall|i: int| 0 <= i < out.len() implies rows.contains(#[trigger] out[i]) by {
            if i < kept.len() {
                assert(out[i] == kept[i]);
                let k = choose|k: int| 0 <= k < rest.len() && rest[k] == kept[i];
                assert(rows[k] == kept[i]);
            } else {
                assert(rows[rows.len() - 1] == out[i]);
            }
        }
        assert forall|i: int, j: int|
            #![trigger out[i], out[j]]
            0 <= i < j < out.len() implies out[i].id < out[j].id by {
            if j < kept.len() {
                assert(kept[i].id < kept[j].id);
            } else {
                assert(rest.contains(kept[i]));
                let k = choose|k: int| 0 <= k < rest.len() && rest[k] == kept[i];
                assert(rows[k].id < rows[rows.len() - 1].id);
            }
        }
        assert forall|i: int| #![trigger out[i]] 0 <= i < out.len() implies out[i].id <= last by {
            assert(rows.contains(out[i]));
        }
    }
}

// ---------------------------------------------------------------------
// Landing requests.

impl Coordination {
    /// Store a new open landing request under the next id.
    pub fn create_request(&mut self, session_id: i64, requester: &Actor, at_ms: i64) -> (r: Result<
        i64,
        Error,
    >)
        requires
            old(self).wf(),
        ensures
            final(self).wf(),
            old(self)@.last_request < i64::MAX ==> {
                &&& r is Ok
                &&& r->Ok_0 == old(self)@.last_request + 1
                &&& final(self)@ == (StoreView {
                    requests: old(self)@.requests.push(
                        fresh_request(
                            old(self)@.last_request + 1,
                            session_id as int,
                            requester@,
                            at_ms as int,
                        ),
                    ),
                    last_request: old(self)@.last_request + 1,
                    ..old(self)@
                })
            },
            old(self)@.last_request >= i64::MAX ==> {
                &&& r is Err
                &&& (r->Err_0)@ == ids_exhausted()
                &&& final(self)@ == old(self)@
            },
    {
        if self.last_request == i64::MAX {
            return Err(Error::Engine(owned("database or disk is full")));
        }
        let ghost before = self@;
        let id: i64 = self.last_request + 1;
        let row = RequestRow {
            id,
            session_id,
            requester_name: owned(requester.name.as_str()),
            requester_kind: requester.kind,
            state: RequestState::Open,
            created_at_ms: at_ms,
        };
        self.requests.push(row);
        self.last_request = id;
        assert(self@.requests =~= before.requests.push(row@));
        Ok(id)
    }

    /// The index at which the request stands.
    fn request_index(&self, id: i64) -> (r: Option<usize>)
        requires
            self.wf(),
        ensures
            r is Some ==> {
                &&& r->0 < self.requests@.len()
                &&& self@.requests[r->0 as int].id == id
                &&& request_with(self@.requests, id as int) == Some(self@.requests[r->0 as int])
            },
            r is None ==> request_with(self@.requests, id as int) is None,
    {
        let ghost all = self@.requests;
        let mut i: usize = self.requests.len();
        assert(all.take(i as int) =~= all);
        while i > 0
            invariant
                i <= self.requests@.len(),
                all == request_row_views(self.requests@),
                request_with(all, id as int) == request_with(all.take(i as int), id as int),
            decreases i,
        {
            assert(all.take(i as int).last() == all[i - 1]);
            assert(all.take(i as int).drop_last() =~= all.take(i - 1));
            assert(all[i - 1] == self.requests@[i - 1]@);
            if self.requests[i - 1].id == id {
                return Some(i - 1);
            }
            i = i - 1;
        }
        None
    }

    /// The landing request with the given id.
    pub fn request(&self, id: i64) -> (r: Option<RequestRow>)
        requires
            self.wf(),
        ensures
            r is Some <==> request_with(self@.requests, id as int) is Some,
            r is Some ==> Some((r->0)@) == request_with(self@.requests, id as int),
    {
        match self.request_index(id) {
            Some(at) => Some(self.requests[at].copy()),
            None => None,
        }
    }

    /// Every landing request, newest first.
    pub fn requests(&self) -> (r: Vec<RequestRow>)
        ensures
            request_row_views(r@) == self@.requests.reverse(),
    {
        let mut out: Vec<RequestRow> = Vec::new();
        let ghost all = self@.requests;
        let mut i: usize = self.requests.len();
        while i > 0
            invariant
                i <= self.requests@.len(),
                all == request_row_views(self.requests@),
                request_row_views(out@) == all.reverse().take(all.len() - i),
            decreases i,
        {
            let ghost seen = request_row_views(out@);
            out.push(self.requests[i - 1].copy());
            assert(request_row_views(out@) =~= seen.push(all[i - 1]));
            assert(all.reverse().take(all.len() - i + 1) =~= all.reverse().take(
                all.len() - i,
            ).push(all.reverse()[all.len() - i]));
            i = i - 1;
        }
        assert(all.reverse().take(all.len() as int) =~= all.reverse());
        out
    }

    /// The session's request still holding a claim on the landing gate: open,
    /// approved, or parked; the newest, should there be several.
    pub fn gated_request_for_session(&self, session_id: i64) -> (r: Option<RequestRow>)
        ensures
            r is Some <==> gated_with(self@.requests, session_id as int) is Some,
            r is Some ==> Some((r->0)@) == gated_with(self@.requests, session_id as int),
    {
        let ghost all = self@.requests;
        let mut i: usize = self.requests.len();
        assert(all.take(i as int) =~= all);
        while i > 0
            invariant
                i <= self.requests@.len(),
                all == request_row_views(self.requests@),
                gated_with(all, session_id as int) == gated_with(
                    all.take(i as int),
                    session_id as int,
                ),
            decreases i,
        {
            assert(all.take(i as int).last() == all[i - 1]);
            assert(all.take(i as int).drop_last() =~= all.take(i - 1));
            assert(all[i - 1] == self.requests@[i - 1]@);
            let row = &self.requests[i - 1];
            let gated = match row.state {
                RequestState::Open | RequestState::Approved | RequestState::Parked => true,
                _ => false,
            };
            if row.session_id == session_id && gated {
                return Some(row.copy());
            }
            i = i - 1;
        }
        None
    }

    /// Move the request's state when it still holds one of `from`; whether
    /// the row moved. The predicate names the expected prior states, so a
    /// write racing another process fails instead of overwriting the
    /// winner's transition.
    pub fn move_request_state(&mut self, id: i64, from: &[RequestState], to: RequestState) -> (r:
        bool)
        requires
            old(self).wf(),
        ensures
            final(self).wf(),
            r == (request_with(old(self)@.requests, id as int) is Some && from@.contains(
                (request_with(old(self)@.requests, id as int)->0).state,
            )),
            final(self)@ == (StoreView {
                requests: requests_moved(old(self)@.requests, id as int, from@, to),
                ..old(self)@
            }),
            !r ==> final(self)@ == old(self)@,
    {
        let ghost all = self@.requests;
        match self.request_index(id) {
            Some(at) => {
                let state = self.requests[at].state;
                let mut named = false;
                let mut i: usize = 0;
                while i < from.len()
                    invariant
                        i <= from@.len(),
                        named == exists|k: int| 0 <= k < i && #[trigger] from@[k] == state,
                    decreases from@.len() - i,
                {
                    if from[i] == state {
                        named = true;
                    }
                    i = i + 1;
                }
                if named {
                    let mut row = self.requests[at].copy();
                    row.state = to;
                    let ghost view = row@;
                    assert(view == (RequestRowView { state: to, ..all[at as int] }));
                    self.requests[at] = row;
                    assert(self@.requests =~= all.update(at as int, view));
                    assert(self@.requests =~= requests_moved(all, id as int, from@, to));
                    true
                } else {
                    assert forall|i: int| 0 <= i < all.len() implies #[trigger] all[i]
                        == requests_moved(all, id as int, from@, to)[i] by {
                        assert(all[i].id == id ==> i == at as int);
                    }
                    assert(self@.requests =~= requests_moved(all, id as int, from@, to));
                    false
                }
            },
            None => {
                proof {
                    no_request_with(all, id as int);
                }
                assert(self@.requests =~= requests_moved(all, id as int, from@, to));
                false
            },
        }
    }
}

/// No row has an id that looking it up does not find.
proof fn no_request_with(rows: Seq<RequestRowView>, id: int)
    requires
        request_with(rows, id) is None,
    ensures
        forall|i: int| 0 <= i < rows.len() ==> (#[trigger] rows[i]).id != id,
    decreases rows.len(),
{
    if rows.len() > 0 {
        no_request_with(rows.drop_last(), id);
        assert forall|i: int| 0 <= i < rows.len() implies (#[trigger] rows[i]).id != id by {
            if i < rows.len() - 1 {
                assert(rows.drop_last()[i] == rows[i]);
            }
        }
    }
}

// ---------------------------------------------------------------------
// Approvals.

impl Coordination {
    /// Record an approval toward the request's gate.
    pub fn add_approval(&mut self, request_id: i64, actor: &Actor, snapshot_id: &str, at_ms: i64)
        requires
            old(self).wf(),
        ensures
            final(self).wf(),
            final(self)@ == (StoreView {
                approvals: old(self)@.approvals.push(
                    ApprovalRowView {
                        request_id: request_id as int,
                        actor_name: actor.name@,
                        actor_kind: actor.kind,
                        snapshot_id: snapshot_id@,
                        at_ms: at_ms as int,
                        dismissed: false,
                    },
                ),
                ..old(self)@
            }),
    {
        let ghost before = self@;
        let row = ApprovalRow {
            request_id,
            actor_name: owned(actor.name.as_str()),
            actor_kind: actor.kind,
            snapshot_id: owned(snapshot_id),
            at_ms,
            dismissed: false,
        };
        self.approvals.push(row);
        assert(self@.approvals =~= before.approvals.push(row@));
    }

    /// The approvals still counting toward the request's gate, oldest
    /// first.
    pub fn live_approvals(&self, request_id: i64) -> (r: Vec<ApprovalRow>)
        ensures
            approval_row_views(r@) == live(self@.approvals, request_id as int),
    {
        let mut out: Vec<ApprovalRow> = Vec::new();
        let ghost all = self@.approvals;
        let mut i: usize = 0;
        assert(all.take(0) =~= Seq::<ApprovalRowView>::empty());
        assert(approval_row_views(out@) =~= live(all.take(0), request_id as int));
        while i < self.approvals.len()
            invariant
                i <= self.approvals@.len(),
                all == approval_row_views(self.approvals@),
                approval_row_views(out@) == live(all.take(i as int), request_id as int),
            decreases self.approvals@.len() - i,
        {
            let ghost seen = approval_row_views(out@);
            let row = &self.approvals[i];
            assert(row@ == all[i as int]);
            if row.request_id == request_id && !row.dismissed {
                out.push(row.copy());
                assert(approval_row_views(out@) =~= seen.push(all[i as int]));
            }
            assert(all.take(i + 1).drop_last() =~= all.take(i as int));
            assert(all.take(i + 1).last() == all[i as int]);
            i = i + 1;
        }
        assert(all.take(all.len() as int) =~= all);
        out
    }

    /// Dismiss the request's live approvals; how many were dismissed.
    pub fn dismiss_approvals(&mut self, request_id: i64) -> (r: usize)
        requires
            old(self).wf(),
        ensures
            final(self).wf(),
            r == live(old(self)@.approvals, request_id as int).len(),
            final(self)@ == (StoreView {
                approvals: dismissed(old(self)@.approvals, request_id as int),
                ..old(self)@
            }),
    {
        let ghost before = self@;
        let ghost all = before.approvals;
        let mut count: usize = 0;
        let mut out: Vec<ApprovalRow> = Vec::new();
        let mut i: usize = 0;
        assert(all.take(0) =~= Seq::<ApprovalRowView>::empty());
        assert(approval_row_views(out@) =~= dismissed(all, request_id as int).take(0));
        while i < self.approvals.len()
            invariant
                i <= self.approvals@.len(),
                count <= i,
                self@ == before,
                self.wf(),
                all == approval_row_views(self.approvals@),
                count == live(all.take(i as int), request_id as int).len(),
                approval_row_views(out@) == dismissed(all, request_id as int).take(i as int),
            decreases self.approvals@.len() - i,
        {
            let ghost seen = approval_row_views(out@);
            let mut row = self.approvals[i].copy();
            assert(row@ == all[i as int]);
            assert(all.take(i + 1).drop_last() =~= all.take(i as int));
            assert(all.take(i + 1).last() == all[i as int]);
            if row.request_id == request_id {
                if !row.dismissed {
                    count = count + 1;
                }
                row.dismissed = true;
            }
            let ghost view = row@;
            assert(view == dismissed(all, request_id as int)[i as int]);
            out.push(row);
            assert(approval_row_views(out@) =~= seen.push(view));
            assert(dismissed(all, request_id as int).take(i + 1) =~= dismissed(
                all,
                request_id as int,
            ).take(i as int).push(view));
            i = i + 1;
        }
        assert(all.take(all.len() as int) =~= all);
        assert(dismissed(all, request_id as int).take(all.len() as int) =~= dismissed(
            all,
            request_id as int,
        ));
        self.approvals = out;
        count
    }
}

/// Once dismissed, a request's approvals no longer count.
pub proof fn dismissed_no_longer_count(rows: Seq<ApprovalRowView>, request_id: int)
    ensures
        live(dismissed(rows, request_id), request_id).len() == 0,
    decreases rows.len(),
{
    if rows.len() > 0 {
        let out = dismissed(rows, request_id);
        assert(out.drop_last() =~= dismissed(rows.drop_last(), request_id));
        dismissed_no_longer_count(rows.drop_last(), request_id);
        assert(out.last() == dismissed(rows, request_id)[rows.len() - 1]);
    }
}

/// Dismissing one request's approvals leaves every other request's as they
/// were.
pub proof fn dismissal_is_per_request(rows: Seq<ApprovalRowView>, request_id: int, other: int)
    requires
        other != request_id,
    ensures
        live(dismissed(rows, request_id), other) == live(rows, other),
    decreases rows.len(),
{
    if rows.len() > 0 {
        let out = dismissed(rows, request_id);
        assert(out.drop_last() =~= dismissed(rows.drop_last(), request_id));
        dismissal_is_per_request(rows.drop_last(), request_id, other);
        assert(out.last() == dismissed(rows, request_id)[rows.len() - 1]);
    }
}

// ---------------------------------------------------------------------
// Facts per source.

/// The index of the owner's fact about the source.
fn fact_index(facts: &Vec<SourceFact>, owner: i64, source: &str) -> (r: Option<usize>)
    ensures
        r is Some ==> r->0 < facts@.len() && facts@[r->0 as int].owner == owner
            && facts@[r->0 as int].source@ == source@,
        r is Some ==> has_fact(fact_set(facts@), owner as int, source@),
        r is None ==> !has_fact(fact_set(facts@), owner as int, source@),
        r is None ==> forall|i: int|
            0 <= i < facts@.len() ==> (#[trigger] facts@[i]).owner != owner || facts@[i].source@
                != source@,
{
    let mut i: usize = 0;
    while i < facts.len()
        invariant
            i <= facts@.len(),
            forall|j: int|
                0 <= j < i ==> (#[trigger] facts@[j]).owner != owner || facts@[j].source@
                    != source@,
        decreases facts@.len() - i,
    {
        if facts[i].owner == owner && same(facts[i].source.as_str(), source) {
            assert(fact_views(facts@)[i as int] == (owner as int, source@, facts@[i as int].value@));
            assert(fact_set(facts@).contains((owner as int, source@, facts@[i as int].value@)));
            return Some(i);
        }
        i = i + 1;
    }
    proof {
        if has_fact(fact_set(facts@), owner as int, source@) {
            let value = choose|value: Seq<char>|
                fact_set(facts@).contains((owner as int, source@, value));
            let k = choose|k: int|
                0 <= k < fact_views(facts@).len() && fact_views(facts@)[k] == (
                    owner as int,
                    source@,
                    value,
                );
            assert(facts@[k]@ == fact_views(facts@)[k]);
        }
    }
    None
}

/// One more fact joins the relation.
proof fn fact_set_push(facts: Seq<SourceFact>, fact: SourceFact)
    requires
        one_fact_per_source(fact_views(facts)),
        !has_fact(fact_set(facts), fact.owner as int, fact.source@),
    ensures
        fact_set(facts.push(fact)) == fact_set(facts).insert(fact@),
        one_fact_per_source(fact_views(facts.push(fact))),
{
    let before = fact_views(facts);
    let after = fact_views(facts.push(fact));
    assert(after =~= before.push(fact@));
    assert forall|f: FactView| fact_set(facts.push(fact)).contains(f) == fact_set(facts).insert(
        fact@,
    ).contains(f) by {
        if before.contains(f) {
            let k = choose|k: int| 0 <= k < before.len() && before[k] == f;
            assert(after[k] == f);
        }
        if f == fact@ {
            assert(after[before.len() as int] == f);
        }
        if after.contains(f) && f != fact@ {
            let k = choose|k: int| 0 <= k < after.len() && after[k] == f;
            assert(before[k] == f);
        }
    }
    assert(fact_set(facts.push(fact)) =~= fact_set(facts).insert(fact@));
    assert forall|i: int, j: int|
        #![trigger after[i], after[j]]
        0 <= i < j < after.len() implies after[i].0 != after[j].0 || after[i].1 != after[j].1 by {
        if j < before.len() {
            assert(before[i].0 != before[j].0 || before[i].1 != before[j].1);
        } else {
            assert(before[i] == after[i]);
            assert(before.contains(before[i]));
            assert(fact_set(facts).contains((before[i].0, before[i].1, before[i].2)));
        }
    }
}

/// One fact leaves the relation.
proof fn fact_set_remove(facts: Seq<SourceFact>, at: int)
    requires
        one_fact_per_source(fact_views(facts)),
        0 <= at < facts.len(),
    ensures
        fact_set(facts.remove(at)) == fact_set(facts).remove(facts[at]@),
        one_fact_per_source(fact_views(facts.remove(at))),
{
    let before = fact_views(facts);
    let after = fact_views(facts.remove(at));
    assert(after =~= before.remove(at));
    assert forall|f: FactView| fact_set(facts.remove(at)).contains(f) == fact_set(facts).remove(
        facts[at]@,
    ).contains(f) by {
        if before.contains(f) && f != facts[at]@ {
            let k = choose|k: int| 0 <= k < before.len() && before[k] == f;
            if k < at {
                assert(after[k] == f);
            } else {
                assert(after[k - 1] == f);
            }
        }
        if after.contains(f) {
            let k = choose|k: int| 0 <= k < after.len() && after[k] == f;
            if k < at {
                assert(before[k] == f);
                assert(before[k].0 != before[at].0 || before[k].1 != before[at].1);
            } else {
                assert(before[k + 1] == f);
                assert(before[at].0 != before[k + 1].0 || before[at].1 != before[k + 1].1);
            }
        }
    }
    assert(fact_set(facts.remove(at)) =~= fact_set(facts).remove(facts[at]@));
    assert forall|i: int, j: int|
        #![trigger after[i], after[j]]
        0 <= i < j < after.len() implies after[i].0 != after[j].0 || after[i].1 != after[j].1 by {
        let x = if i < at {
            i
        } else {
            i + 1
        };
        let y = if j < at {
            j
        } else {
            j + 1
        };
        assert(before[x].0 != before[y].0 || before[x].1 != before[y].1);
    }
}

/// The value the owner's first `n` facts give `source`.
spec fn value_upto(facts: Seq<FactView>, owner: int, n: int, source: Seq<char>) -> Option<Seq<char>>
    decreases n,
{
    if n <= 0 {
        None
    } else if facts[n - 1].0 == owner && facts[n - 1].1 == source {
        Some(facts[n - 1].2)
    } else {
        value_upto(facts, owner, n - 1, source)
    }
}

/// A fact among the first `n` gives its source its value, and the other way
/// round.
proof fn value_upto_finds(facts: Seq<FactView>, owner: int, n: int, source: Seq<char>)
    requires
        one_fact_per_source(facts),
        0 <= n <= facts.len(),
    ensures
        forall|k: int|
            0 <= k < n && (#[trigger] facts[k]).0 == owner && facts[k].1 == source ==> value_upto(
                facts,
                owner,
                n,
                source,
            ) == Some(facts[k].2),
        value_upto(facts, owner, n, source) is Some ==> exists|k: int|
            0 <= k < n && #[trigger] facts[k] == (
                owner,
                source,
                value_upto(facts, owner, n, source)->0,
            ),
    decreases n,
{
    if n > 0 {
        value_upto_finds(facts, owner, n - 1, source);
        if facts[n - 1].0 == owner && facts[n - 1].1 == source {
            assert(facts[n - 1] == (owner, source, facts[n - 1].2));
            assert forall|k: int|
                0 <= k < n && (#[trigger] facts[k]).0 == owner && facts[k].1 == source implies value_upto(
                facts,
                owner,
                n,
                source,
            ) == Some(facts[k].2) by {
                if k < n - 1 {
                    assert(facts[k].0 != facts[n - 1].0 || facts[k].1 != facts[n - 1].1);
                }
            }
        } else if value_upto(facts, owner, n, source) is Some {
            let value = value_upto(facts, owner, n - 1, source)->0;
            let k = choose|k: int| 0 <= k < n - 1 && #[trigger] facts[k] == (owner, source, value);
            assert(facts[k] == (owner, source, value));
        }
    }
}

/// The owner's facts in the order of their sources.
fn facts_in_order(facts: &Vec<SourceFact>, owner: i64) -> (r: Vec<(String, String)>)
    requires
        one_fact_per_source(fact_views(facts@)),
    ensures
        in_source_order(
            fact_set(facts@),
            owner as int,
            r@.map_values(|fact: (String, String)| (fact.0@, fact.1@)),
        ),
{
    let ghost all = fact_views(facts@);
    let mut table: Table<String> = Table::new();
    let mut i: usize = 0;
    while i < facts.len()
        invariant
            i <= facts@.len(),
            all == fact_views(facts@),
            table.wf(),
            forall|source: Seq<char>| #[trigger]
                table@.dom().contains(source) <==> value_upto(all, owner as int, i as int, source)
                    is Some,
            forall|source: Seq<char>| #[trigger]
                table@.dom().contains(source) ==> value_upto(all, owner as int, i as int, source)
                    == Some(table@[source]@),
        decreases facts@.len() - i,
    {
        assert(all[i as int] == facts@[i as int]@);
        if facts[i].owner == owner {
            table.insert(facts[i].source.as_str(), owned(facts[i].value.as_str()));
        }
        i = i + 1;
    }
    let mut out: Vec<(String, String)> = Vec::new();
    let mut j: usize = 0;
    while j < table.len()
        invariant
            j <= table.order().len(),
            out@.len() == j,
            forall|k: int|
                0 <= k < j ==> (#[trigger] out@[k]).0@ == table.order()[k].0 && out@[k].1@
                    == table.order()[k].1@,
        decreases table.order().len() - j,
    {
        out.push((owned(table.key(j)), owned(table.value(j).as_str())));
        j = j + 1;
    }
    proof {
        let list = out@.map_values(|fact: (String, String)| (fact.0@, fact.1@));
        let set = fact_set(facts@);
        assert forall|x: int, y: int|
            #![trigger list[x], list[y]]
            0 <= x < y < list.len() implies lex_lt(list[x].0, list[y].0) by {
            assert(out@[x].0@ == table.order()[x].0);
            assert(out@[y].0@ == table.order()[y].0);
        }
        assert forall|x: int| #![trigger list[x]] 0 <= x < list.len() implies set.contains(
            (owner as int, list[x].0, list[x].1),
        ) by {
            assert(out@[x].0@ == table.order()[x].0);
            table.slot_is(list[x].0, x);
            value_upto_finds(all, owner as int, all.len() as int, list[x].0);
            let k = choose|k: int|
                0 <= k < all.len() && #[trigger] all[k] == (owner as int, list[x].0, list[x].1);
            assert(all.contains(all[k]));
        }
        assert forall|source: Seq<char>, value: Seq<char>|
            #![trigger set.contains((owner as int, source, value))]
            set.contains((owner as int, source, value)) implies list.contains((source, value)) by {
            value_upto_finds(all, owner as int, all.len() as int, source);
            let k = choose|k: int| 0 <= k < all.len() && all[k] == (owner as int, source, value);
            assert(value_upto(all, owner as int, all.len() as int, source) == Some(value));
            assert(table@.dom().contains(source));
            table.slot_holds(source);
            let at = table.slot(source);
            assert(out@[at].0@ == table.order()[at].0);
            assert(list[at] == (source, value));
        }
    }
    out
}

/// The list of an owner's facts in source order is unique.
pub proof fn source_order_is_unique(
    facts: Set<FactView>,
    owner: int,
    a: Seq<(Seq<char>, Seq<char>)>,
    b: Seq<(Seq<char>, Seq<char>)>,
)
    requires
        in_source_order(facts, owner, a),
        in_source_order(facts, owner, b),
    ensures
        a == b,
{
    source_order_prefix(facts, owner, a, b, a.len() as int);
    source_order_prefix(facts, owner, b, a, b.len() as int);
    assert(a =~= b);
}

proof fn source_order_prefix(
    facts: Set<FactView>,
    owner: int,
    a: Seq<(Seq<char>, Seq<char>)>,
    b: Seq<(Seq<char>, Seq<char>)>,
    n: int,
)
    requires
        in_source_order(facts, owner, a),
        in_source_order(facts, owner, b),
        0 <= n <= a.len(),
    ensures
        n <= b.len(),
        forall|i: int| 0 <= i < n ==> a[i] == b[i],
    decreases n,
{
    if n > 0 {
        source_order_prefix(facts, owner, a, b, n - 1);
        let item = a[n - 1];
        assert(facts.contains((owner, item.0, item.1)));
        assert(b.contains((item.0, item.1)));
        let k = choose|k: int| 0 <= k < b.len() && b[k] == item;
        if k < n - 1 {
            assert(a[k] == b[k]);
            lex_asymmetric(a[k].0, a[n - 1].0);
        }
        if k > n - 1 {
            let mid = b[n - 1];
            assert(facts.contains((owner, mid.0, mid.1)));
            assert(a.contains((mid.0, mid.1)));
            let m = choose|m: int| 0 <= m < a.len() && a[m] == mid;
            lex_asymmetric(b[n - 1].0, b[k].0);
            if m < n - 1 {
                assert(a[m] == b[m]);
                lex_asymmetric(b[m].0, b[n - 1].0);
            } else if m > n - 1 {
                lex_asymmetric(a[n - 1].0, a[m].0);
            }
        }
    }
}

impl Coordination {
    /// Record a mounted source's change under the session; the root's
    /// change lives on the session row itself.
    pub fn set_session_source_change(&mut self, session_id: i64, source: &str, change_id: &str) -> (r:
        Result<(), Error>)
        requires
            old(self).wf(),
        ensures
            final(self).wf(),
            has_fact(old(self)@.session_changes, session_id as int, source@) ==> {
                &&& r is Err
                &&& (r->Err_0)@ == duplicate_fact(
                    "session_changes.session_id, session_changes.source"@,
                )
                &&& final(self)@ == old(self)@
            },
            !has_fact(old(self)@.session_changes, session_id as int, source@) ==> {
                &&& r is Ok
                &&& final(self)@ == (StoreView {
                    session_changes: old(self)@.session_changes.insert(
                        (session_id as int, source@, change_id@),
                    ),
                    ..old(self)@
                })
            },
    {
        if fact_index(&self.session_changes, session_id, source).is_some() {
            return Err(
                Error::Engine(
                    crate::words::joined(
                        "UNIQUE constraint failed: ",
                        "session_changes.session_id, session_changes.source",
                    ),
                ),
            );
        }
        let fact = SourceFact { owner: session_id, source: owned(source), value: owned(change_id) };
        proof {
            fact_set_push(self.session_changes@, fact);
        }
        self.session_changes.push(fact);
        Ok(())
    }

    /// The session's mounted-source changes, in source order.
    pub fn session_source_changes(&self, session_id: i64) -> (r: Vec<(String, String)>)
        requires
            self.wf(),
        ensures
            in_source_order(
                self@.session_changes,
                session_id as int,
                r@.map_values(|change: (String, String)| (change.0@, change.1@)),
            ),
    {
        facts_in_order(&self.session_changes, session_id)
    }

    /// Record one source's landing under the request: the fact a re-apply
    /// after a park must not repeat. The root records as `/`.
    pub fn record_landing(&mut self, request_id: i64, source: &Option<String>, snapshot_id: &str) -> (r:
        Result<(), Error>)
        requires
            old(self).wf(),
        ensures
            final(self).wf(),
            has_fact(old(self)@.landings, request_id as int, source_key(opt_text(*source))) ==> {
                &&& r is Err
                &&& (r->Err_0)@ == duplicate_fact(
                    "request_landings.request_id, request_landings.source"@,
                )
                &&& final(self)@ == old(self)@
            },
            !has_fact(old(self)@.landings, request_id as int, source_key(opt_text(*source))) ==> {
                &&& r is Ok
                &&& final(self)@ == (StoreView {
                    landings: old(self)@.landings.insert(
                        (request_id as int, source_key(opt_text(*source)), snapshot_id@),
                    ),
                    ..old(self)@
                })
            },
    {
        let key = key_of(source);
        if fact_index(&self.landings, request_id, key.as_str()).is_some() {
            return Err(
                Error::Engine(
                    crate::words::joined(
                        "UNIQUE constraint failed: ",
                        "request_landings.request_id, request_landings.source",
                    ),
                ),
            );
        }
        let fact = SourceFact { owner: request_id, source: key, value: owned(snapshot_id) };
        proof {
            fact_set_push(self.landings@, fact);
        }
        self.landings.push(fact);
        Ok(())
    }

    /// Un-record one source's landing under the request: an undo stepped
    /// the line back, so the fact no longer holds and a re-apply must land
    /// it anew. The snapshot names the fact being erased: a stale writer
    /// whose landing was already replaced deletes nothing.
    pub fn delete_landing(&mut self, request_id: i64, source: &Option<String>, snapshot_id: &str)
        requires
            old(self).wf(),
        ensures
            final(self).wf(),
            final(self)@ == (StoreView {
                landings: old(self)@.landings.remove(
                    (request_id as int, source_key(opt_text(*source)), snapshot_id@),
                ),
                ..old(self)@
            }),
    {
        let key = key_of(source);
        let ghost before = self@.landings;
        let ghost target = (request_id as int, source_key(opt_text(*source)), snapshot_id@);
        let ghost facts = fact_views(self.landings@);
        match fact_index(&self.landings, request_id, key.as_str()) {
            Some(at) => {
                assert(facts[at as int] == self.landings@[at as int]@);
                if same(self.landings[at].value.as_str(), snapshot_id) {
                    proof {
                        fact_set_remove(self.landings@, at as int);
                    }
                    self.landings.remove(at);
                } else {
                    assert(!before.contains(target)) by {
                        if before.contains(target) {
                            let k = choose|k: int| 0 <= k < facts.len() && facts[k] == target;
                            if k < at {
                                assert(facts[k].0 != facts[at as int].0 || facts[k].1
                                    != facts[at as int].1);
                            } else if k > at {
                                assert(facts[at as int].0 != facts[k].0 || facts[at as int].1
                                    != facts[k].1);
                            }
                        }
                    }
                    assert(before.remove(target) =~= before);
                }
            },
            None => {
                assert(!before.contains(target));
                assert(before.remove(target) =~= before);
            },
        }
    }

    /// The request's recorded landings: source (`None` for the root) and
    /// the snapshot it landed, in source order.
    pub fn landings(&self, request_id: i64) -> (r: Vec<(Option<String>, String)>)
        requires
            self.wf(),
        ensures
            in_source_order(self@.landings, request_id as int, keyed(r@)),
            forall|i: int|
                0 <= i < r@.len() ==> opt_text((#[trigger] r@[i]).0) != Some(ROOT_MOUNT@),
    {
        let facts = facts_in_order(&self.landings, request_id);
        let ghost list = facts@.map_values(|fact: (String, String)| (fact.0@, fact.1@));
        let mut out: Vec<(Option<String>, String)> = Vec::new();
        let mut i: usize = 0;
        while i < facts.len()
            invariant
                i <= facts@.len(),
                list == facts@.map_values(|fact: (String, String)| (fact.0@, fact.1@)),
                keyed(out@) == list.take(i as int),
                forall|k: int|
                    0 <= k < out@.len() ==> opt_text((#[trigger] out@[k]).0) != Some(ROOT_MOUNT@),
            decreases facts@.len() - i,
        {
            let ghost seen = keyed(out@);
            let source = if same(facts[i].0.as_str(), ROOT_MOUNT) {
                None
            } else {
                Some(owned(facts[i].0.as_str()))
            };
            let landing = (source, owned(facts[i].1.as_str()));
            out.push(landing);
            assert(keyed(out@) =~= seen.push(list[i as int]));
            assert(list.take(i + 1) =~= list.take(i as int).push(list[i as int]));
            i = i + 1;
        }
        assert(list.take(list.len() as int) =~= list);
        out
    }

    // -----------------------------------------------------------------
    // Origin fingerprints.

    /// The origin fingerprint and line snapshot a source last synced at, if
    /// it ever has.
    pub fn sync_state(&self, mount: &str) -> (r: Option<(String, String)>)
        requires
            self.wf(),
        ensures
            r is Some <==> self@.syncs.dom().contains(mount@),
            r is Some ==> ((r->0).0@, (r->0).1@) == self@.syncs[mount@],
    {
        match self.syncs.get(mount) {
            Some(row) => Some((owned(row.fingerprint.as_str()), owned(row.snapshot_id.as_str()))),
            None => None,
        }
    }

    /// Record a completed sync: the origin now mirrors `snapshot_id`, and
    /// its content hashes to `fingerprint`.
    pub fn record_sync_state(&mut self, mount: &str, fingerprint: &str, snapshot_id: &str)
        requires
            old(self).wf(),
        ensures
            final(self).wf(),
            final(self)@ == (StoreView {
                syncs: old(self)@.syncs.insert(mount@, (fingerprint@, snapshot_id@)),
                ..old(self)@
            }),
    {
        let ghost before = self@.syncs;
        let row = SyncRow { fingerprint: owned(fingerprint), snapshot_id: owned(snapshot_id) };
        self.syncs.insert(mount, row);
        assert(self@.syncs =~= before.insert(mount@, (fingerprint@, snapshot_id@)));
    }

    // -----------------------------------------------------------------
    // The landing leases.

    /// Claim `point` for `holder` until `now_ms + ttl_ms`. Exactly one
    /// claimant wins: the claim succeeds when the point is free, expired,
    /// or already this holder's. Every successful claim is a new tenancy:
    /// the epoch bumps, and a prior tenancy's fence can never validate
    /// again.
    pub fn claim_lease(&mut self, point: &str, holder: &str, now_ms: i64, ttl_ms: i64) -> (r: Result<
        LeaseClaim,
        Error,
    >)
        requires
            old(self).wf(),
        ensures
            final(self).wf(),
            !(i64::MIN <= now_ms + ttl_ms <= i64::MAX) ==> {
                &&& r is Err
                &&& (r->Err_0)@ == expiry_overflow(now_ms as int, ttl_ms as int)
                &&& final(self)@ == old(self)@
            },
            i64::MIN <= now_ms + ttl_ms <= i64::MAX && claimable(
                old(self)@.leases,
                point@,
                holder@,
                now_ms as int,
            ) && next_epoch(old(self)@.leases, point@) <= i64::MAX ==> {
                &&& r is Ok
                &&& r->Ok_0 is Held
                &&& r->Ok_0->epoch == next_epoch(old(self)@.leases, point@)
                &&& final(self)@ == (StoreView {
                    leases: claimed(old(self)@.leases, point@, holder@, now_ms + ttl_ms),
                    ..old(self)@
                })
            },
            i64::MIN <= now_ms + ttl_ms <= i64::MAX && claimable(
                old(self)@.leases,
                point@,
                holder@,
                now_ms as int,
            ) && next_epoch(old(self)@.leases, point@) > i64::MAX ==> {
                &&& r is Err
                &&& (r->Err_0)@ == epochs_exhausted()
                &&& final(self)@ == old(self)@
            },
            i64::MIN <= now_ms + ttl_ms <= i64::MAX && !claimable(
                old(self)@.leases,
                point@,
                holder@,
                now_ms as int,
            ) ==> {
                &&& r is Ok
                &&& r->Ok_0 is HeldByOther
                &&& (r->Ok_0->holder)@ == old(self)@.leases[point@].holder
                &&& r->Ok_0->expires_at_ms == old(self)@.leases[point@].expires_at_ms
                &&& final(self)@ == old(self)@
            },
    {
        let expires_at_ms = match lease_expiry(now_ms, ttl_ms) {
            Ok(expires_at_ms) => expires_at_ms,
            Err(error) => return Err(error),
        };
        let mut epoch: i64 = 1;
        if let Some(row) = self.leases.get(point) {
            let free = row.expires_at_ms <= now_ms || same(row.holder.as_str(), holder);
            if !free {
                return Ok(
                    LeaseClaim::HeldByOther {
                        holder: owned(row.holder.as_str()),
                        expires_at_ms: row.expires_at_ms,
                    },
                );
            }
            if row.epoch == i64::MAX {
                return Err(Error::Engine(owned("integer overflow")));
            }
            epoch = row.epoch + 1;
        }
        let ghost before = self@.leases;
        self.leases.insert(point, LeaseRow { holder: owned(holder), expires_at_ms, epoch });
        assert(self@.leases =~= claimed(before, point@, holder@, expires_at_ms as int));
        Ok(LeaseClaim::Held { epoch })
    }

    /// Extend the tenancy `(holder, epoch)` holds on `point`: the fence a
    /// leased line move runs at its last pure moment. The guarded write
    /// names the holder and the epoch: a superseded tenancy (a newer claim
    /// bumped the epoch) changes nothing and refuses, while expiry alone,
    /// when nobody else claimed, renews and stays a non-event.
    pub fn renew_lease(&mut self, point: &str, holder: &str, epoch: i64, now_ms: i64, ttl_ms: i64) -> (r:
        Result<bool, Error>)
        requires
            old(self).wf(),
        ensures
            final(self).wf(),
            !(i64::MIN <= now_ms + ttl_ms <= i64::MAX) ==> {
                &&& r is Err
                &&& (r->Err_0)@ == expiry_overflow(now_ms as int, ttl_ms as int)
                &&& final(self)@ == old(self)@
            },
            i64::MIN <= now_ms + ttl_ms <= i64::MAX ==> {
                &&& r is Ok
                &&& r->Ok_0 == in_tenancy(old(self)@.leases, point@, holder@, epoch as int)
                &&& final(self)@ == (StoreView {
                    leases: renewed(
                        old(self)@.leases,
                        point@,
                        holder@,
                        epoch as int,
                        now_ms + ttl_ms,
                    ),
                    ..old(self)@
                })
            },
    {
        let expires_at_ms = match lease_expiry(now_ms, ttl_ms) {
            Ok(expires_at_ms) => expires_at_ms,
            Err(error) => return Err(error),
        };
        let tenant = match self.leases.get(point) {
            Some(row) => row.epoch == epoch && same(row.holder.as_str(), holder),
            None => false,
        };
        if tenant {
            let ghost before = self@.leases;
            self.leases.insert(point, LeaseRow { holder: owned(holder), expires_at_ms, epoch });
            assert(self@.leases =~= renewed(
                before,
                point@,
                holder@,
                epoch as int,
                expires_at_ms as int,
            ));
        }
        Ok(tenant)
    }

    /// Release the tenancy `(holder, epoch)` holds on `point`. The row
    /// stays and the epoch burns: a released tenancy becomes unrenewable
    /// exactly like a superseded one, and a later claim bumps past the
    /// high-water mark, so no earlier fence can ever validate again. An
    /// expired-and-taken lease belongs to its new tenancy and stays.
    pub fn release_lease(&mut self, point: &str, holder: &str, epoch: i64) -> (r: Result<(), Error>)
        requires
            old(self).wf(),
        ensures
            final(self).wf(),
            in_tenancy(old(self)@.leases, point@, holder@, epoch as int) && epoch == i64::MAX ==> {
                &&& r is Err
                &&& (r->Err_0)@ == epochs_exhausted()
                &&& final(self)@ == old(self)@
            },
            !(in_tenancy(old(self)@.leases, point@, holder@, epoch as int) && epoch == i64::MAX)
                ==> {
                &&& r is Ok
                &&& final(self)@ == (StoreView {
                    leases: released(old(self)@.leases, point@, holder@, epoch as int),
                    ..old(self)@
                })
            },
    {
        let tenant = match self.leases.get(point) {
            Some(row) => row.epoch == epoch && same(row.holder.as_str(), holder),
            None => false,
        };
        if tenant {
            if epoch == i64::MAX {
                return Err(Error::Engine(owned("integer overflow")));
            }
            let ghost before = self@.leases;
            self.leases.insert(
                point,
                LeaseRow { holder: owned(holder), expires_at_ms: 0, epoch: epoch + 1 },
            );
            assert(self@.leases =~= released(before, point@, holder@, epoch as int));
        }
        Ok(())
    }
}

/// How a source is recorded: by its mount name, the root as `/`.
fn key_of(source: &Option<String>) -> (r: String)
    ensures
        r@ == source_key(opt_text(*source)),
{
    match source {
        Some(mount) => owned(mount.as_str()),
        None => owned(ROOT_MOUNT),
    }
}

// ---------------------------------------------------------------------
// Loading and saving the store.

/// The store's rows, as a database keeps them.
#[derive(Debug, Clone)]
pub struct StoreRows {
    pub sessions: Vec<SessionRow>,
    pub last_session: i64,
    pub requests: Vec<RequestRow>,
    pub last_request: i64,
    pub approvals: Vec<ApprovalRow>,
    pub session_changes: Vec<SourceFact>,
    pub landings: Vec<SourceFact>,
    pub leases: Vec<(String, LeaseRow)>,
    pub syncs: Vec<(String, SyncRow)>,
}

/// Lease rows with the point each is about.
pub open spec fn lease_entries(rows: Seq<(String, LeaseRow)>) -> Seq<(Seq<char>, LeaseRow)> {
    rows.map_values(|row: (String, LeaseRow)| (row.0@, row.1))
}

/// Sync rows with the mount each is about.
pub open spec fn sync_entries(rows: Seq<(String, SyncRow)>) -> Seq<(Seq<char>, SyncRow)> {
    rows.map_values(|row: (String, SyncRow)| (row.0@, row.1))
}

/// What rows say as a store.
pub open spec fn rows_view(rows: StoreRows) -> StoreView {
    StoreView {
        sessions: session_row_views(rows.sessions@),
        last_session: rows.last_session as int,
        requests: request_row_views(rows.requests@),
        last_request: rows.last_request as int,
        approvals: approval_row_views(rows.approvals@),
        session_changes: fact_set(rows.session_changes@),
        landings: fact_set(rows.landings@),
        leases: crate::table::map_of(lease_entries(rows.leases@)).map_values(|row: LeaseRow| row@),
        syncs: crate::table::map_of(sync_entries(rows.syncs@)).map_values(|row: SyncRow| row@),
    }
}

/// Whether rows can be a store's: ids ascend within what was given out, and
/// no owner has two facts about one source.
pub open spec fn rows_consistent(rows: StoreRows) -> bool {
    &&& session_ids_ascend(session_row_views(rows.sessions@), rows.last_session as int)
    &&& request_ids_ascend(request_row_views(rows.requests@), rows.last_request as int)
    &&& one_fact_per_source(fact_views(rows.session_changes@))
    &&& one_fact_per_source(fact_views(rows.landings@))
    &&& rows.last_session >= 0
    &&& rows.last_request >= 0
}

/// Whether no owner has two facts about one source.
fn distinct_sources(facts: &Vec<SourceFact>) -> (r: bool)
    ensures
        r == one_fact_per_source(fact_views(facts@)),
{
    let ghost all = fact_views(facts@);
    let mut j: usize = 0;
    while j < facts.len()
        invariant
            j <= facts@.len(),
            all == fact_views(facts@),
            forall|x: int, y: int|
                #![trigger all[x], all[y]]
                0 <= x < y < j ==> all[x].0 != all[y].0 || all[x].1 != all[y].1,
        decreases facts@.len() - j,
    {
        let mut i: usize = 0;
        while i < j
            invariant
                i <= j < facts@.len(),
                all == fact_views(facts@),
                forall|x: int|
                    #![trigger all[x]]
                    0 <= x < i ==> all[x].0 != all[j as int].0 || all[x].1 != all[j as int].1,
            decreases j - i,
        {
            assert(all[i as int] == facts@[i as int]@);
            assert(all[j as int] == facts@[j as int]@);
            if facts[i].owner == facts[j].owner && same(
                facts[i].source.as_str(),
                facts[j].source.as_str(),
            ) {
                return false;
            }
            i = i + 1;
        }
        j = j + 1;
    }
    true
}

/// Whether session ids ascend up to `last`.
fn ascending_sessions(rows: &Vec<SessionRow>, last: i64) -> (r: bool)
    ensures
        r == session_ids_ascend(session_row_views(rows@), last as int),
{
    let ghost all = session_row_views(rows@);
    let mut i: usize = 0;
    while i < rows.len()
        invariant
            i <= rows@.len(),
            all == session_row_views(rows@),
            forall|x: int, y: int|
                #![trigger all[x], all[y]]
                0 <= x < y < i ==> all[x].id < all[y].id,
            forall|x: int| #![trigger all[x]] 0 <= x < i ==> all[x].id <= last,
        decreases rows@.len() - i,
    {
        assert(all[i as int] == rows@[i as int]@);
        if rows[i].id > last {
            return false;
        }
        if i > 0 {
            assert(all[i - 1] == rows@[i - 1]@);
            if rows[i - 1].id >= rows[i].id {
                return false;
            }
        }
        i = i + 1;
    }
    true
}

/// Whether request ids ascend up to `last`.
fn ascending_requests(rows: &Vec<RequestRow>, last: i64) -> (r: bool)
    ensures
        r == request_ids_ascend(request_row_views(rows@), last as int),
{
    let ghost all = request_row_views(rows@);
    let mut i: usize = 0;
    while i < rows.len()
        invariant
            i <= rows@.len(),
            all == request_row_views(rows@),
            forall|x: int, y: int|
                #![trigger all[x], all[y]]
                0 <= x < y < i ==> all[x].id < all[y].id,
            forall|x: int| #![trigger all[x]] 0 <= x < i ==> all[x].id <= last,
        decreases rows@.len() - i,
    {
        assert(all[i as int] == rows@[i as int]@);
        if rows[i].id > last {
            return false;
        }
        if i > 0 {
            assert(all[i - 1] == rows@[i - 1]@);
            if rows[i - 1].id >= rows[i].id {
                return false;
            }
        }
        i = i + 1;
    }
    true
}

impl Coordination {
    /// The store that is stamped with `version` and whose rows these are,
    /// refused when a newer atelier stamped it, or when the rows cannot be a
    /// store's.
    pub fn open(version: i64, rows: StoreRows) -> (r: Result<Self, Error>)
        ensures
            version > STORE_VERSION ==> r is Err && (r->Err_0)@ == newer_store(version as int),
            version <= STORE_VERSION && !rows_consistent(rows) ==> r is Err && (r->Err_0)@
                == ErrorView::Engine("the store's rows are inconsistent"@),
            version <= STORE_VERSION && rows_consistent(rows) ==> r is Ok && (r->Ok_0).wf()
                && (r->Ok_0)@ == rows_view(rows),
    {
        if let Err(error) = check_store_version(version) {
            return Err(error);
        }
        let consistent = rows.last_session >= 0 && rows.last_request >= 0 && ascending_sessions(
            &rows.sessions,
            rows.last_session,
        ) && ascending_requests(&rows.requests, rows.last_request) && distinct_sources(
            &rows.session_changes,
        ) && distinct_sources(&rows.landings);
        if !consistent {
            return Err(Error::Engine(owned("the store's rows are inconsistent")));
        }
        let mut leases: Table<LeaseRow> = Table::new();
        let ghost entries = lease_entries(rows.leases@);
        let mut i: usize = 0;
        assert(entries.take(0) =~= Seq::<(Seq<char>, LeaseRow)>::empty());
        while i < rows.leases.len()
            invariant
                i <= rows.leases@.len(),
                entries == lease_entries(rows.leases@),
                leases.wf(),
                leases@ == crate::table::map_of(entries.take(i as int)),
            decreases rows.leases@.len() - i,
        {
            let row = copy_lease(&rows.leases[i].1);
            leases.insert(rows.leases[i].0.as_str(), row);
            assert(entries.take(i + 1).drop_last() =~= entries.take(i as int));
            assert(entries.take(i + 1).last() == entries[i as int]);
            i = i + 1;
        }
        assert(entries.take(entries.len() as int) =~= entries);
        let mut syncs: Table<SyncRow> = Table::new();
        let ghost marks = sync_entries(rows.syncs@);
        let mut j: usize = 0;
        assert(marks.take(0) =~= Seq::<(Seq<char>, SyncRow)>::empty());
        while j < rows.syncs.len()
            invariant
                j <= rows.syncs@.len(),
                marks == sync_entries(rows.syncs@),
                syncs.wf(),
                syncs@ == crate::table::map_of(marks.take(j as int)),
            decreases rows.syncs@.len() - j,
        {
            let row = copy_sync(&rows.syncs[j].1);
            syncs.insert(rows.syncs[j].0.as_str(), row);
            assert(marks.take(j + 1).drop_last() =~= marks.take(j as int));
            assert(marks.take(j + 1).last() == marks[j as int]);
            j = j + 1;
        }
        assert(marks.take(marks.len() as int) =~= marks);
        Ok(
            Coordination {
                sessions: rows.sessions,
                last_session: rows.last_session,
                requests: rows.requests,
                last_request: rows.last_request,
                approvals: rows.approvals,
                session_changes: rows.session_changes,
                landings: rows.landings,
                leases,
                syncs,
            },
        )
    }

    /// The store's rows.
    pub fn into_rows(self) -> (r: StoreRows)
        requires
            self.wf(),
        ensures
            rows_consistent(r),
            rows_view(r) == self@,
    {
        let mut leases: Vec<(String, LeaseRow)> = Vec::new();
        let mut i: usize = 0;
        while i < self.leases.len()
            invariant
                i <= self.leases.order().len(),
                lease_entries(leases@) == self.leases.order().take(i as int),
            decreases self.leases.order().len() - i,
        {
            let ghost seen = lease_entries(leases@);
            leases.push((owned(self.leases.key(i)), copy_lease(self.leases.value(i))));
            assert(lease_entries(leases@) =~= seen.push(self.leases.order()[i as int]));
            assert(self.leases.order().take(i + 1) =~= self.leases.order().take(i as int).push(
                self.leases.order()[i as int],
            ));
            i = i + 1;
        }
        let mut syncs: Vec<(String, SyncRow)> = Vec::new();
        let mut j: usize = 0;
        while j < self.syncs.len()
            invariant
                j <= self.syncs.order().len(),
                sync_entries(syncs@) == self.syncs.order().take(j as int),
            decreases self.syncs.order().len() - j,
        {
            let ghost seen = sync_entries(syncs@);
            syncs.push((owned(self.syncs.key(j)), copy_sync(self.syncs.value(j))));
            assert(sync_entries(syncs@) =~= seen.push(self.syncs.order()[j as int]));
            assert(self.syncs.order().take(j + 1) =~= self.syncs.order().take(j as int).push(
                self.syncs.order()[j as int],
            ));
            j = j + 1;
        }
        proof {
            assert(self.leases.order().take(i as int) =~= self.leases.order());
            assert(self.syncs.order().take(j as int) =~= self.syncs.order());
            self.leases.rebuilt();
            self.syncs.rebuilt();
        }
        StoreRows {
            sessions: self.sessions,
            last_session: self.last_session,
            requests: self.requests,
            last_request: self.last_request,
            approvals: self.approvals,
            session_changes: self.session_changes,
            landings: self.landings,
            leases,
            syncs,
        }
    }
}

/// A copy of a lease row.
fn copy_lease(row: &LeaseRow) -> (r: LeaseRow)
    ensures
        r == *row,
{
    LeaseRow { holder: row.holder.clone(), expires_at_ms: row.expires_at_ms, epoch: row.epoch }
}

/// A copy of a sync row.
fn copy_sync(row: &SyncRow) -> (r: SyncRow)
    ensures
        r == *row,
{
    SyncRow { fingerprint: row.fingerprint.clone(), snapshot_id: row.snapshot_id.clone() }
}

/// The epoch of a lease row loaded from a store from before the fenced
/// lease, which has none: below every real tenancy's, since epochs count
/// from one.
pub fn loaded_epoch(stored: Option<i64>) -> (r: i64)
    ensures
        stored is Some ==> r == stored->0,
        stored is None ==> r == 0,
{
    match stored {
        Some(epoch) => epoch,
        None => 0,
    }
}

/// The version of the store's schema this library knows.
pub const STORE_VERSION: i64 = 6;

/// The refusal of a store stamped by a newer atelier.
pub open spec fn newer_store(version: int) -> ErrorView {
    ErrorView::Engine(
        "the workspace store is at version "@ + signed_decimal(version)
            + ", newer than this atelier's "@ + signed_decimal(STORE_VERSION as int),
    )
}

/// Refuse a store stamped by a newer atelier: its rules, the lease fence
/// above all, cannot be seen from here, and guessing would bypass them.
pub fn check_store_version(version: i64) -> (r: Result<(), Error>)
    ensures
        r is Ok <==> version <= STORE_VERSION,
        r is Err ==> (r->Err_0)@ == newer_store(version as int),
{
    if version <= STORE_VERSION {
        return Ok(());
    }
    let mut detail = owned("the workspace store is at version ");
    detail.push_str(signed_text(version).as_str());
    detail.push_str(", newer than this atelier's ");
    detail.push_str(signed_text(STORE_VERSION).as_str());
    Err(Error::Engine(detail))
}

/// What an empty store holds.
pub open spec fn empty_store() -> StoreView {
    StoreView {
        sessions: Seq::empty(),
        last_session: 0,
        requests: Seq::empty(),
        last_request: 0,
        approvals: Seq::empty(),
        session_changes: Set::empty(),
        landings: Set::empty(),
        leases: Map::empty(),
        syncs: Map::empty(),
    }
}

/// Facts stay one per source exactly while none is recorded twice for one
/// owner and source: an owner has as many as it has sources, and a source as
/// many as owners.
pub proof fn facts_are_one_per_owner_and_source(facts: Seq<FactView>, fact: FactView)
    requires
        one_fact_per_source(facts),
    ensures
        one_fact_per_source(facts.push(fact)) <==> forall|i: int|
            #![trigger facts[i]]
            0 <= i < facts.len() ==> !(facts[i].0 == fact.0 && facts[i].1 == fact.1),
{
    let longer = facts.push(fact);
    if one_fact_per_source(longer) {
        assert forall|i: int| #![trigger facts[i]] 0 <= i < facts.len() implies !(facts[i].0
            == fact.0 && facts[i].1 == fact.1) by {
            assert(longer[i] == facts[i] && longer[facts.len() as int] == fact);
        }
    }
    if forall|i: int|
        #![trigger facts[i]]
        0 <= i < facts.len() ==> !(facts[i].0 == fact.0 && facts[i].1 == fact.1) {
        assert forall|i: int, j: int| #![trigger longer[i], longer[j]] 0 <= i < j
            < longer.len() implies longer[i].0 != longer[j].0 || longer[i].1 != longer[j].1 by {
            assert(longer[i] == facts[i]);
            if j < facts.len() {
                assert(longer[j] == facts[j]);
            }
        }
    }
}

} // verus!
