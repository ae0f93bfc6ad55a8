//! The manifest and the status: the read models an arriving actor consumes.

use crate::config::{
    InstructionFidelity,
    LandingPolicy,
    SourceView,
    WorkspaceConfig,
    Source,
    source_kind_name,
    source_views,
    sync_policy_name,
};
use crate::coordination::{RequestRowView, SessionRowView, StoreView};
use crate::error::Error;
use crate::landing::{
    LandingRequest,
    LandingRequestView,
    RequestState,
    request_label,
    request_state_name,
};
use crate::ledger::{Ledger, no_change_error, request_view, session_view};
use crate::session::{Session, SessionState, SessionView, session_label};
use crate::words::{
    add_text,
    add_texts,
    decimal,
    decimal_text,
    join_texts,
    joined,
    joined_by,
    owned,
    signed_decimal,
    texts,
};
use vstd::prelude::*;

verus! {

// ---------------------------------------------------------------------
// The live state.

/// The mounts' heads, as given.
pub open spec fn head_views(mounts: Seq<(String, String)>) -> Seq<(Seq<char>, Seq<char>)> {
    mounts.map_values(|mount: (String, String)| (mount.0@, mount.1@))
}

/// The lines of the mounts' heads.
pub open spec fn head_lines(mounts: Seq<(Seq<char>, Seq<char>)>) -> Seq<Seq<char>> {
    mounts.map_values(|mount: (Seq<char>, Seq<char>)| "head "@ + mount.0 + ": "@ + mount.1)
}

/// The labels of the open sessions, oldest first; the sessions come newest
/// first.
pub open spec fn open_labels(sessions: Seq<SessionView>) -> Seq<Seq<char>>
    decreases sessions.len(),
{
    if sessions.len() == 0 {
        Seq::empty()
    } else {
        let older = open_labels(sessions.drop_first());
        if sessions[0].state == SessionState::Open {
            older.push(session_label(sessions[0].id))
        } else {
            older
        }
    }
}

/// Whether a request still stands: open, approved, or parked.
pub open spec fn is_standing(state: RequestState) -> bool {
    state == RequestState::Open || state == RequestState::Approved || state == RequestState::Parked
}

/// The labels of the standing requests with their states, oldest first; the
/// requests come newest first.
pub open spec fn live_labels(requests: Seq<LandingRequestView>) -> Seq<Seq<char>>
    decreases requests.len(),
{
    if requests.len() == 0 {
        Seq::empty()
    } else {
        let older = live_labels(requests.drop_first());
        if is_standing(requests[0].state) {
            older.push(
                request_label(requests[0].id) + " ("@ + request_state_name(requests[0].state)
                    + ")"@,
            )
        } else {
            older
        }
    }
}

/// A line naming what there is, or that there is none.
pub open spec fn listing_line(label: Seq<char>, items: Seq<Seq<char>>) -> Seq<char> {
    if items.len() == 0 {
        label + "none"@
    } else {
        label + joined_by(items, ", "@)
    }
}

/// The live state: the heads, the open sessions, and the standing requests.
pub open spec fn state_lines(
    head: Seq<char>,
    mounts: Seq<(Seq<char>, Seq<char>)>,
    sessions: Seq<SessionView>,
    requests: Seq<LandingRequestView>,
) -> Seq<Seq<char>> {
    seq!["head: "@ + head] + head_lines(mounts) + seq![
        listing_line("open sessions: "@, open_labels(sessions)),
        listing_line("live requests: "@, live_labels(requests)),
    ]
}

/// What each of the sessions says, in order.
pub open spec fn session_views(sessions: Seq<Session>) -> Seq<SessionView> {
    sessions.map_values(|session: Session| session@)
}

/// What each of the requests says, in order.
pub open spec fn request_views(requests: Seq<LandingRequest>) -> Seq<LandingRequestView> {
    requests.map_values(|request: LandingRequest| request@)
}

/// The labels of the open sessions, oldest first.
fn open_session_labels(sessions: &Vec<Session>) -> (r: Vec<String>)
    ensures
        texts(r@) == open_labels(session_views(sessions@)),
{
    let ghost all = session_views(sessions@);
    let mut out: Vec<String> = Vec::new();
    let mut i: usize = sessions.len();
    assert(all.skip(all.len() as int) =~= Seq::empty());
    assert(texts(out@) =~= open_labels(all.skip(i as int)));
    while i > 0
        invariant
            i <= sessions@.len(),
            all == session_views(sessions@),
            texts(out@) == open_labels(all.skip(i as int)),
        decreases i,
    {
        i = i - 1;
        assert(all[i as int] == sessions@[i as int]@);
        assert(all.skip(i as int)[0] == all[i as int]);
        assert(all.skip(i as int).drop_first() =~= all.skip(i + 1));
        if let SessionState::Open = sessions[i].state {
            add_text(&mut out, sessions[i].id.to_text());
        }
    }
    assert(all.skip(0) =~= all);
    out
}

/// The labels of the standing requests with their states, oldest first.
fn live_request_labels(requests: &Vec<LandingRequest>) -> (r: Vec<String>)
    ensures
        texts(r@) == live_labels(request_views(requests@)),
{
    let ghost all = request_views(requests@);
    let mut out: Vec<String> = Vec::new();
    let mut i: usize = requests.len();
    assert(all.skip(all.len() as int) =~= Seq::empty());
    assert(texts(out@) =~= live_labels(all.skip(i as int)));
    while i > 0
        invariant
            i <= requests@.len(),
            all == request_views(requests@),
            texts(out@) == live_labels(all.skip(i as int)),
        decreases i,
    {
        i = i - 1;
        assert(all[i as int] == requests@[i as int]@);
        assert(all.skip(i as int)[0] == all[i as int]);
        assert(all.skip(i as int).drop_first() =~= all.skip(i + 1));
        match requests[i].state {
            RequestState::Open | RequestState::Approved | RequestState::Parked => {
                let mut label = joined(requests[i].id.to_text().as_str(), " (");
                label.push_str(requests[i].state.as_str());
                label.push_str(")");
                add_text(&mut out, label);
            },
            RequestState::Landed | RequestState::Rejected | RequestState::Abandoned => {},
        }
    }
    assert(all.skip(0) =~= all);
    out
}

/// A line naming what there is, or that there is none.
fn listing_text(label: &str, items: &Vec<String>) -> (r: String)
    ensures
        r@ == listing_line(label@, texts(items@)),
{
    if items.len() == 0 {
        joined(label, "none")
    } else {
        joined(label, join_texts(items, ", ").as_str())
    }
}

/// The live state, line by line: each source's head, the open sessions, and
/// the standing requests. Sessions and requests come newest first.
pub fn live_state(
    head: &str,
    mounts: &Vec<(String, String)>,
    sessions: &Vec<Session>,
    requests: &Vec<LandingRequest>,
) -> (r: Vec<String>)
    ensures
        texts(r@) == state_lines(
            head@,
            head_views(mounts@),
            session_views(sessions@),
            request_views(requests@),
        ),
{
    let ghost all = head_lines(head_views(mounts@));
    let ghost first = seq!["head: "@ + head@];
    let mut out: Vec<String> = Vec::new();
    assert(texts(out@) =~= Seq::empty());
    add_text(&mut out, joined("head: ", head));
    let mut i: usize = 0;
    assert(texts(out@) =~= first + all.take(0));
    while i < mounts.len()
        invariant
            i <= mounts@.len(),
            all == head_lines(head_views(mounts@)),
            texts(out@) == first + all.take(i as int),
        decreases mounts@.len() - i,
    {
        let mut line = joined("head ", mounts[i].0.as_str());
        line.push_str(": ");
        line.push_str(mounts[i].1.as_str());
        assert(line@ == all[i as int]);
        add_text(&mut out, line);
        assert(first + all.take(i + 1) =~= (first + all.take(i as int)).push(all[i as int]));
        i = i + 1;
    }
    assert(all.take(all.len() as int) =~= all);
    let ghost heads = texts(out@);
    add_text(&mut out, listing_text("open sessions: ", &open_session_labels(sessions)));
    add_text(&mut out, listing_text("live requests: ", &live_request_labels(requests)));
    assert(texts(out@) =~= heads + seq![
        listing_line("open sessions: "@, open_labels(session_views(sessions@))),
        listing_line("live requests: "@, live_labels(request_views(requests@))),
    ]);
    out
}

// ---------------------------------------------------------------------
// The manifest.

/// The line of one source.
pub open spec fn source_line(source: SourceView) -> Seq<char> {
    "  "@ + source.mount + "  "@ + source_kind_name(source.kind) + "  "@ + source.path + "  "@
        + sync_policy_name(source.sync)
}

/// The lines of the sources, or that there are none.
pub open spec fn source_lines(sources: Seq<SourceView>) -> Seq<Seq<char>> {
    if sources.len() == 0 {
        seq!["  (none)"@]
    } else {
        sources.map_values(|source: SourceView| source_line(source))
    }
}

/// The lines of the landing and journal policies.
pub open spec fn discipline_lines(landing: LandingPolicy, fidelity: InstructionFidelity) -> Seq<
    Seq<char>,
> {
    let self_approve = if landing.allow_self_approve {
        "allowed"@
    } else {
        "forbidden"@
    };
    let dismiss = if landing.dismiss_approvals_on_new_snapshots {
        "yes"@
    } else {
        "no"@
    };
    let kept = match fidelity {
        InstructionFidelity::Summary => "summary"@,
        InstructionFidelity::Verbatim => "verbatim"@,
    };
    seq![
        "  approvals: "@ + decimal(landing.approvals as nat) + "  self-approval: "@ + self_approve
            + "  snapshots dismiss approvals: "@ + dismiss,
        "  instructions: "@ + kept,
    ]
}

/// The lines, each set in by two spaces.
pub open spec fn set_in(lines: Seq<Seq<char>>) -> Seq<Seq<char>> {
    lines.map_values(|line: Seq<char>| "  "@ + line)
}

/// The manifest, line by line: identity, sources, discipline, live state,
/// and the loop the workspace expects.
pub open spec fn manifest_lines(config: WorkspaceConfig, state: Seq<Seq<char>>) -> Seq<Seq<char>> {
    seq![
        "workspace: "@ + config.workspace.name@,
        "schema: "@ + decimal(config.schema as nat),
        Seq::empty(),
        "sources:"@,
    ] + source_lines(source_views(config.sources@)) + seq![Seq::empty(), "discipline:"@]
        + discipline_lines(config.landing, config.journal.instruction_fidelity) + seq![
        Seq::empty(),
        "state:"@,
    ] + set_in(state) + seq![
        Seq::empty(),
        "the loop:"@,
        "  open_session -> write -> diff -> land (or request_land + approve)"@,
        "  mount-scoped paths address sources; editing never takes the landing lease"@,
    ]
}

/// The line of one source.
fn source_text(source: &Source) -> (r: String)
    ensures
        r@ == source_line(source@),
{
    let mut line = joined("  ", source.mount.as_str());
    line.push_str("  ");
    line.push_str(source.kind.to_text());
    line.push_str("  ");
    line.push_str(source.path.as_str());
    line.push_str("  ");
    line.push_str(source.sync.to_text());
    line
}

/// Add the lines of the sources.
fn add_sources(out: &mut Vec<String>, sources: &Vec<Source>)
    ensures
        texts(final(out)@) == texts(old(out)@) + source_lines(source_views(sources@)),
{
    let ghost base = texts(out@);
    let ghost views = source_views(sources@);
    let ghost all = views.map_values(|source: SourceView| source_line(source));
    if sources.len() == 0 {
        add_text(out, owned("  (none)"));
        assert(texts(out@) =~= base + seq!["  (none)"@]);
        return;
    }
    let mut i: usize = 0;
    assert(base + all.take(0) =~= base);
    while i < sources.len()
        invariant
            i <= sources@.len(),
            views == source_views(sources@),
            all == views.map_values(|source: SourceView| source_line(source)),
            texts(out@) == base + all.take(i as int),
        decreases sources@.len() - i,
    {
        assert(views[i as int] == sources@[i as int]@);
        assert(all[i as int] == source_line(views[i as int]));
        add_text(out, source_text(&sources[i]));
        assert(base + all.take(i + 1) =~= (base + all.take(i as int)).push(all[i as int]));
        i = i + 1;
    }
    assert(all.take(all.len() as int) =~= all);
}

/// Add the lines of the landing and journal policies.
fn add_discipline(out: &mut Vec<String>, landing: LandingPolicy, fidelity: InstructionFidelity)
    ensures
        texts(final(out)@) == texts(old(out)@) + discipline_lines(landing, fidelity),
{
    let ghost base = texts(out@);
    let mut line = joined("  approvals: ", decimal_text(landing.approvals as u64).as_str());
    line.push_str("  self-approval: ");
    line.push_str(
        if landing.allow_self_approve {
            "allowed"
        } else {
            "forbidden"
        },
    );
    line.push_str("  snapshots dismiss approvals: ");
    line.push_str(
        if landing.dismiss_approvals_on_new_snapshots {
            "yes"
        } else {
            "no"
        },
    );
    add_text(out, line);
    add_text(
        out,
        joined(
            "  instructions: ",
            match fidelity {
                InstructionFidelity::Summary => "summary",
                InstructionFidelity::Verbatim => "verbatim",
            },
        ),
    );
    assert(texts(out@) =~= base + discipline_lines(landing, fidelity));
}

/// The lines, each set in by two spaces.
fn indented(lines: &Vec<String>) -> (r: Vec<String>)
    ensures
        texts(r@) == set_in(texts(lines@)),
{
    let ghost all = set_in(texts(lines@));
    let mut out: Vec<String> = Vec::new();
    let mut i: usize = 0;
    assert(texts(out@) =~= all.take(0));
    while i < lines.len()
        invariant
            i <= lines@.len(),
            all == set_in(texts(lines@)),
            texts(out@) == all.take(i as int),
        decreases lines@.len() - i,
    {
        let line = joined("  ", lines[i].as_str());
        assert(line@ == all[i as int]);
        add_text(&mut out, line);
        assert(all.take(i + 1) =~= all.take(i as int).push(all[i as int]));
        i = i + 1;
    }
    assert(all.take(all.len() as int) =~= all);
    out
}

/// The manifest over a live state.
pub fn manifest_text(config: &WorkspaceConfig, state: &Vec<String>) -> (r: String)
    ensures
        r@ == joined_by(manifest_lines(*config, texts(state@)), "\n"@),
{
    let mut out: Vec<String> = Vec::new();
    assert(texts(out@) =~= Seq::empty());
    add_text(&mut out, joined("workspace: ", config.workspace.name.as_str()));
    add_text(&mut out, joined("schema: ", decimal_text(config.schema as u64).as_str()));
    add_text(&mut out, String::new());
    add_text(&mut out, owned("sources:"));
    assert(texts(out@) =~= seq![
        "workspace: "@ + config.workspace.name@,
        "schema: "@ + decimal(config.schema as nat),
        Seq::empty(),
        "sources:"@,
    ]);
    add_sources(&mut out, &config.sources);
    let ghost with_sources = texts(out@);
    add_text(&mut out, String::new());
    add_text(&mut out, owned("discipline:"));
    assert(texts(out@) =~= with_sources + seq![Seq::empty(), "discipline:"@]);
    add_discipline(&mut out, config.landing, config.journal.instruction_fidelity);
    let ghost with_discipline = texts(out@);
    add_text(&mut out, String::new());
    add_text(&mut out, owned("state:"));
    assert(texts(out@) =~= with_discipline + seq![Seq::empty(), "state:"@]);
    add_texts(&mut out, &indented(state));
    let ghost with_state = texts(out@);
    add_text(&mut out, String::new());
    add_text(&mut out, owned("the loop:"));
    add_text(&mut out, owned("  open_session -> write -> diff -> land (or request_land + approve)"));
    add_text(
        &mut out,
        owned("  mount-scoped paths address sources; editing never takes the landing lease"),
    );
    assert(texts(out@) =~= with_state + seq![
        Seq::empty(),
        "the loop:"@,
        "  open_session -> write -> diff -> land (or request_land + approve)"@,
        "  mount-scoped paths address sources; editing never takes the landing lease"@,
    ]);
    join_texts(&out, "\n")
}

/// The live state of a ledger over the sources' heads.
pub open spec fn ledger_state(
    store: StoreView,
    root: Seq<char>,
    head: Seq<char>,
    mounts: Seq<(Seq<char>, Seq<char>)>,
) -> Seq<Seq<char>> {
    state_lines(
        head,
        mounts,
        store.sessions.reverse().map_values(
            |row: SessionRowView| session_view(store, root, row),
        ),
        store.requests.reverse().map_values(|row: RequestRowView| request_view(store, row)),
    )
}

/// Whether every session has its change, so that all of them list.
pub open spec fn sessions_listable(store: StoreView) -> bool {
    forall|i: int|
        #![trigger store.sessions[i]]
        0 <= i < store.sessions.len() ==> store.sessions[i].change_id is Some
}

/// Whether an error is the refusal of the newest session without a change.
pub open spec fn is_listing_error(store: StoreView, error: crate::error::ErrorView) -> bool {
    exists|i: int|
        #![trigger store.sessions[i]]
        0 <= i < store.sessions.len() && store.sessions[i].change_id is None && error
            == no_change_error(store.sessions[i].id) && forall|j: int|
            #![trigger store.sessions[j]]
            i < j < store.sessions.len() ==> store.sessions[j].change_id is Some
}

impl Ledger {
    /// The live state, line by line.
    pub fn live_state(&self, root: &str, head: &str, mounts: &Vec<(String, String)>) -> (r: Result<
        Vec<String>,
        Error,
    >)
        requires
            self.wf(),
        ensures
            r is Ok <==> sessions_listable(self@.store),
            r is Ok ==> texts((r->Ok_0)@) == ledger_state(
                self@.store,
                root@,
                head@,
                head_views(mounts@),
            ),
            r is Err ==> is_listing_error(self@.store, (r->Err_0)@),
    {
        match self.sessions(root) {
            Ok(sessions) => {
                let requests = self.landing_requests();
                Ok(live_state(head, mounts, &sessions, &requests))
            },
            Err(error) => Err(error),
        }
    }

    /// The status: the live state alone.
    pub fn status(&self, root: &str, head: &str, mounts: &Vec<(String, String)>) -> (r: Result<
        String,
        Error,
    >)
        requires
            self.wf(),
        ensures
            r is Ok <==> sessions_listable(self@.store),
            r is Ok ==> (r->Ok_0)@ == joined_by(
                ledger_state(self@.store, root@, head@, head_views(mounts@)),
                "\n"@,
            ),
            r is Err ==> is_listing_error(self@.store, (r->Err_0)@),
    {
        match self.live_state(root, head, mounts) {
            Ok(state) => Ok(join_texts(&state, "\n")),
            Err(error) => Err(error),
        }
    }

    /// The manifest: the read model an actor consumes first. Every face
    /// returns this text verbatim.
    pub fn manifest(
        &self,
        root: &str,
        config: &WorkspaceConfig,
        head: &str,
        mounts: &Vec<(String, String)>,
    ) -> (r: Result<String, Error>)
        requires
            self.wf(),
        ensures
            r is Ok <==> sessions_listable(self@.store),
            r is Ok ==> (r->Ok_0)@ == joined_by(
                manifest_lines(
                    *config,
                    ledger_state(self@.store, root@, head@, head_views(mounts@)),
                ),
                "\n"@,
            ),
            r is Err ==> is_listing_error(self@.store, (r->Err_0)@),
    {
        match self.live_state(root, head, mounts) {
            Ok(state) => Ok(manifest_text(config, &state)),
            Err(error) => Err(error),
        }
    }
}

/// The open sessions are listed by their names, every one of them and no
/// other, the last given first.
pub proof fn open_sessions_are_listed(sessions: Seq<SessionView>) -> (at: Seq<int>)
    ensures
        at.len() == open_labels(sessions).len(),
        forall|j: int, k: int| #![trigger at[j], at[k]] 0 <= j < k < at.len() ==> at[k] < at[j],
        forall|k: int|
            #![trigger at[k]]
            0 <= k < at.len() ==> 0 <= at[k] < sessions.len() && open_labels(sessions)[k] == seq![
                's',
            ] + signed_decimal(sessions[at[k]].id),
        forall|i: int|
            0 <= i < sessions.len() ==> (#[trigger] at.contains(i) <==> sessions[i].state
                == SessionState::Open),
    decreases sessions.len(),
{
    if sessions.len() == 0 {
        Seq::empty()
    } else {
        let rest = sessions.drop_first();
        let older = open_sessions_are_listed(rest);
        let shifted = Seq::new(older.len(), |k: int| older[k] + 1);
        let at = if sessions[0].state == SessionState::Open {
            shifted.push(0)
        } else {
            shifted
        };
        assert forall|k: int| #![trigger at[k]] 0 <= k < at.len() implies 0 <= at[k]
            < sessions.len() && open_labels(sessions)[k] == seq!['s'] + signed_decimal(
            sessions[at[k]].id,
        ) by {
            if k < older.len() {
                assert(at[k] == older[k] + 1);
                assert(rest[older[k]] == sessions[older[k] + 1]);
            }
        }
        assert forall|j: int, k: int| #![trigger at[j], at[k]] 0 <= j < k < at.len() implies at[k]
            < at[j] by {
            assert(at[j] == older[j] + 1);
            if k < older.len() {
                assert(at[k] == older[k] + 1);
            }
        }
        assert forall|i: int| 0 <= i < sessions.len() implies (#[trigger] at.contains(i)
            <==> sessions[i].state == SessionState::Open) by {
            if i > 0 {
                assert(rest[i - 1] == sessions[i]);
                assert(older.contains(i - 1) <==> rest[i - 1].state == SessionState::Open);
                if older.contains(i - 1) {
                    let k = choose|k: int| 0 <= k < older.len() && older[k] == i - 1;
                    assert(at[k] == i);
                }
                if at.contains(i) {
                    let k = choose|k: int| 0 <= k < at.len() && at[k] == i;
                    assert(older[k] == i - 1);
                }
            } else {
                if sessions[0].state == SessionState::Open {
                    assert(at[older.len() as int] == 0);
                } else if at.contains(0) {
                    let k = choose|k: int| 0 <= k < at.len() && at[k] == 0;
                    assert(at[k] == older[k] + 1);
                }
            }
        }
        at
    }
}

/// Whether a request in the given state still waits for something: to be
/// decided, to be applied, or for a new snapshot.
pub open spec fn still_stands(state: RequestState) -> bool {
    state == RequestState::Open || state == RequestState::Approved || state == RequestState::Parked
}

/// The requests still standing are listed by their names and states, every
/// one of them and no other, the last given first.
pub proof fn standing_requests_are_listed(requests: Seq<LandingRequestView>) -> (at: Seq<int>)
    ensures
        at.len() == live_labels(requests).len(),
        forall|j: int, k: int| #![trigger at[j], at[k]] 0 <= j < k < at.len() ==> at[k] < at[j],
        forall|k: int|
            #![trigger at[k]]
            0 <= k < at.len() ==> 0 <= at[k] < requests.len() && live_labels(requests)[k] == seq![
                'r',
            ] + signed_decimal(requests[at[k]].id) + " ("@ + request_state_name(
                requests[at[k]].state,
            ) + ")"@,
        forall|i: int|
            0 <= i < requests.len() ==> (#[trigger] at.contains(i) <==> still_stands(
                requests[i].state,
            )),
    decreases requests.len(),
{
    if requests.len() == 0 {
        Seq::empty()
    } else {
        let rest = requests.drop_first();
        let older = standing_requests_are_listed(rest);
        let shifted = Seq::new(older.len(), |k: int| older[k] + 1);
        let at = if still_stands(requests[0].state) {
            shifted.push(0)
        } else {
            shifted
        };
        assert forall|k: int| #![trigger at[k]] 0 <= k < at.len() implies 0 <= at[k]
            < requests.len() && live_labels(requests)[k] == seq!['r'] + signed_decimal(
            requests[at[k]].id,
        ) + " ("@ + request_state_name(requests[at[k]].state) + ")"@ by {
            if k < older.len() {
                assert(at[k] == older[k] + 1);
                assert(rest[older[k]] == requests[older[k] + 1]);
            }
        }
        assert forall|j: int, k: int| #![trigger at[j], at[k]] 0 <= j < k < at.len() implies at[k]
            < at[j] by {
            assert(at[j] == older[j] + 1);
            if k < older.len() {
                assert(at[k] == older[k] + 1);
            }
        }
        assert forall|i: int| 0 <= i < requests.len() implies (#[trigger] at.contains(i)
            <==> still_stands(requests[i].state)) by {
            if i > 0 {
                assert(rest[i - 1] == requests[i]);
                assert(older.contains(i - 1) <==> still_stands(rest[i - 1].state));
                if older.contains(i - 1) {
                    let k = choose|k: int| 0 <= k < older.len() && older[k] == i - 1;
                    assert(at[k] == i);
                }
                if at.contains(i) {
                    let k = choose|k: int| 0 <= k < at.len() && at[k] == i;
                    assert(older[k] == i - 1);
                }
            } else {
                if still_stands(requests[0].state) {
                    assert(at[older.len() as int] == 0);
                } else if at.contains(0) {
                    let k = choose|k: int| 0 <= k < at.len() && at[k] == 0;
                    assert(at[k] == older[k] + 1);
                }
            }
        }
        at
    }
}

/// The state shows the root's head, then each mount's in order, then the open
/// sessions and the standing requests.
pub proof fn states_show_every_head(
    head: Seq<char>,
    mounts: Seq<(Seq<char>, Seq<char>)>,
    sessions: Seq<SessionView>,
    requests: Seq<LandingRequestView>,
)
    ensures
        ({
            let lines = state_lines(head, mounts, sessions, requests);
            let n = mounts.len() as int;
            let open = open_labels(sessions);
            let standing = live_labels(requests);
            &&& lines.len() == n + 3
            &&& lines[0] == "head: "@ + head
            &&& forall|i: int|
                #![trigger mounts[i]]
                0 <= i < n ==> lines[i + 1] == "head "@ + mounts[i].0 + ": "@ + mounts[i].1
            &&& lines[n + 1] == "open sessions: "@ + if open.len() == 0 {
                "none"@
            } else {
                joined_by(open, ", "@)
            }
            &&& lines[n + 2] == "live requests: "@ + if standing.len() == 0 {
                "none"@
            } else {
                joined_by(standing, ", "@)
            }
        }),
{
}

/// The manifest names the workspace and its schema, shows each source on a
/// line of its own, or that there is none, the discipline, and the state set
/// in, in that order.
pub proof fn manifests_show_everything(config: WorkspaceConfig, state: Seq<Seq<char>>)
    ensures
        ({
            let lines = manifest_lines(config, state);
            let sources = source_views(config.sources@);
            let n: int = if sources.len() == 0 {
                1
            } else {
                sources.len() as int
            };
            &&& lines.len() == n + state.len() + 14
            &&& lines[0] == "workspace: "@ + config.workspace.name@
            &&& lines[1] == "schema: "@ + decimal(config.schema as nat)
            &&& lines[3] == "sources:"@
            &&& sources.len() == 0 ==> lines[4] == "  (none)"@
            &&& forall|i: int|
                #![trigger sources[i]]
                0 <= i < sources.len() ==> lines[i + 4] == "  "@ + sources[i].mount + "  "@
                    + source_kind_name(sources[i].kind) + "  "@ + sources[i].path + "  "@
                    + sync_policy_name(sources[i].sync)
            &&& lines[n + 5] == "discipline:"@
            &&& lines[n + 6] == "  approvals: "@ + decimal(config.landing.approvals as nat)
                + "  self-approval: "@ + (if config.landing.allow_self_approve {
                "allowed"@
            } else {
                "forbidden"@
            }) + "  snapshots dismiss approvals: "@ + (
            if config.landing.dismiss_approvals_on_new_snapshots {
                "yes"@
            } else {
                "no"@
            })
            &&& lines[n + 7] == "  instructions: "@ + (if config.journal.instruction_fidelity
                == InstructionFidelity::Verbatim {
                "verbatim"@
            } else {
                "summary"@
            })
            &&& lines[n + 9] == "state:"@
            &&& forall|i: int|
                #![trigger state[i]]
                0 <= i < state.len() ==> lines[n + 10 + i] == "  "@ + state[i]
        }),
{
}

/// Sessions are listed exactly when each has its change; else the newest that
/// has none is the one, and the only one, that is named.
pub proof fn one_session_stops_the_listing(
    store: StoreView,
    a: crate::error::ErrorView,
    b: crate::error::ErrorView,
)
    ensures
        is_listing_error(store, a) ==> !sessions_listable(store),
        is_listing_error(store, a) && is_listing_error(store, b) ==> a == b,
{
    if is_listing_error(store, a) {
        let rows = store.sessions;
        let i = choose|i: int|
            #![trigger rows[i]]
            0 <= i < rows.len() && rows[i].change_id is None && a == no_change_error(rows[i].id)
                && forall|j: int|
                #![trigger rows[j]]
                i < j < rows.len() ==> rows[j].change_id is Some;
        assert(rows[i].change_id is None);
        if is_listing_error(store, b) {
            let k = choose|k: int|
                #![trigger rows[k]]
                0 <= k < rows.len() && rows[k].change_id is None && b == no_change_error(
                    rows[k].id,
                ) && forall|j: int|
                    #![trigger rows[j]]
                    k < j < rows.len() ==> rows[j].change_id is Some;
            assert(rows[k].change_id is None);
            assert(i == k);
        }
    }
}

/// A workspace's state lists its open sessions from the oldest on, by their
/// rows.
pub proof fn states_list_the_oldest_first(
    store: StoreView,
    root: Seq<char>,
    head: Seq<char>,
    mounts: Seq<(Seq<char>, Seq<char>)>,
) -> (at: Seq<int>)
    ensures
        ({
            let lines = ledger_state(store, root, head, mounts);
            let rows = store.sessions;
            let named = Seq::new(
                at.len(),
                |k: int| seq!['s'] + signed_decimal(rows[at[k]].id),
            );
            &&& lines[mounts.len() as int + 1] == "open sessions: "@ + if at.len() == 0 {
                "none"@
            } else {
                joined_by(named, ", "@)
            }
            &&& forall|j: int, k: int|
                #![trigger at[j], at[k]]
                0 <= j < k < at.len() ==> at[j] < at[k]
            &&& forall|k: int| #![trigger at[k]] 0 <= k < at.len() ==> 0 <= at[k] < rows.len()
            &&& forall|i: int|
                0 <= i < rows.len() ==> (#[trigger] at.contains(i) <==> rows[i].state
                    == SessionState::Open)
        }),
{
    let rows = store.sessions;
    let n = rows.len();
    let seen = rows.reverse().map_values(|row: SessionRowView| session_view(store, root, row));
    let back = open_sessions_are_listed(seen);
    let at = Seq::new(back.len(), |k: int| n - 1 - back[k]);
    let named = Seq::new(at.len(), |k: int| seq!['s'] + signed_decimal(rows[at[k]].id));
    let requests = store.requests.reverse().map_values(
        |row: RequestRowView| request_view(store, row),
    );
    states_show_every_head(head, mounts, seen, requests);
    assert forall|k: int| #![trigger at[k]] 0 <= k < at.len() implies 0 <= at[k] < rows.len() by {
        assert(0 <= back[k] < seen.len());
    }
    assert(open_labels(seen) =~= named) by {
        assert forall|k: int| 0 <= k < at.len() implies #[trigger] named[k] == open_labels(
            seen,
        )[k] by {
            assert(0 <= back[k] < seen.len());
            assert(seen[back[k]].id == rows[at[k]].id);
        }
    }
    assert forall|j: int, k: int| #![trigger at[j], at[k]] 0 <= j < k < at.len() implies at[j]
        < at[k] by {
        assert(back[k] < back[j]);
    }
    assert forall|i: int| 0 <= i < rows.len() implies (#[trigger] at.contains(i) <==> rows[i].state
        == SessionState::Open) by {
        let b = n - 1 - i;
        assert(seen[b].state == rows[i].state);
        assert(back.contains(b) <==> seen[b].state == SessionState::Open);
        if back.contains(b) {
            let k = choose|k: int| 0 <= k < back.len() && back[k] == b;
            assert(at[k] == i);
        }
        if at.contains(i) {
            let k = choose|k: int| 0 <= k < at.len() && at[k] == i;
            assert(back[k] == b);
        }
    }
    at
}

} // verus!
