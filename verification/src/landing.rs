//! Landing requests: a change's application to land on the shared line.

use crate::config::{Actor, ActorView};
use crate::error::{Error, ErrorView};
use crate::session::{SessionId, id_text, prefixed_id, row_named, row_of};
use crate::words::{joined, opt_text, owned, same};
use vstd::prelude::*;

verus! {

/// A landing request's identity: `r` plus its row in the workspace store.
#[derive(Debug, Clone, Copy, PartialEq, Eq, Structural)]
pub struct RequestId(pub i64);

/// A request id as printed.
pub open spec fn request_label(row: int) -> Seq<char> {
    prefixed_id('r', row)
}

impl RequestId {
    /// The id as printed: `r` plus its row.
    #[must_use]
    pub fn to_text(self) -> (r: String)
        ensures
            r@ == request_label(self.0 as int),
    {
        id_text('r', self.0)
    }

    /// The request `text` names.
    pub fn from_text(text: &str) -> (r: Result<Self, Error>)
        ensures
            r is Ok <==> row_named('r', text@) is Some,
            r is Ok ==> (r->Ok_0).0 == row_named('r', text@)->0,
            r is Err ==> (r->Err_0)@ == ErrorView::RequestNotFound(text@),
    {
        match row_of('r', text) {
            Some(row) => Ok(RequestId(row)),
            None => Err(Error::RequestNotFound(owned(text))),
        }
    }
}

/// A change's application to land on the shared line: its requester and the
/// approvals its gate has gathered, open until it lands, parks, or closes.
#[derive(Debug, Clone, PartialEq, Eq)]
pub struct LandingRequest {
    /// The request's identity.
    pub id: RequestId,
    /// The session whose change the request would land.
    pub session_id: SessionId,
    /// Who opened the request.
    pub requester: Actor,
    /// Where the request stands in its gate.
    pub state: RequestState,
    /// The approvals counting toward the landing gate; dismissed ones are gone.
    pub approvals: Vec<Approval>,
    /// When the request opened, in unix milliseconds.
    pub created_at_ms: i64,
}

/// What a [`LandingRequest`] says.
pub struct LandingRequestView {
    pub id: int,
    pub session_id: int,
    pub requester: ActorView,
    pub state: RequestState,
    pub approvals: Seq<ApprovalView>,
    pub created_at_ms: int,
}

impl View for LandingRequest {
    type V = LandingRequestView;

    open spec fn view(&self) -> LandingRequestView {
        LandingRequestView {
            id: self.id.0 as int,
            session_id: self.session_id.0 as int,
            requester: self.requester@,
            state: self.state,
            approvals: approval_views(self.approvals@),
            created_at_ms: self.created_at_ms as int,
        }
    }
}

/// Where a landing request stands in its gate.
#[derive(Debug, Clone, Copy, PartialEq, Eq, Structural)]
pub enum RequestState {
    /// Open, gathering approvals.
    Open,
    /// The landing gate is satisfied; the apply has not run.
    Approved,
    /// The change landed on the shared line.
    Landed,
    /// The apply hit a conflict; a new snapshot re-opens the landing gate.
    Parked,
    /// An approver rejected the request.
    Rejected,
    /// The session closed without landing.
    Abandoned,
}

/// A request state's canonical lowercase name.
pub open spec fn request_state_name(state: RequestState) -> Seq<char> {
    match state {
        RequestState::Open => "open"@,
        RequestState::Approved => "approved"@,
        RequestState::Landed => "landed"@,
        RequestState::Parked => "parked"@,
        RequestState::Rejected => "rejected"@,
        RequestState::Abandoned => "abandoned"@,
    }
}

/// The request state `text` names, when it names one.
pub open spec fn request_state_named(text: Seq<char>) -> Option<RequestState> {
    if text == "open"@ {
        Some(RequestState::Open)
    } else if text == "approved"@ {
        Some(RequestState::Approved)
    } else if text == "landed"@ {
        Some(RequestState::Landed)
    } else if text == "parked"@ {
        Some(RequestState::Parked)
    } else if text == "rejected"@ {
        Some(RequestState::Rejected)
    } else if text == "abandoned"@ {
        Some(RequestState::Abandoned)
    } else {
        None
    }
}

impl RequestState {
    /// The state's canonical lowercase name, as stored and rendered.
    #[must_use]
    pub fn as_str(self) -> (r: &'static str)
        ensures
            r@ == request_state_name(self),
    {
        match self {
            RequestState::Open => "open",
            RequestState::Approved => "approved",
            RequestState::Landed => "landed",
            RequestState::Parked => "parked",
            RequestState::Rejected => "rejected",
            RequestState::Abandoned => "abandoned",
        }
    }

    /// The state `text` names.
    pub fn from_text(text: &str) -> (r: Result<Self, Error>)
        ensures
            r is Ok <==> request_state_named(text@) is Some,
            r is Ok ==> request_state_named(text@) == Some(r->Ok_0),
            r is Err ==> (r->Err_0)@ == ErrorView::Engine("unknown request state: "@ + text@),
    {
        if same(text, "open") {
            Ok(RequestState::Open)
        } else if same(text, "approved") {
            Ok(RequestState::Approved)
        } else if same(text, "landed") {
            Ok(RequestState::Landed)
        } else if same(text, "parked") {
            Ok(RequestState::Parked)
        } else if same(text, "rejected") {
            Ok(RequestState::Rejected)
        } else if same(text, "abandoned") {
            Ok(RequestState::Abandoned)
        } else {
            Err(Error::Engine(joined("unknown request state: ", text)))
        }
    }
}

/// Every request state is read back from its name.
pub proof fn request_state_round_trips(state: RequestState)
    ensures
        request_state_named(request_state_name(state)) == Some(state),
{
    reveal_strlit("open");
    reveal_strlit("approved");
    reveal_strlit("landed");
    reveal_strlit("parked");
    reveal_strlit("rejected");
    reveal_strlit("abandoned");
    assert("open"@[0] == 'o' && "approved"@[0] == 'a' && "landed"@[0] == 'l');
    assert("parked"@[0] == 'p' && "rejected"@[0] == 'r' && "abandoned"@[0] == 'a');
    assert("open"@[1] == 'p' && "approved"@[1] == 'p' && "abandoned"@[1] == 'b');
}

/// A recorded grant by an actor toward a request's gate, tied to the
/// snapshot of the change it covered.
#[derive(Debug, Clone, PartialEq, Eq)]
pub struct Approval {
    /// Who approved.
    pub actor: Actor,
    /// The snapshot of the change the approval covered.
    pub snapshot: String,
    /// When the approval was granted, in unix milliseconds.
    pub at_ms: i64,
}

/// What an [`Approval`] says.
pub struct ApprovalView {
    pub actor: ActorView,
    pub snapshot: Seq<char>,
    pub at_ms: int,
}

impl View for Approval {
    type V = ApprovalView;

    open spec fn view(&self) -> ApprovalView {
        ApprovalView { actor: self.actor@, snapshot: self.snapshot@, at_ms: self.at_ms as int }
    }
}

/// What each of the approvals says, in order.
pub open spec fn approval_views(approvals: Seq<Approval>) -> Seq<ApprovalView> {
    approvals.map_values(|approval: Approval| approval@)
}

/// One line a landed request stepped back off: the source and the head the
/// line returned to.
#[derive(Debug, Clone, PartialEq, Eq)]
pub struct Restore {
    /// The mount the line belongs to; `None` for the root.
    pub source: Option<String>,
    /// The snapshot the line's head returned to.
    pub head: String,
}

impl View for Restore {
    type V = (Option<Seq<char>>, Seq<char>);

    open spec fn view(&self) -> (Option<Seq<char>>, Seq<char>) {
        (opt_text(self.source), self.head@)
    }
}

/// One source's landing under a request: the root's when `source` is
/// `None`; the source's shared line's new head.
#[derive(Debug, Clone, PartialEq, Eq)]
pub struct Landing {
    /// The mount the landing belongs to; `None` for the root.
    pub source: Option<String>,
    /// The landed snapshot, the source's shared line's new head.
    pub snapshot: String,
}

impl View for Landing {
    type V = (Option<Seq<char>>, Seq<char>);

    open spec fn view(&self) -> (Option<Seq<char>>, Seq<char>) {
        (opt_text(self.source), self.snapshot@)
    }
}

/// What each of the landings says, in order.
pub open spec fn landing_views(landings: Seq<Landing>) -> Seq<(Option<Seq<char>>, Seq<char>)> {
    landings.map_values(|landing: Landing| landing@)
}

/// What a landing attempt produced. The apply fans out per source: every
/// landing that happened is recorded and stands, whatever the sources after
/// it did.
#[derive(Debug, Clone, PartialEq, Eq)]
pub enum GateOutcome {
    /// Every touched source landed.
    Landed {
        /// The landings, one per touched source.
        landings: Vec<Landing>,
    },
    /// The landing gate wants more approvals before the apply runs.
    Pending {
        /// The request as it stands, approvals included.
        request: LandingRequest,
        /// How many approvals the landing gate needs in total.
        required: u32,
    },
    /// At least one source's apply hit a conflict: the request parked, that
    /// line did not move, and the sources in `landings` landed before or
    /// despite it.
    Parked {
        /// The request, now parked.
        request: LandingRequest,
        /// The landings that happened before or despite the conflict.
        landings: Vec<Landing>,
        /// The sources whose applies conflicted; `None` names the root.
        parked: Vec<Option<String>>,
    },
}

/// A stored request state reads as the state it names, in every store alike.
pub proof fn stored_request_states_read_alike()
    ensures
        request_state_named("open"@) == Some(RequestState::Open),
        request_state_named("approved"@) == Some(RequestState::Approved),
        request_state_named("landed"@) == Some(RequestState::Landed),
        request_state_named("parked"@) == Some(RequestState::Parked),
        request_state_named("rejected"@) == Some(RequestState::Rejected),
        request_state_named("abandoned"@) == Some(RequestState::Abandoned),
{
    request_state_round_trips(RequestState::Open);
    request_state_round_trips(RequestState::Approved);
    request_state_round_trips(RequestState::Landed);
    request_state_round_trips(RequestState::Parked);
    request_state_round_trips(RequestState::Rejected);
    request_state_round_trips(RequestState::Abandoned);
}

} // verus!
