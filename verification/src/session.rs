//! Sessions: one actor's bounded run of work in a workspace.

use crate::config::{Actor, ActorView};
use crate::error::{Error, ErrorView};
use crate::words::{
    chars_of,
    joined,
    opt_text,
    owned,
    parse_i64,
    parsed_i64,
    same,
    signed_decimal,
    signed_decimal_parses,
    signed_text,
    text_between,
};
use vstd::prelude::*;

verus! {

/// The task or prompt that drove a session's acts. The journal keeps the
/// summary and run reference; verbatim capture is policy-decided.
#[derive(Debug, Clone, PartialEq, Eq)]
pub struct Instruction {
    /// A one-line statement of what the session is for.
    pub summary: String,
    /// A reference to the run that carried the instruction: a ticket, a
    /// conversation, a pipeline id.
    pub run_ref: Option<String>,
    /// The instruction's verbatim body, when the caller supplies it.
    pub verbatim: Option<String>,
}

/// A row id behind its one-letter prefix.
pub open spec fn prefixed_id(prefix: char, row: int) -> Seq<char> {
    seq![prefix] + signed_decimal(row)
}

/// The row id `text` names behind `prefix`, when it names one.
pub open spec fn row_named(prefix: char, text: Seq<char>) -> Option<int> {
    if text.len() > 0 && text[0] == prefix {
        parsed_i64(text.skip(1))
    } else {
        None
    }
}

/// Every row id is read back from its prefixed spelling.
pub proof fn prefixed_id_round_trips(prefix: char, row: i64)
    ensures
        row_named(prefix, prefixed_id(prefix, row as int)) == Some(row as int),
{
    signed_decimal_parses(row);
    assert(prefixed_id(prefix, row as int).skip(1) =~= signed_decimal(row as int));
}

/// The row id behind its one-letter prefix.
pub(crate) fn id_text(prefix: char, row: i64) -> (r: String)
    ensures
        r@ == prefixed_id(prefix, row as int),
{
    let mut out = String::new();
    out.push(prefix);
    let digits = signed_text(row);
    out.push_str(digits.as_str());
    assert(out@ =~= prefixed_id(prefix, row as int));
    out
}

/// The row id `text` names behind `prefix`, when it names one.
pub(crate) fn row_of(prefix: char, text: &str) -> (r: Option<i64>)
    ensures
        r is Some <==> row_named(prefix, text@) is Some,
        r is Some ==> r->0 == row_named(prefix, text@)->0,
{
    let chars = chars_of(text);
    if chars.len() > 0 && chars[0] == prefix {
        let digits = text_between(&chars, 1, chars.len());
        assert(digits@ =~= text@.skip(1));
        parse_i64(digits.as_str())
    } else {
        None
    }
}

/// A session's identity: `s` plus its row in the workspace store.
#[derive(Debug, Clone, Copy, PartialEq, Eq, Structural)]
pub struct SessionId(pub i64);

/// A session id as printed.
pub open spec fn session_label(row: int) -> Seq<char> {
    prefixed_id('s', row)
}

impl SessionId {
    /// The id as printed: `s` plus its row.
    #[must_use]
    pub fn to_text(self) -> (r: String)
        ensures
            r@ == session_label(self.0 as int),
    {
        id_text('s', self.0)
    }

    /// The session `text` names.
    pub fn from_text(text: &str) -> (r: Result<Self, Error>)
        ensures
            r is Ok <==> row_named('s', text@) is Some,
            r is Ok ==> (r->Ok_0).0 == row_named('s', text@)->0,
            r is Err ==> (r->Err_0)@ == ErrorView::SessionNotFound(text@),
    {
        match row_of('s', text) {
            Some(row) => Ok(SessionId(row)),
            None => Err(Error::SessionNotFound(owned(text))),
        }
    }
}

/// One actor's bounded run of work in a workspace: its own working copy,
/// its own change, journal entries grouped under it.
#[derive(Debug, Clone, PartialEq, Eq)]
pub struct Session {
    /// The session's identity.
    pub id: SessionId,
    /// Who the session belongs to.
    pub actor: Actor,
    /// Where the session stands.
    pub state: SessionState,
    /// The stable identity of the session's unit of work on the root; it
    /// survives rewrites: amended snapshots and the landing rebase.
    pub change_id: String,
    /// One change per source the session spans, root first then mounts in
    /// name order.
    pub changes: Vec<SourceChange>,
    /// The session's editable directory, absolute, mirroring the
    /// workspace's shape: root files at its top, each mounted source's
    /// working copy at `<mount>/`.
    pub working_copy: String,
    /// The instruction's summary, as journaled at open.
    pub instruction_summary: String,
    /// The instruction's run reference, when one was given.
    pub instruction_run_ref: Option<String>,
    /// When the session opened, in unix milliseconds.
    pub opened_at_ms: i64,
}

/// What a [`Session`] says.
pub struct SessionView {
    pub id: int,
    pub actor: ActorView,
    pub state: SessionState,
    pub change_id: Seq<char>,
    pub changes: Seq<(Option<Seq<char>>, Seq<char>)>,
    pub working_copy: Seq<char>,
    pub instruction_summary: Seq<char>,
    pub instruction_run_ref: Option<Seq<char>>,
    pub opened_at_ms: int,
}

impl View for Session {
    type V = SessionView;

    open spec fn view(&self) -> SessionView {
        SessionView {
            id: self.id.0 as int,
            actor: self.actor@,
            state: self.state,
            change_id: self.change_id@,
            changes: source_change_views(self.changes@),
            working_copy: self.working_copy@,
            instruction_summary: self.instruction_summary@,
            instruction_run_ref: opt_text(self.instruction_run_ref),
            opened_at_ms: self.opened_at_ms as int,
        }
    }
}

/// One source's change under a session: the root's when `source` is `None`.
#[derive(Debug, Clone, PartialEq, Eq)]
pub struct SourceChange {
    /// The mount the change belongs to; `None` for the root.
    pub source: Option<String>,
    /// The stable identity of the session's unit of work on this source.
    pub change_id: String,
}

impl View for SourceChange {
    type V = (Option<Seq<char>>, Seq<char>);

    open spec fn view(&self) -> (Option<Seq<char>>, Seq<char>) {
        (opt_text(self.source), self.change_id@)
    }
}

/// What each of the source changes says, in order.
pub open spec fn source_change_views(changes: Seq<SourceChange>) -> Seq<
    (Option<Seq<char>>, Seq<char>),
> {
    changes.map_values(|change: SourceChange| change@)
}

/// Where a session stands: open for work, its change landed, or closed
/// without landing.
#[derive(Debug, Clone, Copy, PartialEq, Eq, Structural)]
pub enum SessionState {
    /// Open for work.
    Open,
    /// The session's change landed on the shared line.
    Landed,
    /// Closed without landing; its work stays in history.
    Abandoned,
}

/// A session state's canonical lowercase name.
pub open spec fn session_state_name(state: SessionState) -> Seq<char> {
    match state {
        SessionState::Open => "open"@,
        SessionState::Landed => "landed"@,
        SessionState::Abandoned => "abandoned"@,
    }
}

/// The session state `text` names, when it names one.
pub open spec fn session_state_named(text: Seq<char>) -> Option<SessionState> {
    if text == "open"@ {
        Some(SessionState::Open)
    } else if text == "landed"@ {
        Some(SessionState::Landed)
    } else if text == "abandoned"@ {
        Some(SessionState::Abandoned)
    } else {
        None
    }
}

impl SessionState {
    /// The state's canonical lowercase name, as stored and rendered.
    #[must_use]
    pub fn as_str(self) -> (r: &'static str)
        ensures
            r@ == session_state_name(self),
    {
        match self {
            SessionState::Open => "open",
            SessionState::Landed => "landed",
            SessionState::Abandoned => "abandoned",
        }
    }

    /// The state `text` names.
    pub fn from_text(text: &str) -> (r: Result<Self, Error>)
        ensures
            r is Ok <==> session_state_named(text@) is Some,
            r is Ok ==> session_state_named(text@) == Some(r->Ok_0),
            r is Err ==> (r->Err_0)@ == ErrorView::Engine("unknown session state: "@ + text@),
    {
        if same(text, "open") {
            Ok(SessionState::Open)
        } else if same(text, "landed") {
            Ok(SessionState::Landed)
        } else if same(text, "abandoned") {
            Ok(SessionState::Abandoned)
        } else {
            Err(Error::Engine(joined("unknown session state: ", text)))
        }
    }
}

/// Every session state is read back from its name.
pub proof fn session_state_round_trips(state: SessionState)
    ensures
        session_state_named(session_state_name(state)) == Some(state),
{
    reveal_strlit("open");
    reveal_strlit("landed");
    reveal_strlit("abandoned");
    assert("open"@[0] == 'o' && "landed"@[0] == 'l' && "abandoned"@[0] == 'a');
}

/// A stored session state reads as the state it names, in every store alike.
pub proof fn stored_session_states_read_alike()
    ensures
        session_state_named("open"@) == Some(SessionState::Open),
        session_state_named("landed"@) == Some(SessionState::Landed),
        session_state_named("abandoned"@) == Some(SessionState::Abandoned),
{
    session_state_round_trips(SessionState::Open);
    session_state_round_trips(SessionState::Landed);
    session_state_round_trips(SessionState::Abandoned);
}

/// An id is read only behind its own letter, and as the number behind it.
pub proof fn ids_are_read_behind_their_letter(prefix: char, text: Seq<char>, letter: char)
    ensures
        row_named(prefix, seq![prefix] + text) == parsed_i64(text),
        letter != prefix ==> row_named(prefix, seq![letter] + text) is None,
        row_named(prefix, Seq::empty()) is None,
{
    assert((seq![prefix] + text).skip(1) =~= text);
    assert((seq![letter] + text)[0] == letter);
}

} // verus!
