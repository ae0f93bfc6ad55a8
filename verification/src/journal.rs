//! The journal: who did what to a workspace, and any intent behind it.

use crate::config::ActorKind;
use crate::error::{Error, ErrorView};
use crate::words::{joined, opt_text, owned, owned_opt, same};
use vstd::prelude::*;

verus! {

/// One thing an actor can do to a workspace that the journal records.
#[derive(Debug, Clone, Copy, PartialEq, Eq, Structural)]
pub enum Act {
    /// A workspace came into being.
    WorkspaceInit,
    /// A source was attached to the workspace; the reference names it.
    SourceAttach,
    /// A snapshot recorded the working copy; the reference names it.
    Snapshot,
    /// A format package failed or panicked over a document; the diff fell
    /// back to the binary rung. The entry's reference names the document,
    /// the package, and the reason: degradation is never silent.
    PackageFailed,
    /// A file exceeded the ladder's size cap; its delta stayed at the
    /// binary rung. The entry's reference names the file and the cap.
    FileTooLarge,
    /// An actor opened a session; the entry carries the instruction's
    /// summary and run reference (verbatim per policy).
    SessionOpen,
    /// The session closed without landing; its work stays in history.
    SessionAbandon,
    /// A session opened a landing request; the reference names it.
    LandRequest,
    /// An actor approved a landing request; the reference names the
    /// request and the snapshot the approval covers.
    Approve,
    /// An actor rejected a landing request; the reference names it and
    /// carries the reason when one was given.
    Reject,
    /// A new snapshot on the change dismissed the request's approvals; the
    /// reference names the request and the snapshot.
    ApprovalsDismissed,
    /// A change landed on the shared line; the reference names the request
    /// and the landed snapshot.
    Land,
    /// A landing attempt hit a conflict and parked its request; the shared
    /// line did not move. The reference names the request.
    LandParked,
    /// A landed line mirrored back to its folder source; the reference
    /// names the source and the synced snapshot.
    Sync,
    /// Bucket-side changes folded into a mounted line as one snapshot; the
    /// reference names the source and snapshot.
    Pull,
    /// A landed request stepped back off a line: the head returned to the
    /// landed snapshot's parent, which the reference names with the
    /// request.
    Undo,
    /// A sync could not run, because the origin changed out-of-band or
    /// refused writes, and the landing stood anyway; the reference names
    /// the source and snapshot. A later sync retries; never silent.
    SyncParked,
}

/// An act's canonical `snake_case` name.
pub open spec fn act_name(act: Act) -> Seq<char> {
    match act {
        Act::WorkspaceInit => "workspace_init"@,
        Act::SourceAttach => "source_attach"@,
        Act::Snapshot => "snapshot"@,
        Act::PackageFailed => "package_failed"@,
        Act::FileTooLarge => "file_too_large"@,
        Act::SessionOpen => "session_open"@,
        Act::SessionAbandon => "session_abandon"@,
        Act::LandRequest => "land_request"@,
        Act::Approve => "approve"@,
        Act::Reject => "reject"@,
        Act::ApprovalsDismissed => "approvals_dismissed"@,
        Act::Land => "land"@,
        Act::LandParked => "land_parked"@,
        Act::Sync => "sync"@,
        Act::Pull => "pull"@,
        Act::Undo => "undo"@,
        Act::SyncParked => "sync_parked"@,
    }
}

/// The act `text` names, when it names one.
pub open spec fn act_named(text: Seq<char>) -> Option<Act> {
    if text == "workspace_init"@ {
        Some(Act::WorkspaceInit)
    } else if text == "source_attach"@ {
        Some(Act::SourceAttach)
    } else if text == "snapshot"@ {
        Some(Act::Snapshot)
    } else if text == "package_failed"@ {
        Some(Act::PackageFailed)
    } else if text == "file_too_large"@ {
        Some(Act::FileTooLarge)
    } else if text == "session_open"@ {
        Some(Act::SessionOpen)
    } else if text == "session_abandon"@ {
        Some(Act::SessionAbandon)
    } else if text == "land_request"@ {
        Some(Act::LandRequest)
    } else if text == "approve"@ {
        Some(Act::Approve)
    } else if text == "reject"@ {
        Some(Act::Reject)
    } else if text == "approvals_dismissed"@ {
        Some(Act::ApprovalsDismissed)
    } else if text == "land"@ {
        Some(Act::Land)
    } else if text == "land_parked"@ {
        Some(Act::LandParked)
    } else if text == "sync"@ {
        Some(Act::Sync)
    } else if text == "pull"@ {
        Some(Act::Pull)
    } else if text == "undo"@ {
        Some(Act::Undo)
    } else if text == "sync_parked"@ {
        Some(Act::SyncParked)
    } else {
        None
    }
}

impl Act {
    /// The act's canonical `snake_case` name, as stored and rendered.
    #[must_use]
    pub fn as_str(self) -> (r: &'static str)
        ensures
            r@ == act_name(self),
    {
        match self {
            Act::WorkspaceInit => "workspace_init",
            Act::SourceAttach => "source_attach",
            Act::Snapshot => "snapshot",
            Act::PackageFailed => "package_failed",
            Act::FileTooLarge => "file_too_large",
            Act::SessionOpen => "session_open",
            Act::SessionAbandon => "session_abandon",
            Act::LandRequest => "land_request",
            Act::Approve => "approve",
            Act::Reject => "reject",
            Act::ApprovalsDismissed => "approvals_dismissed",
            Act::Land => "land",
            Act::LandParked => "land_parked",
            Act::Sync => "sync",
            Act::Pull => "pull",
            Act::Undo => "undo",
            Act::SyncParked => "sync_parked",
        }
    }

    /// The act `text` names.
    pub fn from_text(text: &str) -> (r: Result<Self, Error>)
        ensures
            r is Ok <==> act_named(text@) is Some,
            r is Ok ==> act_named(text@) == Some(r->Ok_0),
            r is Err ==> (r->Err_0)@ == ErrorView::Engine("unknown journal act: "@ + text@),
    {
        if same(text, "workspace_init") {
            Ok(Act::WorkspaceInit)
        } else if same(text, "source_attach") {
            Ok(Act::SourceAttach)
        } else if same(text, "snapshot") {
            Ok(Act::Snapshot)
        } else if same(text, "package_failed") {
            Ok(Act::PackageFailed)
        } else if same(text, "file_too_large") {
            Ok(Act::FileTooLarge)
        } else if same(text, "session_open") {
            Ok(Act::SessionOpen)
        } else if same(text, "session_abandon") {
            Ok(Act::SessionAbandon)
        } else if same(text, "land_request") {
            Ok(Act::LandRequest)
        } else if same(text, "approve") {
            Ok(Act::Approve)
        } else if same(text, "reject") {
            Ok(Act::Reject)
        } else if same(text, "approvals_dismissed") {
            Ok(Act::ApprovalsDismissed)
        } else if same(text, "land") {
            Ok(Act::Land)
        } else if same(text, "land_parked") {
            Ok(Act::LandParked)
        } else if same(text, "sync") {
            Ok(Act::Sync)
        } else if same(text, "pull") {
            Ok(Act::Pull)
        } else if same(text, "undo") {
            Ok(Act::Undo)
        } else if same(text, "sync_parked") {
            Ok(Act::SyncParked)
        } else {
            Err(Error::Engine(joined("unknown journal act: ", text)))
        }
    }
}

/// Every act is read back from its name.
pub proof fn act_round_trips(act: Act)
    ensures
        act_named(act_name(act)) == Some(act),
{
    reveal_strlit("workspace_init");
    reveal_strlit("source_attach");
    reveal_strlit("snapshot");
    reveal_strlit("package_failed");
    reveal_strlit("file_too_large");
    reveal_strlit("session_open");
    reveal_strlit("session_abandon");
    reveal_strlit("land_request");
    reveal_strlit("approve");
    reveal_strlit("reject");
    reveal_strlit("approvals_dismissed");
    reveal_strlit("land");
    reveal_strlit("land_parked");
    reveal_strlit("sync");
    reveal_strlit("pull");
    reveal_strlit("undo");
    reveal_strlit("sync_parked");
    assert("workspace_init"@.len() == 14 && "workspace_init"@[0] == 'w');
    assert("source_attach"@.len() == 13 && "source_attach"@[0] == 's');
    assert("snapshot"@.len() == 8 && "snapshot"@[0] == 's');
    assert("package_failed"@.len() == 14 && "package_failed"@[0] == 'p');
    assert("file_too_large"@.len() == 14 && "file_too_large"@[0] == 'f');
    assert("session_open"@.len() == 12 && "session_open"@[0] == 's');
    assert("session_abandon"@.len() == 15 && "session_abandon"@[0] == 's');
    assert("land_request"@.len() == 12 && "land_request"@[0] == 'l');
    assert("approve"@.len() == 7 && "approve"@[0] == 'a');
    assert("reject"@.len() == 6 && "reject"@[0] == 'r');
    assert("approvals_dismissed"@.len() == 19 && "approvals_dismissed"@[0] == 'a');
    assert("land"@.len() == 4 && "land"@[0] == 'l');
    assert("land_parked"@.len() == 11 && "land_parked"@[0] == 'l');
    assert("sync"@.len() == 4 && "sync"@[0] == 's');
    assert("pull"@.len() == 4 && "pull"@[0] == 'p');
    assert("undo"@.len() == 4 && "undo"@[0] == 'u');
    assert("sync_parked"@.len() == 11 && "sync_parked"@[0] == 's');
}

/// One record in a workspace's journal: who did what, and any intent behind
/// it.
#[derive(Debug, Clone, PartialEq, Eq)]
pub struct JournalEntry {
    /// When the act happened, in unix milliseconds.
    pub at_ms: i64,
    /// The acting actor's display name.
    pub actor_name: String,
    /// What kind of actor acted.
    pub actor_kind: ActorKind,
    /// What the actor did.
    pub act: Act,
    /// The session the act belongs to, when it happened inside one.
    pub session: Option<String>,
    /// The instruction's summary, on `session_open` entries.
    pub instruction_summary: Option<String>,
    /// A reference to the run that carried the instruction.
    pub instruction_run_ref: Option<String>,
    /// The instruction's verbatim body, when policy keeps it.
    pub instruction_verbatim: Option<String>,
    /// What the act refers to, in the act's own terms: a snapshot, a
    /// request, a source.
    pub reference: Option<String>,
}

/// What a [`JournalEntry`] says.
pub struct EntryView {
    pub at_ms: int,
    pub actor_name: Seq<char>,
    pub actor_kind: ActorKind,
    pub act: Act,
    pub session: Option<Seq<char>>,
    pub instruction_summary: Option<Seq<char>>,
    pub instruction_run_ref: Option<Seq<char>>,
    pub instruction_verbatim: Option<Seq<char>>,
    pub reference: Option<Seq<char>>,
}

impl View for JournalEntry {
    type V = EntryView;

    open spec fn view(&self) -> EntryView {
        EntryView {
            at_ms: self.at_ms as int,
            actor_name: self.actor_name@,
            actor_kind: self.actor_kind,
            act: self.act,
            session: opt_text(self.session),
            instruction_summary: opt_text(self.instruction_summary),
            instruction_run_ref: opt_text(self.instruction_run_ref),
            instruction_verbatim: opt_text(self.instruction_verbatim),
            reference: opt_text(self.reference),
        }
    }
}

/// What each of the entries says, in order.
pub open spec fn entry_views(entries: Seq<JournalEntry>) -> Seq<EntryView> {
    entries.map_values(|entry: JournalEntry| entry@)
}

impl JournalEntry {
    /// An owned copy of the entry.
    pub fn copy(&self) -> (r: Self)
        ensures
            r@ == self@,
    {
        JournalEntry {
            at_ms: self.at_ms,
            actor_name: owned(self.actor_name.as_str()),
            actor_kind: self.actor_kind,
            act: self.act,
            session: owned_opt(&self.session),
            instruction_summary: owned_opt(&self.instruction_summary),
            instruction_run_ref: owned_opt(&self.instruction_run_ref),
            instruction_verbatim: owned_opt(&self.instruction_verbatim),
            reference: owned_opt(&self.reference),
        }
    }
}

/// The append-only journal, oldest entry first.
pub struct Journal {
    log: Vec<JournalEntry>,
}

impl View for Journal {
    type V = Seq<EntryView>;

    closed spec fn view(&self) -> Seq<EntryView> {
        entry_views(self.log@)
    }
}

/// The newest `limit` entries of a journal, newest first.
pub open spec fn newest(journal: Seq<EntryView>, limit: int) -> Seq<EntryView> {
    Seq::new(
        (if limit < journal.len() {
            limit
        } else {
            journal.len() as int
        }) as nat,
        |i: int| journal[journal.len() - 1 - i],
    )
}

impl Journal {
    /// An empty journal.
    pub fn new() -> (r: Self)
        ensures
            r@ == Seq::<EntryView>::empty(),
    {
        let r = Journal { log: Vec::new() };
        assert(r@ =~= Seq::<EntryView>::empty());
        r
    }

    /// A journal that already holds `entries`, oldest first.
    pub fn with_entries(entries: Vec<JournalEntry>) -> (r: Self)
        ensures
            r@ == entry_views(entries@),
    {
        Journal { log: entries }
    }

    /// Append one entry to the journal.
    pub fn append(&mut self, entry: JournalEntry)
        ensures
            final(self)@ == old(self)@.push(entry@),
    {
        let ghost before = self@;
        self.log.push(entry);
        assert(self@ =~= before.push(entry@));
    }

    /// How many entries the journal holds.
    pub fn len(&self) -> (r: usize)
        ensures
            r == self@.len(),
    {
        self.log.len()
    }

    /// Read up to `limit` entries, newest first.
    pub fn entries(&self, limit: usize) -> (r: Result<Vec<JournalEntry>, Error>)
        ensures
            limit <= i64::MAX ==> r is Ok && entry_views((r->Ok_0)@) == newest(self@, limit as int),
            limit > i64::MAX ==> r is Err && (r->Err_0)@ == ErrorView::Engine(
                "out of range integral type conversion attempted"@,
            ),
    {
        if limit as u128 > i64::MAX as u128 {
            return Err(Error::Engine(owned("out of range integral type conversion attempted")));
        }
        let mut out: Vec<JournalEntry> = Vec::new();
        let total = self.log.len();
        let count: usize = if limit < total {
            limit
        } else {
            total
        };
        let mut i: usize = 0;
        while i < count
            invariant
                i <= count <= total,
                total == self.log@.len(),
                count == if limit < total {
                    limit
                } else {
                    total
                },
                entry_views(out@) == newest(self@, limit as int).take(i as int),
            decreases count - i,
        {
            let ghost seen = entry_views(out@);
            let entry = self.log[total - 1 - i].copy();
            assert(entry@ == newest(self@, limit as int)[i as int]);
            out.push(entry);
            assert(entry_views(out@) =~= seen.push(entry@));
            assert(newest(self@, limit as int).take(i + 1) =~= newest(self@, limit as int).take(
                i as int,
            ).push(entry@));
            i = i + 1;
        }
        assert(newest(self@, limit as int).take(count as int) =~= newest(self@, limit as int));
        Ok(out)
    }
}

/// An entry just appended is the first one read, and appending leaves every
/// entry that was there before it behind it, in the same order.
pub proof fn appended_reads_first(journal: Seq<EntryView>, entry: EntryView, limit: int)
    requires
        0 <= limit,
    ensures
        newest(journal.push(entry), limit + 1) == seq![entry] + newest(journal, limit),
{
    assert(newest(journal.push(entry), limit + 1) =~= seq![entry] + newest(journal, limit));
}

/// Reading gives as many entries as asked for, or all where there are fewer;
/// and reading fewer gives the newest of them.
pub proof fn readings_are_the_newest(journal: Seq<EntryView>, limit: int, fewer: int)
    requires
        0 <= fewer <= limit,
    ensures
        newest(journal, limit).len() == if limit < journal.len() {
            limit
        } else {
            journal.len() as int
        },
        journal.len() > 0 && limit > 0 ==> newest(journal, limit)[0] == journal.last(),
        fewer <= journal.len() ==> newest(journal, fewer) == newest(journal, limit).take(fewer),
        newest(newest(journal, journal.len() as int), journal.len() as int) == journal,
{
    if fewer <= journal.len() {
        assert(newest(journal, fewer) =~= newest(journal, limit).take(fewer));
    }
    let all = newest(journal, journal.len() as int);
    assert(newest(all, journal.len() as int) =~= journal);
}

/// A stored act reads as the act it names, in every journal alike.
pub proof fn stored_acts_read_alike()
    ensures
        act_named("workspace_init"@) == Some(Act::WorkspaceInit),
        act_named("source_attach"@) == Some(Act::SourceAttach),
        act_named("snapshot"@) == Some(Act::Snapshot),
        act_named("package_failed"@) == Some(Act::PackageFailed),
        act_named("file_too_large"@) == Some(Act::FileTooLarge),
        act_named("session_open"@) == Some(Act::SessionOpen),
        act_named("session_abandon"@) == Some(Act::SessionAbandon),
        act_named("land_request"@) == Some(Act::LandRequest),
        act_named("approve"@) == Some(Act::Approve),
        act_named("reject"@) == Some(Act::Reject),
        act_named("approvals_dismissed"@) == Some(Act::ApprovalsDismissed),
        act_named("land"@) == Some(Act::Land),
        act_named("land_parked"@) == Some(Act::LandParked),
        act_named("sync"@) == Some(Act::Sync),
        act_named("pull"@) == Some(Act::Pull),
        act_named("undo"@) == Some(Act::Undo),
        act_named("sync_parked"@) == Some(Act::SyncParked),
{
    act_round_trips(Act::WorkspaceInit);
    act_round_trips(Act::SourceAttach);
    act_round_trips(Act::Snapshot);
    act_round_trips(Act::PackageFailed);
    act_round_trips(Act::FileTooLarge);
    act_round_trips(Act::SessionOpen);
    act_round_trips(Act::SessionAbandon);
    act_round_trips(Act::LandRequest);
    act_round_trips(Act::Approve);
    act_round_trips(Act::Reject);
    act_round_trips(Act::ApprovalsDismissed);
    act_round_trips(Act::Land);
    act_round_trips(Act::LandParked);
    act_round_trips(Act::Sync);
    act_round_trips(Act::Pull);
    act_round_trips(Act::Undo);
    act_round_trips(Act::SyncParked);
}

} // verus!
