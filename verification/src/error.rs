//! Every way an operation can fail, and how each failure reads.

use crate::words::{
    debug_quoted,
    decimal,
    decimal_text,
    joined,
    occurs,
    owned,
    parts_still_occur,
    quoted,
    signed_decimal,
    signed_text,
};
use vstd::prelude::*;

verus! {

/// What a landing request passes through, as messages call it.
pub const GATE: &'static str = "gate";

/// Every way an operation can fail.
///
/// The domain variants are outcomes callers match on by name; the last
/// three wrap a lower layer (the engine, the filesystem, config parsing)
/// whose detail is carried as a message.
#[derive(Debug, Clone, PartialEq, Eq)]
pub enum Error {
    /// The path is not inside an atelier workspace.
    NotAWorkspace(String),
    /// `init` refused: the path already holds a workspace.
    WorkspaceExists(String),
    /// `init` refused: the path sits inside an existing workspace.
    NestedWorkspace(String),
    /// `init` refused: the path already holds a git repository.
    GitRepositoryExists(String),
    /// A colocated git repo moved out of band and the moved content
    /// conflicts with the line; the fold refused, because the shared line
    /// never carries a conflicted state.
    GitFoldConflicted {
        /// The branch whose out-of-band move conflicts.
        branch: String,
    },
    /// `attach` refused: the folder is a linked git worktree whose state
    /// its repository owns; only the repository attaches whole.
    LinkedWorktreeUnsupported {
        /// The linked worktree that was offered as a source.
        folder: String,
        /// The repository the worktree belongs to.
        repository: String,
    },
    /// `attach` refused: the mount name is already taken.
    AlreadyAttached,
    /// Adoption refused: the git source uses git-lfs.
    LfsSourceUnsupported,
    /// No config home names an actor.
    NoActorConfigured,
    /// No session carries the given id.
    SessionNotFound(String),
    /// The session left the open state; the operation needs it open.
    SessionClosed {
        /// The session's id.
        id: String,
        /// The state the session is in.
        state: String,
    },
    /// No landing request carries the given id.
    RequestNotFound(String),
    /// The landing request left the open state; the operation needs it open.
    RequestClosed {
        /// The request's id.
        id: String,
        /// The state the request is in.
        state: String,
    },
    /// The landing request hit a conflict and parked.
    RequestParked(String),
    /// The workspace's landing policy forbids self-approval.
    SelfApprovalForbidden,
    /// The change gained a snapshot after approval, so the approvals no
    /// longer vouch for what would land.
    ApprovalsDismissed {
        /// The snapshot that dismissed the approvals.
        new_snapshot: String,
    },
    /// A leased line move lost its tenancy before publishing: a newer claim
    /// superseded the lease while this holder worked. Nothing moved.
    LeaseSuperseded {
        /// The landing point whose lease was superseded.
        point: String,
    },
    /// Another actor holds the landing lease.
    LeaseHeld {
        /// The actor holding the lease.
        holder: String,
        /// When the lease expires, in unix milliseconds.
        expires_at_ms: i64,
    },
    /// The path escapes the session's working copy.
    PathOutsideWorkingCopy(String),
    /// The file has no projecting package and its bytes are not text.
    NotText(String),
    /// The requested read window exceeds the maximum.
    WindowTooLarge {
        /// The largest window a read accepts, in bytes.
        max: usize,
    },
    /// A format package failed while handling a document it claimed.
    PackageFailed {
        /// The failing package's id.
        package: String,
        /// Why it failed, in the package's own words.
        reason: String,
    },
    /// An engine-layer failure: the version store or the database.
    Engine(String),
    /// A filesystem failure, in the system's own words.
    Io(String),
    /// A config-layer failure: a config file or time formatting.
    Config(String),
}

/// What an [`Error`] says.
pub enum ErrorView {
    NotAWorkspace(Seq<char>),
    WorkspaceExists(Seq<char>),
    NestedWorkspace(Seq<char>),
    GitRepositoryExists(Seq<char>),
    GitFoldConflicted { branch: Seq<char> },
    LinkedWorktreeUnsupported { folder: Seq<char>, repository: Seq<char> },
    AlreadyAttached,
    LfsSourceUnsupported,
    NoActorConfigured,
    SessionNotFound(Seq<char>),
    SessionClosed { id: Seq<char>, state: Seq<char> },
    RequestNotFound(Seq<char>),
    RequestClosed { id: Seq<char>, state: Seq<char> },
    RequestParked(Seq<char>),
    SelfApprovalForbidden,
    ApprovalsDismissed { new_snapshot: Seq<char> },
    LeaseSuperseded { point: Seq<char> },
    LeaseHeld { holder: Seq<char>, expires_at_ms: int },
    PathOutsideWorkingCopy(Seq<char>),
    NotText(Seq<char>),
    WindowTooLarge { max: nat },
    PackageFailed { package: Seq<char>, reason: Seq<char> },
    Engine(Seq<char>),
    Io(Seq<char>),
    Config(Seq<char>),
}

impl View for Error {
    type V = ErrorView;

    open spec fn view(&self) -> ErrorView {
        match *self {
            Error::NotAWorkspace(path) => ErrorView::NotAWorkspace(path@),
            Error::WorkspaceExists(path) => ErrorView::WorkspaceExists(path@),
            Error::NestedWorkspace(path) => ErrorView::NestedWorkspace(path@),
            Error::GitRepositoryExists(path) => ErrorView::GitRepositoryExists(path@),
            Error::GitFoldConflicted { branch } => ErrorView::GitFoldConflicted { branch: branch@ },
            Error::LinkedWorktreeUnsupported {
                folder,
                repository,
            } => ErrorView::LinkedWorktreeUnsupported {
                folder: folder@,
                repository: repository@,
            },
            Error::AlreadyAttached => ErrorView::AlreadyAttached,
            Error::LfsSourceUnsupported => ErrorView::LfsSourceUnsupported,
            Error::NoActorConfigured => ErrorView::NoActorConfigured,
            Error::SessionNotFound(id) => ErrorView::SessionNotFound(id@),
            Error::SessionClosed { id, state } => ErrorView::SessionClosed {
                id: id@,
                state: state@,
            },
            Error::RequestNotFound(id) => ErrorView::RequestNotFound(id@),
            Error::RequestClosed { id, state } => ErrorView::RequestClosed {
                id: id@,
                state: state@,
            },
            Error::RequestParked(id) => ErrorView::RequestParked(id@),
            Error::SelfApprovalForbidden => ErrorView::SelfApprovalForbidden,
            Error::ApprovalsDismissed { new_snapshot } => ErrorView::ApprovalsDismissed {
                new_snapshot: new_snapshot@,
            },
            Error::LeaseSuperseded { point } => ErrorView::LeaseSuperseded { point: point@ },
            Error::LeaseHeld { holder, expires_at_ms } => ErrorView::LeaseHeld {
                holder: holder@,
                expires_at_ms: expires_at_ms as int,
            },
            Error::PathOutsideWorkingCopy(path) => ErrorView::PathOutsideWorkingCopy(path@),
            Error::NotText(path) => ErrorView::NotText(path@),
            Error::WindowTooLarge { max } => ErrorView::WindowTooLarge { max: max as nat },
            Error::PackageFailed { package, reason } => ErrorView::PackageFailed {
                package: package@,
                reason: reason@,
            },
            Error::Engine(detail) => ErrorView::Engine(detail@),
            Error::Io(detail) => ErrorView::Io(detail@),
            Error::Config(detail) => ErrorView::Config(detail@),
        }
    }
}

/// How an error reads.
pub open spec fn error_text(error: ErrorView) -> Seq<char> {
    match error {
        ErrorView::NotAWorkspace(path) => "not a workspace: "@ + path,
        ErrorView::WorkspaceExists(path) => "a workspace already exists at "@ + path,
        ErrorView::NestedWorkspace(path) => "cannot nest a workspace inside the one at "@ + path,
        ErrorView::GitRepositoryExists(path) => "cannot initialize a workspace at "@ + path
            + ": it is already a git repository; initialize a workspace elsewhere, then run: atelier attach "@
            + path + " --mount <name>"@,
        ErrorView::GitFoldConflicted { branch } => "the git branch "@ + debug_quoted(branch)
            + " moved out of band and its changes conflict with the line; make the working copy agree with the branch (or move the branch), then retry"@,
        ErrorView::LinkedWorktreeUnsupported { folder, repository } => folder
            + " is a linked git worktree of "@ + repository
            + "; linked worktrees must be cloned before attachment: git clone --no-local --single-branch -- <worktree> <new-source>, then atelier attach <new-source> --mount <name>; cloning copies the worktree's committed HEAD, not uncommitted edits"@,
        ErrorView::AlreadyAttached => "a source is already attached to this workspace"@,
        ErrorView::LfsSourceUnsupported => "git-lfs sources are unsupported"@,
        ErrorView::NoActorConfigured => "no actor is configured"@,
        ErrorView::SessionNotFound(id) => "no session "@ + id,
        ErrorView::SessionClosed { id, state } => "session "@ + id + " is "@ + state,
        ErrorView::RequestNotFound(id) => "no landing request "@ + id,
        ErrorView::RequestClosed { id, state } => "landing request "@ + id + " is "@ + state,
        ErrorView::RequestParked(id) => "landing request "@ + id
            + " is parked on a conflict; a new snapshot on its change re-opens the "@ + GATE@,
        ErrorView::SelfApprovalForbidden =>
            "this workspace forbids approving your own landing request"@,
        ErrorView::ApprovalsDismissed { new_snapshot } =>
            "approvals were dismissed: the change has a new snapshot "@ + new_snapshot,
        ErrorView::LeaseSuperseded { point } => "the landing lease for "@ + debug_quoted(point)
            + " was superseded before anything published; rerun the operation"@,
        ErrorView::LeaseHeld { holder, expires_at_ms } => "the landing lease is held by "@ + holder
            + " until "@ + signed_decimal(expires_at_ms),
        ErrorView::PathOutsideWorkingCopy(path) => "path "@ + path
            + " leaves the session working copy"@,
        ErrorView::NotText(path) => "no format package projects "@ + path
            + " and it is not utf-8 text"@,
        ErrorView::WindowTooLarge { max } => "read windows span 1 to "@ + decimal(max) + " bytes"@,
        ErrorView::PackageFailed { package, reason } => "package "@ + package + " failed: "@
            + reason,
        ErrorView::Engine(detail) => "engine error: "@ + detail,
        ErrorView::Io(_) => "i/o error"@,
        ErrorView::Config(detail) => "config error: "@ + detail,
    }
}

/// Three texts one after the other.
fn joined3(a: &str, b: &str, c: &str) -> (r: String)
    ensures
        r@ == a@ + b@ + c@,
{
    let mut out = joined(a, b);
    out.push_str(c);
    out
}

/// Four texts one after the other.
fn joined4(a: &str, b: &str, c: &str, d: &str) -> (r: String)
    ensures
        r@ == a@ + b@ + c@ + d@,
{
    let mut out = joined3(a, b, c);
    out.push_str(d);
    out
}

impl Error {
    /// How the error reads. A filesystem failure's detail is deliberately
    /// absent: callers render it beside the message.
    #[must_use]
    pub fn message(&self) -> (r: String)
        ensures
            r@ == error_text(self@),
    {
        match self {
            Error::NotAWorkspace(path) => joined("not a workspace: ", path.as_str()),
            Error::WorkspaceExists(path) => joined("a workspace already exists at ", path.as_str()),
            Error::NestedWorkspace(path) => joined(
                "cannot nest a workspace inside the one at ",
                path.as_str(),
            ),
            Error::GitRepositoryExists(path) => {
                let mut out = joined4(
                    "cannot initialize a workspace at ",
                    path.as_str(),
                    ": it is already a git repository; initialize a workspace elsewhere, then run: atelier attach ",
                    path.as_str(),
                );
                out.push_str(" --mount <name>");
                out
            },
            Error::GitFoldConflicted { branch } => joined3(
                "the git branch ",
                quoted(branch.as_str()).as_str(),
                " moved out of band and its changes conflict with the line; make the working copy agree with the branch (or move the branch), then retry",
            ),
            Error::LinkedWorktreeUnsupported { folder, repository } => joined4(
                folder.as_str(),
                " is a linked git worktree of ",
                repository.as_str(),
                "; linked worktrees must be cloned before attachment: git clone --no-local --single-branch -- <worktree> <new-source>, then atelier attach <new-source> --mount <name>; cloning copies the worktree's committed HEAD, not uncommitted edits",
            ),
            Error::AlreadyAttached => owned("a source is already attached to this workspace"),
            Error::LfsSourceUnsupported => owned("git-lfs sources are unsupported"),
            Error::NoActorConfigured => owned("no actor is configured"),
            Error::SessionNotFound(id) => joined("no session ", id.as_str()),
            Error::SessionClosed { id, state } => joined4(
                "session ",
                id.as_str(),
                " is ",
                state.as_str(),
            ),
            Error::RequestNotFound(id) => joined("no landing request ", id.as_str()),
            Error::RequestClosed { id, state } => joined4(
                "landing request ",
                id.as_str(),
                " is ",
                state.as_str(),
            ),
            Error::RequestParked(id) => joined4(
                "landing request ",
                id.as_str(),
                " is parked on a conflict; a new snapshot on its change re-opens the ",
                GATE,
            ),
            Error::SelfApprovalForbidden => owned(
                "this workspace forbids approving your own landing request",
            ),
            Error::ApprovalsDismissed { new_snapshot } => joined(
                "approvals were dismissed: the change has a new snapshot ",
                new_snapshot.as_str(),
            ),
            Error::LeaseSuperseded { point } => joined3(
                "the landing lease for ",
                quoted(point.as_str()).as_str(),
                " was superseded before anything published; rerun the operation",
            ),
            Error::LeaseHeld { holder, expires_at_ms } => joined4(
                "the landing lease is held by ",
                holder.as_str(),
                " until ",
                signed_text(*expires_at_ms).as_str(),
            ),
            Error::PathOutsideWorkingCopy(path) => joined3(
                "path ",
                path.as_str(),
                " leaves the session working copy",
            ),
            Error::NotText(path) => joined3(
                "no format package projects ",
                path.as_str(),
                " and it is not utf-8 text",
            ),
            Error::WindowTooLarge { max } => joined3(
                "read windows span 1 to ",
                decimal_text(*max as u64).as_str(),
                " bytes",
            ),
            Error::PackageFailed { package, reason } => joined4(
                "package ",
                package.as_str(),
                " failed: ",
                reason.as_str(),
            ),
            Error::Engine(detail) => joined("engine error: ", detail.as_str()),
            Error::Io(_) => owned("i/o error"),
            Error::Config(detail) => joined("config error: ", detail.as_str()),
        }
    }
}

/// Wrap an engine-layer failure as [`Error::Engine`].
pub fn engine_err(detail: &str) -> (r: Error)
    ensures
        r@ == ErrorView::Engine(detail@),
{
    Error::Engine(owned(detail))
}

/// Wrap a config-layer failure as [`Error::Config`].
pub fn config_err(detail: &str) -> (r: Error)
    ensures
        r@ == ErrorView::Config(detail@),
{
    Error::Config(owned(detail))
}

/// A message holds what its error is about; only a filesystem failure's says
/// nothing of it.
pub proof fn messages_say_what_is_wrong(
    about: Seq<char>,
    other: Seq<char>,
    expires_at_ms: int,
    max: nat,
)
    ensures
        error_text(ErrorView::Io(about)) == error_text(ErrorView::Io(other)),
        occurs(error_text(ErrorView::NotAWorkspace(about)), about),
        occurs(error_text(ErrorView::WorkspaceExists(about)), about),
        occurs(error_text(ErrorView::NestedWorkspace(about)), about),
        occurs(error_text(ErrorView::GitRepositoryExists(about)), about),
        occurs(error_text(ErrorView::GitFoldConflicted { branch: about }), debug_quoted(about)),
        occurs(
            error_text(ErrorView::LinkedWorktreeUnsupported { folder: about, repository: other }),
            about,
        ),
        occurs(
            error_text(ErrorView::LinkedWorktreeUnsupported { folder: about, repository: other }),
            other,
        ),
        occurs(error_text(ErrorView::SessionNotFound(about)), about),
        occurs(error_text(ErrorView::SessionClosed { id: about, state: other }), about),
        occurs(error_text(ErrorView::SessionClosed { id: about, state: other }), other),
        occurs(error_text(ErrorView::RequestNotFound(about)), about),
        occurs(error_text(ErrorView::RequestClosed { id: about, state: other }), about),
        occurs(error_text(ErrorView::RequestClosed { id: about, state: other }), other),
        occurs(error_text(ErrorView::RequestParked(about)), about),
        occurs(error_text(ErrorView::ApprovalsDismissed { new_snapshot: about }), about),
        occurs(error_text(ErrorView::LeaseSuperseded { point: about }), debug_quoted(about)),
        occurs(error_text(ErrorView::LeaseHeld { holder: about, expires_at_ms }), about),
        occurs(
            error_text(ErrorView::LeaseHeld { holder: about, expires_at_ms }),
            signed_decimal(expires_at_ms),
        ),
        occurs(error_text(ErrorView::PathOutsideWorkingCopy(about)), about),
        occurs(error_text(ErrorView::NotText(about)), about),
        occurs(error_text(ErrorView::WindowTooLarge { max }), decimal(max)),
        occurs(error_text(ErrorView::PackageFailed { package: about, reason: other }), about),
        occurs(error_text(ErrorView::PackageFailed { package: about, reason: other }), other),
        occurs(error_text(ErrorView::Engine(about)), about),
        occurs(error_text(ErrorView::Config(about)), about),
{
    parts_still_occur();
}

} // verus!
