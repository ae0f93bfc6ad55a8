//! What the command line checks before it acts: a git source's state, the
//! actor asked for, and how a workspace is served.

use crate::config::{Actor, ActorKind, ActorView};
use crate::words::{decimal, decimal_text, joined, opt_text, owned, texts};
use vstd::prelude::*;

verus! {

// ---------------------------------------------------------------------
// A git source's state.

/// A local git source as it stands before it is attached.
#[derive(Debug, Clone, PartialEq, Eq)]
pub struct LocalGitPreflight {
    pub head: String,
    /// The branch it has checked out; none when its head is detached.
    pub branch: Option<String>,
    pub tracked_modifications: usize,
    pub untracked_files: usize,
    pub untracked_bytes: u64,
}

impl LocalGitPreflight {
    /// Whether the source holds changes that no commit has.
    pub fn is_dirty(&self) -> (r: bool)
        ensures
            r == (self.tracked_modifications > 0 || self.untracked_files > 0),
    {
        self.tracked_modifications > 0 || self.untracked_files > 0
    }

    /// The source's state as printed.
    pub fn lines(&self) -> (r: Vec<String>)
        ensures
            texts(r@) == seq![
                "source git: HEAD "@ + self.head@ + "; branch "@ + match self.branch {
                    Some(branch) => branch@,
                    None => "detached"@,
                },
                "source git state: tracked modifications: "@ + decimal(
                    self.tracked_modifications as nat,
                ) + "; untracked files: "@ + decimal(self.untracked_files as nat)
                    + "; estimated untracked bytes: "@ + decimal(self.untracked_bytes as nat),
            ],
    {
        let mut head = joined("source git: HEAD ", self.head.as_str());
        head.push_str("; branch ");
        match &self.branch {
            Some(branch) => {
                head.push_str(branch.as_str());
            },
            None => {
                head.push_str("detached");
            },
        }
        let mut state = joined(
            "source git state: tracked modifications: ",
            decimal_text(self.tracked_modifications as u64).as_str(),
        );
        state.push_str("; untracked files: ");
        state.push_str(decimal_text(self.untracked_files as u64).as_str());
        state.push_str("; estimated untracked bytes: ");
        state.push_str(decimal_text(self.untracked_bytes).as_str());
        let ghost both = seq![head@, state@];
        let mut out: Vec<String> = Vec::new();
        out.push(head);
        out.push(state);
        assert(texts(out@) =~= both);
        out
    }

    /// Whether the source may be attached: a dirty one only when its changes
    /// are to be adopted, and then with a warning.
    pub fn check(&self, allow_dirty: bool) -> (r: Result<Option<String>, String>)
        ensures
            ({
                let dirty = self.tracked_modifications > 0 || self.untracked_files > 0;
                &&& r is Err <==> dirty && !allow_dirty
                &&& r is Err ==> (r->Err_0)@
                    == "local Git source is dirty; attach a clean clone or pass --allow-dirty to adopt these changes"@
                &&& r is Ok ==> opt_text(r->Ok_0) == if dirty {
                    Some(
                        "warning: --allow-dirty adopts the reported tracked and untracked changes"@,
                    )
                } else {
                    None
                }
            }),
    {
        if !self.is_dirty() {
            return Ok(None);
        }
        if !allow_dirty {
            return Err(
                owned(
                    "local Git source is dirty; attach a clean clone or pass --allow-dirty to adopt these changes",
                ),
            );
        }
        Ok(
            Some(
                owned("warning: --allow-dirty adopts the reported tracked and untracked changes"),
            ),
        )
    }
}

/// One record of a git status: a tracked path that changed, or an untracked
/// one by its bytes.
#[derive(Debug, Clone, PartialEq, Eq)]
pub enum StatusRecord {
    Changed,
    Untracked(Vec<u8>),
}

/// What each of the records says; an untracked one by its path.
pub open spec fn record_views(records: Seq<StatusRecord>) -> Seq<Option<Seq<u8>>> {
    records.map_values(
        |record: StatusRecord|
            match record {
                StatusRecord::Changed => None::<Seq<u8>>,
                StatusRecord::Untracked(path) => Some(path@),
            },
    )
}

/// The fields of a NUL-separated output, empty ones included.
pub open spec fn nul_fields(bytes: Seq<u8>) -> Seq<Seq<u8>>
    decreases bytes.len(),
{
    if bytes.len() == 0 {
        seq![Seq::empty()]
    } else {
        let before = nul_fields(bytes.drop_last());
        if bytes.last() == 0 {
            before.push(Seq::empty())
        } else {
            before.drop_last().push(before.last().push(bytes.last()))
        }
    }
}

/// A git status being read: its records so far, whether the next field is a
/// rename's source, and whether a record was malformed.
#[verifier::ext_equal]
pub struct StatusView {
    pub records: Seq<Option<Seq<u8>>>,
    pub skips: bool,
    pub malformed: bool,
}

/// Whether a status letter says that a record has a source of its own: a
/// rename or a copy.
pub open spec fn has_source(letter: u8) -> bool {
    letter == 82 || letter == 67
}

/// A status with one field more: two letters, a space, and a path.
pub open spec fn with_field(status: StatusView, field: Seq<u8>) -> StatusView {
    if status.malformed || field.len() == 0 {
        status
    } else if status.skips {
        StatusView { skips: false, ..status }
    } else if field.len() < 4 || field[2] != 32 {
        StatusView { malformed: true, ..status }
    } else if field[0] == 63 && field[1] == 63 {
        StatusView { records: status.records.push(Some(field.skip(3))), ..status }
    } else {
        StatusView {
            records: status.records.push(None),
            skips: has_source(field[0]) || has_source(field[1]),
            ..status
        }
    }
}

/// The status the fields of an output give.
pub open spec fn status_of(fields: Seq<Seq<u8>>) -> StatusView
    decreases fields.len(),
{
    if fields.len() == 0 {
        StatusView { records: Seq::empty(), skips: false, malformed: false }
    } else {
        with_field(status_of(fields.drop_last()), fields.last())
    }
}

/// A git status as read from `git status --porcelain=v1 -z`: the records up
/// to the first malformed one, if there is one.
#[derive(Debug, Clone, PartialEq, Eq)]
pub struct GitStatus {
    pub records: Vec<StatusRecord>,
    pub malformed: bool,
    /// Whether a rename's source was still to come at the end.
    pub skips: bool,
}

impl View for GitStatus {
    type V = StatusView;

    open spec fn view(&self) -> StatusView {
        StatusView {
            records: record_views(self.records@),
            skips: self.skips,
            malformed: self.malformed,
        }
    }
}

impl GitStatus {
    /// A status without records.
    fn empty() -> (r: Self)
        ensures
            r@ == status_of(Seq::empty()),
    {
        let status = GitStatus { records: Vec::new(), malformed: false, skips: false };
        assert(status@ =~= status_of(Seq::empty()));
        status
    }

    /// Take in one field.
    fn take(&mut self, field: &Vec<u8>)
        ensures
            final(self)@ == with_field(old(self)@, field@),
    {
        let ghost before = self@;
        if self.malformed || field.len() == 0 {
            return;
        }
        if self.skips {
            self.skips = false;
            return;
        }
        if field.len() < 4 || field[2] != 32 {
            self.malformed = true;
            return;
        }
        if field[0] == 63 && field[1] == 63 {
            let mut path: Vec<u8> = Vec::new();
            let mut i: usize = 3;
            while i < field.len()
                invariant
                    3 <= i <= field@.len(),
                    path@ == field@.subrange(3, i as int),
                decreases field@.len() - i,
            {
                path.push(field[i]);
                assert(path@ =~= field@.subrange(3, i + 1));
                i = i + 1;
            }
            assert(path@ =~= field@.skip(3));
            self.records.push(StatusRecord::Untracked(path));
            assert(self@ =~= with_field(before, field@));
            return;
        }
        self.records.push(StatusRecord::Changed);
        self.skips = field[0] == 82 || field[0] == 67 || field[1] == 82 || field[1] == 67;
        assert(self@ =~= with_field(before, field@));
    }

    /// Read a git status. Its output is NUL-separated; a renamed or copied
    /// path is followed by the one it came from.
    pub fn read(output: &[u8]) -> (r: Self)
        ensures
            r@ == status_of(nul_fields(output@)),
    {
        let mut status = GitStatus::empty();
        let mut field: Vec<u8> = Vec::new();
        let mut i: usize = 0;
        let ghost mut done: Seq<Seq<u8>> = Seq::empty();
        assert(output@.take(0) =~= Seq::empty());
        assert(done.push(field@) =~= nul_fields(output@.take(0)));
        while i < output.len()
            invariant
                i <= output@.len(),
                done.push(field@) == nul_fields(output@.take(i as int)),
                status@ == status_of(done),
            decreases output@.len() - i,
        {
            let ghost before = done.push(field@);
            proof {
                assert(output@.take(i + 1).drop_last() =~= output@.take(i as int));
                assert(output@.take(i + 1).last() == output@[i as int]);
                assert(before.drop_last() =~= done);
                assert(before.last() == field@);
            }
            if output[i] == 0 {
                status.take(&field);
                field = Vec::new();
                proof {
                    done = before;
                    assert(field@ =~= Seq::empty());
                }
            } else {
                field.push(output[i]);
            }
            i = i + 1;
        }
        proof {
            assert(output@.take(output@.len() as int) =~= output@);
            let all = done.push(field@);
            assert(all.drop_last() =~= done);
            assert(all.last() == field@);
        }
        status.take(&field);
        status
    }

    /// How many tracked paths changed.
    pub fn changed(&self) -> (r: usize)
        ensures
            r == tracked_count(self@.records),
    {
        let ghost all = record_views(self.records@);
        let mut count: usize = 0;
        let mut i: usize = 0;
        assert(all.take(0) =~= Seq::empty());
        while i < self.records.len()
            invariant
                i <= self.records@.len(),
                count <= i,
                all == record_views(self.records@),
                count == tracked_count(all.take(i as int)),
            decreases self.records@.len() - i,
        {
            assert(all.take(i + 1).drop_last() =~= all.take(i as int));
            assert(all.take(i + 1).last() == all[i as int]);
            if let StatusRecord::Changed = self.records[i] {
                count = count + 1;
            }
            i = i + 1;
        }
        assert(all.take(all.len() as int) =~= all);
        count
    }
}

/// How many of the records are tracked paths.
pub open spec fn tracked_count(records: Seq<Option<Seq<u8>>>) -> nat
    decreases records.len(),
{
    if records.len() == 0 {
        0
    } else if records.last() is None {
        tracked_count(records.drop_last()) + 1
    } else {
        tracked_count(records.drop_last())
    }
}

/// How many bytes the sizes make up together.
pub open spec fn total(sizes: Seq<u64>) -> nat
    decreases sizes.len(),
{
    if sizes.len() == 0 {
        0
    } else {
        total(sizes.drop_last()) + sizes.last() as nat
    }
}

/// More sizes never make up less.
proof fn totals_grow(sizes: Seq<u64>, n: int)
    requires
        0 <= n <= sizes.len(),
    ensures
        total(sizes.take(n)) <= total(sizes),
    decreases sizes.len() - n,
{
    if n < sizes.len() {
        totals_grow(sizes, n + 1);
        assert(sizes.take(n + 1).drop_last() =~= sizes.take(n));
    } else {
        assert(sizes.take(n) =~= sizes);
    }
}

/// The bytes of the untracked files together.
pub fn estimate_bytes(sizes: &Vec<u64>) -> (r: Result<u64, String>)
    ensures
        r is Ok <==> total(sizes@) <= u64::MAX,
        r is Ok ==> r->Ok_0 == total(sizes@),
        r is Err ==> (r->Err_0)@ == "estimated untracked source bytes overflowed u64"@,
{
    let mut sum: u64 = 0;
    let mut i: usize = 0;
    assert(sizes@.take(0) =~= Seq::empty());
    while i < sizes.len()
        invariant
            i <= sizes@.len(),
            sum == total(sizes@.take(i as int)),
        decreases sizes@.len() - i,
    {
        assert(sizes@.take(i + 1).drop_last() =~= sizes@.take(i as int));
        assert(sizes@.take(i + 1).last() == sizes@[i as int]);
        match sum.checked_add(sizes[i]) {
            Some(next) => {
                sum = next;
            },
            None => {
                proof {
                    totals_grow(sizes@, i + 1);
                }
                return Err(owned("estimated untracked source bytes overflowed u64"));
            },
        }
        i = i + 1;
    }
    assert(sizes@.take(sizes@.len() as int) =~= sizes@);
    Ok(sum)
}

// ---------------------------------------------------------------------
// The actor asked for.

/// The actor a command acts as: the one named with its kind, or the
/// configured one.
pub fn resolve_actor_args(name: Option<String>, kind: Option<ActorKind>, fallback: &Actor) -> (r:
    Result<Actor, String>)
    ensures
        match (opt_text(name), kind) {
            (Some(name), Some(kind)) => if name.len() > 0 {
                r is Ok && (r->Ok_0)@ == (ActorView { name, kind })
            } else {
                r is Err && (r->Err_0)@ == "actor name must not be empty"@
            },
            (None, None) => r is Ok && (r->Ok_0)@ == fallback@,
            _ => r is Err && (r->Err_0)@ == "actor name and kind must be provided together"@,
        },
{
    match (name, kind) {
        (Some(name), Some(kind)) => {
            if name.as_str().is_empty() {
                Err(owned("actor name must not be empty"))
            } else {
                Ok(Actor { name, kind })
            }
        },
        (None, None) => Ok(fallback.copy()),
        (Some(_), None) | (None, Some(_)) => Err(
            owned("actor name and kind must be provided together"),
        ),
    }
}

// ---------------------------------------------------------------------
// Serving.

/// How a workspace is served.
#[derive(Debug, Clone, Copy, PartialEq, Eq, Structural)]
pub enum ServeMode {
    Stdio,
    Http,
    Hosted,
}

/// What was asked of serving a workspace.
#[derive(Debug, Clone, Copy, PartialEq, Eq, Structural)]
pub struct ServeFlags {
    pub mcp_stdio: bool,
    pub http: bool,
    pub hosted: bool,
    pub holder: bool,
    pub take_over: bool,
}

/// Why a workspace cannot be served as asked, if it cannot.
pub open spec fn serve_error(flags: ServeFlags) -> Option<Seq<char>> {
    if !flags.hosted && (flags.holder || flags.take_over) {
        Some("--holder and --take-over belong to --hosted"@)
    } else if flags.hosted {
        if flags.mcp_stdio || !flags.http {
            Some("a hosted workspace serves the HTTP face: --hosted needs --http"@)
        } else {
            None
        }
    } else if flags.mcp_stdio && flags.http {
        Some("atelier serve speaks one transport per process: --mcp-stdio or --http"@)
    } else if !flags.mcp_stdio && !flags.http {
        Some("atelier serve requires a transport: --mcp-stdio or --http"@)
    } else {
        None
    }
}

/// How a workspace is served: over one transport, and hosted only over HTTP.
pub fn serve_mode(flags: ServeFlags) -> (r: Result<ServeMode, String>)
    ensures
        r is Ok <==> serve_error(flags) is None,
        r is Ok ==> r->Ok_0 == if flags.hosted {
            ServeMode::Hosted
        } else if flags.http {
            ServeMode::Http
        } else {
            ServeMode::Stdio
        },
        r is Err ==> Some((r->Err_0)@) == serve_error(flags),
{
    if !flags.hosted && (flags.holder || flags.take_over) {
        return Err(owned("--holder and --take-over belong to --hosted"));
    }
    if flags.hosted {
        if flags.mcp_stdio || !flags.http {
            return Err(owned("a hosted workspace serves the HTTP face: --hosted needs --http"));
        }
        return Ok(ServeMode::Hosted);
    }
    if flags.mcp_stdio && flags.http {
        return Err(
            owned("atelier serve speaks one transport per process: --mcp-stdio or --http"),
        );
    }
    if flags.mcp_stdio {
        Ok(ServeMode::Stdio)
    } else if flags.http {
        Ok(ServeMode::Http)
    } else {
        Err(owned("atelier serve requires a transport: --mcp-stdio or --http"))
    }
}

/// How often a hosted node replicates while it serves, in milliseconds.
pub const REPLICATE_EVERY_MS: u64 = 5_000;

/// What a hosted node does next while it serves.
#[derive(Debug, Clone, Copy, PartialEq, Eq, Structural)]
pub enum HostedStep {
    Stop,
    Serve,
    Replicate,
}

/// What a hosted node does next: it stops when it was asked to, and
/// replicates at its own pace.
pub open spec fn hosting(stopped: bool, since_last_ms: int) -> HostedStep {
    if stopped {
        HostedStep::Stop
    } else if since_last_ms < REPLICATE_EVERY_MS {
        HostedStep::Serve
    } else {
        HostedStep::Replicate
    }
}

/// What a hosted node does next.
pub fn hosted_step(stopped: bool, since_last_ms: u64) -> (r: HostedStep)
    ensures
        r == hosting(stopped, since_last_ms as int),
{
    if stopped {
        HostedStep::Stop
    } else if since_last_ms < REPLICATE_EVERY_MS {
        HostedStep::Serve
    } else {
        HostedStep::Replicate
    }
}

/// What came of a replication.
#[derive(Debug, Clone, PartialEq, Eq)]
pub enum Replicated {
    Acknowledged,
    /// The record names another node.
    Deposed,
    /// It failed, in the replica's own words.
    Failed(String),
}

/// Why a node stops serving after a replication, if it does: serving without
/// a lineage behind it would promise what the bucket does not hold.
pub open spec fn refused_replication(outcome: Replicated) -> Option<Seq<char>> {
    match outcome {
        Replicated::Acknowledged => None,
        Replicated::Deposed => Some(
            "deposed: the record names another node; this node's writes land in a superseded lineage"@,
        ),
        Replicated::Failed(error) => Some("replication failed: "@ + error@),
    }
}

/// Why a node stops serving after a replication, if it does.
pub fn replication_refusal(outcome: &Replicated) -> (r: Option<String>)
    ensures
        opt_text(r) == refused_replication(*outcome),
{
    match outcome {
        Replicated::Acknowledged => None,
        Replicated::Deposed => Some(
            owned(
                "deposed: the record names another node; this node's writes land in a superseded lineage",
            ),
        ),
        Replicated::Failed(error) => Some(joined("replication failed: ", error.as_str())),
    }
}

/// What a hosted node does next, given why its last replication was refused,
/// if it was: a refusal stops it as a shutdown request does.
pub fn hosted_next(refusal: &Option<String>, stopped: bool, since_last_ms: u64) -> (r: HostedStep)
    ensures
        r == hosting(*refusal is Some || stopped, since_last_ms as int),
{
    hosted_step(refusal.is_some() || stopped, since_last_ms)
}

/// How hosting ends.
#[derive(Debug, Clone, PartialEq, Eq)]
pub enum Ending {
    /// With this error; the record is not released.
    Fail(String),
    /// By releasing the record.
    Release,
}

/// How hosting ends once the server stopped: a refused replication is its
/// error, and only a node that was not refused releases.
pub fn hosted_ending(refusal: Option<String>) -> (r: Ending)
    ensures
        r == match refusal {
            Some(reason) => Ending::Fail(reason),
            None => Ending::Release,
        },
{
    match refusal {
        Some(reason) => Ending::Fail(reason),
        None => Ending::Release,
    }
}

/// A node that was deposed, or whose replication failed, serves no longer:
/// whenever it is asked what to do next, it stops.
pub proof fn a_refused_replication_ends_serving(
    outcome: Replicated,
    refusal: Option<String>,
    stopped: bool,
    since_last_ms: int,
)
    requires
        outcome != Replicated::Acknowledged,
        opt_text(refusal) == refused_replication(outcome),
    ensures
        hosting(refusal is Some || stopped, since_last_ms) == HostedStep::Stop,
        refusal is Some,
{
}

/// The refusal of a workspace another node holds.
pub fn held_by_other(holder: &str, epoch: u64) -> (r: String)
    ensures
        r@ == "the workspace is held by "@ + holder@ + " at epoch "@ + decimal(epoch as nat)
            + "; --take-over seizes it from a dead node"@,
{
    let mut line = joined("the workspace is held by ", holder);
    line.push_str(" at epoch ");
    line.push_str(decimal_text(epoch).as_str());
    line.push_str("; --take-over seizes it from a dead node");
    line
}

/// What a hosted node prints once it serves.
pub fn serving_line(holder: &str, epoch: u64) -> (r: String)
    ensures
        r@ == "serving as "@ + holder@ + " at epoch "@ + decimal(epoch as nat),
{
    let mut line = joined("serving as ", holder);
    line.push_str(" at epoch ");
    line.push_str(decimal_text(epoch).as_str());
    line
}

/// What a hosted node prints once it is done.
pub fn released_line(released: bool) -> (r: String)
    ensures
        r@ == if released {
            "released"@
        } else {
            "the workspace moved on; nothing to release"@
        },
{
    if released {
        owned("released")
    } else {
        owned("the workspace moved on; nothing to release")
    }
}

/// A node's name when none is given: the local user, and the process id,
/// which is distinct for each run.
pub fn default_holder(user: &Option<String>, pid: u32) -> (r: String)
    ensures
        r@ == match *user {
            Some(user) => user@,
            None => "node"@,
        } + "-"@ + decimal(pid as nat),
{
    let mut holder = match user {
        Some(user) => owned(user.as_str()),
        None => owned("node"),
    };
    holder.push_str("-");
    holder.push_str(decimal_text(pid as u64).as_str());
    holder
}

/// Fields are what stands between the NULs: text without one is one field,
/// and a NUL ends the fields before it and begins those behind it.
pub proof fn fields_stand_between_nuls(before: Seq<u8>, after: Seq<u8>)
    ensures
        !after.contains(0) ==> nul_fields(after) == seq![after],
        nul_fields(before.push(0) + after) == nul_fields(before) + nul_fields(after),
    decreases after.len(),
{
    let whole = before.push(0) + after;
    some_field(before);
    if after.len() == 0 {
        assert(whole =~= before.push(0));
        assert(whole.drop_last() =~= before);
        assert(after =~= Seq::empty());
        assert(nul_fields(after) =~= seq![after]);
        assert(nul_fields(whole) =~= nul_fields(before) + nul_fields(after));
    } else {
        let rest = after.drop_last();
        fields_stand_between_nuls(before, rest);
        some_field(rest);
        assert(whole.drop_last() =~= before.push(0) + rest);
        assert(whole.last() == after.last());
        let joint = nul_fields(before) + nul_fields(rest);
        if after.last() != 0 {
            assert(joint.last() == nul_fields(rest).last());
            assert(joint.drop_last() =~= nul_fields(before) + nul_fields(rest).drop_last());
        }
        assert(nul_fields(whole) =~= nul_fields(before) + nul_fields(after));
        if !after.contains(0) {
            assert forall|k: int| 0 <= k < rest.len() implies rest[k] != 0 by {
                assert(rest[k] == after[k]);
            }
            assert(after[after.len() - 1] != 0);
            assert(rest.push(after.last()) =~= after);
            assert(nul_fields(after) =~= seq![after]);
        }
    }
}

/// There is always a field.
proof fn some_field(bytes: Seq<u8>)
    ensures
        nul_fields(bytes).len() > 0,
    decreases bytes.len(),
{
    if bytes.len() > 0 {
        some_field(bytes.drop_last());
    }
}

/// Each field of a status says one thing more: `??` a file nobody added, by
/// its path; any other two letters a change to one that was added; behind a
/// rename or a copy, where it came from. An empty one says nothing, and one
/// that is none of these spoils the rest.
pub proof fn status_reads_field_by_field(fields: Seq<Seq<u8>>, field: Seq<u8>)
    ensures
        ({
            let before = status_of(fields);
            let after = status_of(fields.push(field));
            let reads = field.len() >= 4 && field[2] == 32;
            let moved = field[0] == 82 || field[0] == 67 || field[1] == 82 || field[1] == 67;
            let new = field[0] == 63 && field[1] == 63;
            &&& before.malformed || field.len() == 0 ==> after == before
            &&& !before.malformed && field.len() > 0 ==> {
                &&& before.skips ==> after.records == before.records && !after.skips
                    && !after.malformed
                &&& !before.skips && !reads ==> after.malformed && after.records == before.records
                &&& !before.skips && reads && new ==> after.records == before.records.push(
                    Some(field.skip(3)),
                ) && !after.skips && !after.malformed
                &&& !before.skips && reads && !new ==> after.records == before.records.push(None)
                    && (after.skips <==> moved) && !after.malformed
            }
        }),
        status_of(Seq::empty()).records.len() == 0,
        !status_of(Seq::empty()).malformed,
        !status_of(Seq::empty()).skips,
{
    assert(fields.push(field).drop_last() =~= fields);
}

/// Counts and sizes add up: those of two lists are the sum of either's, and
/// a list of one counts for what it is.
pub proof fn counts_add_up(
    a: Seq<Option<Seq<u8>>>,
    b: Seq<Option<Seq<u8>>>,
    x: Seq<u64>,
    y: Seq<u64>,
    path: Seq<u8>,
    size: u64,
)
    ensures
        tracked_count(a + b) == tracked_count(a) + tracked_count(b),
        tracked_count(seq![None::<Seq<u8>>]) == 1,
        tracked_count(seq![Some(path)]) == 0,
        total(x + y) == total(x) + total(y),
        total(seq![size]) == size,
    decreases b.len() + y.len(),
{
    let nothing = Seq::<Option<Seq<u8>>>::empty();
    assert(seq![None::<Seq<u8>>].drop_last() =~= nothing);
    assert(seq![Some(path)].drop_last() =~= nothing);
    assert(tracked_count(nothing) == 0);
    assert(seq![size].drop_last() =~= Seq::<u64>::empty());
    assert(total(Seq::<u64>::empty()) == 0);
    if b.len() > 0 {
        counts_add_up(a, b.drop_last(), x, y, path, size);
        assert((a + b).drop_last() =~= a + b.drop_last());
        assert((a + b).last() == b.last());
    } else {
        assert(a + b =~= a);
    }
    if y.len() > 0 {
        counts_add_up(a, b, x, y.drop_last(), path, size);
        assert((x + y).drop_last() =~= x + y.drop_last());
        assert((x + y).last() == y.last());
    } else {
        assert(x + y =~= x);
    }
}

/// A process serves exactly one transport: over HTTP where it is hosted, over
/// either where it is not; and only a hosted one has a holder or takes over.
pub proof fn one_transport_serves(flags: ServeFlags)
    ensures
        serve_error(flags) is None <==> (flags.mcp_stdio != flags.http) && (flags.hosted
            ==> flags.http) && (flags.holder || flags.take_over ==> flags.hosted),
{
}

/// A hosted workspace stops when told to, and else replicates once enough
/// time passed since it last did.
pub proof fn hosting_replicates_in_time(stopped: bool, since_last_ms: int)
    ensures
        hosting(stopped, since_last_ms) is Stop <==> stopped,
        hosting(stopped, since_last_ms) is Replicate <==> !stopped && since_last_ms
            >= REPLICATE_EVERY_MS,
        hosting(stopped, since_last_ms) is Serve <==> !stopped && since_last_ms
            < REPLICATE_EVERY_MS,
{
}

/// A replication is refused exactly when it was not acknowledged.
pub proof fn only_acknowledged_replication_stands(outcome: Replicated)
    ensures
        refused_replication(outcome) is None <==> outcome is Acknowledged,
{
}

} // verus!
