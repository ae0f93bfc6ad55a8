//! What the command line prints: every outcome as lines.

use crate::config::{Source, actor_kind_name, source_kind_name};
use crate::error::GATE;
use crate::history::{SnapshotView, SourceSnapshot, source_snapshot_views};
use crate::journal::{EntryView, JournalEntry, act_name};
use crate::landing::{
    GateOutcome,
    Landing,
    LandingRequest,
    LandingRequestView,
    RequestId,
    Restore,
    landing_views,
    request_label,
    request_state_name,
};
use crate::manifest::{request_views, session_views};
use crate::model::Diff;
use crate::render::{printable, printed, render_diff, rendered_diff};
use crate::session::{Session, SessionId, SessionView, session_label, session_state_name};
use crate::stamp::{format_rfc3339_utc, is_stamp, refused_moment};
use crate::sync::{PullOutcome, SyncOutcome};
use crate::words::{
    add_text,
    debug_quoted,
    decimal,
    decimal_text,
    join_texts,
    joined,
    joined_by,
    opt_text,
    owned,
    quoted,
    same,
    signed_decimal,
    texts,
};
use vstd::prelude::*;

verus! {

/// One line as a list.
fn one(line: String) -> (r: Vec<String>)
    ensures
        texts(r@) == seq![line@],
{
    let mut out: Vec<String> = Vec::new();
    let ghost view = line@;
    out.push(line);
    assert(texts(out@) =~= seq![view]);
    out
}

/// No line yet.
fn no_lines() -> (r: Vec<String>)
    ensures
        texts(r@) == Seq::<Seq<char>>::empty(),
{
    let out: Vec<String> = Vec::new();
    assert(texts(out@) =~= Seq::empty());
    out
}

// ---------------------------------------------------------------------
// Workspaces and sources.

/// What founding a workspace prints.
pub fn init_line(name: &str, path: &str) -> (r: String)
    ensures
        r@ == "initialized workspace "@ + name@ + " at "@ + path@,
{
    let mut line = joined("initialized workspace ", name);
    line.push_str(" at ");
    line.push_str(path);
    line
}

/// What attaching a source prints.
pub fn attach_line(source: &Source, mount: &Option<String>) -> (r: String)
    ensures
        r@ == match *mount {
            Some(name) => "attached "@ + source_kind_name(source.kind) + " "@ + source.path@
                + " at "@ + name@,
            None => "attached "@ + source_kind_name(source.kind) + " "@ + source.path@,
        },
{
    let mut line = joined("attached ", source.kind.to_text());
    line.push_str(" ");
    line.push_str(source.path.as_str());
    if let Some(name) = mount {
        line.push_str(" at ");
        line.push_str(name.as_str());
    }
    line
}

// ---------------------------------------------------------------------
// Diffs.

/// What comparing the two latest snapshots prints.
pub fn diff_lines_report(diff: &Diff) -> (r: Vec<String>)
    ensures
        texts(r@) == if diff@.len() == 0 {
            seq!["no changes between the two latest snapshots"@]
        } else {
            rendered_diff(diff@)
        },
{
    if diff.deltas.len() == 0 {
        return one(owned("no changes between the two latest snapshots"));
    }
    render_diff(diff)
}

/// What a session's change prints.
pub fn session_diff_report(id: SessionId, diff: &Diff) -> (r: Vec<String>)
    ensures
        texts(r@) == if diff@.len() == 0 {
            seq!["no changes in session "@ + session_label(id.0 as int)]
        } else {
            rendered_diff(diff@)
        },
{
    if diff.deltas.len() == 0 {
        return one(joined("no changes in session ", id.to_text().as_str()));
    }
    render_diff(diff)
}

// ---------------------------------------------------------------------
// The journal.

/// What a journal line is made of: time, actor, act, then whatever the act
/// carries.
pub open spec fn entry_parts(entry: EntryView, stamp: Seq<char>) -> Seq<Seq<char>> {
    let base = seq![
        stamp,
        entry.actor_name + " ("@ + actor_kind_name(entry.actor_kind) + ")"@,
        act_name(entry.act),
    ];
    let with_session = match entry.session {
        Some(session) => base.push(session),
        None => base,
    };
    let with_summary = match entry.instruction_summary {
        Some(summary) => with_session.push("\""@ + summary + "\""@),
        None => with_session,
    };
    let with_run = match entry.instruction_run_ref {
        Some(run_ref) => with_summary.push(run_ref),
        None => with_summary,
    };
    match entry.reference {
        Some(reference) => with_run.push(reference),
        None => with_run,
    }
}

/// A journal line for an entry whose time is printed as `stamp`.
pub fn entry_line(entry: &JournalEntry, stamp: &str) -> (r: String)
    ensures
        r@ == printed(joined_by(entry_parts(entry@, stamp@), "  "@)),
{
    let mut parts = no_lines();
    add_text(&mut parts, owned(stamp));
    let mut actor = joined(entry.actor_name.as_str(), " (");
    actor.push_str(entry.actor_kind.as_str());
    actor.push_str(")");
    add_text(&mut parts, actor);
    add_text(&mut parts, owned(entry.act.as_str()));
    assert(texts(parts@) =~= seq![
        stamp@,
        entry@.actor_name + " ("@ + actor_kind_name(entry@.actor_kind) + ")"@,
        act_name(entry@.act),
    ]);
    if let Some(session) = &entry.session {
        add_text(&mut parts, owned(session.as_str()));
    }
    if let Some(summary) = &entry.instruction_summary {
        let mut quoted_summary = joined("\"", summary.as_str());
        quoted_summary.push_str("\"");
        add_text(&mut parts, quoted_summary);
    }
    if let Some(run_ref) = &entry.instruction_run_ref {
        add_text(&mut parts, owned(run_ref.as_str()));
    }
    if let Some(reference) = &entry.reference {
        add_text(&mut parts, owned(reference.as_str()));
    }
    printable(join_texts(&parts, "  ").as_str())
}

/// Whether a text is an entry's journal line.
pub open spec fn is_entry_line(entry: EntryView, line: Seq<char>) -> bool {
    exists|stamp: Seq<char>| #[trigger]
        is_stamp(entry.at_ms / 1000, stamp) && line == printed(
            joined_by(entry_parts(entry, stamp), "  "@),
        )
}

/// Whether a moment in milliseconds can be printed.
pub open spec fn is_printable_moment(at_ms: int) -> bool {
    -62_167_219_200 <= at_ms / 1000 <= 253_402_300_799
}

/// One journal line: time, actor, act, then whatever the act carries: its
/// session, the instruction summary in quotes with its run reference, and
/// the act's reference.
pub fn render_entry(entry: &JournalEntry) -> (r: Result<String, String>)
    ensures
        r is Ok <==> is_printable_moment(entry@.at_ms),
        r is Ok ==> is_entry_line(entry@, (r->Ok_0)@),
        r is Err ==> (r->Err_0)@ == refused_moment(entry@.at_ms / 1000),
{
    match format_rfc3339_utc(entry.at_ms) {
        Ok(stamp) => Ok(entry_line(entry, stamp.as_str())),
        Err(refusal) => Err(refusal),
    }
}

// ---------------------------------------------------------------------
// History.

/// A listed snapshot's line, its time printed as `stamp`: a mounted source's
/// carries its mount when every source lists.
pub open spec fn history_text(
    source: Option<Seq<char>>,
    snapshot: SnapshotView,
    only: Option<Seq<char>>,
    stamp: Seq<char>,
) -> Seq<char> {
    let line = snapshot.id + "  "@ + snapshot.actor + "  "@ + stamp;
    printed(
        match (source, only) {
            (Some(mount), None) => mount + "  "@ + line,
            _ => line,
        },
    )
}

/// A listed snapshot's line, its time printed as `stamp`.
pub fn history_line(item: &SourceSnapshot, only: &Option<String>, stamp: &str) -> (r: String)
    ensures
        r@ == history_text(opt_text(item.source), item.snapshot@, opt_text(*only), stamp@),
{
    let mut line = joined(item.snapshot.id.as_str(), "  ");
    line.push_str(item.snapshot.actor.as_str());
    line.push_str("  ");
    line.push_str(stamp);
    match (&item.source, only) {
        (Some(mount), None) => {
            let mut scoped = joined(mount.as_str(), "  ");
            scoped.push_str(line.as_str());
            printable(scoped.as_str())
        },
        _ => printable(line.as_str()),
    }
}

/// The snapshots of a listing that a history shows: all of them, or one
/// source's.
pub open spec fn shown(
    log: Seq<(Option<Seq<char>>, SnapshotView)>,
    only: Option<Seq<char>>,
) -> Seq<(Option<Seq<char>>, SnapshotView)>
    decreases log.len(),
{
    if log.len() == 0 {
        Seq::empty()
    } else {
        let rest = shown(log.drop_last(), only);
        if only is None || log.last().0 == only {
            rest.push(log.last())
        } else {
            rest
        }
    }
}

/// Whether a line is that of a listed snapshot.
pub open spec fn is_history_line(
    item: (Option<Seq<char>>, SnapshotView),
    only: Option<Seq<char>>,
    line: Seq<char>,
) -> bool {
    exists|stamp: Seq<char>| #[trigger]
        is_stamp(item.1.at_ms / 1000, stamp) && line == history_text(item.0, item.1, only, stamp)
}

/// Whether each line is that of a snapshot shown.
pub open spec fn are_history_lines(
    items: Seq<(Option<Seq<char>>, SnapshotView)>,
    only: Option<Seq<char>>,
    lines: Seq<Seq<char>>,
) -> bool {
    &&& lines.len() == items.len()
    &&& forall|i: int|
        #![trigger lines[i]]
        0 <= i < lines.len() ==> is_history_line(items[i], only, lines[i])
}

/// Whether the moment of each snapshot can be printed.
pub open spec fn all_printable(items: Seq<(Option<Seq<char>>, SnapshotView)>) -> bool {
    forall|i: int| 0 <= i < items.len() ==> is_printable_moment((#[trigger] items[i]).1.at_ms)
}

/// Whether the snapshot at `k` is the first whose moment cannot be printed.
pub open spec fn is_first_unprintable(
    items: Seq<(Option<Seq<char>>, SnapshotView)>,
    k: int,
) -> bool {
    &&& 0 <= k < items.len()
    &&& !is_printable_moment(items[k].1.at_ms)
    &&& all_printable(items.take(k))
}

/// The refusal of a source that is not mounted.
pub open spec fn not_mounted(source: Seq<char>) -> Seq<char> {
    "no source is mounted at "@ + debug_quoted(source)
}

/// Adding a line of one more snapshot.
proof fn one_more_line(
    items: Seq<(Option<Seq<char>>, SnapshotView)>,
    only: Option<Seq<char>>,
    lines: Seq<Seq<char>>,
    item: (Option<Seq<char>>, SnapshotView),
    stamp: Seq<char>,
)
    requires
        are_history_lines(items, only, lines),
        is_stamp(item.1.at_ms / 1000, stamp),
    ensures
        are_history_lines(
            items.push(item),
            only,
            lines.push(history_text(item.0, item.1, only, stamp)),
        ),
{
    let more = items.push(item);
    let next = lines.push(history_text(item.0, item.1, only, stamp));
    assert forall|i: int|
        #![trigger next[i]]
        0 <= i < next.len() implies is_history_line(more[i], only, next[i]) by {
        if i < lines.len() {
            assert(next[i] == lines[i]);
            assert(more[i] == items[i]);
        } else {
            assert(more[i] == item);
        }
    }
}

/// What a history prints: the snapshots of every source, or of one; a source
/// that lists nothing is not mounted.
pub fn history_lines(log: &Vec<SourceSnapshot>, only: &Option<String>) -> (r: Result<
    Vec<String>,
    String,
>)
    ensures
        ({
            let items = shown(source_snapshot_views(log@), opt_text(*only));
            &&& r is Ok <==> all_printable(items) && (items.len() > 0 || *only is None)
            &&& r is Ok ==> are_history_lines(items, opt_text(*only), texts((r->Ok_0)@))
            &&& r is Err && items.len() == 0 ==> (r->Err_0)@ == not_mounted((only->0)@)
            &&& r is Err && items.len() > 0 ==> exists|k: int| #[trigger]
                is_first_unprintable(items, k) && (r->Err_0)@ == refused_moment(
                    items[k].1.at_ms / 1000,
                )
        }),
{
    let ghost all = source_snapshot_views(log@);
    let ghost wanted = opt_text(*only);
    let mut lines = no_lines();
    let mut i: usize = 0;
    assert(all.take(0) =~= Seq::empty());
    while i < log.len()
        invariant
            i <= log@.len(),
            all == source_snapshot_views(log@),
            wanted == opt_text(*only),
            all_printable(shown(all.take(i as int), wanted)),
            are_history_lines(shown(all.take(i as int), wanted), wanted, texts(lines@)),
        decreases log@.len() - i,
    {
        let item = &log[i];
        proof {
            assert(all[i as int] == (opt_text(item.source), item.snapshot@));
            assert(all.take(i + 1).drop_last() =~= all.take(i as int));
            assert(all.take(i + 1).last() == all[i as int]);
        }
        let ghost before = shown(all.take(i as int), wanted);
        let show = match only {
            None => true,
            Some(name) => match &item.source {
                Some(source) => same(source.as_str(), name.as_str()),
                None => false,
            },
        };
        if show {
            match format_rfc3339_utc(item.snapshot.at_ms) {
                Ok(stamp) => {
                    let line = history_line(item, only, stamp.as_str());
                    proof {
                        one_more_line(before, wanted, texts(lines@), all[i as int], stamp@);
                        assert(shown(all.take(i + 1), wanted) == before.push(all[i as int]));
                    }
                    add_text(&mut lines, line);
                },
                Err(refusal) => {
                    proof {
                        let now = shown(all.take(i + 1), wanted);
                        assert(now == before.push(all[i as int]));
                        shown_grows(all, wanted, i + 1, all.len() as int);
                        assert(all.take(all.len() as int) =~= all);
                        assert(now[now.len() - 1] == all[i as int]);
                        assert(shown(all, wanted)[now.len() - 1] == all[i as int]);
                        assert(shown(all, wanted).take(now.len() - 1) =~= before);
                        assert(is_first_unprintable(shown(all, wanted), now.len() - 1));
                    }
                    return Err(refusal);
                },
            }
        }
        i = i + 1;
    }
    assert(all.take(all.len() as int) =~= all);
    if let Some(name) = only {
        if lines.len() == 0 {
            return Err(joined("no source is mounted at ", quoted(name.as_str()).as_str()));
        }
    }
    Ok(lines)
}

/// What is shown of a listing's beginning is the beginning of what is shown.
proof fn shown_grows(
    log: Seq<(Option<Seq<char>>, SnapshotView)>,
    only: Option<Seq<char>>,
    i: int,
    j: int,
)
    requires
        0 <= i <= j <= log.len(),
    ensures
        shown(log.take(i), only).is_prefix_of(shown(log.take(j), only)),
    decreases j - i,
{
    if i < j {
        shown_grows(log, only, i, j - 1);
        assert(log.take(j).drop_last() =~= log.take(j - 1));
        let a = shown(log.take(i), only);
        let b = shown(log.take(j - 1), only);
        let c = shown(log.take(j), only);
        assert(b.is_prefix_of(c)) by {
            assert(c.subrange(0, b.len() as int) =~= b);
        }
        assert(c.subrange(0, a.len() as int) =~= b.subrange(0, a.len() as int));
    } else {
        let a = shown(log.take(i), only);
        assert(a.subrange(0, a.len() as int) =~= a);
    }
}

// ---------------------------------------------------------------------
// Sessions.

/// A session's line.
pub open spec fn session_text(session: SessionView) -> Seq<char> {
    printed(
        session_label(session.id) + "  "@ + session_state_name(session.state) + "  "@
            + session.actor.name + " ("@ + actor_kind_name(session.actor.kind) + ")  "@
            + session.change_id,
    )
}

/// What listing the sessions prints.
pub fn session_lines(sessions: &Vec<Session>) -> (r: Vec<String>)
    ensures
        texts(r@) == if sessions@.len() == 0 {
            seq!["no sessions"@]
        } else {
            session_views(sessions@).map_values(|session: SessionView| session_text(session))
        },
{
    if sessions.len() == 0 {
        return one(owned("no sessions"));
    }
    let ghost views = session_views(sessions@);
    let ghost all = views.map_values(|session: SessionView| session_text(session));
    let mut out = no_lines();
    let mut i: usize = 0;
    assert(all.take(0) =~= Seq::empty());
    while i < sessions.len()
        invariant
            i <= sessions@.len(),
            views == session_views(sessions@),
            all == views.map_values(|session: SessionView| session_text(session)),
            texts(out@) == all.take(i as int),
        decreases sessions@.len() - i,
    {
        let session = &sessions[i];
        assert(views[i as int] == session@);
        let mut line = joined(session.id.to_text().as_str(), "  ");
        line.push_str(session.state.as_str());
        line.push_str("  ");
        line.push_str(session.actor.name.as_str());
        line.push_str(" (");
        line.push_str(session.actor.kind.as_str());
        line.push_str(")  ");
        line.push_str(session.change_id.as_str());
        let line = printable(line.as_str());
        assert(line@ == all[i as int]);
        add_text(&mut out, line);
        assert(all.take(i + 1) =~= all.take(i as int).push(all[i as int]));
        i = i + 1;
    }
    assert(all.take(all.len() as int) =~= all);
    out
}

/// What opening a session prints.
pub fn opened_lines(session: &Session) -> (r: Vec<String>)
    ensures
        texts(r@) == seq![
            "opened session "@ + session_label(session@.id),
            "working copy "@ + session@.working_copy,
            "land with: atelier land "@ + session_label(session@.id),
        ],
{
    let id = session.id.to_text();
    let mut out = no_lines();
    add_text(&mut out, joined("opened session ", id.as_str()));
    add_text(&mut out, joined("working copy ", session.working_copy.as_str()));
    add_text(&mut out, joined("land with: atelier land ", id.as_str()));
    assert(texts(out@) =~= seq![
        "opened session "@ + session_label(session@.id),
        "working copy "@ + session@.working_copy,
        "land with: atelier land "@ + session_label(session@.id),
    ]);
    out
}

/// What abandoning a session prints.
pub fn abandoned_line(id: SessionId) -> (r: String)
    ensures
        r@ == "abandoned "@ + session_label(id.0 as int),
{
    joined("abandoned ", id.to_text().as_str())
}

/// The summary of a session a command runs in: the one given, or the
/// command itself.
pub fn run_summary(given: &Option<String>, command: &Vec<String>) -> (r: String)
    ensures
        r@ == match *given {
            Some(summary) => summary@,
            None => "run: "@ + joined_by(texts(command@), " "@),
        },
{
    match given {
        Some(summary) => owned(summary.as_str()),
        None => joined("run: ", join_texts(command, " ").as_str()),
    }
}

/// What is left of a session whose command failed: `status` is how it ended.
pub fn run_failed(id: SessionId, status: &str) -> (r: String)
    ensures
        r@ == "command failed ("@ + status@ + "); session "@ + session_label(id.0 as int)
            + " keeps the work - land with: atelier land "@ + session_label(id.0 as int),
{
    let label = id.to_text();
    let mut line = joined("command failed (", status);
    line.push_str("); session ");
    line.push_str(label.as_str());
    line.push_str(" keeps the work - land with: atelier land ");
    line.push_str(label.as_str());
    line
}

/// What a command that did not land leaves to do.
pub fn run_holds(id: SessionId) -> (r: String)
    ensures
        r@ == "session "@ + session_label(id.0 as int)
            + " holds the change; land with: atelier land "@ + session_label(id.0 as int),
{
    let label = id.to_text();
    let mut line = joined("session ", label.as_str());
    line.push_str(" holds the change; land with: atelier land ");
    line.push_str(label.as_str());
    line
}

// ---------------------------------------------------------------------
// Landing.

/// A request's line.
pub open spec fn request_text(request: LandingRequestView) -> Seq<char> {
    printed(
        request_label(request.id) + "  "@ + request_state_name(request.state) + "  session "@
            + session_label(request.session_id) + "  by "@ + request.requester.name + " ("@
            + actor_kind_name(request.requester.kind) + ")"@,
    )
}

/// What listing the landing requests prints.
pub fn request_lines(requests: &Vec<LandingRequest>) -> (r: Vec<String>)
    ensures
        texts(r@) == if requests@.len() == 0 {
            seq!["no landing requests"@]
        } else {
            request_views(requests@).map_values(|request: LandingRequestView| request_text(request))
        },
{
    if requests.len() == 0 {
        return one(owned("no landing requests"));
    }
    let ghost views = request_views(requests@);
    let ghost all = views.map_values(|request: LandingRequestView| request_text(request));
    let mut out = no_lines();
    let mut i: usize = 0;
    assert(all.take(0) =~= Seq::empty());
    while i < requests.len()
        invariant
            i <= requests@.len(),
            views == request_views(requests@),
            all == views.map_values(|request: LandingRequestView| request_text(request)),
            texts(out@) == all.take(i as int),
        decreases requests@.len() - i,
    {
        let request = &requests[i];
        assert(views[i as int] == request@);
        let mut line = joined(request.id.to_text().as_str(), "  ");
        line.push_str(request.state.as_str());
        line.push_str("  session ");
        line.push_str(request.session_id.to_text().as_str());
        line.push_str("  by ");
        line.push_str(request.requester.name.as_str());
        line.push_str(" (");
        line.push_str(request.requester.kind.as_str());
        line.push_str(")");
        let line = printable(line.as_str());
        assert(line@ == all[i as int]);
        add_text(&mut out, line);
        assert(all.take(i + 1) =~= all.take(i as int).push(all[i as int]));
        i = i + 1;
    }
    assert(all.take(all.len() as int) =~= all);
    out
}

/// What rejecting a request prints.
pub fn rejected_line(id: RequestId) -> (r: String)
    ensures
        r@ == "rejected "@ + request_label(id.0 as int),
{
    joined("rejected ", id.to_text().as_str())
}

/// A landing's line; the root's names no source.
pub open spec fn landing_text(landing: (Option<Seq<char>>, Seq<char>)) -> Seq<char> {
    match landing.0 {
        Some(source) => "landed "@ + source + " "@ + landing.1,
        None => "landed "@ + landing.1,
    }
}

/// A landing's line; the root's names no source.
pub fn render_landing(landing: &Landing) -> (r: String)
    ensures
        r@ == landing_text(landing@),
{
    match &landing.source {
        Some(source) => {
            let mut line = joined("landed ", source.as_str());
            line.push_str(" ");
            line.push_str(landing.snapshot.as_str());
            line
        },
        None => joined("landed ", landing.snapshot.as_str()),
    }
}

/// The lines of landings.
pub open spec fn landing_texts(landings: Seq<(Option<Seq<char>>, Seq<char>)>) -> Seq<Seq<char>> {
    landings.map_values(|landing: (Option<Seq<char>>, Seq<char>)| landing_text(landing))
}

/// The lines of landings.
fn landing_lines(landings: &Vec<Landing>) -> (r: Vec<String>)
    ensures
        texts(r@) == landing_texts(landing_views(landings@)),
{
    let ghost views = landing_views(landings@);
    let ghost all = landing_texts(views);
    let mut out = no_lines();
    let mut i: usize = 0;
    assert(all.take(0) =~= Seq::empty());
    while i < landings.len()
        invariant
            i <= landings@.len(),
            views == landing_views(landings@),
            all == landing_texts(views),
            texts(out@) == all.take(i as int),
        decreases landings@.len() - i,
    {
        assert(views[i as int] == landings@[i as int]@);
        assert(all[i as int] == landing_text(views[i as int]));
        add_text(&mut out, render_landing(&landings[i]));
        assert(all.take(i + 1) =~= all.take(i as int).push(all[i as int]));
        i = i + 1;
    }
    assert(all.take(all.len() as int) =~= all);
    out
}

/// The line of a source a request parked on.
pub open spec fn parked_text(id: Seq<char>, source: Option<Seq<char>>) -> Seq<char> {
    match source {
        Some(name) => "parked "@ + id + " on "@ + name
            + ": the change conflicts with that shared line; a new snapshot re-opens the "@
            + GATE@,
        None => "parked "@ + id
            + ": the change conflicts with the shared line; a new snapshot re-opens the "@
            + GATE@,
    }
}

/// The line of a source a request parked on.
fn parked_line(id: &str, source: &Option<String>) -> (r: String)
    ensures
        r@ == parked_text(id@, opt_text(*source)),
{
    let mut line = joined("parked ", id);
    match source {
        Some(name) => {
            line.push_str(" on ");
            line.push_str(name.as_str());
            line.push_str(
                ": the change conflicts with that shared line; a new snapshot re-opens the ",
            );
        },
        None => {
            line.push_str(
                ": the change conflicts with the shared line; a new snapshot re-opens the ",
            );
        },
    }
    line.push_str(GATE);
    line
}

/// The lines of the sources a request parked on.
pub open spec fn parked_texts(id: Seq<char>, parked: Seq<Option<String>>) -> Seq<Seq<char>> {
    parked.map_values(|source: Option<String>| parked_text(id, opt_text(source)))
}

/// A gate's outcome as lines: one for each source that landed, one for each
/// that parked, or how many approvals there are.
pub open spec fn outcome_lines(outcome: GateOutcome) -> Seq<Seq<char>> {
    match outcome {
        GateOutcome::Landed { landings } => landing_texts(landing_views(landings@)),
        GateOutcome::Pending { request, required } => seq![
            "pending: "@ + decimal(request@.approvals.len()) + " of "@ + decimal(required as nat)
                + " approvals on "@ + request_label(request@.id),
        ],
        GateOutcome::Parked { request, landings, parked } => landing_texts(
            landing_views(landings@),
        ) + parked_texts(request_label(request@.id), parked@),
    }
}

/// A gate's outcome as lines.
pub fn render_outcome(outcome: &GateOutcome) -> (r: Vec<String>)
    ensures
        texts(r@) == outcome_lines(*outcome),
{
    match outcome {
        GateOutcome::Landed { landings } => landing_lines(landings),
        GateOutcome::Pending { request, required } => {
            let mut line = joined(
                "pending: ",
                decimal_text(request.approvals.len() as u64).as_str(),
            );
            line.push_str(" of ");
            line.push_str(decimal_text(*required as u64).as_str());
            line.push_str(" approvals on ");
            line.push_str(request.id.to_text().as_str());
            one(line)
        },
        GateOutcome::Parked { request, landings, parked } => {
            let mut out = landing_lines(landings);
            let id = request.id.to_text();
            let ghost base = texts(out@);
            let ghost all = parked_texts(id@, parked@);
            let mut i: usize = 0;
            assert(base + all.take(0) =~= base);
            while i < parked.len()
                invariant
                    i <= parked@.len(),
                    all == parked_texts(id@, parked@),
                    texts(out@) == base + all.take(i as int),
                decreases parked@.len() - i,
            {
                assert(all[i as int] == parked_text(id@, opt_text(parked@[i as int])));
                add_text(&mut out, parked_line(id.as_str(), &parked[i]));
                assert(base + all.take(i + 1) =~= (base + all.take(i as int)).push(all[i as int]));
                i = i + 1;
            }
            assert(all.take(all.len() as int) =~= all);
            out
        },
    }
}

/// What each line restored by an undo says.
pub open spec fn restore_views(restores: Seq<Restore>) -> Seq<(Option<Seq<char>>, Seq<char>)> {
    restores.map_values(|restore: Restore| restore@)
}

/// The line of one restored head.
pub open spec fn restored_text(restore: (Option<Seq<char>>, Seq<char>)) -> Seq<char> {
    match restore.0 {
        Some(source) => "restored "@ + source + " "@ + restore.1,
        None => "restored "@ + restore.1,
    }
}

/// What an undo prints: the restored heads, and that the request is open
/// again.
pub fn undo_lines(restores: &Vec<Restore>, id: RequestId) -> (r: Vec<String>)
    ensures
        texts(r@) == restore_views(restores@).map_values(
            |restore: (Option<Seq<char>>, Seq<char>)| restored_text(restore),
        ).push(request_label(id.0 as int) + " is open again; approvals dismissed"@),
{
    let ghost views = restore_views(restores@);
    let ghost all = views.map_values(
        |restore: (Option<Seq<char>>, Seq<char>)| restored_text(restore),
    );
    let mut out = no_lines();
    let mut i: usize = 0;
    assert(all.take(0) =~= Seq::empty());
    while i < restores.len()
        invariant
            i <= restores@.len(),
            views == restore_views(restores@),
            all == views.map_values(
                |restore: (Option<Seq<char>>, Seq<char>)| restored_text(restore),
            ),
            texts(out@) == all.take(i as int),
        decreases restores@.len() - i,
    {
        assert(views[i as int] == restores@[i as int]@);
        assert(all[i as int] == restored_text(views[i as int]));
        let restore = &restores[i];
        let line = match &restore.source {
            Some(source) => {
                let mut line = joined("restored ", source.as_str());
                line.push_str(" ");
                line.push_str(restore.head.as_str());
                line
            },
            None => joined("restored ", restore.head.as_str()),
        };
        add_text(&mut out, line);
        assert(all.take(i + 1) =~= all.take(i as int).push(all[i as int]));
        i = i + 1;
    }
    assert(all.take(all.len() as int) =~= all);
    add_text(&mut out, joined(id.to_text().as_str(), " is open again; approvals dismissed"));
    out
}

// ---------------------------------------------------------------------
// Origins.

/// A verb done on a source, with the snapshot it was about.
fn verb_line(verb: &str, source: &Option<String>, snapshot: &str) -> (r: String)
    ensures
        r@ == match *source {
            Some(name) => verb@ + " "@ + name@ + " "@ + snapshot@,
            None => verb@ + " "@ + snapshot@,
        },
{
    let mut line = joined(verb, " ");
    if let Some(name) = source {
        line.push_str(name.as_str());
        line.push_str(" ");
    }
    line.push_str(snapshot);
    line
}

/// What a pull prints.
pub fn pull_line(source: &Option<String>, outcome: &PullOutcome) -> (r: String)
    ensures
        r@ == match *outcome {
            PullOutcome::Current => "already current"@,
            PullOutcome::Pulled { snapshot } => match *source {
                Some(name) => "pulled"@ + " "@ + name@ + " "@ + snapshot@,
                None => "pulled"@ + " "@ + snapshot@,
            },
        },
{
    match outcome {
        PullOutcome::Current => owned("already current"),
        PullOutcome::Pulled { snapshot } => verb_line("pulled", source, snapshot.as_str()),
    }
}

/// What a sync prints.
pub fn sync_line(source: &Option<String>, outcome: &SyncOutcome) -> (r: String)
    ensures
        r@ == match *outcome {
            SyncOutcome::Synced { snapshot } => match *source {
                Some(name) => "synced"@ + " "@ + name@ + " "@ + snapshot@,
                None => "synced"@ + " "@ + snapshot@,
            },
            SyncOutcome::Parked { .. } =>
                "parked: the origin changed since the last sync; re-run with --force to overwrite"@,
        },
{
    match outcome {
        SyncOutcome::Synced { snapshot } => verb_line("synced", source, snapshot.as_str()),
        SyncOutcome::Parked { .. } => owned(
            "parked: the origin changed since the last sync; re-run with --force to overwrite",
        ),
    }
}

// ---------------------------------------------------------------------
// Updating.

/// What an install without its updater is told.
pub open spec fn no_updater() -> Seq<char> {
    "this install has no bundled updater; re-run the install script (curl -fsSL https://atelier-ws.dev/install.sh | sh) or, for cargo installs: cargo install atelier-ws --force"@
}

/// Why an update does not go through, if it does not: no updater stands
/// beside the binary, or the one that does `failed`, by its exit status.
pub fn update_refusal(present: bool, failed: &Option<String>) -> (r: Option<String>)
    ensures
        opt_text(r) == if !present {
            Some(no_updater())
        } else {
            match *failed {
                Some(status) => Some("the updater failed ("@ + status@ + ")"@),
                None => None,
            }
        },
{
    if !present {
        return Some(
            owned(
                "this install has no bundled updater; re-run the install script (curl -fsSL https://atelier-ws.dev/install.sh | sh) or, for cargo installs: cargo install atelier-ws --force",
            ),
        );
    }
    match failed {
        Some(status) => {
            let mut detail = joined("the updater failed (", status.as_str());
            detail.push_str(")");
            Some(detail)
        },
        None => None,
    }
}

// ---------------------------------------------------------------------
// Errors.

/// A failure with all that led to it as one line; a missing actor is told
/// how to be configured.
pub fn error_line(causes: &Vec<String>, no_actor: bool) -> (r: String)
    ensures
        r@ == if no_actor {
            joined_by(texts(causes@), ": "@)
                + ": create ~/.config/atelier/config.toml with [actor] name = \"you\" kind = \"human\""@
        } else {
            joined_by(texts(causes@), ": "@)
        },
{
    let mut line = join_texts(causes, ": ");
    if no_actor {
        line.push_str(
            ": create ~/.config/atelier/config.toml with [actor] name = \"you\" kind = \"human\"",
        );
    }
    line
}

/// A log shows every snapshot, or only those of the source asked for, in
/// order.
pub proof fn logs_show_their_source(
    log: Seq<(Option<Seq<char>>, SnapshotView)>,
    only: Option<Seq<char>>,
) -> (at: Seq<int>)
    ensures
        at.len() == shown(log, only).len(),
        forall|j: int, k: int| #![trigger at[j], at[k]] 0 <= j < k < at.len() ==> at[j] < at[k],
        forall|k: int|
            #![trigger at[k]]
            0 <= k < at.len() ==> 0 <= at[k] < log.len() && shown(log, only)[k] == log[at[k]],
        forall|i: int|
            0 <= i < log.len() ==> (#[trigger] at.contains(i) <==> (only is None || log[i].0
                == only)),
    decreases log.len(),
{
    if log.len() == 0 {
        Seq::empty()
    } else {
        let rest = log.drop_last();
        let before = logs_show_their_source(rest, only);
        let last = log.len() - 1;
        let at = if (only is None || log.last().0 == only) {
            before.push(last)
        } else {
            before
        };
        assert forall|k: int| #![trigger at[k]] 0 <= k < at.len() implies 0 <= at[k] < log.len()
            && shown(log, only)[k] == log[at[k]] by {
            if k < before.len() {
                assert(at[k] == before[k]);
                assert(rest[before[k]] == log[before[k]]);
            }
        }
        assert forall|j: int, k: int| #![trigger at[j], at[k]] 0 <= j < k < at.len() implies at[j]
            < at[k] by {
            assert(at[j] == before[j]);
            if k < before.len() {
                assert(at[k] == before[k]);
            }
        }
        assert forall|i: int| 0 <= i < log.len() implies (#[trigger] at.contains(i) <==> (
        only is None || log[i].0 == only)) by {
            if i < last {
                assert(rest[i] == log[i]);
                assert(before.contains(i) <==> (only is None || rest[i].0 == only));
                if before.contains(i) {
                    let k = choose|k: int| 0 <= k < before.len() && before[k] == i;
                    assert(at[k] == i);
                }
                if at.contains(i) {
                    let k = choose|k: int| 0 <= k < at.len() && at[k] == i;
                    assert(before[k] == i);
                }
            } else {
                if (only is None || log[i].0 == only) {
                    assert(at[before.len() as int] == i);
                } else if at.contains(i) {
                    let k = choose|k: int| 0 <= k < at.len() && at[k] == i;
                    assert(before[k] == i);
                }
            }
        }
        at
    }
}

/// A log's line is the snapshot, its actor, and its moment; the mount stands
/// ahead of them only where no one source was asked for.
pub proof fn mounts_are_named_in_full_logs(
    mount: Seq<char>,
    snapshot: SnapshotView,
    only: Option<Seq<char>>,
    stamp: Seq<char>,
)
    ensures
        history_text(None, snapshot, only, stamp) == printed(
            snapshot.id + "  "@ + snapshot.actor + "  "@ + stamp,
        ),
        only is Some ==> history_text(Some(mount), snapshot, only, stamp) == history_text(
            None,
            snapshot,
            only,
            stamp,
        ),
        history_text(Some(mount), snapshot, None, stamp) == printed(mount + "  "@) + history_text(
            None,
            snapshot,
            None,
            stamp,
        ),
{
    let line = snapshot.id + "  "@ + snapshot.actor + "  "@ + stamp;
    crate::render::printed_concat(mount + "  "@, line);
    assert(mount + "  "@ + line =~= (mount + "  "@) + line);
}

/// An entry shows when, who, and what, then its session, its instruction in
/// quotes, its run, and its reference, each where it has one and in that
/// order; an instruction's own words are never shown.
pub proof fn entries_show_what_they_tell(entry: EntryView, stamp: Seq<char>, words: Seq<char>)
    ensures
        ({
            let parts = entry_parts(entry, stamp);
            let s: int = if entry.session is Some {
                1
            } else {
                0
            };
            let i: int = if entry.instruction_summary is Some {
                1
            } else {
                0
            };
            let r: int = if entry.instruction_run_ref is Some {
                1
            } else {
                0
            };
            let f: int = if entry.reference is Some {
                1
            } else {
                0
            };
            &&& parts.len() == 3 + s + i + r + f
            &&& parts[0] == stamp
            &&& parts[1] == entry.actor_name + " ("@ + actor_kind_name(entry.actor_kind) + ")"@
            &&& parts[2] == act_name(entry.act)
            &&& s == 1 ==> parts[3] == entry.session->0
            &&& i == 1 ==> parts[3 + s] == "\""@ + entry.instruction_summary->0 + "\""@
            &&& r == 1 ==> parts[3 + s + i] == entry.instruction_run_ref->0
            &&& f == 1 ==> parts[3 + s + i + r] == entry.reference->0
            &&& entry_parts(
                EntryView { instruction_verbatim: Some(words), ..entry },
                stamp,
            ) == parts
        }),
{
}

/// What came of a landing is said line by line: each source landed, then each
/// parked; or how many approvals of how many there are.
pub proof fn outcomes_are_said_by_source(outcome: GateOutcome, i: int)
    ensures
        outcome matches GateOutcome::Landed { landings } ==> outcome_lines(outcome).len()
            == landings@.len() && (0 <= i < landings@.len() ==> outcome_lines(outcome)[i]
            == landing_text(landing_views(landings@)[i])),
        outcome matches GateOutcome::Parked { request, landings, parked } ==> outcome_lines(
            outcome,
        ).len() == landings@.len() + parked@.len() && (0 <= i < landings@.len()
            ==> outcome_lines(outcome)[i] == landing_text(landing_views(landings@)[i])) && (0 <= i
            < parked@.len() ==> outcome_lines(outcome)[landings@.len() + i] == parked_text(
            seq!['r'] + signed_decimal(request@.id),
            opt_text(parked@[i]),
        )),
        outcome matches GateOutcome::Pending { request, required } ==> outcome_lines(outcome).len()
            == 1 && outcome_lines(outcome)[0] == "pending: "@ + decimal(request@.approvals.len())
            + " of "@ + decimal(required as nat) + " approvals on "@ + (seq!['r']
            + signed_decimal(request@.id)),
{
}

/// What landed or was restored on a mount is said of the mount.
pub proof fn sources_are_named(mount: Seq<char>, snapshot: Seq<char>)
    ensures
        landing_text((None, snapshot)) == "landed "@ + snapshot,
        landing_text((Some(mount), snapshot)) == landing_text((None, mount + " "@ + snapshot)),
        restored_text((None, snapshot)) == "restored "@ + snapshot,
        restored_text((Some(mount), snapshot)) == restored_text((None, mount + " "@ + snapshot)),
{
    assert("landed "@ + mount + " "@ + snapshot =~= "landed "@ + (mount + " "@ + snapshot));
    assert("restored "@ + mount + " "@ + snapshot =~= "restored "@ + (mount + " "@ + snapshot));
}

/// A session's and a request's line say its name, its state, and who it is
/// of; a session's says its change, and a request's its session.
pub proof fn lines_say_who_and_where(session: SessionView, request: LandingRequestView)
    ensures
        session_text(session) == printed(
            joined_by(
                seq![
                    seq!['s'] + signed_decimal(session.id),
                    session_state_name(session.state),
                    session.actor.name + " ("@ + actor_kind_name(session.actor.kind) + ")"@,
                    session.change_id,
                ],
                "  "@,
            ),
        ),
        request_text(request) == printed(
            joined_by(
                seq![
                    seq!['r'] + signed_decimal(request.id),
                    request_state_name(request.state),
                    "session "@ + (seq!['s'] + signed_decimal(request.session_id)),
                    "by "@ + (request.requester.name + " ("@ + actor_kind_name(
                        request.requester.kind,
                    ) + ")"@),
                ],
                "  "@,
            ),
        ),
{
    reveal_strlit("  ");
    reveal_strlit(")  ");
    reveal_strlit(")");
    reveal_strlit("  session ");
    reveal_strlit("session ");
    reveal_strlit("  by ");
    reveal_strlit("by ");
    reveal_with_fuel(joined_by, 5);
    let a = seq![
        seq!['s'] + signed_decimal(session.id),
        session_state_name(session.state),
        session.actor.name + " ("@ + actor_kind_name(session.actor.kind) + ")"@,
        session.change_id,
    ];
    four_join(a[0], a[1], a[2], a[3], "  "@);
    assert(a =~= seq![a[0], a[1], a[2], a[3]]);
    assert(session_label(session.id) + "  "@ + session_state_name(session.state) + "  "@
        + session.actor.name + " ("@ + actor_kind_name(session.actor.kind) + ")  "@
        + session.change_id =~= a[0] + "  "@ + a[1] + "  "@ + a[2] + "  "@ + a[3]);
    let b = seq![
        seq!['r'] + signed_decimal(request.id),
        request_state_name(request.state),
        "session "@ + (seq!['s'] + signed_decimal(request.session_id)),
        "by "@ + (request.requester.name + " ("@ + actor_kind_name(request.requester.kind) + ")"@),
    ];
    four_join(b[0], b[1], b[2], b[3], "  "@);
    assert(b =~= seq![b[0], b[1], b[2], b[3]]);
    assert(request_label(request.id) + "  "@ + request_state_name(request.state) + "  session "@
        + session_label(request.session_id) + "  by "@ + request.requester.name + " ("@
        + actor_kind_name(request.requester.kind) + ")"@ =~= b[0] + "  "@ + b[1] + "  "@ + b[2]
        + "  "@ + b[3]);
}

/// Four texts joined.
proof fn four_join(a: Seq<char>, b: Seq<char>, c: Seq<char>, d: Seq<char>, gap: Seq<char>)
    ensures
        joined_by(seq![a, b, c, d], gap) == a + gap + b + gap + c + gap + d,
{
    assert(seq![a, b, c, d].drop_last() =~= seq![a, b, c]);
    assert(seq![a, b, c].drop_last() =~= seq![a, b]);
    assert(seq![a, b].drop_last() =~= seq![a]);
    assert(joined_by(seq![a], gap) == a);
    assert(joined_by(seq![a, b], gap) == a + gap + b);
    assert(joined_by(seq![a, b, c], gap) == a + gap + b + gap + c);
}

/// A moment is printable exactly while its year has four digits: from the
/// first second of the year 0 to the last of the year 9999.
pub proof fn four_digit_years_are_printable(at_ms: int)
    ensures
        is_printable_moment(at_ms) <==> crate::stamp::day_number(0, 1, 1) * 86400 <= at_ms / 1000
            && at_ms / 1000 < crate::stamp::day_number(10_000, 1, 1) * 86400,
{
    assert(crate::stamp::days_before_month(0, 1) == 0);
    assert(crate::stamp::days_before_month(10_000, 1) == 0);
}

/// There is a first snapshot that cannot be printed, and only one, exactly
/// where not all can.
pub proof fn one_snapshot_is_first_unprintable(
    items: Seq<(Option<Seq<char>>, SnapshotView)>,
    a: int,
    b: int,
)
    ensures
        is_first_unprintable(items, a) ==> !all_printable(items),
        is_first_unprintable(items, a) && is_first_unprintable(items, b) ==> a == b,
        is_first_unprintable(items, a) ==> forall|i: int|
            0 <= i < a ==> is_printable_moment((#[trigger] items[i]).1.at_ms),
{
    if is_first_unprintable(items, a) {
        assert(!is_printable_moment(items[a].1.at_ms));
        assert forall|i: int| 0 <= i < a implies is_printable_moment(
            (#[trigger] items[i]).1.at_ms,
        ) by {
            assert(items.take(a)[i] == items[i]);
        }
        if is_first_unprintable(items, b) {
            if a < b {
                assert(items.take(b)[a] == items[a]);
            }
            if b < a {
                assert(items.take(a)[b] == items[b]);
            }
        }
    }
}

} // verus!
