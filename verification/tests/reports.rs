//! What is printed, and what is checked before acting.

use atelier::config::{Actor, ActorKind, Source, SourceKind, SyncPolicy};
use atelier::history::{Snapshot, SourceSnapshot};
use atelier::journal::{Act, Journal, JournalEntry};
use atelier::landing::{GateOutcome, Landing, LandingRequest, RequestId, RequestState, Restore};
use atelier::model::{Address, Delta, DeltaKind, Diff, Fidelity};
use atelier::preflight::{
    Ending, GitStatus, HostedStep, LocalGitPreflight, Replicated, ServeFlags, ServeMode, StatusRecord,
    default_holder, estimate_bytes, held_by_other, hosted_ending, hosted_next, hosted_step,
    released_line,
    replication_refusal, resolve_actor_args, serve_mode, serving_line,
};
use atelier::report::{
    abandoned_line, attach_line, diff_lines_report, error_line, history_lines, init_line,
    opened_lines, pull_line, rejected_line, render_entry, render_outcome, request_lines,
    run_failed, run_holds, run_summary, session_diff_report, session_lines, sync_line, undo_lines,
    update_refusal,
};
use atelier::session::{Session, SessionId, SessionState};
use atelier::stamp::{format_rfc3339_utc, whole_seconds};
use atelier::sync::{PullOutcome, SyncOutcome};

fn agent() -> Actor {
    Actor {
        name: "scribe".to_owned(),
        kind: ActorKind::Agent,
    }
}

#[test]
fn formats_epoch_and_leap_day_as_utc() {
    assert_eq!(format_rfc3339_utc(0).unwrap(), "1970-01-01T00:00:00Z");
    assert_eq!(
        format_rfc3339_utc(951_782_400_000).unwrap(),
        "2000-02-29T00:00:00Z"
    );
}

#[test]
fn moments_round_towards_the_past_and_have_their_range() {
    assert_eq!(whole_seconds(-1), -1);
    assert_eq!(whole_seconds(-1_000), -1);
    assert_eq!(whole_seconds(1_999), 1);
    assert_eq!(format_rfc3339_utc(-1).unwrap(), "1969-12-31T23:59:59Z");
    assert_eq!(
        format_rfc3339_utc(253_402_300_799_999).unwrap(),
        "9999-12-31T23:59:59Z"
    );
    assert_eq!(
        format_rfc3339_utc(-62_167_219_200_000).unwrap(),
        "0000-01-01T00:00:00Z"
    );
    assert_eq!(
        format_rfc3339_utc(253_402_300_800_000).unwrap_err(),
        "timestamp is outside the supported range: timestamp was not in range"
    );
    assert_eq!(
        format_rfc3339_utc(-62_167_219_200_001).unwrap_err(),
        "format timestamp as rfc3339: The year component cannot be formatted into the requested format."
    );
    assert_eq!(
        format_rfc3339_utc(-377_705_116_800_000).unwrap_err(),
        "format timestamp as rfc3339: The year component cannot be formatted into the requested format."
    );
    assert_eq!(
        format_rfc3339_utc(-377_705_116_800_001).unwrap_err(),
        "timestamp is outside the supported range: timestamp was not in range"
    );
}

fn entry(at_ms: i64) -> JournalEntry {
    JournalEntry {
        at_ms,
        actor_name: "scribe".to_owned(),
        actor_kind: ActorKind::Agent,
        act: Act::SessionOpen,
        session: Some("s1".to_owned()),
        instruction_summary: Some("revise\nthe notes".to_owned()),
        instruction_run_ref: Some("bip:run/7".to_owned()),
        instruction_verbatim: Some("never printed".to_owned()),
        reference: Some("ref".to_owned()),
    }
}

#[test]
fn a_journal_line_tells_who_did_what_when() {
    assert_eq!(
        render_entry(&entry(0)).unwrap(),
        "1970-01-01T00:00:00Z  scribe (agent)  session_open  s1  \"revise\\nthe notes\"  bip:run/7  ref"
    );
    let bare = JournalEntry {
        session: None,
        instruction_summary: None,
        instruction_run_ref: None,
        instruction_verbatim: None,
        reference: None,
        ..entry(1_000)
    };
    assert_eq!(
        render_entry(&bare).unwrap(),
        "1970-01-01T00:00:01Z  scribe (agent)  session_open"
    );
    assert!(render_entry(&entry(i64::MAX)).is_err());
}

#[test]
fn the_journal_reads_newest_first() {
    let mut journal = Journal::new();
    for at in 0..5 {
        journal.append(entry(at));
    }
    let newest: Vec<i64> = journal
        .entries(2)
        .unwrap()
        .into_iter()
        .map(|entry| entry.at_ms)
        .collect();
    assert_eq!(newest, vec![4, 3]);
    assert_eq!(journal.entries(10).unwrap().len(), 5);
    assert_eq!(Act::from_text("session_open").unwrap(), Act::SessionOpen);
    assert!(Act::from_text("nothing").is_err());
}

fn listed(source: Option<&str>, id: &str) -> SourceSnapshot {
    SourceSnapshot {
        source: source.map(str::to_owned),
        snapshot: Snapshot {
            id: id.to_owned(),
            actor: "scribe".to_owned(),
            at_ms: 0,
            parents: Vec::new(),
        },
    }
}

#[test]
fn history_lists_every_source_or_one() {
    let log = vec![
        listed(None, "r1"),
        listed(Some("app"), "a1"),
        listed(Some("docs"), "d1"),
    ];
    assert_eq!(
        history_lines(&log, &None).unwrap(),
        vec![
            "r1  scribe  1970-01-01T00:00:00Z",
            "app  a1  scribe  1970-01-01T00:00:00Z",
            "docs  d1  scribe  1970-01-01T00:00:00Z",
        ]
    );
    assert_eq!(
        history_lines(&log, &Some("docs".to_owned())).unwrap(),
        vec!["d1  scribe  1970-01-01T00:00:00Z"]
    );
    assert_eq!(
        history_lines(&log, &Some("nope".to_owned())).unwrap_err(),
        "no source is mounted at \"nope\""
    );
    assert!(history_lines(&Vec::new(), &None).unwrap().is_empty());
}

fn session() -> Session {
    Session {
        id: SessionId(1),
        actor: agent(),
        state: SessionState::Open,
        change_id: "kxyz".to_owned(),
        changes: Vec::new(),
        working_copy: "/ws/.atelier/sessions/s1".to_owned(),
        instruction_summary: "revise".to_owned(),
        instruction_run_ref: None,
        opened_at_ms: 0,
    }
}

fn request(state: RequestState) -> LandingRequest {
    LandingRequest {
        id: RequestId(3),
        session_id: SessionId(1),
        requester: agent(),
        state,
        approvals: Vec::new(),
        created_at_ms: 0,
    }
}

#[test]
fn sessions_and_requests_list_as_lines() {
    assert_eq!(session_lines(&Vec::new()), vec!["no sessions"]);
    assert_eq!(
        session_lines(&vec![session()]),
        vec!["s1  open  scribe (agent)  kxyz"]
    );
    assert_eq!(request_lines(&Vec::new()), vec!["no landing requests"]);
    assert_eq!(
        request_lines(&vec![request(RequestState::Parked)]),
        vec!["r3  parked  session s1  by scribe (agent)"]
    );
    assert_eq!(
        opened_lines(&session()),
        vec![
            "opened session s1",
            "working copy /ws/.atelier/sessions/s1",
            "land with: atelier land s1",
        ]
    );
    assert_eq!(abandoned_line(SessionId(1)), "abandoned s1");
    assert_eq!(rejected_line(RequestId(3)), "rejected r3");
}

fn landing(source: Option<&str>, snapshot: &str) -> Landing {
    Landing {
        source: source.map(str::to_owned),
        snapshot: snapshot.to_owned(),
    }
}

#[test]
fn gate_outcomes_print_a_line_for_each_source() {
    assert_eq!(
        render_outcome(&GateOutcome::Landed {
            landings: vec![landing(None, "x"), landing(Some("app"), "y")]
        }),
        vec!["landed x", "landed app y"]
    );
    assert_eq!(
        render_outcome(&GateOutcome::Pending {
            request: request(RequestState::Open),
            required: 2
        }),
        vec!["pending: 0 of 2 approvals on r3"]
    );
    assert_eq!(
        render_outcome(&GateOutcome::Parked {
            request: request(RequestState::Parked),
            landings: vec![landing(None, "x")],
            parked: vec![None, Some("app".to_owned())],
        }),
        vec![
            "landed x".to_owned(),
            format!(
                "parked r3: the change conflicts with the shared line; a new snapshot re-opens the {}",
                "gate"
            ),
            format!(
                "parked r3 on app: the change conflicts with that shared line; a new snapshot re-opens the {}",
                "gate"
            ),
        ]
    );
    assert_eq!(
        undo_lines(
            &vec![
                Restore {
                    source: Some("app".to_owned()),
                    head: "h2".to_owned()
                },
                Restore {
                    source: None,
                    head: "h1".to_owned()
                },
            ],
            RequestId(3)
        ),
        vec![
            "restored app h2",
            "restored h1",
            "r3 is open again; approvals dismissed",
        ]
    );
}

#[test]
fn origins_print_what_moved() {
    let docs = Some("docs".to_owned());
    let pulled = PullOutcome::Pulled {
        snapshot: "x".to_owned(),
    };
    let synced = SyncOutcome::Synced {
        snapshot: "x".to_owned(),
    };
    let parked = SyncOutcome::Parked {
        snapshot: "x".to_owned(),
    };
    assert_eq!(pull_line(&docs, &pulled), "pulled docs x");
    assert_eq!(pull_line(&None, &pulled), "pulled x");
    assert_eq!(pull_line(&docs, &PullOutcome::Current), "already current");
    assert_eq!(sync_line(&docs, &synced), "synced docs x");
    assert_eq!(sync_line(&None, &synced), "synced x");
    assert_eq!(
        sync_line(&docs, &parked),
        "parked: the origin changed since the last sync; re-run with --force to overwrite"
    );
}

#[test]
fn diffs_print_or_say_there_are_none() {
    let empty = Diff { deltas: Vec::new() };
    assert_eq!(
        diff_lines_report(&empty),
        vec!["no changes between the two latest snapshots"]
    );
    assert_eq!(
        session_diff_report(SessionId(2), &empty),
        vec!["no changes in session s2"]
    );
    let added = Diff {
        deltas: vec![Delta {
            address: Address::new("a.txt"),
            kind: DeltaKind::Added,
            fidelity: Fidelity::Binary,
            before: None,
            after: Some("id".to_owned()),
            lines: Vec::new(),
            package: None,
            summary: None,
        }],
    };
    assert_eq!(diff_lines_report(&added), vec!["A a.txt"]);
    assert_eq!(session_diff_report(SessionId(2), &added), vec!["A a.txt"]);
}

#[test]
fn founding_and_attaching_print_where() {
    assert_eq!(
        init_line("demo", "/srv/demo"),
        "initialized workspace demo at /srv/demo"
    );
    let source = Source {
        kind: SourceKind::LocalGit,
        path: "/src/sdk".to_owned(),
        sync: SyncPolicy::TwoWay,
        mount: "sdk".to_owned(),
        branch: None,
    };
    assert_eq!(
        attach_line(&source, &Some("sdk".to_owned())),
        "attached local-git /src/sdk at sdk"
    );
    assert_eq!(attach_line(&source, &None), "attached local-git /src/sdk");
}

#[test]
fn a_failing_run_tells_where_the_work_is() {
    let command = vec!["sh".to_owned(), "-c".to_owned(), "exit 3".to_owned()];
    assert_eq!(run_summary(&None, &command), "run: sh -c exit 3");
    assert_eq!(
        run_summary(&Some("resume check".to_owned()), &command),
        "resume check"
    );
    assert_eq!(
        run_failed(SessionId(1), "exit status: 3"),
        "command failed (exit status: 3); session s1 keeps the work - land with: atelier land s1"
    );
    assert_eq!(
        run_holds(SessionId(2)),
        "session s2 holds the change; land with: atelier land s2"
    );
}

#[test]
fn errors_print_their_causes_and_the_missing_actor() {
    let causes = vec!["open".to_owned(), "no actor is configured".to_owned()];
    assert_eq!(
        error_line(&causes, false),
        "open: no actor is configured"
    );
    assert_eq!(
        error_line(&causes, true),
        "open: no actor is configured: create ~/.config/atelier/config.toml with [actor] name = \"you\" kind = \"human\""
    );
}

#[test]
fn a_git_status_reads_records_and_renames() {
    let status = GitStatus::read(b" M lib.rs\0?? scratch.bin\0R  new.rs\0old.rs\0 C copy\0from\0?? a b\0");
    assert!(!status.malformed);
    assert_eq!(
        status.records,
        vec![
            StatusRecord::Changed,
            StatusRecord::Untracked(b"scratch.bin".to_vec()),
            StatusRecord::Changed,
            StatusRecord::Changed,
            StatusRecord::Untracked(b"a b".to_vec()),
        ]
    );
    assert_eq!(status.changed(), 3);
    assert!(GitStatus::read(b"").records.is_empty());
    let broken = GitStatus::read(b" M a\0bad\0 M b\0");
    assert!(broken.malformed);
    assert_eq!(broken.changed(), 1);
    assert!(GitStatus::read(b" Mxa\0").malformed);
}

#[test]
fn dirty_sources_need_leave_to_attach() {
    let clean = LocalGitPreflight {
        head: "abc".to_owned(),
        branch: Some("main".to_owned()),
        tracked_modifications: 0,
        untracked_files: 0,
        untracked_bytes: 0,
    };
    assert!(!clean.is_dirty());
    assert_eq!(clean.check(false).unwrap(), None);
    assert_eq!(
        clean.lines(),
        vec![
            "source git: HEAD abc; branch main",
            "source git state: tracked modifications: 0; untracked files: 0; estimated untracked bytes: 0",
        ]
    );
    let dirty = LocalGitPreflight {
        branch: None,
        tracked_modifications: 1,
        untracked_files: 1,
        untracked_bytes: 6,
        ..clean
    };
    assert_eq!(
        dirty.check(false).unwrap_err(),
        "local Git source is dirty; attach a clean clone or pass --allow-dirty to adopt these changes"
    );
    assert_eq!(
        dirty.check(true).unwrap(),
        Some("warning: --allow-dirty adopts the reported tracked and untracked changes".to_owned())
    );
    assert_eq!(dirty.lines()[0], "source git: HEAD abc; branch detached");
    assert_eq!(estimate_bytes(&vec![1, 2, 3]).unwrap(), 6);
    assert_eq!(
        estimate_bytes(&vec![u64::MAX, 1]).unwrap_err(),
        "estimated untracked source bytes overflowed u64"
    );
}

#[test]
fn an_actor_is_named_whole_or_not_at_all() {
    let fallback = agent();
    let named = resolve_actor_args(
        Some("run-agent".to_owned()),
        Some(ActorKind::Automation),
        &fallback,
    )
    .unwrap();
    assert_eq!(named.name, "run-agent");
    assert_eq!(named.kind.as_str(), "automation");
    assert_eq!(resolve_actor_args(None, None, &fallback).unwrap(), fallback);
    assert_eq!(
        resolve_actor_args(Some(String::new()), Some(ActorKind::Human), &fallback).unwrap_err(),
        "actor name must not be empty"
    );
    assert_eq!(
        resolve_actor_args(None, Some(ActorKind::Human), &fallback).unwrap_err(),
        "actor name and kind must be provided together"
    );
}

#[test]
fn serving_takes_one_transport() {
    let flags = |mcp_stdio, http, hosted, holder, take_over| ServeFlags {
        mcp_stdio,
        http,
        hosted,
        holder,
        take_over,
    };
    assert_eq!(
        serve_mode(flags(true, false, false, false, false)).unwrap(),
        ServeMode::Stdio
    );
    assert_eq!(
        serve_mode(flags(false, true, false, false, false)).unwrap(),
        ServeMode::Http
    );
    assert_eq!(
        serve_mode(flags(false, true, true, true, true)).unwrap(),
        ServeMode::Hosted
    );
    assert_eq!(
        serve_mode(flags(true, true, false, false, false)).unwrap_err(),
        "atelier serve speaks one transport per process: --mcp-stdio or --http"
    );
    assert_eq!(
        serve_mode(flags(false, false, false, false, false)).unwrap_err(),
        "atelier serve requires a transport: --mcp-stdio or --http"
    );
    assert_eq!(
        serve_mode(flags(false, true, false, true, false)).unwrap_err(),
        "--holder and --take-over belong to --hosted"
    );
    assert_eq!(
        serve_mode(flags(false, false, true, false, false)).unwrap_err(),
        "a hosted workspace serves the HTTP face: --hosted needs --http"
    );
}

#[test]
fn a_hosted_node_replicates_at_its_pace() {
    assert_eq!(hosted_step(true, 9_999), HostedStep::Stop);
    assert_eq!(hosted_step(false, 4_999), HostedStep::Serve);
    assert_eq!(hosted_step(false, 5_000), HostedStep::Replicate);
    assert_eq!(replication_refusal(&Replicated::Acknowledged), None);
    assert!(
        replication_refusal(&Replicated::Deposed)
            .unwrap()
            .starts_with("deposed: ")
    );
    assert_eq!(
        replication_refusal(&Replicated::Failed("offline".to_owned())),
        Some("replication failed: offline".to_owned())
    );
    assert_eq!(
        held_by_other("other", 4),
        "the workspace is held by other at epoch 4; --take-over seizes it from a dead node"
    );
    assert_eq!(serving_line("me-1", 2), "serving as me-1 at epoch 2");
    assert_eq!(released_line(true), "released");
    assert_eq!(
        released_line(false),
        "the workspace moved on; nothing to release"
    );
    assert_eq!(default_holder(&Some("luiz".to_owned()), 7), "luiz-7");
    assert_eq!(default_holder(&None, 7), "node-7");
}

#[test]
fn a_succeeding_updater_is_no_refusal() {
    // An updater that stands there and succeeds is all an update needs.
    assert_eq!(update_refusal(true, &None), None);
}

#[test]
fn a_failing_updater_fails_the_update() {
    let failed = Some("exit status: 7".to_owned());
    let refusal = update_refusal(true, &failed).unwrap();
    assert_eq!(
        error_line(&vec![refusal], false),
        "the updater failed (exit status: 7)"
    );
}

#[test]
fn update_without_a_bundled_updater_teaches_the_install_move() {
    let refusal = update_refusal(false, &None).unwrap();
    assert_eq!(
        error_line(&vec![refusal], false),
        "this install has no bundled updater; re-run the install script \
         (curl -fsSL https://atelier-ws.dev/install.sh | sh) or, for cargo installs: \
         cargo install atelier-ws --force"
    );
}

#[test]
fn a_refused_replication_ends_hosting() {
    let refusals = [
        replication_refusal(&Replicated::Deposed),
        replication_refusal(&Replicated::Failed("offline".to_owned())),
    ];
    for refusal in refusals {
        assert_eq!(hosted_next(&refusal, false, 0), HostedStep::Stop);
        assert_eq!(hosted_next(&refusal, false, 9_999), HostedStep::Stop);
        assert_eq!(hosted_next(&refusal, true, 0), HostedStep::Stop);
        let reason = refusal.clone().unwrap();
        assert_eq!(hosted_ending(refusal), Ending::Fail(reason));
    }
    let none = replication_refusal(&Replicated::Acknowledged);
    assert_eq!(hosted_next(&none, true, 9_999), HostedStep::Stop);
    assert_eq!(hosted_next(&none, false, 4_999), HostedStep::Serve);
    assert_eq!(hosted_next(&none, false, 5_000), HostedStep::Replicate);
    assert_eq!(hosted_ending(none), Ending::Release);
}
