//! Sessions, gates, applies, and undos over one ledger.

use atelier::apply::{
    ApplyRun, LANDED_BOOKMARK, LANDING_LEASE_TTL_MS, LandOutcome, Mount, SessionTips,
    bookmark_for, judge_land, lease_holder, lease_point_of,
};
use atelier::config::{
    Actor, ActorKind, GitIdentity, InstructionFidelity, JournalPolicy, LandingPolicy, Signing,
    SigningBackend, Source, SourceKind, SyncPolicy, WorkspaceConfig, author_identity,
    checked_git_identity, configured_actor, engine_settings,
};
use atelier::coordination::{Coordination, STORE_VERSION};
use atelier::error::Error;
use atelier::gate::land_waits;
use atelier::history::Commit;
use atelier::journal::{Act, Journal};
use atelier::landing::{GateOutcome, Landing, LandingRequest, RequestId, RequestState, Restore};
use atelier::ledger::Ledger;
use atelier::opening::{session_description, session_workspace_name};
use atelier::paths::{session_file, target_of};
use atelier::session::{Instruction, SessionId, SessionState};
use atelier::undo::StepBack;

const ROOT: &str = "/ws";

fn agent() -> Actor {
    Actor {
        name: "scribe".to_owned(),
        kind: ActorKind::Agent,
    }
}

fn human() -> Actor {
    Actor {
        name: "test-actor".to_owned(),
        kind: ActorKind::Human,
    }
}

fn instruction() -> Instruction {
    Instruction {
        summary: "revise the notes".to_owned(),
        run_ref: Some("bip:run/7".to_owned()),
        verbatim: Some("please revise the notes".to_owned()),
    }
}

fn ledger() -> Ledger {
    Ledger::new(Coordination::new(), Journal::new())
}

fn open_session(ledger: &mut Ledger, mounts: &[&str]) -> SessionId {
    let policy = JournalPolicy::default();
    let id = ledger
        .begin_session(&agent(), &instruction(), &policy, 1)
        .unwrap();
    ledger.record_change(id, &None, "change-root").unwrap();
    for mount in mounts {
        ledger
            .record_change(id, &Some((*mount).to_owned()), "change-mount")
            .unwrap();
    }
    ledger
        .finish_open(ROOT, id, &agent(), &instruction(), &policy, 2)
        .unwrap()
        .id
}

fn snapshot(ledger: &mut Ledger, id: SessionId, snapshot: &str) {
    ledger.record_session_snapshots(
        id,
        &agent(),
        &vec![(None, snapshot.to_owned())],
        true,
        3,
    );
}

fn acts(ledger: &Ledger, act: Act) -> Vec<String> {
    ledger
        .journal
        .entries(100)
        .unwrap()
        .into_iter()
        .filter(|entry| entry.act == act)
        .map(|entry| entry.reference.unwrap_or_default())
        .collect()
}

fn approve(ledger: &mut Ledger, id: RequestId, approver: &Actor, tip: &str, policy: &LandingPolicy) -> Option<GateOutcome> {
    ledger.approvable(ROOT, id, approver, policy).unwrap();
    ledger.judge(id, approver, tip, policy, 5).unwrap()
}

/// Land every line of the session's request; the lines in `conflicts` park.
fn land(ledger: &mut Ledger, session: SessionId, request: RequestId, tips: &SessionTips, conflicts: &[Option<&str>]) -> GateOutcome {
    let changed = vec![true; tips.mounts.len()];
    let plan = ledger.plan_apply(request, tips, &changed);
    let mut run = ApplyRun::start(plan);
    while let Some((source, tip)) = run.next_line() {
        let holder = lease_holder(&agent(), 7);
        let epoch = ledger
            .claim_line(&source, &holder, 10, LANDING_LEASE_TTL_MS)
            .unwrap();
        let outcome = if conflicts.contains(&source.as_deref()) {
            LandOutcome::Conflicted
        } else {
            LandOutcome::Landed {
                snapshot: format!("landed-{tip}"),
            }
        };
        ledger
            .fence_line(&source, &holder, epoch, 11, LANDING_LEASE_TTL_MS)
            .unwrap();
        ledger
            .record_line(request, session, &source, &outcome, &agent(), 12)
            .unwrap();
        run.note(&outcome);
        ledger.release_line(&source, &holder, epoch).unwrap();
    }
    ledger
        .settle(request, session, run.into_parked())
        .unwrap()
}

fn tips(root: &str, mounts: &[(&str, &str)]) -> SessionTips {
    SessionTips {
        root: root.to_owned(),
        mounts: mounts
            .iter()
            .map(|(name, tip)| ((*name).to_owned(), (*tip).to_owned()))
            .collect(),
    }
}

#[test]
fn a_session_opens_attributed_and_summarised() {
    let mut ledger = ledger();
    let id = open_session(&mut ledger, &["app"]);
    assert_eq!(id.to_text(), "s1");
    assert_eq!(SessionId::from_text("s1").unwrap(), id);
    let session = ledger.session(ROOT, id).unwrap();
    assert_eq!(session.working_copy, "/ws/.atelier/sessions/s1");
    assert_eq!(session.changes.len(), 2);
    assert_eq!(session.state, SessionState::Open);
    assert_eq!(session_workspace_name(id), "session-s1");
    assert_eq!(
        session_description("revise the notes", id),
        "revise the notes\n\nAtelier-Session: s1"
    );
    let entry = &ledger.journal.entries(1).unwrap()[0];
    assert_eq!(entry.act, Act::SessionOpen);
    assert_eq!(entry.session, Some("s1".to_owned()));
    // The default policy keeps no verbatim body.
    assert_eq!(entry.instruction_verbatim, None);
    assert_eq!(entry.instruction_run_ref, Some("bip:run/7".to_owned()));
}

#[test]
fn an_audit_profile_keeps_the_verbatim_instruction() {
    let mut ledger = ledger();
    let policy = JournalPolicy {
        instruction_fidelity: InstructionFidelity::Verbatim,
    };
    let id = ledger
        .begin_session(&agent(), &instruction(), &policy, 1)
        .unwrap();
    ledger.record_change(id, &None, "c").unwrap();
    ledger
        .finish_open(ROOT, id, &agent(), &instruction(), &policy, 2)
        .unwrap();
    assert_eq!(
        ledger.journal.entries(1).unwrap()[0].instruction_verbatim,
        Some("please revise the notes".to_owned())
    );
}

#[test]
fn a_session_without_its_change_reads_as_failed() {
    let mut ledger = ledger();
    let id = ledger
        .begin_session(&agent(), &instruction(), &JournalPolicy::default(), 1)
        .unwrap();
    let error = ledger.session(ROOT, id).unwrap_err();
    assert_eq!(
        error.message(),
        "engine error: session s1 has no change; its bootstrap failed"
    );
    ledger.cancel_session(id);
    assert!(matches!(
        ledger.session(ROOT, id),
        Err(Error::SessionNotFound(label)) if label == "s1"
    ));
}

#[test]
fn a_landing_goes_through_its_gate() {
    let mut ledger = ledger();
    let session = open_session(&mut ledger, &[]);
    snapshot(&mut ledger, session, "tip");
    let request = ledger.request_land(session, 4).unwrap();
    assert_eq!(request.id.to_text(), "r1");
    // Asking again returns the request already holding the landing gate.
    assert_eq!(
        ledger.request_land(session, 4).unwrap().id,
        request.id
    );
    let policy = LandingPolicy::default();
    assert_eq!(
        approve(&mut ledger, request.id, &agent(), "tip", &policy),
        None
    );
    let outcome = land(&mut ledger, session, request.id, &tips("tip", &[]), &[]);
    assert_eq!(
        outcome,
        GateOutcome::Landed {
            landings: vec![Landing {
                source: None,
                snapshot: "landed-tip".to_owned()
            }]
        }
    );
    assert_eq!(
        ledger.request(request.id).unwrap().state,
        RequestState::Landed
    );
    assert_eq!(
        ledger.session(ROOT, session).unwrap().state,
        SessionState::Landed
    );
    assert_eq!(acts(&ledger, Act::Approve), vec!["r1 tip".to_owned()]);
    assert_eq!(acts(&ledger, Act::Land), vec!["r1 landed-tip".to_owned()]);
}

#[test]
fn two_approvals_take_two_approvers_and_a_snapshot_starts_over() {
    let mut ledger = ledger();
    let policy = LandingPolicy {
        approvals: 2,
        allow_self_approve: true,
        dismiss_approvals_on_new_snapshots: true,
    };
    let session = open_session(&mut ledger, &[]);
    let request = ledger.request_land(session, 4).unwrap();

    for _ in 0..2 {
        // The same approver twice is still one of two.
        let outcome = approve(&mut ledger, request.id, &human(), "first", &policy);
        let Some(GateOutcome::Pending { request, required }) = outcome else {
            panic!("one of two approvals must stay pending");
        };
        assert!(!request.approvals.is_empty());
        assert_eq!(required, 2);
    }

    // A new snapshot on the change dismisses the approvals.
    snapshot(&mut ledger, session, "second");
    let reopened = ledger.request(request.id).unwrap();
    assert_eq!(reopened.state, RequestState::Open);
    assert_eq!(reopened.approvals.len(), 0);
    assert_eq!(
        acts(&ledger, Act::ApprovalsDismissed),
        vec!["r1 second".to_owned()]
    );

    // The landing gate starts over: two fresh approvals satisfy it.
    assert!(matches!(
        approve(&mut ledger, request.id, &human(), "second", &policy),
        Some(GateOutcome::Pending { .. })
    ));
    assert_eq!(
        approve(&mut ledger, request.id, &agent(), "second", &policy),
        None
    );
}

#[test]
fn self_approval_is_forbidden_where_policy_says_so() {
    let mut ledger = ledger();
    let policy = LandingPolicy {
        approvals: 1,
        allow_self_approve: false,
        dismiss_approvals_on_new_snapshots: true,
    };
    let session = open_session(&mut ledger, &[]);
    let request = ledger.request_land(session, 4).unwrap();
    assert!(matches!(
        ledger.approvable(ROOT, request.id, &agent(), &policy),
        Err(Error::SelfApprovalForbidden)
    ));
    assert!(ledger.approvable(ROOT, request.id, &human(), &policy).is_ok());
    // Landing directly then waits for other approvers.
    assert!(matches!(
        land_waits(request.clone(), &policy),
        Some(GateOutcome::Pending { required: 1, .. })
    ));
    assert_eq!(land_waits(request, &LandingPolicy::default()), None);
}

#[test]
fn a_conflicted_line_parks_and_a_retry_repeats_nothing() {
    let mut ledger = ledger();
    let session = open_session(&mut ledger, &["aa", "bb"]);
    let request = ledger.request_land(session, 4).unwrap();
    let policy = LandingPolicy::default();
    approve(&mut ledger, request.id, &agent(), "tip", &policy);
    let all = tips("tip", &[("aa", "tip-a"), ("bb", "tip-b")]);
    let outcome = land(&mut ledger, session, request.id, &all, &[Some("aa")]);
    let GateOutcome::Parked {
        request: parked_request,
        landings,
        parked,
    } = outcome
    else {
        panic!("a conflict must park");
    };
    assert_eq!(parked_request.state, RequestState::Parked);
    assert_eq!(landings.len(), 2);
    assert_eq!(parked, vec![Some("aa".to_owned())]);
    assert_eq!(acts(&ledger, Act::LandParked), vec!["aa r1".to_owned()]);
    assert!(matches!(
        ledger.approvable(ROOT, request.id, &agent(), &policy),
        Err(Error::RequestParked(id)) if id == "r1"
    ));

    // A new snapshot re-opens the landing gate; the retry lands what remains.
    ledger.record_session_snapshots(
        session,
        &agent(),
        &vec![(Some("aa".to_owned()), "fixed".to_owned())],
        true,
        6,
    );
    approve(&mut ledger, request.id, &agent(), "tip", &policy);
    let all = tips("tip", &[("aa", "fixed"), ("bb", "tip-b")]);
    assert_eq!(
        ledger.plan_apply(request.id, &all, &vec![true, true]),
        vec![(Some("aa".to_owned()), "fixed".to_owned())]
    );
    let outcome = land(&mut ledger, session, request.id, &all, &[]);
    let GateOutcome::Landed { landings } = outcome else {
        panic!("the retry must land");
    };
    assert_eq!(landings.len(), 3);
    assert_eq!(landings[0].source, None);
}

#[test]
fn untouched_mounts_do_not_land() {
    let mut ledger = ledger();
    let session = open_session(&mut ledger, &["aa", "bb"]);
    let request = ledger.request_land(session, 4).unwrap();
    let all = tips("tip", &[("aa", "tip-a"), ("bb", "tip-b")]);
    assert_eq!(
        ledger.plan_apply(request.id, &all, &vec![false, true]),
        vec![
            (None, "tip".to_owned()),
            (Some("bb".to_owned()), "tip-b".to_owned()),
        ]
    );
    assert_eq!(all.tip_of(&Some("bb".to_owned())), "tip-b");
    assert_eq!(all.tip_of(&None), "tip");
}

#[test]
fn lines_take_their_own_leases() {
    let mut ledger = ledger();
    assert_eq!(lease_point_of(&None), "landing");
    assert_eq!(lease_point_of(&Some("aa".to_owned())), "landing/aa");
    let holder = lease_holder(&human(), 42);
    assert_eq!(holder, "test-actor:42");
    let epoch = ledger.claim_line(&None, &holder, 0, 100).unwrap();
    assert!(ledger.claim_line(&Some("aa".to_owned()), "other:1", 0, 100).is_ok());
    let refused = ledger.claim_line(&None, "other:1", 50, 100).unwrap_err();
    assert_eq!(
        refused.message(),
        "the landing lease is held by test-actor:42 until 100"
    );
    // Another claim after expiry supersedes the first tenancy's fence.
    ledger.claim_line(&None, "other:1", 200, 100).unwrap();
    let refused = ledger.fence_line(&None, &holder, epoch, 210, 100).unwrap_err();
    assert_eq!(
        refused.message(),
        "the landing lease for \"landing\" was superseded before anything published; rerun the operation"
    );
}

#[test]
fn landings_move_the_adopted_branch_or_the_bookmark() {
    let mounts = vec![
        Mount {
            name: "aa".to_owned(),
            branch: Some("main".to_owned()),
        },
        Mount {
            name: "bb".to_owned(),
            branch: None,
        },
    ];
    assert_eq!(
        bookmark_for(&mounts, &Some("aa".to_owned())).unwrap(),
        "main"
    );
    assert_eq!(
        bookmark_for(&mounts, &Some("bb".to_owned())).unwrap(),
        LANDED_BOOKMARK
    );
    assert_eq!(bookmark_for(&mounts, &None).unwrap(), "atelier");
    assert_eq!(
        bookmark_for(&mounts, &Some("cc".to_owned()))
            .unwrap_err()
            .message(),
        "engine error: no source is mounted at \"cc\""
    );
}

#[test]
fn abandon_closes_the_session_and_its_request() {
    let mut ledger = ledger();
    let session = open_session(&mut ledger, &[]);
    snapshot(&mut ledger, session, "draft");
    let request = ledger.request_land(session, 4).unwrap();

    let abandoned = ledger.abandon(ROOT, session, 5).unwrap();
    assert_eq!(abandoned.state, SessionState::Abandoned);
    assert_eq!(
        ledger.request(request.id).unwrap().state,
        RequestState::Abandoned
    );
    // The session is closed for new work.
    let refused = ledger.open_session_only(ROOT, session);
    assert!(matches!(refused, Err(Error::SessionClosed { .. })));
    assert_eq!(acts(&ledger, Act::SessionAbandon), vec!["r1".to_owned()]);
}

#[test]
fn a_rejected_request_closes_and_a_new_one_can_open() {
    let mut ledger = ledger();
    let session = open_session(&mut ledger, &[]);
    snapshot(&mut ledger, session, "draft");
    let request = ledger.request_land(session, 4).unwrap();

    let rejected = ledger
        .reject(
            request.id,
            &human(),
            &Some("needs a second pass".to_owned()),
            5,
        )
        .unwrap();
    assert_eq!(rejected.state, RequestState::Rejected);
    let refused = ledger.approvable(ROOT, request.id, &human(), &LandingPolicy::default());
    assert!(matches!(refused, Err(Error::RequestClosed { .. })));
    assert_eq!(
        acts(&ledger, Act::Reject),
        vec!["r1 needs a second pass".to_owned()]
    );

    // The session stays open; asking to land opens a fresh request.
    let second = ledger.request_land(session, 6).unwrap();
    assert_ne!(second.id, request.id);
    assert_eq!(second.state, RequestState::Open);
}

#[test]
fn session_paths_never_leave_the_working_copy() {
    let mut ledger = ledger();
    let id = open_session(&mut ledger, &["app"]);
    let session = ledger.open_session_only(ROOT, id).unwrap();

    let climb = session_file(&session.working_copy, "../escape.txt");
    assert!(matches!(climb, Err(Error::PathOutsideWorkingCopy(_))));
    let absolute = session_file(&session.working_copy, "/etc/hosts");
    assert!(matches!(absolute, Err(Error::PathOutsideWorkingCopy(_))));
    let empty = session_file(&session.working_copy, "");
    assert!(matches!(empty, Err(Error::PathOutsideWorkingCopy(_))));
    assert_eq!(
        session_file(&session.working_copy, "./a/../b").unwrap_err().message(),
        "path ./a/../b leaves the session working copy"
    );
    assert_eq!(
        session_file(&session.working_copy, "a/b.txt").unwrap(),
        "/ws/.atelier/sessions/s1/a/b.txt"
    );

    // A mount's name leads a path into that mount.
    let mounts = vec!["app".to_owned()];
    assert_eq!(
        target_of(&mounts, "app/src/main.rs"),
        (Some("app".to_owned()), "src/main.rs".to_owned())
    );
    assert_eq!(target_of(&mounts, "app/"), (None, "app/".to_owned()));
    assert_eq!(target_of(&mounts, "app"), (None, "app".to_owned()));
    assert_eq!(
        target_of(&mounts, "other/x"),
        (None, "other/x".to_owned())
    );
}

fn landed(ledger: &mut Ledger, mounts: &[(&str, &str)]) -> (SessionId, RequestId) {
    let names: Vec<&str> = mounts.iter().map(|(name, _)| *name).collect();
    let session = open_session(ledger, &names);
    let request = ledger.request_land(session, 4).unwrap();
    approve(ledger, request.id, &agent(), "tip", &LandingPolicy::default());
    land(ledger, session, request.id, &tips("tip", mounts), &[]);
    (session, request.id)
}

#[test]
fn only_a_landed_request_undoes() {
    let mut ledger = ledger();
    let session = open_session(&mut ledger, &[]);
    let request = ledger.request_land(session, 4).unwrap();

    let error = ledger.undoable(request.id).unwrap_err();
    assert!(
        matches!(&error, Error::Config(message) if message.contains("only a landed request")),
        "got: {error:?}"
    );

    let error = ledger
        .undoable(RequestId::from_text("r9").unwrap())
        .unwrap_err();
    assert!(
        matches!(&error, Error::RequestNotFound(_)),
        "got: {error:?}"
    );
}

fn undo(ledger: &mut Ledger, id: RequestId) -> Vec<Restore> {
    let (session, landings) = ledger.undoable(id).unwrap();
    let mut restores = Vec::new();
    for landing in landings {
        let step = StepBack::Stepped {
            restored: "base".to_owned(),
        };
        restores.push(
            ledger
                .record_step(id, session, &landing, &step, "base", &agent(), 20)
                .unwrap(),
        );
    }
    ledger.reopen(id, session);
    restores
}

#[test]
fn an_undo_steps_the_mounts_back_before_the_root() {
    let mut ledger = ledger();
    let (session, id) = landed(&mut ledger, &[("aa", "a"), ("bb", "b")]);
    let restores = undo(&mut ledger, id);
    let sources: Vec<Option<String>> =
        restores.into_iter().map(|restore| restore.source).collect();
    assert_eq!(
        sources,
        vec![Some("bb".to_owned()), Some("aa".to_owned()), None]
    );
    let request = ledger.request(id).unwrap();
    assert_eq!(request.state, RequestState::Open);
    assert_eq!(request.approvals.len(), 0);
    assert_eq!(
        ledger.session(ROOT, session).unwrap().state,
        SessionState::Open
    );
    assert_eq!(
        acts(&ledger, Act::Undo),
        vec![
            "r1 base".to_owned(),
            "aa r1 base".to_owned(),
            "bb r1 base".to_owned(),
        ]
    );
    // Nothing of the landing is recorded any more: it can land again.
    assert_eq!(
        ledger
            .plan_apply(id, &tips("tip", &[]), &Vec::new())
            .len(),
        1
    );
}

#[test]
fn a_line_that_moved_past_its_landing_refuses() {
    let mut ledger = ledger();
    let (session, id) = landed(&mut ledger, &[]);
    let landing = Landing {
        source: None,
        snapshot: "landed-tip".to_owned(),
    };
    let error = ledger
        .record_step(
            id,
            session,
            &landing,
            &StepBack::LineMoved {
                head: "later".to_owned(),
            },
            "later",
            &agent(),
            20,
        )
        .unwrap_err();
    assert!(
        matches!(&error, Error::Config(message) if message.contains("moved past r1")),
        "got: {error:?}"
    );
    assert_eq!(
        ledger.request(id).unwrap().state,
        RequestState::Landed
    );
}

#[test]
fn an_abandoned_session_keeps_the_undone_request_closed() {
    let mut ledger = ledger();
    let (session, id) = landed(&mut ledger, &[]);
    undo(&mut ledger, id);
    ledger.abandon(ROOT, session, 30).unwrap();

    // The abandonment closed the re-opened gate for good.
    let error = ledger
        .approvable(ROOT, id, &agent(), &LandingPolicy::default())
        .unwrap_err();
    assert!(
        matches!(&error, Error::RequestClosed { state, .. } if state == "abandoned"),
        "got: {error:?}"
    );
}

#[test]
fn a_superseded_holder_neither_steps_nor_classifies() {
    let mut ledger = ledger();
    let commit = Commit {
        id: "landed".to_owned(),
        tree: "t".to_owned(),
        parents: vec!["parent".to_owned()],
        author: "a".to_owned(),
        at_ms: 0,
    };
    let epoch = ledger.claim_line(&None, "one", 0, 100).unwrap();
    ledger.claim_line(&None, "two", 200, 100).unwrap();
    for head in ["landed", "parent"] {
        let error = ledger
            .judge_step_back(&None, "one", epoch, 210, 100, head, &commit)
            .unwrap_err();
        assert!(
            matches!(error, Error::LeaseSuperseded { .. }),
            "got: {error:?}"
        );
    }
    let judge = |ledger: &mut Ledger, head: &str| {
        ledger
            .judge_step_back(&None, "two", epoch + 1, 220, 100, head, &commit)
            .unwrap()
    };
    assert_eq!(
        judge(&mut ledger, "landed"),
        StepBack::Stepped {
            restored: "parent".to_owned()
        }
    );
    assert_eq!(judge(&mut ledger, "parent"), StepBack::AlreadyStepped);
    assert_eq!(
        judge(&mut ledger, "later"),
        StepBack::LineMoved {
            head: "later".to_owned()
        }
    );
    let root = Commit {
        parents: Vec::new(),
        ..commit
    };
    assert_eq!(
        ledger
            .judge_step_back(&None, "two", epoch + 1, 220, 100, "landed", &root)
            .unwrap_err()
            .message(),
        "engine error: the landed snapshot landed has no parent to step back to"
    );
}

#[test]
fn without_an_identity_the_synthetic_address_stands_unsigned() {
    let actor = human();
    let (name, address) = author_identity(&actor, &None);
    let settings = engine_settings(&actor, &None);
    assert_eq!(
        format!("{name} {address} {} {}", settings.name, settings.email),
        "test-actor test-actor@atelier.local test-actor test-actor@atelier.local"
    );
    assert_eq!(settings.signing, None);
}

#[test]
fn an_identity_signs_for_everyone_and_authors_for_the_human() {
    let identity = Some(GitIdentity {
        name: "Owner".to_owned(),
        email: "owner@example.com".to_owned(),
        signing: Some(Signing {
            backend: SigningBackend::Ssh,
            key: "~/.ssh/id".to_owned(),
        }),
    });
    assert_eq!(
        author_identity(&human(), &identity),
        ("Owner".to_owned(), "owner@example.com".to_owned())
    );
    assert_eq!(
        author_identity(&agent(), &identity),
        ("scribe".to_owned(), "scribe@atelier.local".to_owned())
    );
    let settings = engine_settings(&agent(), &identity);
    assert_eq!(settings.email, "owner@example.com");
    let signing = settings.signing.unwrap();
    assert_eq!(signing.backend, "ssh");
    assert_eq!(signing.behavior, "force");
    assert_eq!(signing.key, "~/.ssh/id");
}

#[test]
fn an_empty_publishing_email_refuses() {
    let Err(error) = checked_git_identity(Some(GitIdentity {
        name: "Luiz Parreira".to_owned(),
        email: String::new(),
        signing: None,
    })) else {
        panic!("an empty git.email must refuse");
    };
    assert_eq!(
        error.message(),
        "config error: git.email must not be empty"
    );
}

#[test]
fn missing_actor_config_is_reported() {
    let result = configured_actor(None);

    assert!(matches!(result, Err(Error::NoActorConfigured)));
}

#[test]
fn the_manifest_shows_what_a_workspace_is() {
    let mut ledger = ledger();
    let session = open_session(&mut ledger, &["app"]);
    let mut config = WorkspaceConfig::new("demo".to_owned());
    let heads = vec![("app".to_owned(), "h2".to_owned())];
    assert!(
        ledger
            .manifest(ROOT, &config, "h1", &Vec::new())
            .unwrap()
            .contains("sources:\n  (none)\n")
    );
    config.sources.push(Source {
        kind: SourceKind::LocalFolder,
        path: "/src/app".to_owned(),
        sync: SyncPolicy::TwoWay,
        mount: "app".to_owned(),
        branch: None,
    });
    assert_eq!(
        ledger.manifest(ROOT, &config, "h1", &heads).unwrap(),
        "workspace: demo\n\
         schema: 1\n\
         \n\
         sources:\n\
         \x20 app  local-folder  /src/app  two-way\n\
         \n\
         discipline:\n\
         \x20 approvals: 1  self-approval: allowed  snapshots dismiss approvals: yes\n\
         \x20 instructions: summary\n\
         \n\
         state:\n\
         \x20 head: h1\n\
         \x20 head app: h2\n\
         \x20 open sessions: s1\n\
         \x20 live requests: none\n\
         \n\
         the loop:\n\
         \x20 open_session -> write -> diff -> land (or request_land + approve)\n\
         \x20 mount-scoped paths address sources; editing never takes the landing lease"
    );
    let second = open_session(&mut ledger, &["app"]);
    ledger.request_land(session, 4).unwrap();
    ledger.request_land(second, 5).unwrap();
    assert_eq!(
        ledger.status(ROOT, "h1", &heads).unwrap(),
        "head: h1\nhead app: h2\nopen sessions: s1, s2\nlive requests: r1 (open), r2 (open)"
    );
}

#[test]
fn every_error_speaks_for_itself() {
    let reopens = format!(
        "landing request r1 is parked on a conflict; a new snapshot on its change re-opens the {}",
        "gate"
    );
    let cases: Vec<(Error, &str)> = vec![
        (
            Error::SessionClosed {
                id: "s1".to_owned(),
                state: "landed".to_owned(),
            },
            "session s1 is landed",
        ),
        (
            Error::RequestParked("r1".to_owned()),
            &reopens,
        ),
        (
            Error::ApprovalsDismissed {
                new_snapshot: "abc".to_owned(),
            },
            "approvals were dismissed: the change has a new snapshot abc",
        ),
        (
            Error::GitFoldConflicted {
                branch: "main".to_owned(),
            },
            "the git branch \"main\" moved out of band and its changes conflict with the line; make the working copy agree with the branch (or move the branch), then retry",
        ),
        (Error::Io("gone".to_owned()), "i/o error"),
        (Error::NoActorConfigured, "no actor is configured"),
    ];
    for (error, text) in cases {
        assert_eq!(error.message(), text);
    }
    let request: Result<LandingRequest, Error> = ledger().request(RequestId(3));
    assert_eq!(request.unwrap_err().message(), "no landing request r3");
}

#[test]
fn an_undone_landing_lands_again() {
    let mut ledger = ledger();
    let (session, request) = landed(&mut ledger, &[]);
    undo(&mut ledger, request);
    assert_eq!(ledger.session("/w", session).unwrap().state, SessionState::Open);
    let policy = LandingPolicy::default();
    assert_eq!(approve(&mut ledger, request, &agent(), "tip", &policy), None);
    let outcome = land(&mut ledger, session, request, &tips("tip", &[]), &[]);
    assert!(matches!(outcome, GateOutcome::Landed { .. }), "got: {outcome:?}");
    assert_eq!(ledger.request(request).unwrap().state, RequestState::Landed);
    assert_eq!(ledger.session("/w", session).unwrap().state, SessionState::Landed);
}

#[test]
fn a_failed_bootstrap_takes_the_session_back() {
    let mut ledger = ledger();
    let id = ledger
        .begin_session(&agent(), &instruction(), &JournalPolicy::default(), 1)
        .unwrap();
    ledger.settle_change(id, &None, Ok("root".to_owned())).unwrap();
    ledger
        .settle_change(id, &Some("docs".to_owned()), Ok("docs-change".to_owned()))
        .unwrap();
    let session = ledger.session(ROOT, id).unwrap();
    assert_eq!(session.change_id, "root");
    assert_eq!(session.changes.len(), 2);
    assert_eq!(session.changes[0].source, None);
    assert_eq!(session.changes[1].source.as_deref(), Some("docs"));
    assert_eq!(session.changes[1].change_id, "docs-change");

    let failed = Err(Error::Engine("disk full".to_owned()));
    let error = ledger
        .settle_change(id, &Some("sdk".to_owned()), failed)
        .unwrap_err();
    assert_eq!(error, Error::Engine("disk full".to_owned()));
    assert!(matches!(ledger.session(ROOT, id), Err(Error::SessionNotFound(_))));
    // The id is never given again.
    let next = ledger
        .begin_session(&agent(), &instruction(), &JournalPolicy::default(), 2)
        .unwrap();
    assert_eq!(next.0, id.0 + 1);
}

#[test]
fn the_journal_only_grows() {
    let mut ledger = ledger();
    let mut told = ledger.journal.entries(100).unwrap();
    let mut keeps = |ledger: &Ledger| {
        let now = ledger.journal.entries(100).unwrap();
        assert!(now.len() >= told.len());
        assert_eq!(now[now.len() - told.len()..], told[..]);
        told = now;
    };
    let session = open_session(&mut ledger, &["docs"]);
    keeps(&ledger);
    snapshot(&mut ledger, session, "tip");
    keeps(&ledger);
    let request = ledger.request_land(session, 4).unwrap().id;
    keeps(&ledger);
    approve(&mut ledger, request, &agent(), "tip", &LandingPolicy::default());
    keeps(&ledger);
    land(&mut ledger, session, request, &tips("tip", &[("docs", "d")]), &[]);
    keeps(&ledger);
    undo(&mut ledger, request);
    keeps(&ledger);
    ledger.reject(request, &human(), &None, 9).unwrap();
    keeps(&ledger);
    ledger.abandon(ROOT, session, 10).unwrap();
    keeps(&ledger);
    let acts: Vec<&str> = told.iter().map(|entry| entry.act.as_str()).collect();
    assert_eq!(
        acts,
        vec![
            "session_abandon",
            "reject",
            "undo",
            "undo",
            "land",
            "land",
            "approve",
            "land_request",
            "snapshot",
            "session_open",
        ]
    );
}

#[test]
fn a_superseded_landing_reports_nothing() {
    let superseded = || Error::LeaseSuperseded {
        point: "landing".to_owned(),
    };
    assert_eq!(
        judge_land(Ok(()), false, "r1".to_owned()).unwrap(),
        LandOutcome::Landed {
            snapshot: "r1".to_owned()
        }
    );
    assert_eq!(
        judge_land(Ok(()), true, "r1".to_owned()).unwrap(),
        LandOutcome::Conflicted
    );
    for conflicted in [false, true] {
        assert!(matches!(
            judge_land(Err(superseded()), conflicted, "r1".to_owned()).unwrap_err(),
            Error::LeaseSuperseded { .. }
        ));
    }
}

#[test]
fn only_an_open_session_asks_to_land() {
    let mut ledger = ledger();
    // No such session: nothing is stored and nothing is journaled.
    assert!(matches!(
        ledger.request_land(SessionId(1), 4).unwrap_err(),
        Error::SessionNotFound(id) if id == "s1"
    ));
    assert!(matches!(
        ledger.abandon(ROOT, SessionId(1), 4).unwrap_err(),
        Error::SessionNotFound(id) if id == "s1"
    ));
    assert!(ledger.landing_requests().is_empty());
    assert!(ledger.journal.entries(100).unwrap().is_empty());

    // An open one asks as its own actor.
    let session = open_session(&mut ledger, &[]);
    let request = ledger.request_land(session, 4).unwrap();
    assert_eq!(request.requester, agent());

    // A closed one refuses by name, and its request stays as it was.
    ledger.abandon(ROOT, session, 5).unwrap();
    let told = ledger.journal.entries(100).unwrap();
    for refused in [
        ledger.request_land(session, 6).map(|_| ()),
        ledger.abandon(ROOT, session, 7).map(|_| ()),
    ] {
        assert!(matches!(
            refused.unwrap_err(),
            Error::SessionClosed { id, state } if id == "s1" && state == "abandoned"
        ));
    }
    assert_eq!(ledger.landing_requests().len(), 1);
    assert_eq!(
        ledger.request(request.id).unwrap().state,
        RequestState::Abandoned
    );
    assert_eq!(ledger.journal.entries(100).unwrap(), told);
}

#[test]
fn a_session_that_is_not_open_leaves_its_request_alone() {
    // A stored request that still holds the landing gate of a session that closed.
    let mut before = ledger();
    let session = open_session(&mut before, &[]);
    let request = before.request_land(session, 4).unwrap().id;
    let mut rows = before.store.into_rows();
    rows.sessions[0].state = SessionState::Landed;
    let store = Coordination::open(STORE_VERSION, rows).unwrap();
    let mut ledger = Ledger::new(store, Journal::new());

    let policy = LandingPolicy::default();
    for refused in [
        ledger.request_land(session, 5).map(|_| ()),
        ledger.abandon(ROOT, session, 5).map(|_| ()),
        ledger.judge(request, &human(), "tip", &policy, 5).map(|_| ()),
    ] {
        assert!(matches!(
            refused.unwrap_err(),
            Error::SessionClosed { state, .. } if state == "landed"
        ));
    }
    let kept = ledger.request(request).unwrap();
    assert_eq!(kept.state, RequestState::Open);
    assert!(kept.approvals.is_empty());
    assert!(ledger.journal.entries(100).unwrap().is_empty());
}

#[test]
fn a_forbidden_self_approval_records_nothing() {
    let mut ledger = ledger();
    let session = open_session(&mut ledger, &[]);
    let request = ledger.request_land(session, 4).unwrap().id;
    let policy = LandingPolicy {
        allow_self_approve: false,
        ..LandingPolicy::default()
    };
    assert!(matches!(
        ledger.judge(request, &agent(), "tip", &policy, 5).unwrap_err(),
        Error::SelfApprovalForbidden
    ));
    assert!(ledger.request(request).unwrap().approvals.is_empty());
    assert!(acts(&ledger, Act::Approve).is_empty());
    assert!(ledger.judge(request, &human(), "tip", &policy, 6).unwrap().is_none());
}
