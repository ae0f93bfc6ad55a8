//! Lines: logs, snapshots, folds, and watching.

use atelier::config::{Actor, ActorKind};
use atelier::coordination::Coordination;
use atelier::error::Error;
use atelier::fold::{
    ContentScan, FOLD_SCAN_MAX, FoldFacts, FoldStep, GitFold, fold_conflict, fold_merge,
    fold_outcome, fold_yields, line_target,
};
use atelier::history::{
    Commit, LogWalk, Snapshot, SnapshotStyle, adoption_commit, check_export, diff_base, fold_commit,
    head_raced, parent_of, plan_snapshot, session_commit, snapshot_bytes, tree_changed, workspace_log,
};
use atelier::journal::{Act, Journal};
use atelier::ledger::Ledger;
use atelier::watch::{Heard, WatchEvent, WatchLoop, WatchStep, WatchStop, event_is_content};

fn commit(id: &str, tree: &str, parents: &[&str]) -> Commit {
    Commit {
        id: id.to_owned(),
        tree: tree.to_owned(),
        parents: parents.iter().map(|parent| (*parent).to_owned()).collect(),
        author: "scribe".to_owned(),
        at_ms: 1_000,
    }
}

#[test]
fn a_log_lists_first_parents_newest_first() {
    let history = [
        commit("c", "t3", &["b", "side"]),
        commit("b", "t2", &["root", "a"]),
        commit("a", "t1", &["root"]),
    ];
    let list = |limit: usize| {
        let mut walk = LogWalk::start("c", "root", limit);
        while let Some(id) = walk.next() {
            let found = history.iter().find(|commit| commit.id == id).unwrap();
            walk.list(found);
        }
        walk.into_listed()
    };
    let all = list(10);
    let ids: Vec<&str> = all.iter().map(|snapshot| snapshot.id.as_str()).collect();
    assert_eq!(ids, vec!["c", "b", "a"]);
    assert_eq!(all[0].parents, vec!["b".to_owned(), "side".to_owned()]);
    assert_eq!(all[1].parents, vec!["a".to_owned()]);
    assert!(all[2].parents.is_empty());
    assert_eq!(list(2), all[..2].to_vec());
    assert!(list(0).is_empty());
    assert_eq!(diff_base(&history[1], "root"), Some("a".to_owned()));
    assert_eq!(diff_base(&history[2], "root"), None);
}

#[test]
fn the_root_lists_before_the_mounts() {
    let snapshot = |id: &str| Snapshot {
        id: id.to_owned(),
        actor: "scribe".to_owned(),
        at_ms: 0,
        parents: Vec::new(),
    };
    let log = workspace_log(
        vec![snapshot("r2"), snapshot("r1")],
        vec![
            ("aa".to_owned(), vec![snapshot("a1")]),
            ("bb".to_owned(), Vec::new()),
            ("cc".to_owned(), vec![snapshot("c2"), snapshot("c1")]),
        ],
    );
    let listed: Vec<(Option<&str>, &str)> = log
        .iter()
        .map(|item| (item.source.as_deref(), item.snapshot.id.as_str()))
        .collect();
    assert_eq!(
        listed,
        vec![
            (None, "r2"),
            (None, "r1"),
            (Some("aa"), "a1"),
            (Some("cc"), "c2"),
            (Some("cc"), "c1"),
        ]
    );
}

#[test]
fn snapshots_stack_on_lines_and_amend_in_sessions() {
    let head = commit("h", "t1", &["p"]);
    assert_eq!(
        plan_snapshot(SnapshotStyle::Stack, &head, "t1", false).unwrap(),
        None
    );
    let stacked = plan_snapshot(SnapshotStyle::Stack, &head, "t2", false)
        .unwrap()
        .unwrap();
    assert_eq!(stacked.commit.parents, vec!["h".to_owned()]);
    assert_eq!(stacked.commit.description, Some("snapshot".to_owned()));
    assert!(stacked.moves_head);
    assert!(!stacked.rewrites);
    let kept = plan_snapshot(SnapshotStyle::StackKeepHead, &head, "t2", false)
        .unwrap()
        .unwrap();
    assert_eq!(kept.commit, stacked.commit);
    assert!(!kept.moves_head);
    assert!(!kept.rewrites);
    let amended = plan_snapshot(SnapshotStyle::Amend, &head, "t2", false)
        .unwrap()
        .unwrap();
    assert_eq!(amended.commit.parents, vec!["p".to_owned()]);
    assert_eq!(amended.commit.description, None);
    assert!(!amended.moves_head);
    assert!(amended.rewrites);
    assert_eq!(
        plan_snapshot(SnapshotStyle::Stack, &head, "t2", true)
            .unwrap_err()
            .message(),
        "engine error: working copy has paths with invalid utf-8 names"
    );
}

#[test]
fn new_lines_continue_the_head() {
    let head = commit("h", "t1", &["p"]);
    let session = session_commit(&head, "revise");
    assert_eq!(session.parents, vec!["h".to_owned()]);
    assert_eq!(session.tree, "t1");
    assert_eq!(session.description, Some("revise".to_owned()));
    let adopted = adoption_commit(&Some(head.clone())).unwrap();
    assert_eq!(adopted.description, Some("adopt".to_owned()));
    assert_eq!(adoption_commit(&None), None);
    assert_eq!(parent_of(&head).unwrap(), "p");
    assert_eq!(
        parent_of(&commit("r", "t", &[])).unwrap_err().message(),
        "engine error: snapshot r has no parent"
    );
    assert!(!tree_changed(&head, &Some(commit("p", "t1", &[]))));
    assert!(tree_changed(&head, &Some(commit("p", "t0", &[]))));
    assert!(tree_changed(&head, &None));
}

#[test]
fn publishing_failures_name_the_retry() {
    assert!(
        head_raced(false, "locked")
            .message()
            .contains("git HEAD moved during the apply (locked); rerun the landing")
    );
    assert!(
        head_raced(true, "locked")
            .message()
            .contains("git HEAD moved during the undo (locked); rerun the undo")
    );
    assert!(check_export("atelier", &None).is_ok());
    assert_eq!(
        check_export("atelier", &Some("[x]".to_owned()))
            .unwrap_err()
            .message(),
        "engine error: bookmark \"atelier\" failed to export: [x]"
    );
}

fn facts(line: Commit, target: Option<Commit>) -> FoldFacts {
    FoldFacts {
        moved: true,
        line,
        target,
        fresh: false,
        built_on: None,
        carried: None,
    }
}

#[test]
fn a_fold_takes_merges_or_absorbs_the_move() {
    let line = commit("l", "tl", &["p"]);
    let target = commit("t", "tt", &["p"]);
    let mut still = facts(line.clone(), Some(target.clone()));
    still.moved = false;
    assert_eq!(still.next(), FoldStep::Current);
    assert_eq!(facts(line.clone(), None).next(), FoldStep::Absorb);
    assert_eq!(
        facts(line.clone(), Some(line.clone())).next(),
        FoldStep::Absorb
    );
    assert_eq!(
        facts(line.clone(), Some(commit("p", "tp", &[]))).next(),
        FoldStep::Absorb
    );

    let mut moved = facts(line.clone(), Some(target.clone()));
    assert_eq!(moved.next(), FoldStep::AskBuiltOn);
    moved.built_on = Some(true);
    assert_eq!(moved.next(), FoldStep::TakeTarget);
    moved.built_on = Some(false);
    assert_eq!(moved.next(), FoldStep::AskCarried);
    moved.carried = Some(true);
    assert_eq!(moved.next(), FoldStep::TakeTarget);
    moved.carried = Some(false);
    assert_eq!(moved.next(), FoldStep::Merge);

    // A recommit with the line's exact content is the line.
    let mut same = facts(line.clone(), Some(commit("t", "tl", &["p"])));
    same.built_on = Some(false);
    assert_eq!(same.next(), FoldStep::TakeTarget);

    // Fresh work merges, whatever the moved history holds.
    let mut fresh = facts(line, Some(target));
    fresh.fresh = true;
    fresh.built_on = Some(false);
    fresh.carried = Some(true);
    assert_eq!(fresh.next(), FoldStep::Merge);
}

#[test]
fn a_fold_follows_its_branch_before_the_head() {
    let some = |text: &str| Some(text.to_owned());
    assert_eq!(line_target(&some("b"), &some("h")), some("b"));
    assert_eq!(line_target(&None, &some("h")), some("h"));
    assert_eq!(line_target(&None, &None), None);
}

#[test]
fn a_conflicted_fold_refuses_behind_its_fence() {
    assert!(matches!(
        fold_conflict(Ok(()), "main"),
        Error::GitFoldConflicted { branch } if branch == "main"
    ));
    let superseded = fold_conflict(
        Err(Error::LeaseSuperseded {
            point: "landing".to_owned(),
        }),
        "main",
    );
    assert!(matches!(superseded, Error::LeaseSuperseded { .. }));
}

#[test]
fn a_fold_commits_on_its_target_alone() {
    let target = commit("t", "t1", &["p", "q"]);
    let folded = fold_commit(&target, "merged");
    assert_eq!(folded.parents, vec!["t".to_owned()]);
    assert_eq!(folded.tree, "merged");
    assert_eq!(folded.description, Some("fold".to_owned()));

    let superseded = || Error::LeaseSuperseded {
        point: "landing".to_owned(),
    };
    assert_eq!(
        fold_merge(false, Ok(()), "main", &target, "merged").unwrap(),
        folded
    );
    assert!(matches!(
        fold_merge(true, Ok(()), "main", &target, "merged").unwrap_err(),
        Error::GitFoldConflicted { branch } if branch == "main"
    ));
    assert!(matches!(
        fold_merge(true, Err(superseded()), "main", &target, "merged").unwrap_err(),
        Error::LeaseSuperseded { .. }
    ));

    assert_eq!(
        fold_outcome(Ok(()), Some("f".to_owned())).unwrap(),
        GitFold::Folded {
            head: "f".to_owned()
        }
    );
    assert_eq!(fold_outcome(Ok(()), None).unwrap(), GitFold::Current);
    assert!(matches!(
        fold_outcome(Err(superseded()), Some("f".to_owned())).unwrap_err(),
        Error::LeaseSuperseded { .. }
    ));
}

fn scan(history: &[Commit], settled: &[&str], tree: &str, target: &str) -> bool {
    let mut scan = ContentScan::start(tree, target);
    while let Some(id) = scan.ask() {
        let found = history.iter().find(|commit| commit.id == id).unwrap();
        scan.tell(settled.contains(&id.as_str()), &found.tree, &found.parents);
    }
    scan.found()
}

#[test]
fn the_moved_history_is_searched_down_to_the_base() {
    let history = [
        commit("tip", "new", &["rewrite", "other"]),
        commit("other", "x", &["base"]),
        commit("rewrite", "line", &["base"]),
        commit("base", "old", &["ancient"]),
        commit("ancient", "line", &[]),
    ];
    assert!(scan(&history, &["base"], "line", "tip"));
    // History the line and the target share never counts.
    assert!(!scan(&history, &["base"], "old", "tip"));
    assert!(!scan(&history, &["base", "rewrite"], "line", "tip"));
    assert!(!scan(&history, &["base"], "nowhere", "tip"));
}

#[test]
fn the_search_gives_up_past_its_bound() {
    let last = FOLD_SCAN_MAX + 5;
    let history: Vec<Commit> = (0..=last)
        .map(|n| {
            let parent = format!("c{}", n + 1);
            let parents: Vec<&str> = if n == last { Vec::new() } else { vec![&parent] };
            commit(
                &format!("c{n}"),
                if n == last { "line" } else { "other" },
                &parents,
            )
        })
        .collect();
    assert!(!scan(&history, &[], "line", "c0"));
    assert!(scan(&history, &[], "line", "c10"));
}

#[test]
fn a_storm_becomes_one_snapshot() {
    let mut watch = WatchLoop::new();
    assert_eq!(watch.next(false), WatchStep::Tick);
    assert!(!watch.hear(Heard::Quiet).unwrap());
    let mut snapshots = 0;
    for heard in [Heard::Pulse, Heard::Pulse, Heard::Pulse, Heard::Quiet, Heard::Quiet] {
        if watch.hear(heard).unwrap() {
            snapshots += 1;
        }
    }
    assert_eq!(snapshots, 1);
    watch.hear(Heard::Pulse).unwrap();
    assert_eq!(watch.next(false), WatchStep::Debounce);
}

#[test]
fn a_stop_wins_over_a_storm() {
    let mut watch = WatchLoop::new();
    watch.hear(Heard::Pulse).unwrap();
    assert_eq!(watch.next(true), WatchStep::Snapshot);
    assert_eq!(watch.next(true), WatchStep::Return);
}

#[test]
fn a_stop_reaches_every_clone_and_stays() {
    let stop = WatchStop::new();
    let clone = stop.clone();
    let apart = WatchStop::default();
    assert!(!stop.stopped());
    assert!(!clone.stopped());
    clone.stop();
    assert!(stop.stopped());
    assert!(clone.stopped());
    assert!(stop.clone().stopped());
    stop.stop();
    assert!(clone.stopped());
    assert!(!apart.stopped());
}

#[test]
fn a_stop_from_a_clone_ends_a_running_watch() {
    let stop = WatchStop::new();
    let mut watch = WatchLoop::new();
    let handle = stop.clone();
    assert_ne!(watch.next(stop.stopped()), WatchStep::Return);
    handle.stop();
    assert_eq!(watch.next(stop.stopped()), WatchStep::Return);
    assert_eq!(watch.next(stop.stopped()), WatchStep::Return);
}

#[test]
fn a_failing_watcher_is_loud() {
    let mut watch = WatchLoop::new();
    assert_eq!(
        watch
            .hear(Heard::Failed("no space".to_owned()))
            .unwrap_err()
            .message(),
        "engine error: the file watcher failed: no space"
    );
    assert_eq!(
        watch.hear(Heard::Gone).unwrap_err().message(),
        "engine error: the file watcher stopped delivering events"
    );
    assert_eq!(
        WatchEvent::Snapshotted {
            snapshot: "abc".to_owned()
        }
        .to_text("/ws"),
        "snapshot abc"
    );
    assert_eq!(WatchEvent::Started.to_text("/ws"), "watching /ws");
}

#[test]
fn events_count_when_a_path_is_content() {
    let paths = |list: &[&str]| list.iter().map(|path| (*path).to_owned()).collect();
    assert!(event_is_content("/ws", false, &paths(&["/ws/.git/x", "/ws/a"])));
    assert!(!event_is_content("/ws", false, &paths(&["/ws/.git/x"])));
    assert!(!event_is_content("/ws", true, &paths(&["/ws/a"])));
    assert!(event_is_content("/ws", false, &Vec::new()));
}

#[test]
fn a_snapshot_id_is_hexadecimal_in_pairs() {
    assert_eq!(snapshot_bytes("00ff0aB1").unwrap(), vec![0, 255, 10, 177]);
    assert_eq!(snapshot_bytes("").unwrap(), Vec::<u8>::new());
    for wrong in ["abc", "zz", "0x", "a b "] {
        match snapshot_bytes(wrong) {
            Err(Error::Engine(detail)) => {
                assert_eq!(detail, format!("not a snapshot id: {wrong}"));
            }
            other => panic!("got: {other:?}"),
        }
    }
}

#[test]
fn a_fold_is_journaled_as_a_pull_naming_the_line() {
    let mut ledger = Ledger::new(Coordination::new(), Journal::new());
    let actor = Actor {
        name: "scribe".to_owned(),
        kind: ActorKind::Agent,
    };
    let folded = GitFold::Folded { head: "abc".to_owned() };
    ledger.record_fold(&actor, &Some("sdk".to_owned()), &GitFold::Current, 1);
    assert_eq!(ledger.journal.len(), 0);
    ledger.record_fold(&actor, &Some("sdk".to_owned()), &folded, 2);
    ledger.record_fold(&actor, &None, &folded, 3);
    let entries = ledger.journal.entries(10).unwrap();
    assert!(entries.iter().all(|entry| entry.act == Act::Pull));
    assert_eq!(entries[1].reference.as_deref(), Some("sdk abc"));
    assert_eq!(entries[0].reference.as_deref(), Some("abc"));
}

#[test]
fn a_held_or_superseded_fold_yields() {
    assert!(fold_yields(&Error::LeaseHeld {
        holder: "rival:1".to_owned(),
        expires_at_ms: 5,
    }));
    assert!(fold_yields(&Error::LeaseSuperseded {
        point: "landing".to_owned(),
    }));
    assert!(!fold_yields(&Error::GitFoldConflicted {
        branch: "master".to_owned(),
    }));
}
