//! Sources, paths, mirrors, and origins.

use atelier::apply::Mount;
use atelier::attach::{
    GitMark, Offer, adopted_branch, check_init, check_open, copies_entry, enclosing_workspace,
    import_root, insert_mount, mount_folder, mount_remote, mounts_of, source_at,
};
use atelier::config::{Actor, ActorKind, Source, SourceKind, SyncPolicy, actor_config_path};
use atelier::coordination::Coordination;
use atelier::error::Error;
use atelier::journal::{Act, Journal};
use atelier::ledger::Ledger;
use atelier::mirror::{
    CopyStep, CopyWalk, EntryKind, ExportStep, Prune, TreeEntry, base_ignores, copy_step,
    export_step, ignore_rules,
};
use atelier::paths::{
    PathComponent, is_content_path, path_components, path_pieces, workspace_name,
};
use atelier::sources::{mount_names, valid_mount_name};
use atelier::sync::{
    PullOutcome, SyncOutcome, check_object, git_sync_refusal, is_remote_url, mirrors_home,
    shell_quote,
};

fn actor() -> Actor {
    Actor {
        name: "test-actor".to_owned(),
        kind: ActorKind::Human,
    }
}

fn ledger() -> Ledger {
    Ledger::new(Coordination::new(), Journal::new())
}

fn offer(path: &str) -> Offer {
    Offer {
        path: path.to_owned(),
        is_dir: true,
        attributes: None,
        git: GitMark::Absent,
    }
}

fn source(mount: &str, branch: Option<&str>) -> Source {
    Source {
        kind: SourceKind::LocalGit,
        path: format!("/src/{mount}"),
        sync: SyncPolicy::TwoWay,
        mount: mount.to_owned(),
        branch: branch.map(str::to_owned),
    }
}

#[test]
fn mount_refusals_name_their_reason() {
    let mut sources = Vec::new();
    sources.push(mount_folder(&sources, &offer("/src/app"), "app", false).unwrap());
    assert_eq!(sources[0].kind, SourceKind::LocalFolder);

    let error = mount_folder(&sources, &offer("/src/app"), "app", false).unwrap_err();
    assert!(matches!(error, Error::AlreadyAttached), "got: {error:?}");

    let error = mount_folder(&sources, &offer("/src/app"), "notes.txt", true).unwrap_err();
    assert_eq!(
        error.message(),
        "config error: mount \"notes.txt\" collides with existing workspace content"
    );

    for name in ["", ".", "..", "a/b", "a\\b", ".atelier", ".jj", ".git"] {
        let error = mount_folder(&sources, &offer("/src/app"), name, false).unwrap_err();
        assert!(
            matches!(&error, Error::Config(message) if message.contains("mount name")),
            "{name:?} got: {error:?}"
        );
        assert!(valid_mount_name(name).is_err());
    }

    let missing = Offer {
        is_dir: false,
        ..offer("/nowhere")
    };
    assert!(matches!(
        mount_folder(&sources, &missing, "app", false),
        Err(Error::Io(detail)) if detail == "source folder not found: /nowhere"
    ));
    assert!(matches!(
        import_root(&sources, &missing),
        Err(Error::Io(_))
    ));

    // The root import still attaches once, beside any mounts.
    let import = import_root(&sources, &offer("/src/b")).unwrap();
    assert_eq!(import.mount, "/");
    sources.push(import);
    let error = import_root(&sources, &offer("/src/b")).unwrap_err();
    assert!(matches!(error, Error::AlreadyAttached), "got: {error:?}");
}

#[test]
fn lfs_sources_refuse() {
    let lfs = Offer {
        attributes: Some("*.bin filter=lfs diff=lfs merge=lfs -text\n".to_owned()),
        ..offer("/src/lfs")
    };
    assert!(matches!(
        mount_folder(&Vec::new(), &lfs, "sdk", false),
        Err(Error::LfsSourceUnsupported)
    ));
    assert!(matches!(
        import_root(&Vec::new(), &lfs),
        Err(Error::LfsSourceUnsupported)
    ));
    let plain = Offer {
        attributes: Some("*.txt text\n".to_owned()),
        ..offer("/src/plain")
    };
    assert!(import_root(&Vec::new(), &plain).is_ok());
}

#[test]
fn a_repository_is_adopted_with_its_branch() {
    let repository = Offer {
        git: GitMark::Directory {
            head: "ref: refs/heads/topic/x\n".to_owned(),
        },
        ..offer("/src/sdk")
    };
    let source = mount_folder(&Vec::new(), &repository, "sdk", false).unwrap();
    assert_eq!(source.kind.to_text(), "local-git");
    assert_eq!(source.branch, Some("topic/x".to_owned()));
    assert_eq!(adopted_branch("0123456789abcdef\n"), None);
    assert_eq!(
        adopted_branch("  ref: refs/heads/main\r\n\u{a0}"),
        Some("main".to_owned())
    );
}

#[test]
fn linked_worktrees_refuse_and_name_their_repository() {
    let linked = |target: &str| {
        let offered = Offer {
            git: GitMark::Pointer {
                text: format!("gitdir: {target}\n"),
            },
            ..offer("/fix/card-worktree")
        };
        mount_folder(&Vec::new(), &offered, "app", false).unwrap_err()
    };
    assert_eq!(
        linked("/fix/source/.git/worktrees/card-worktree").message(),
        "/fix/card-worktree is a linked git worktree of /fix/source; linked worktrees must be cloned before attachment: git clone --no-local --single-branch -- <worktree> <new-source>, then atelier attach <new-source> --mount <name>; cloning copies the worktree's committed HEAD, not uncommitted edits"
    );
    assert_eq!(
        linked("/fix/owner.git/worktrees/card-worktree").message(),
        "config error: /fix/card-worktree carries a .git file pointing at /fix/owner.git/worktrees/card-worktree; only a repository owning its .git directory attaches; clone the committed HEAD first: git clone --no-local --single-branch -- <worktree> <new-source>, then atelier attach <new-source> --mount <name>; cloning does not copy uncommitted edits"
    );
}

#[test]
fn buckets_mount_by_the_same_rules() {
    let mut sources = Vec::new();
    let docs = mount_remote(&sources, "s3://bucket/docs", "docs", false).unwrap();
    assert_eq!(docs.kind.to_text(), "remote");
    assert_eq!(docs.path, "s3://bucket/docs");
    sources.push(docs);
    assert!(matches!(
        mount_remote(&sources, "s3://bucket/docs", "docs", false),
        Err(Error::AlreadyAttached)
    ));
    assert!(mount_remote(&sources, "s3://b", "..", false).is_err());
    assert!(is_remote_url("gs://bucket"));
    assert!(!is_remote_url("/s3://bucket"));
    assert!(check_object("annexes/a.md").is_ok());
    let error = check_object("x/.git/config").unwrap_err();
    assert!(
        matches!(&error, Error::Engine(message) if message.contains("engine-internal name")),
        "got: {error:?}"
    );
}

#[test]
fn mounts_walk_in_name_order() {
    let sources = vec![
        source("zeta", Some("main")),
        source("/", None),
        source("alpha", None),
    ];
    assert_eq!(
        mount_names(&sources),
        vec!["alpha".to_owned(), "zeta".to_owned()]
    );
    let mut mounts = mounts_of(&sources);
    assert_eq!(mounts[1].branch, Some("main".to_owned()));
    insert_mount(
        &mut mounts,
        Mount {
            name: "mid".to_owned(),
            branch: None,
        },
    );
    let names: Vec<&str> = mounts.iter().map(|mount| mount.name.as_str()).collect();
    assert_eq!(names, vec!["alpha", "mid", "zeta"]);
}

#[test]
fn attaching_is_journaled_with_its_mount() {
    let mut ledger = ledger();
    ledger.record_attach(&actor(), &None, &Some("snap".to_owned()), 1);
    ledger.record_attach(
        &actor(),
        &Some("docs".to_owned()),
        &Some("snap2".to_owned()),
        2,
    );
    ledger.record_attach(&actor(), &Some("empty".to_owned()), &None, 3);
    let references: Vec<Option<String>> = ledger
        .journal
        .entries(10)
        .unwrap()
        .into_iter()
        .map(|entry| {
            assert_eq!(entry.act, Act::SourceAttach);
            entry.reference
        })
        .collect();
    assert_eq!(
        references,
        vec![
            None,
            Some("docs snap2".to_owned()),
            Some("snap".to_owned()),
        ]
    );
}

#[test]
fn founding_a_workspace_checks_what_stands_there() {
    assert!(check_init("/ws", false, false, &None).is_ok());
    assert_eq!(
        check_init("/ws", true, true, &None).unwrap_err().message(),
        "a workspace already exists at /ws"
    );
    assert_eq!(
        check_init("/ws", false, true, &None).unwrap_err().message(),
        "cannot initialize a workspace at /ws: it is already a git repository; initialize a workspace elsewhere, then run: atelier attach /ws --mount <name>"
    );
    let enclosing = enclosing_workspace(&vec![
        ("/a/b".to_owned(), false),
        ("/a".to_owned(), true),
        ("/".to_owned(), true),
    ]);
    assert_eq!(
        check_init("/a/b/c", false, false, &enclosing)
            .unwrap_err()
            .message(),
        "cannot nest a workspace inside the one at /a"
    );
    assert!(check_open("/ws", true).is_ok());
    assert_eq!(
        check_open("/ws", false).unwrap_err().message(),
        "not a workspace: /ws"
    );
}

#[test]
fn the_actor_config_is_found_by_its_homes() {
    let some = |text: &str| Some(text.to_owned());
    assert_eq!(
        actor_config_path(&some("/at"), &some("/xdg"), &some("/home/me")),
        some("/at/config.toml")
    );
    assert_eq!(
        actor_config_path(&None, &some("/xdg"), &some("/home/me")),
        some("/xdg/atelier/config.toml")
    );
    assert_eq!(
        actor_config_path(&None, &None, &some("/home/me")),
        some("/home/me/.config/atelier/config.toml")
    );
    assert_eq!(actor_config_path(&None, &None, &None), None);
}

#[test]
fn paths_come_apart_into_components() {
    assert_eq!(path_pieces("a//b/"), vec!["a", "", "b", ""]);
    assert_eq!(
        path_components("./a/./b/../c//"),
        vec![
            PathComponent::CurDir,
            PathComponent::Normal("a".to_owned()),
            PathComponent::Normal("b".to_owned()),
            PathComponent::ParentDir,
            PathComponent::Normal("c".to_owned()),
        ]
    );
    assert_eq!(path_components("/"), vec![PathComponent::RootDir]);
    assert_eq!(path_components(""), Vec::new());
    assert_eq!(workspace_name("/srv/demo"), "demo");
    assert_eq!(workspace_name("/srv/demo/"), "demo");
    assert_eq!(workspace_name("/"), "workspace");
    assert_eq!(workspace_name("/srv/.."), "workspace");
}

#[test]
fn components_agree_with_the_standard_library() {
    for path in ["", "/", ".", "..", "a", "./a", "a/.", "/./a", "//a//b", "a/../b", ".hidden/x"] {
        let expected: Vec<PathComponent> = std::path::Path::new(path)
            .components()
            .map(|component| match component {
                std::path::Component::Normal(name) => {
                    PathComponent::Normal(name.to_str().unwrap().to_owned())
                }
                std::path::Component::CurDir => PathComponent::CurDir,
                std::path::Component::ParentDir => PathComponent::ParentDir,
                _ => PathComponent::RootDir,
            })
            .collect();
        assert_eq!(path_components(path), expected, "{path:?}");
    }
}

#[test]
fn internals_are_no_content() {
    assert!(is_content_path("/ws", "/ws/notes.txt"));
    assert!(is_content_path("/ws", "/ws/sub/.git/config"));
    assert!(!is_content_path("/ws", "/ws/.jj/op"));
    assert!(!is_content_path("/ws", "/ws/.atelier"));
    assert!(is_content_path("/ws", "/elsewhere/.git"));
    assert!(is_content_path("/ws", "/ws"));
}

#[test]
fn copying_leaves_the_internals_behind() {
    assert!(copies_entry("src", false));
    assert!(!copies_entry(".git", false));
    assert!(copies_entry(".git", true));
    assert!(!copies_entry(".jj", true));
    let file = EntryKind::File;
    let dir = EntryKind::Directory { nested: false };
    assert_eq!(copy_step(".git", dir, true, true, false), CopyStep::Descend);
    assert_eq!(copy_step(".git", dir, false, true, false), CopyStep::Skip);
    assert_eq!(copy_step(".atelier", dir, true, true, false), CopyStep::Skip);
    assert_eq!(copy_step("a", file, true, false, false), CopyStep::Copy);
    assert_eq!(copy_step("a", file, true, false, true), CopyStep::Skip);
    assert_eq!(
        copy_step("a", EntryKind::Symlink, false, false, false),
        CopyStep::Link
    );
    assert_eq!(
        copy_step("a", EntryKind::Directory { nested: true }, false, false, false),
        CopyStep::Skip
    );
    assert_eq!(
        ignore_rules(&vec!["app".to_owned(), "docs".to_owned()]),
        ".atelier/\n.git/\n.jj/\n/app/\n/docs/\n"
    );
}

#[test]
fn exports_write_files_and_links_alone() {
    assert_eq!(
        export_step("a", &TreeEntry::File { executable: true }).unwrap(),
        ExportStep::WriteFile { executable: true }
    );
    assert_eq!(
        export_step("a", &TreeEntry::Symlink).unwrap(),
        ExportStep::WriteLink
    );
    assert_eq!(
        export_step("a", &TreeEntry::Absent).unwrap(),
        ExportStep::Skip
    );
    assert_eq!(
        export_step("a", &TreeEntry::Conflicted)
            .unwrap_err()
            .message(),
        "engine error: conflicted tree entry at a"
    );
    assert_eq!(
        export_step(
            "sub",
            &TreeEntry::Other {
                shown: "GitSubmodule".to_owned()
            }
        )
        .unwrap_err()
        .message(),
        "engine error: cannot export sub: GitSubmodule"
    );
}

#[test]
fn a_prune_removes_what_the_snapshot_lacks() {
    let mut prune = Prune::start(vec!["keep.txt".to_owned(), "sub/keep.txt".to_owned()]);
    let name = |name: &str| Some(name.to_owned());
    assert_eq!(prune.next(), Some(String::new()));
    assert!(!prune.meet("", &name("keep.txt"), false, "").unwrap());
    assert!(prune.meet("", &name("gone.txt"), false, "").unwrap());
    assert!(!prune.meet("", &name(".git"), true, "").unwrap());
    assert!(!prune.meet("", &name("sub"), true, "").unwrap());
    assert_eq!(prune.next(), Some("sub".to_owned()));
    assert!(!prune.meet("sub", &name("keep.txt"), false, "").unwrap());
    assert!(prune.meet("sub", &name("old.txt"), false, "").unwrap());
    assert!(!prune.meet("sub", &name("deep"), true, "").unwrap());
    assert_eq!(
        prune
            .meet("sub", &None, false, "/ws/sub/??")
            .unwrap_err()
            .message(),
        "engine error: cannot mirror over a non-utf8 name at /ws/sub/??"
    );
    assert_eq!(prune.next(), Some("sub/deep".to_owned()));
    assert_eq!(prune.next(), None);
    assert_eq!(prune.into_directories(), vec!["sub/deep", "sub"]);
}

#[test]
fn an_origin_changed_out_of_band_parks_until_forced() {
    let mut ledger = ledger();
    let docs = Some("docs".to_owned());
    ledger.seed_sync(&docs, "print-1", "attach");
    assert!(ledger.may_sync(&docs, "print-1", false));
    assert!(!ledger.may_sync(&docs, "print-2", false));
    assert!(!ledger.may_sync(&None, "print-1", false));
    assert_eq!(
        ledger.record_sync_parked(&actor(), &docs, "landed", 1),
        SyncOutcome::Parked {
            snapshot: "landed".to_owned()
        }
    );
    // A plain retry parks again.
    assert!(!ledger.may_sync(&docs, "print-2", false));
    assert!(ledger.may_sync(&docs, "print-2", true));
    assert_eq!(
        ledger.record_synced(&actor(), &docs, "print-3", "landed", 2),
        SyncOutcome::Synced {
            snapshot: "landed".to_owned()
        }
    );
    assert!(ledger.may_sync(&docs, "print-3", false));
    let entries = ledger.journal.entries(10).unwrap();
    assert_eq!(entries[0].act, Act::Sync);
    assert_eq!(entries[0].reference, Some("docs landed".to_owned()));
    assert_eq!(entries[1].act, Act::SyncParked);
    assert_eq!(
        entries[1].reference,
        Some("docs landed origin changed".to_owned())
    );
    ledger.record_synced(&actor(), &None, "print", "root", 3);
    assert_eq!(
        ledger.journal.entries(1).unwrap()[0].reference,
        Some("root".to_owned())
    );
    assert!(mirrors_home(SourceKind::Remote));
    assert!(!mirrors_home(SourceKind::LocalGit));
}

#[test]
fn a_pull_folds_unless_the_line_moved() {
    let mut ledger = ledger();
    let docs = Some("docs".to_owned());
    ledger.seed_sync(&docs, "print-1", "head-1");
    let remote = SourceKind::Remote;
    assert!(!ledger.judge_pull(&docs, remote, "print-1", "head-1").unwrap());
    assert!(!ledger.judge_pull(&docs, remote, "print-1", "head-2").unwrap());
    assert!(ledger.judge_pull(&docs, remote, "print-2", "head-1").unwrap());
    let error = ledger
        .judge_pull(&docs, remote, "print-2", "head-2")
        .unwrap_err();
    assert!(
        matches!(&error, Error::Config(message) if message.contains("moved locally since its last sync")),
        "got: {error:?}"
    );
    let error = ledger
        .judge_pull(&docs, SourceKind::LocalFolder, "print-1", "head-1")
        .unwrap_err();
    assert!(
        matches!(&error, Error::Config(message) if message.contains("not a remote source")),
        "got: {error:?}"
    );
    assert_eq!(
        ledger.record_pulled(&actor(), &docs, "print-2", "pulled", 4),
        PullOutcome::Pulled {
            snapshot: "pulled".to_owned()
        }
    );
    assert!(!ledger.judge_pull(&docs, remote, "print-2", "pulled").unwrap());
    assert_eq!(
        ledger.journal.entries(1).unwrap()[0].reference,
        Some("docs pulled".to_owned())
    );
}

#[test]
fn git_sources_are_told_how_to_publish() {
    let error = git_sync_refusal(
        "/r/work space's $HOME",
        "sdk",
        "/r/original clone",
        &Some("topic/owner'$HOME`id`".to_owned()),
    );
    assert_eq!(
        error.message(),
        "config error: \"sdk\" is a git source; the original clone at \"/r/original clone\" remains unchanged.\n\
         Landings update \"refs/heads/topic/owner'$HOME`id`\" in the mounted repository at \"/r/work space's $HOME/sdk\".\n\
         Publish with:\n  git -C '/r/work space'\\''s $HOME/sdk' push -- '<remote>' 'refs/heads/topic/owner'\\''$HOME`id`:refs/heads/topic/owner'\\''$HOME`id`'\n\
         Replace <remote> with a remote name or URL; list configured remotes with:\n  git -C '/r/work space'\\''s $HOME/sdk' remote -v"
    );
    assert!(
        git_sync_refusal("/r", "sdk", "/o", &None)
            .message()
            .contains("'refs/heads/atelier:refs/heads/atelier'")
    );
    assert_eq!(shell_quote(""), "''");
    assert_eq!(shell_quote("it's"), "'it'\\''s'");
}

#[test]
fn a_copy_obeys_the_ignore_files_on_its_way() {
    let mut walk = CopyWalk::start(true);
    assert_eq!(walk.next(), Some(String::new()));
    walk.obey(b"*.log\nout/\n").unwrap();
    let dir = EntryKind::Directory { nested: false };
    let some = |name: &str| Some(name.to_owned());

    // An adopted repository keeps its own `.git`; other internals stay.
    assert_eq!(walk.meet(&some(".git"), dir).unwrap(), CopyStep::Descend);
    assert_eq!(walk.meet(&some(".jj"), dir).unwrap(), CopyStep::Skip);
    assert_eq!(walk.meet(&some("out"), dir).unwrap(), CopyStep::Skip);
    assert_eq!(walk.meet(&some("out"), EntryKind::File).unwrap(), CopyStep::Copy);
    assert_eq!(walk.meet(&some("run.log"), EntryKind::File).unwrap(), CopyStep::Skip);
    assert_eq!(walk.meet(&some("run.log"), EntryKind::Symlink).unwrap(), CopyStep::Skip);
    assert_eq!(walk.meet(&some("link"), EntryKind::Symlink).unwrap(), CopyStep::Link);
    assert_eq!(walk.meet(&None, EntryKind::File).unwrap(), CopyStep::Skip);
    assert_eq!(walk.meet(&some(""), EntryKind::File).unwrap(), CopyStep::Skip);
    let nested = EntryKind::Directory { nested: true };
    assert_eq!(walk.meet(&some("vendor"), nested).unwrap(), CopyStep::Skip);
    assert_eq!(walk.meet(&some("src"), dir).unwrap(), CopyStep::Descend);

    // The last directory met is read first, under the rules above it and
    // its own.
    assert_eq!(walk.next(), some("src"));
    assert_eq!(walk.meet(&some("a.log"), EntryKind::File).unwrap(), CopyStep::Skip);
    walk.obey(b"!a.log\n/b.txt\n").unwrap();
    assert_eq!(walk.meet(&some("a.log"), EntryKind::File).unwrap(), CopyStep::Copy);
    assert_eq!(walk.meet(&some("b.txt"), EntryKind::File).unwrap(), CopyStep::Skip);
    assert_eq!(walk.meet(&some(".git"), dir).unwrap(), CopyStep::Skip);
    assert_eq!(walk.meet(&some("inner"), dir).unwrap(), CopyStep::Descend);

    assert_eq!(walk.next(), some("src/inner"));
    assert_eq!(walk.meet(&some("a.log"), EntryKind::File).unwrap(), CopyStep::Copy);
    assert_eq!(walk.meet(&some("b.txt"), EntryKind::File).unwrap(), CopyStep::Copy);
    assert_eq!(walk.next(), some(".git"));
    // The rules of a sibling are not in force.
    assert_eq!(walk.meet(&some("b.txt"), EntryKind::File).unwrap(), CopyStep::Copy);
    assert_eq!(walk.meet(&some("c.log"), EntryKind::File).unwrap(), CopyStep::Skip);
    assert_eq!(walk.next(), None);
}

#[test]
fn a_line_is_attached_from_the_source_at_its_mount() {
    let source = |mount: &str, path: &str| Source {
        kind: SourceKind::LocalFolder,
        path: path.to_owned(),
        sync: SyncPolicy::TwoWay,
        mount: mount.to_owned(),
        branch: None,
    };
    let sources = vec![source("docs", "/a"), source("/", "/b"), source("docs", "/c")];
    assert_eq!(source_at(&sources, &None).unwrap().path, "/b");
    assert_eq!(source_at(&sources, &Some("docs".to_owned())).unwrap().path, "/a");
    assert!(source_at(&sources, &Some("sdk".to_owned())).is_none());
    assert!(source_at(&vec![], &None).is_none());
}

#[test]
fn the_boundary_is_one_ignore_file_at_the_root() {
    let path = |path: &'static str| jj_lib::repo_path::RepoPath::from_internal_string(path).unwrap();
    let ignores = base_ignores(&vec!["app".to_owned()]).unwrap();
    for left_out in [".atelier", ".git", ".jj", "app", "deep/.git"] {
        assert!(ignores.matches_dir(path(left_out)), "{left_out}");
    }
    for kept in ["src", "deep/app"] {
        assert!(!ignores.matches_dir(path(kept)), "{kept}");
    }
    assert!(!ignores.matches_file(path("app")));
}

/// The entries of a directory: each name, with whether it is a directory.
type Entries = Vec<(&'static str, bool)>;

fn folder() -> Vec<(&'static str, Entries)> {
    vec![
        (
            "",
            vec![
                ("a.txt", false),
                ("run.log", false),
                (".git", true),
                ("out", true),
                ("vendor", true),
                ("src", true),
            ],
        ),
        (".git", vec![("HEAD", false)]),
        ("out", vec![("built", false)]),
        ("vendor", vec![("lib.txt", false)]),
        ("src", vec![("b.txt", false), ("kept.log", false), ("inner", true)]),
        ("src/inner", vec![("c.txt", false), ("d.log", false)]),
    ]
}

fn entries_of(dir: &str) -> Entries {
    folder()
        .into_iter()
        .find(|(name, _)| *name == dir)
        .map(|(_, entries)| entries)
        .unwrap()
}

fn path_of(dir: &str, name: &str) -> String {
    if dir.is_empty() {
        name.to_owned()
    } else {
        format!("{dir}/{name}")
    }
}

#[test]
fn a_finished_copy_has_all_that_nothing_leaves_out() {
    let copy = |keep_git: bool| {
        let mut walk = CopyWalk::start(keep_git);
        let mut copied = Vec::new();
        while let Some(dir) = walk.next() {
            match dir.as_str() {
                "" => walk.obey(b"*.log\nout/\n").unwrap(),
                "src" => walk.obey(b"!kept.log\n").unwrap(),
                _ => {}
            }
            for (name, is_dir) in entries_of(&dir) {
                let kind = if is_dir {
                    EntryKind::Directory {
                        nested: name == "vendor",
                    }
                } else {
                    EntryKind::File
                };
                if walk.meet(&Some(name.to_owned()), kind).unwrap() == CopyStep::Copy {
                    copied.push(path_of(&dir, name));
                }
            }
        }
        copied.sort();
        copied
    };
    let content = vec!["a.txt", "src/b.txt", "src/inner/c.txt", "src/kept.log"];
    assert_eq!(copy(false), content);
    let mut adopted = vec![".git/HEAD"];
    adopted.extend(content);
    assert_eq!(copy(true), adopted);
}

#[test]
fn a_finished_prune_leaves_exactly_the_kept_files() {
    let kept = vec!["a.txt".to_owned(), "src/inner/c.txt".to_owned(), "absent".to_owned()];
    let mut prune = Prune::start(kept.clone());
    let mut removed = Vec::new();
    let mut left = Vec::new();
    while let Some(dir) = prune.next() {
        for (name, is_dir) in entries_of(&dir) {
            let goes = prune
                .meet(&dir, &Some(name.to_owned()), is_dir, "")
                .unwrap();
            if goes {
                removed.push(path_of(&dir, name));
            } else if !is_dir {
                left.push(path_of(&dir, name));
            }
        }
    }
    left.sort();
    assert_eq!(left, kept[..2].to_vec());
    removed.sort();
    assert_eq!(
        removed,
        vec![
            "out/built",
            "run.log",
            "src/b.txt",
            "src/inner/d.log",
            "src/kept.log",
            "vendor/lib.txt",
        ]
    );
    assert_eq!(
        prune.into_directories(),
        vec!["src/inner", "out", "vendor", "src"]
    );
}
