//! What whole walks of a mirror come to: a copy of a folder driven to its
//! end, and a prune of one.

use vstd::prelude::*;

use crate::mirror::{
    copy_root, copy_start, dir_action, dir_below, dir_obeying, entry_path, gone_on, having_met,
    obeying, prune_gone_on, prune_having_met, prune_start, prunes, walk_action, CopyDirView,
    CopyStep, CopyView, EntryKind, PruneView,
};
use crate::sources::is_internal;
use crate::walks::{
    a_finished_walk_found_all, found_at, lies_under, picked, picked_of_an_entry, worked,
};

verus! {

// ---------------------------------------------------------------------
// A copy, directory by directory.

/// An entry of a directory: its name, none where that is not UTF-8, and what
/// stands there.
pub type Listed = (Option<Seq<char>>, EntryKind);

/// What a directory of a source holds: its ignore file, if it has one, and
/// its entries in the order they are read.
pub struct SourceDir {
    pub rules: Option<Seq<u8>>,
    pub entries: Seq<Listed>,
}

/// Where a copy stands, and what it has copied: the paths, each with how it
/// was copied.
pub struct CopyRun {
    pub walk: CopyView,
    pub copied: Seq<(Seq<char>, CopyStep)>,
}

/// A copy that has met an entry, and copied it where it is to be copied.
pub open spec fn run_met(run: CopyRun, entry: Listed) -> CopyRun {
    let step = walk_action(run.walk, entry.0, entry.1);
    CopyRun {
        walk: having_met(run.walk, entry.0, entry.1),
        copied: if step is Link || step is Copy {
            run.copied.push((entry_path(run.walk.current.dir, entry.0->0), step))
        } else {
            run.copied
        },
    }
}

/// A copy that has met some entries in turn.
pub open spec fn run_met_all(run: CopyRun, entries: Seq<Listed>) -> CopyRun
    decreases entries.len(),
{
    if entries.len() == 0 {
        run
    } else {
        run_met(run_met_all(run, entries.drop_last()), entries.last())
    }
}

/// A copy that has read one more directory of the source: it went on to it,
/// put its ignore file in force, and met its entries.
pub open spec fn run_dir(run: CopyRun, source: spec_fn(Seq<char>) -> SourceDir) -> CopyRun {
    let at = gone_on(run.walk);
    let here = source(at.current.dir);
    let walk = match here.rules {
        Some(rules) => obeying(at, rules),
        None => at,
    };
    run_met_all(CopyRun { walk, ..run }, here.entries)
}

/// A copy of a source after `n` directories, or fewer where it came to its
/// end before.
pub open spec fn copied_by(
    keep_git: bool,
    source: spec_fn(Seq<char>) -> SourceDir,
    n: nat,
) -> CopyRun
    decreases n,
{
    if n == 0 {
        CopyRun { walk: copy_start(keep_git), copied: Seq::empty() }
    } else {
        let run = copied_by(keep_git, source, (n - 1) as nat);
        if run.walk.pending.len() == 0 {
            run
        } else {
            run_dir(run, source)
        }
    }
}

/// A directory of a source with its own ignore file in force, if it has one.
pub open spec fn in_force(
    source: spec_fn(Seq<char>) -> SourceDir,
    dir: CopyDirView,
) -> CopyDirView {
    match source(dir.dir).rules {
        Some(rules) => dir_obeying(dir, rules),
        None => dir,
    }
}

/// The directory that an entry is, where a copy goes down into it.
pub open spec fn as_copied_dir(keep_git: bool, here: CopyDirView) -> spec_fn(
    Listed,
) -> Option<CopyDirView> {
    |entry: Listed|
        if dir_action(keep_git, here, entry.0, entry.1) is Descend {
            Some(dir_below(here, entry.0->0))
        } else {
            None
        }
}

/// The path of an entry and how it is copied, where it is.
pub open spec fn as_copied(keep_git: bool, here: CopyDirView) -> spec_fn(
    Listed,
) -> Option<(Seq<char>, CopyStep)> {
    |entry: Listed|
        {
            let step = dir_action(keep_git, here, entry.0, entry.1);
            if step is Link || step is Copy {
                Some((entry_path(here.dir, entry.0->0), step))
            } else {
                None
            }
        }
}

/// The directories of a source that a copy goes down into from another.
pub open spec fn copied_dirs(keep_git: bool, source: spec_fn(Seq<char>) -> SourceDir) -> spec_fn(
    CopyDirView,
) -> Seq<CopyDirView> {
    |dir: CopyDirView|
        picked(source(dir.dir).entries, as_copied_dir(keep_git, in_force(source, dir)))
}

/// What a copy takes along from a directory of a source.
pub open spec fn copied_entries(
    keep_git: bool,
    source: spec_fn(Seq<char>) -> SourceDir,
) -> spec_fn(CopyDirView) -> Seq<(Seq<char>, CopyStep)> {
    |dir: CopyDirView|
        picked(source(dir.dir).entries, as_copied(keep_git, in_force(source, dir)))
}

/// Whether a directory of a source is reached from its root through
/// directories that no ignore file, internal name or nested repository
/// leaves out.
pub open spec fn copy_reaches(
    keep_git: bool,
    source: spec_fn(Seq<char>) -> SourceDir,
    dir: CopyDirView,
) -> bool {
    lies_under(copy_root(), copied_dirs(keep_git, source), dir)
}

/// Whether the entry at `i` of a directory that is reached stands at `path`,
/// and is to be copied in the way of `step`.
pub open spec fn to_copy(
    keep_git: bool,
    source: spec_fn(Seq<char>) -> SourceDir,
    dir: CopyDirView,
    i: int,
    path: Seq<char>,
    step: CopyStep,
) -> bool {
    let entries = source(dir.dir).entries;
    &&& copy_reaches(keep_git, source, dir)
    &&& 0 <= i < entries.len()
    &&& step is Link || step is Copy
    &&& dir_action(keep_git, in_force(source, dir), entries[i].0, entries[i].1) == step
    &&& path == entry_path(dir.dir, entries[i].0->0)
}

/// Meeting entries puts off the directories among them that are copied, and
/// copies the rest that is.
proof fn meeting_all(run: CopyRun, entries: Seq<Listed>)
    ensures
        run_met_all(run, entries).walk == (CopyView {
            pending: run.walk.pending + picked(
                entries,
                as_copied_dir(run.walk.keep_git, run.walk.current),
            ),
            ..run.walk
        }),
        run_met_all(run, entries).copied == run.copied + picked(
            entries,
            as_copied(run.walk.keep_git, run.walk.current),
        ),
    decreases entries.len(),
{
    let below = picked(entries, as_copied_dir(run.walk.keep_git, run.walk.current));
    let along = picked(entries, as_copied(run.walk.keep_git, run.walk.current));
    if entries.len() == 0 {
        assert(run.walk.pending + below =~= run.walk.pending);
        assert(run.copied + along =~= run.copied);
    } else {
        meeting_all(run, entries.drop_last());
        assert(run_met_all(run, entries).walk.pending =~= run.walk.pending + below);
        assert(run_met_all(run, entries).copied =~= run.copied + along);
    }
}

/// A copy is a walk from the source's root, and takes along what it finds.
proof fn copy_is_a_walk(keep_git: bool, source: spec_fn(Seq<char>) -> SourceDir, n: nat)
    ensures
        copied_by(keep_git, source, n).walk.keep_git == keep_git,
        copied_by(keep_git, source, n).walk.pending == worked(
            copy_root(),
            copied_dirs(keep_git, source),
            n,
        ).pending,
        copied_by(keep_git, source, n).copied == found_at(
            worked(copy_root(), copied_dirs(keep_git, source), n).done,
            copied_entries(keep_git, source),
        ),
    decreases n,
{
    let below = copied_dirs(keep_git, source);
    let at = copied_entries(keep_git, source);
    if n > 0 {
        let run = copied_by(keep_git, source, (n - 1) as nat);
        let work = worked(copy_root(), below, (n - 1) as nat);
        copy_is_a_walk(keep_git, source, (n - 1) as nat);
        if run.walk.pending.len() > 0 {
            let dir = run.walk.pending.last();
            let gone = gone_on(run.walk);
            let here = source(dir.dir);
            let walk = match here.rules {
                Some(rules) => obeying(gone, rules),
                None => gone,
            };
            assert(walk.current == in_force(source, dir));
            meeting_all(CopyRun { walk, ..run }, here.entries);
            assert(work.done.push(dir).drop_last() =~= work.done);
        }
    }
}

/// A copy driven to its end has copied exactly the files and links that no
/// ignore file, internal name or nested repository leaves out, of the root
/// and of every directory under it that none of these leaves out.
pub proof fn a_finished_copy_took_all(
    keep_git: bool,
    source: spec_fn(Seq<char>) -> SourceDir,
    n: nat,
    path: Seq<char>,
    step: CopyStep,
)
    requires
        copied_by(keep_git, source, n).walk.pending.len() == 0,
    ensures
        copied_by(keep_git, source, n).copied.contains((path, step)) <==> exists|
            dir: CopyDirView,
            i: int,
        | #[trigger] to_copy(keep_git, source, dir, i, path, step),
{
    let below = copied_dirs(keep_git, source);
    let at = copied_entries(keep_git, source);
    let copied = copied_by(keep_git, source, n).copied;
    copy_is_a_walk(keep_git, source, n);
    a_finished_walk_found_all(copy_root(), below, at, n, (path, step));
    if copied.contains((path, step)) {
        let dir = choose|dir: CopyDirView|
            lies_under(copy_root(), below, dir) && #[trigger] at(dir).contains((path, step));
        let entries = source(dir.dir).entries;
        let pick = as_copied(keep_git, in_force(source, dir));
        picked_of_an_entry(entries, pick, (path, step));
        let i = choose|i: int|
            0 <= i < entries.len() && pick(#[trigger] entries[i]) == Some((path, step));
        assert(to_copy(keep_git, source, dir, i, path, step));
    }
    if exists|dir: CopyDirView, i: int| #[trigger]
        to_copy(keep_git, source, dir, i, path, step) {
        let (dir, i) = choose|dir: CopyDirView, i: int| #[trigger]
            to_copy(keep_git, source, dir, i, path, step);
        let entries = source(dir.dir).entries;
        let pick = as_copied(keep_git, in_force(source, dir));
        picked_of_an_entry(entries, pick, (path, step));
        assert(pick(entries[i]) == Some((path, step)));
        assert(at(dir).contains((path, step)));
    }
}

// ---------------------------------------------------------------------
// A prune, directory by directory.

/// Where a prune stands, and the files it has removed.
pub struct PruneRun {
    pub walk: PruneView,
    pub removed: Seq<Seq<char>>,
}

/// A prune that has met an entry of the directory `dir`, given by its name
/// and whether it is a directory, and removed it where it is to go.
pub open spec fn prune_met(run: PruneRun, dir: Seq<char>, entry: (Seq<char>, bool)) -> PruneRun {
    PruneRun {
        walk: prune_having_met(run.walk, dir, entry.0, entry.1),
        removed: if !entry.1 && prunes(run.walk.kept, dir, entry.0) {
            run.removed.push(entry_path(dir, entry.0))
        } else {
            run.removed
        },
    }
}

/// A prune that has met some entries of a directory in turn.
pub open spec fn prune_met_all(
    run: PruneRun,
    dir: Seq<char>,
    entries: Seq<(Seq<char>, bool)>,
) -> PruneRun
    decreases entries.len(),
{
    if entries.len() == 0 {
        run
    } else {
        prune_met(prune_met_all(run, dir, entries.drop_last()), dir, entries.last())
    }
}

/// A prune of a mirror after `n` directories, or fewer where it came to its
/// end before; `mirror` gives the entries of each.
pub open spec fn pruned_by(
    kept: Seq<Seq<char>>,
    mirror: spec_fn(Seq<char>) -> Seq<(Seq<char>, bool)>,
    n: nat,
) -> PruneRun
    decreases n,
{
    if n == 0 {
        PruneRun { walk: prune_start(kept), removed: Seq::empty() }
    } else {
        let run = pruned_by(kept, mirror, (n - 1) as nat);
        if run.walk.pending.len() == 0 {
            run
        } else {
            let dir = run.walk.pending.last();
            prune_met_all(
                PruneRun { walk: prune_gone_on(run.walk), ..run },
                dir,
                mirror(dir),
            )
        }
    }
}

/// The path of a directory that an entry is, where it is none of the
/// engine's.
pub open spec fn as_pruned_dir(dir: Seq<char>) -> spec_fn((Seq<char>, bool)) -> Option<Seq<char>> {
    |entry: (Seq<char>, bool)|
        if entry.1 && !is_internal(entry.0) {
            Some(entry_path(dir, entry.0))
        } else {
            None
        }
}

/// The path of a file that an entry is, where it is to go.
pub open spec fn as_removed(kept: Seq<Seq<char>>, dir: Seq<char>) -> spec_fn(
    (Seq<char>, bool),
) -> Option<Seq<char>> {
    |entry: (Seq<char>, bool)|
        if !entry.1 && prunes(kept, dir, entry.0) {
            Some(entry_path(dir, entry.0))
        } else {
            None
        }
}

/// The directories that a prune walks from another.
pub open spec fn pruned_dirs(mirror: spec_fn(Seq<char>) -> Seq<(Seq<char>, bool)>) -> spec_fn(
    Seq<char>,
) -> Seq<Seq<char>> {
    |dir: Seq<char>| picked(mirror(dir), as_pruned_dir(dir))
}

/// The files that go from a directory.
pub open spec fn removed_files(
    kept: Seq<Seq<char>>,
    mirror: spec_fn(Seq<char>) -> Seq<(Seq<char>, bool)>,
) -> spec_fn(Seq<char>) -> Seq<Seq<char>> {
    |dir: Seq<char>| picked(mirror(dir), as_removed(kept, dir))
}

/// Whether a directory of a mirror is reached from its root through
/// directories that are none of the engine's.
pub open spec fn prune_reaches(
    mirror: spec_fn(Seq<char>) -> Seq<(Seq<char>, bool)>,
    dir: Seq<char>,
) -> bool {
    lies_under(Seq::empty(), pruned_dirs(mirror), dir)
}

/// Whether the entry at `i` of a directory that is reached is a directory or
/// not, as `is_dir` says, stands at `path`, and is none of the engine's.
pub open spec fn mirrors(
    mirror: spec_fn(Seq<char>) -> Seq<(Seq<char>, bool)>,
    dir: Seq<char>,
    i: int,
    path: Seq<char>,
    is_dir: bool,
) -> bool {
    &&& prune_reaches(mirror, dir)
    &&& 0 <= i < mirror(dir).len()
    &&& mirror(dir)[i].1 == is_dir
    &&& !is_internal(mirror(dir)[i].0)
    &&& path == entry_path(dir, mirror(dir)[i].0)
}

/// Meeting entries puts off and notes the directories among them, and removes
/// the files that are to go.
proof fn pruning_all(run: PruneRun, dir: Seq<char>, entries: Seq<(Seq<char>, bool)>)
    ensures
        prune_met_all(run, dir, entries).walk == (PruneView {
            pending: run.walk.pending + picked(entries, as_pruned_dir(dir)),
            directories: run.walk.directories + picked(entries, as_pruned_dir(dir)),
            ..run.walk
        }),
        prune_met_all(run, dir, entries).removed == run.removed + picked(
            entries,
            as_removed(run.walk.kept, dir),
        ),
    decreases entries.len(),
{
    let below = picked(entries, as_pruned_dir(dir));
    let gone = picked(entries, as_removed(run.walk.kept, dir));
    if entries.len() == 0 {
        assert(run.walk.pending + below =~= run.walk.pending);
        assert(run.walk.directories + below =~= run.walk.directories);
        assert(run.removed + gone =~= run.removed);
    } else {
        pruning_all(run, dir, entries.drop_last());
        let after = prune_met_all(run, dir, entries);
        assert(after.walk.pending =~= run.walk.pending + below);
        assert(after.walk.directories =~= run.walk.directories + below);
        assert(after.removed =~= run.removed + gone);
    }
}

/// A prune is a walk from the mirror's root; it notes the directories and
/// removes the files that it finds.
proof fn prune_is_a_walk(
    kept: Seq<Seq<char>>,
    mirror: spec_fn(Seq<char>) -> Seq<(Seq<char>, bool)>,
    n: nat,
)
    ensures
        pruned_by(kept, mirror, n).walk.kept == kept,
        pruned_by(kept, mirror, n).walk.pending == worked(
            Seq::empty(),
            pruned_dirs(mirror),
            n,
        ).pending,
        pruned_by(kept, mirror, n).walk.directories == found_at(
            worked(Seq::empty(), pruned_dirs(mirror), n).done,
            pruned_dirs(mirror),
        ),
        pruned_by(kept, mirror, n).removed == found_at(
            worked(Seq::empty(), pruned_dirs(mirror), n).done,
            removed_files(kept, mirror),
        ),
    decreases n,
{
    let below = pruned_dirs(mirror);
    if n > 0 {
        let run = pruned_by(kept, mirror, (n - 1) as nat);
        let work = worked(Seq::empty(), below, (n - 1) as nat);
        prune_is_a_walk(kept, mirror, (n - 1) as nat);
        if run.walk.pending.len() > 0 {
            let dir = run.walk.pending.last();
            pruning_all(
                PruneRun { walk: prune_gone_on(run.walk), ..run },
                dir,
                mirror(dir),
            );
            assert(work.done.push(dir).drop_last() =~= work.done);
        }
    }
}

/// A finished prune leaves exactly the kept files: of all the files of the
/// mirror outside the engine's own, it removed those that are not kept, and
/// no other.
pub proof fn a_finished_prune_left_what_is_kept(
    kept: Seq<Seq<char>>,
    mirror: spec_fn(Seq<char>) -> Seq<(Seq<char>, bool)>,
    n: nat,
    path: Seq<char>,
)
    requires
        pruned_by(kept, mirror, n).walk.pending.len() == 0,
    ensures
        pruned_by(kept, mirror, n).removed.contains(path) <==> !kept.contains(path) && exists|
            dir: Seq<char>,
            i: int,
        | #[trigger] mirrors(mirror, dir, i, path, false),
{
    let below = pruned_dirs(mirror);
    let at = removed_files(kept, mirror);
    let root = Seq::<char>::empty();
    prune_is_a_walk(kept, mirror, n);
    a_finished_walk_found_all(root, below, at, n, path);
    if pruned_by(kept, mirror, n).removed.contains(path) {
        let dir = choose|dir: Seq<char>|
            lies_under(root, below, dir) && #[trigger] at(dir).contains(path);
        let entries = mirror(dir);
        let pick = as_removed(kept, dir);
        picked_of_an_entry(entries, pick, path);
        let i = choose|i: int|
            0 <= i < entries.len() && pick(#[trigger] entries[i]) == Some(path);
        assert(mirrors(mirror, dir, i, path, false));
    }
    if !kept.contains(path) && exists|dir: Seq<char>, i: int| #[trigger]
        mirrors(mirror, dir, i, path, false) {
        let (dir, i) = choose|dir: Seq<char>, i: int| #[trigger]
            mirrors(mirror, dir, i, path, false);
        let entries = mirror(dir);
        let pick = as_removed(kept, dir);
        picked_of_an_entry(entries, pick, path);
        assert(pick(entries[i]) == Some(path));
        assert(at(dir).contains(path));
    }
}

/// A finished prune has noted exactly the directories of the mirror outside
/// the engine's own, the root aside.
pub proof fn a_finished_prune_noted_all_directories(
    kept: Seq<Seq<char>>,
    mirror: spec_fn(Seq<char>) -> Seq<(Seq<char>, bool)>,
    n: nat,
    path: Seq<char>,
)
    requires
        pruned_by(kept, mirror, n).walk.pending.len() == 0,
    ensures
        pruned_by(kept, mirror, n).walk.directories.contains(path) <==> exists|
            dir: Seq<char>,
            i: int,
        | #[trigger] mirrors(mirror, dir, i, path, true),
{
    let below = pruned_dirs(mirror);
    let root = Seq::<char>::empty();
    prune_is_a_walk(kept, mirror, n);
    a_finished_walk_found_all(root, below, below, n, path);
    if pruned_by(kept, mirror, n).walk.directories.contains(path) {
        let dir = choose|dir: Seq<char>|
            lies_under(root, below, dir) && #[trigger] below(dir).contains(path);
        let entries = mirror(dir);
        let pick = as_pruned_dir(dir);
        picked_of_an_entry(entries, pick, path);
        let i = choose|i: int|
            0 <= i < entries.len() && pick(#[trigger] entries[i]) == Some(path);
        assert(mirrors(mirror, dir, i, path, true));
    }
    if exists|dir: Seq<char>, i: int| #[trigger] mirrors(mirror, dir, i, path, true) {
        let (dir, i) = choose|dir: Seq<char>, i: int| #[trigger]
            mirrors(mirror, dir, i, path, true);
        let entries = mirror(dir);
        let pick = as_pruned_dir(dir);
        picked_of_an_entry(entries, pick, path);
        assert(pick(entries[i]) == Some(path));
        assert(below(dir).contains(path));
    }
}

} // verus!
