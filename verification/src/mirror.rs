//! Trees and directories: what a snapshot leaves out, what adopting a folder
//! copies, and how a directory is made to mirror a snapshot.

use crate::error::{Error, ErrorView};
use crate::ignores::{
    chained,
    ignore_files,
    ignores_dir,
    ignores_file,
    is_tree_path,
    leaves_dir_out,
    leaves_file_out,
    no_ignores,
};
use crate::paths::{path_pieces, pieces, pieces_join, pieces_nonempty};
use crate::shared::shared;
use crate::sources::{is_internal, is_internal_name};
use crate::words::{among, holds, joined, opt_text, owned, same, texts};
use jj_lib::gitignore::GitIgnoreFile;
use std::sync::Arc;
use vstd::prelude::*;
use vstd::utf8::encode_utf8;

verus! {

// ---------------------------------------------------------------------
// What a snapshot leaves out.

/// The ignore rules for the mounts of a boundary, each anchored, so that a
/// nested directory that merely shares a mount's name stays content.
pub open spec fn boundary_rules(boundary: Seq<Seq<char>>) -> Seq<char>
    decreases boundary.len(),
{
    if boundary.len() == 0 {
        Seq::empty()
    } else {
        boundary_rules(boundary.drop_last()) + "/"@ + boundary.last() + "/\n"@
    }
}

/// The ignore rules of a working copy: the engine's internals, and the
/// mounts its line must never version.
pub fn ignore_rules(boundary: &Vec<String>) -> (r: String)
    ensures
        r@ == ".atelier/\n.git/\n.jj/\n"@ + boundary_rules(texts(boundary@)),
{
    let ghost all = texts(boundary@);
    let ghost own = ".atelier/\n.git/\n.jj/\n"@;
    let mut out = owned(".atelier/\n.git/\n.jj/\n");
    let mut i: usize = 0;
    assert(all.take(0) =~= Seq::empty());
    assert(out@ =~= own + boundary_rules(all.take(0)));
    while i < boundary.len()
        invariant
            i <= boundary@.len(),
            all == texts(boundary@),
            out@ == own + boundary_rules(all.take(i as int)),
        decreases boundary@.len() - i,
    {
        let ghost before = boundary_rules(all.take(i as int));
        assert(all[i as int] == boundary@[i as int]@);
        assert(all.take(i + 1).drop_last() =~= all.take(i as int));
        assert(all.take(i + 1).last() == all[i as int]);
        out.push_str("/");
        out.push_str(boundary[i].as_str());
        out.push_str("/\n");
        assert(out@ =~= own + (before + "/"@ + all[i as int] + "/\n"@));
        i = i + 1;
    }
    assert(all.take(all.len() as int) =~= all);
    out
}

/// The ignore file a snapshot starts from: the rules of the working copy, at
/// its root.
pub fn base_ignores(boundary: &Vec<String>) -> (r: Result<Arc<GitIgnoreFile>, Error>)
    ensures
        r is Ok,
        ignore_files(*(r->Ok_0)) == seq![
            (
                Seq::<char>::empty(),
                encode_utf8(".atelier/\n.git/\n.jj/\n"@ + boundary_rules(texts(boundary@))),
            ),
        ],
{
    let rules = ignore_rules(boundary);
    let root = String::new();
    assert(root@ =~= Seq::<char>::empty());
    match chained(&no_ignores(), root.as_str(), rules.as_str().as_bytes()) {
        Ok(ignores) => {
            assert(ignore_files(*ignores) =~= seq![
                (
                    Seq::<char>::empty(),
                    encode_utf8(".atelier/\n.git/\n.jj/\n"@ + boundary_rules(texts(boundary@))),
                ),
            ]);
            Ok(ignores)
        },
        Err(detail) => Err(Error::Engine(detail)),
    }
}

// ---------------------------------------------------------------------
// Copying a folder as a snapshot would version it.

/// What stands at a path being copied.
#[derive(Debug, Clone, Copy, PartialEq, Eq, Structural)]
pub enum EntryKind {
    /// A directory; `nested` says that it is a repository of its own.
    Directory { nested: bool },
    Symlink,
    File,
}

/// What copying does with an entry.
#[derive(Debug, Clone, Copy, PartialEq, Eq, Structural)]
pub enum CopyStep {
    Skip,
    /// Copy the directory's own entries.
    Descend,
    /// Copy the link as a link.
    Link,
    Copy,
}

/// What copying does with the entry called `name`: `at_root` says that it
/// stands at the source's root, `ignored` that the ignore rules name it. An
/// adopted repository keeps its own `.git`, at the root only; a nested
/// repository's state belongs to that repository, and is skipped whole.
pub open spec fn copy_action(
    name: Seq<char>,
    kind: EntryKind,
    at_root: bool,
    keep_git: bool,
    ignored: bool,
) -> CopyStep {
    if is_internal(name) && !(keep_git && at_root && name == ".git"@) {
        CopyStep::Skip
    } else {
        match kind {
            EntryKind::Directory { nested } => if nested || ignored {
                CopyStep::Skip
            } else {
                CopyStep::Descend
            },
            EntryKind::Symlink => if ignored {
                CopyStep::Skip
            } else {
                CopyStep::Link
            },
            EntryKind::File => if ignored {
                CopyStep::Skip
            } else {
                CopyStep::Copy
            },
        }
    }
}

/// What copying does with the entry called `name`.
pub fn copy_step(name: &str, kind: EntryKind, at_root: bool, keep_git: bool, ignored: bool) -> (r:
    CopyStep)
    ensures
        r == copy_action(name@, kind, at_root, keep_git, ignored),
{
    if is_internal_name(name) && !(keep_git && at_root && same(name, ".git")) {
        return CopyStep::Skip;
    }
    match kind {
        EntryKind::Directory { nested } => if nested || ignored {
            CopyStep::Skip
        } else {
            CopyStep::Descend
        },
        EntryKind::Symlink => if ignored {
            CopyStep::Skip
        } else {
            CopyStep::Link
        },
        EntryKind::File => if ignored {
            CopyStep::Skip
        } else {
            CopyStep::Copy
        },
    }
}

/// Copying leaves an entry behind by its name for the engine's own names
/// alone: whatever else an entry is called, a file that no rule ignores is
/// copied, a link is linked, and a directory that is no repository of its own
/// is gone down into.
pub proof fn names_leave_nothing_else_behind(
    name: Seq<char>,
    kind: EntryKind,
    at_root: bool,
    keep_git: bool,
)
    requires
        name != ".atelier"@,
        name != ".jj"@,
        name != ".git"@ || (keep_git && at_root),
    ensures
        copy_action(name, kind, at_root, keep_git, false) == match kind {
            EntryKind::File => CopyStep::Copy,
            EntryKind::Symlink => CopyStep::Link,
            EntryKind::Directory { nested } => if nested {
                CopyStep::Skip
            } else {
                CopyStep::Descend
            },
        },
{
    reveal_strlit(".atelier");
    reveal_strlit(".jj");
    reveal_strlit(".git");
}

/// What the ignore rules name is left behind, whatever it is called and
/// wherever it stands, and so is a repository of its own; the engine's own
/// names are too, but for the `.git` of an adopted repository.
pub proof fn what_is_left_behind(
    name: Seq<char>,
    kind: EntryKind,
    at_root: bool,
    keep_git: bool,
    ignored: bool,
)
    ensures
        copy_action(name, kind, at_root, keep_git, ignored) is Skip <==> ignored || kind
            == (EntryKind::Directory { nested: true }) || name == ".atelier"@ || name == ".jj"@ || (
        name == ".git"@ && !(keep_git && at_root)),
{
    reveal_strlit(".atelier");
    reveal_strlit(".jj");
    reveal_strlit(".git");
    assert(".atelier"@.len() == 8 && ".jj"@.len() == 3 && ".git"@.len() == 4);
    if kind is Directory && kind->nested {
        assert(kind == (EntryKind::Directory { nested: true }));
    }
}

/// Copying never takes the engine's internals along, below the root nor,
/// but for an adopted repository's `.git`, at it.
pub proof fn internals_are_not_copied(
    name: Seq<char>,
    kind: EntryKind,
    at_root: bool,
    keep_git: bool,
    ignored: bool,
)
    requires
        is_internal(name),
        !(copy_action(name, kind, at_root, keep_git, ignored) is Skip),
    ensures
        keep_git,
        at_root,
        name == ".git"@,
{
}

/// A directory a copy is at, or has still to read: its path, empty for the
/// source's root, and the ignore files in force there.
pub struct CopyDir {
    dir: String,
    ignores: Arc<GitIgnoreFile>,
}

/// What a [`CopyDir`] says.
#[verifier::ext_equal]
pub struct CopyDirView {
    pub dir: Seq<char>,
    pub files: Seq<(Seq<char>, Seq<u8>)>,
}

impl View for CopyDir {
    type V = CopyDirView;

    closed spec fn view(&self) -> CopyDirView {
        CopyDirView { dir: self.dir@, files: ignore_files(*self.ignores) }
    }
}

/// A copy of a folder exactly as a snapshot would version it: a walk by an
/// explicit stack, with the ignore files of every directory on the way.
pub struct CopyWalk {
    keep_git: bool,
    pending: Vec<CopyDir>,
    current: CopyDir,
}

/// Where a [`CopyWalk`] stands.
#[verifier::ext_equal]
pub struct CopyView {
    pub keep_git: bool,
    pub pending: Seq<CopyDirView>,
    pub current: CopyDirView,
}

/// What each of the directories says, in order.
pub open spec fn copy_dir_views(dirs: Seq<CopyDir>) -> Seq<CopyDirView> {
    dirs.map_values(|dir: CopyDir| dir@)
}

impl View for CopyWalk {
    type V = CopyView;

    closed spec fn view(&self) -> CopyView {
        CopyView {
            keep_git: self.keep_git,
            pending: copy_dir_views(self.pending@),
            current: self.current@,
        }
    }
}

/// What a copy does with an entry of the directory it is at. A name that is
/// not UTF-8 is none, and is skipped, as is one that no path can hold.
pub open spec fn walk_action(walk: CopyView, name: Option<Seq<char>>, kind: EntryKind) -> CopyStep {
    dir_action(walk.keep_git, walk.current, name, kind)
}

/// What a copy does with an entry of a directory, under the ignore files in
/// force there.
pub open spec fn dir_action(
    keep_git: bool,
    dir: CopyDirView,
    name: Option<Seq<char>>,
    kind: EntryKind,
) -> CopyStep {
    match name {
        None => CopyStep::Skip,
        Some(name) => if !is_one_piece(name) {
            CopyStep::Skip
        } else {
            let path = entry_path(dir.dir, name);
            copy_action(
                name,
                kind,
                dir.dir.len() == 0,
                keep_git,
                if kind is Directory {
                    leaves_dir_out(dir.files, path)
                } else {
                    leaves_file_out(dir.files, path)
                },
            )
        },
    }
}

/// A copy that goes on to the directory put off last.
pub open spec fn gone_on(walk: CopyView) -> CopyView {
    CopyView { pending: walk.pending.drop_last(), current: walk.pending.last(), ..walk }
}

/// A copy that has an ignore file in force in the directory it is at.
pub open spec fn obeying(walk: CopyView, rules: Seq<u8>) -> CopyView {
    CopyView { current: dir_obeying(walk.current, rules), ..walk }
}

/// A directory with an ignore file of its own in force.
pub open spec fn dir_obeying(dir: CopyDirView, rules: Seq<u8>) -> CopyDirView {
    CopyDirView { files: dir.files.push((dir.dir, rules)), ..dir }
}

/// A copy that has met an entry of the directory it is at: a directory that
/// is copied is put off, under the ignore files in force here.
pub open spec fn having_met(
    walk: CopyView,
    name: Option<Seq<char>>,
    kind: EntryKind,
) -> CopyView {
    if walk_action(walk, name, kind) is Descend {
        CopyView { pending: walk.pending.push(dir_below(walk.current, name->0)), ..walk }
    } else {
        walk
    }
}

/// A directory of a directory, under the ignore files in force in that.
pub open spec fn dir_below(dir: CopyDirView, name: Seq<char>) -> CopyDirView {
    CopyDirView { dir: entry_path(dir.dir, name), files: dir.files }
}

/// The start of a copy: the root is put off, and no ignore file is in force.
pub open spec fn copy_start(keep_git: bool) -> CopyView {
    CopyView { keep_git, pending: seq![copy_root()], current: copy_root() }
}

/// The root of a source, with no ignore file in force.
pub open spec fn copy_root() -> CopyDirView {
    CopyDirView { dir: Seq::empty(), files: Seq::empty() }
}

/// Whether a name is one piece of a path.
pub open spec fn is_one_piece(name: Seq<char>) -> bool {
    name.len() > 0 && !name.contains('/')
}

/// A name without a slash is its own only piece.
proof fn one_piece(name: Seq<char>)
    requires
        !name.contains('/'),
    ensures
        pieces(name) == seq![name],
    decreases name.len(),
{
    if name.len() > 0 {
        let before = name.drop_last();
        assert forall|i: int| 0 <= i < before.len() implies before[i] != '/' by {
            assert(before[i] == name[i]);
            assert(name.contains(name[i]));
        }
        one_piece(before);
        assert(name.contains(name.last()));
        assert(before.push(name.last()) =~= name);
        assert(pieces(name) =~= seq![name]);
    } else {
        assert(name =~= Seq::empty());
    }
}

/// An entry of a directory in a tree has a path in the tree.
proof fn entry_in_tree(dir: Seq<char>, name: Seq<char>)
    requires
        is_tree_path(dir),
        is_one_piece(name),
    ensures
        is_tree_path(entry_path(dir, name)),
{
    one_piece(name);
    if dir.len() > 0 {
        reveal_strlit("/");
        assert(dir + "/"@ + name =~= dir.push('/') + name);
        pieces_join(dir, name);
        let all = pieces(dir) + seq![name];
        assert forall|i: int| 0 <= i < all.len() implies (#[trigger] all[i]).len() > 0 by {
            if i < pieces(dir).len() {
                assert(all[i] == pieces(dir)[i]);
            }
        }
    }
}

impl CopyWalk {
    /// Whether every directory of the walk lies in the source.
    pub closed spec fn wf(self) -> bool {
        &&& is_tree_path(self.current.dir@)
        &&& forall|i: int|
            0 <= i < self.pending@.len() ==> is_tree_path((#[trigger] self.pending@[i]).dir@)
    }

    /// A copy from a source's root; `keep_git` carries the repository itself
    /// along, where the source is adopted.
    pub fn start(keep_git: bool) -> (r: Self)
        ensures
            r.wf(),
            r@ == copy_start(keep_git),
    {
        let mut pending: Vec<CopyDir> = Vec::new();
        let root = CopyDir { dir: String::new(), ignores: no_ignores() };
        assert(root.dir@ =~= Seq::empty());
        let current = CopyDir { dir: String::new(), ignores: no_ignores() };
        assert(current.dir@ =~= Seq::empty());
        pending.push(root);
        let walk = CopyWalk { keep_git, pending, current };
        assert(walk@.pending =~= seq![CopyDirView { dir: Seq::empty(), files: Seq::empty() }]);
        walk
    }

    /// Go on to the next directory, none when all are read.
    pub fn next(&mut self) -> (r: Option<String>)
        requires
            old(self).wf(),
        ensures
            final(self).wf(),
            old(self)@.pending.len() == 0 ==> r is None && final(self)@ == old(self)@,
            old(self)@.pending.len() > 0 ==> {
                &&& opt_text(r) == Some(old(self)@.pending.last().dir)
                &&& final(self)@ == gone_on(old(self)@)
            },
    {
        let ghost before = self@;
        let ghost rows = self.pending@;
        match self.pending.pop() {
            Some(dir) => {
                let ghost view = dir@;
                assert(dir == rows.last());
                let path = owned(dir.dir.as_str());
                self.current = dir;
                proof {
                    assert(self@.pending =~= before.pending.drop_last());
                    assert(before.pending.last() == view);
                    assert forall|i: int| 0 <= i < self.pending@.len() implies is_tree_path(
                        (#[trigger] self.pending@[i]).dir@,
                    ) by {
                        assert(self.pending@[i] == rows[i]);
                    }
                }
                Some(path)
            },
            None => {
                assert(self@ =~= before);
                None
            },
        }
    }

    /// Put the ignore file of the directory the walk is at in force there.
    pub fn obey(&mut self, rules: &[u8]) -> (r: Result<(), Error>)
        requires
            old(self).wf(),
        ensures
            final(self).wf(),
            r is Ok,
            final(self)@ == obeying(old(self)@, rules@),
    {
        match chained(&self.current.ignores, self.current.dir.as_str(), rules) {
            Ok(ignores) => {
                self.current.ignores = ignores;
                Ok(())
            },
            Err(detail) => Err(Error::Engine(detail)),
        }
    }

    /// Meet an entry of the directory the walk is at, and say what copying
    /// does with it. A directory that is copied is walked later, under the
    /// ignore files in force here.
    pub fn meet(&mut self, name: &Option<String>, kind: EntryKind) -> (r: Result<CopyStep, Error>)
        requires
            old(self).wf(),
        ensures
            final(self).wf(),
            r == Ok::<CopyStep, Error>(walk_action(old(self)@, opt_text(*name), kind)),
            final(self)@ == having_met(old(self)@, opt_text(*name), kind),
    {
        let name = match name {
            None => {
                return Ok(CopyStep::Skip);
            },
            Some(name) => name.as_str(),
        };
        if name.is_empty() || holds(name, '/') {
            return Ok(CopyStep::Skip);
        }
        let path = if self.current.dir.as_str().is_empty() {
            owned(name)
        } else {
            let mut path = joined(self.current.dir.as_str(), "/");
            path.push_str(name);
            path
        };
        assert(path@ == entry_path(self.current.dir@, name@));
        proof {
            entry_in_tree(self.current.dir@, name@);
        }
        let answer = match kind {
            EntryKind::Directory { .. } => ignores_dir(&self.current.ignores, path.as_str()),
            EntryKind::Symlink | EntryKind::File => ignores_file(
                &self.current.ignores,
                path.as_str(),
            ),
        };
        let left_out = match answer {
            Ok(left_out) => left_out,
            Err(detail) => {
                return Err(Error::Engine(detail));
            },
        };
        let at_root = self.current.dir.as_str().is_empty();
        let step = copy_step(name, kind, at_root, self.keep_git, left_out);
        if let CopyStep::Descend = step {
            let ghost before = self@;
            let ghost rows = self.pending@;
            let child = CopyDir { dir: path, ignores: shared(&self.current.ignores) };
            let ghost view = child@;
            self.pending.push(child);
            proof {
                assert(self@.pending =~= before.pending.push(view));
                assert forall|i: int| 0 <= i < self.pending@.len() implies is_tree_path(
                    (#[trigger] self.pending@[i]).dir@,
                ) by {
                    if i < rows.len() {
                        assert(self.pending@[i] == rows[i]);
                    }
                }
            }
        }
        Ok(step)
    }
}

// ---------------------------------------------------------------------
// Writing a snapshot out.

/// What a snapshot holds at a path.
#[derive(Debug, Clone, PartialEq, Eq)]
pub enum TreeEntry {
    /// Sides that disagree.
    Conflicted,
    /// Nothing.
    Absent,
    File { executable: bool },
    Symlink,
    /// Anything else, as the store shows it.
    Other { shown: String },
}

/// What mirroring a snapshot does at a path.
#[derive(Debug, Clone, Copy, PartialEq, Eq, Structural)]
pub enum ExportStep {
    Skip,
    WriteFile { executable: bool },
    WriteLink,
}

/// What mirroring a snapshot does at the path `rel`: only files and links
/// can be written out.
pub fn export_step(rel: &str, entry: &TreeEntry) -> (r: Result<ExportStep, Error>)
    ensures
        match *entry {
            TreeEntry::Conflicted => r is Err && (r->Err_0)@ == ErrorView::Engine(
                "conflicted tree entry at "@ + rel@,
            ),
            TreeEntry::Absent => r == Ok::<ExportStep, Error>(ExportStep::Skip),
            TreeEntry::File { executable } => r == Ok::<ExportStep, Error>(
                ExportStep::WriteFile { executable },
            ),
            TreeEntry::Symlink => r == Ok::<ExportStep, Error>(ExportStep::WriteLink),
            TreeEntry::Other { shown } => r is Err && (r->Err_0)@ == ErrorView::Engine(
                "cannot export "@ + rel@ + ": "@ + shown@,
            ),
        },
{
    match entry {
        TreeEntry::Conflicted => Err(Error::Engine(joined("conflicted tree entry at ", rel))),
        TreeEntry::Absent => Ok(ExportStep::Skip),
        TreeEntry::File { executable } => Ok(ExportStep::WriteFile { executable: *executable }),
        TreeEntry::Symlink => Ok(ExportStep::WriteLink),
        TreeEntry::Other { shown } => {
            let mut detail = joined("cannot export ", rel);
            detail.push_str(": ");
            detail.push_str(shown.as_str());
            Err(Error::Engine(detail))
        },
    }
}

// ---------------------------------------------------------------------
// Pruning what a snapshot lacks.

/// The path of an entry of a directory, both relative to the mirror's root;
/// the root itself is the empty path.
pub open spec fn entry_path(dir: Seq<char>, name: Seq<char>) -> Seq<char> {
    if dir.len() == 0 {
        name
    } else {
        dir + "/"@ + name
    }
}

/// A prune of a directory down to the files a snapshot has: a walk by an
/// explicit stack, and the directories it found.
pub struct Prune {
    kept: Vec<String>,
    pending: Vec<String>,
    directories: Vec<String>,
}

/// Where a [`Prune`] stands.
#[verifier::ext_equal]
pub struct PruneView {
    pub kept: Seq<Seq<char>>,
    pub pending: Seq<Seq<char>>,
    pub directories: Seq<Seq<char>>,
}

impl View for Prune {
    type V = PruneView;

    closed spec fn view(&self) -> PruneView {
        PruneView {
            kept: texts(self.kept@),
            pending: texts(self.pending@),
            directories: texts(self.directories@),
        }
    }
}

/// Whether pruning removes a file: it is none of the engine's, and the
/// snapshot does not have it.
pub open spec fn prunes(kept: Seq<Seq<char>>, dir: Seq<char>, name: Seq<char>) -> bool {
    !is_internal(name) && !kept.contains(entry_path(dir, name))
}

/// The start of a prune: the root is put off, and no directory was found.
pub open spec fn prune_start(kept: Seq<Seq<char>>) -> PruneView {
    PruneView { kept, pending: seq![Seq::empty()], directories: Seq::empty() }
}

/// A prune that goes on to the directory put off last.
pub open spec fn prune_gone_on(prune: PruneView) -> PruneView {
    PruneView { pending: prune.pending.drop_last(), ..prune }
}

/// A prune that has met an entry of the directory `dir`: a directory that is
/// none of the engine's is put off, and noted.
pub open spec fn prune_having_met(
    prune: PruneView,
    dir: Seq<char>,
    name: Seq<char>,
    is_dir: bool,
) -> PruneView {
    if is_dir && !is_internal(name) {
        PruneView {
            pending: prune.pending.push(entry_path(dir, name)),
            directories: prune.directories.push(entry_path(dir, name)),
            ..prune
        }
    } else {
        prune
    }
}

impl Prune {
    /// A prune that keeps the files at the given paths.
    pub fn start(kept: Vec<String>) -> (r: Self)
        ensures
            r@ == prune_start(texts(kept@)),
    {
        let mut pending: Vec<String> = Vec::new();
        pending.push(String::new());
        let prune = Prune { kept, pending, directories: Vec::new() };
        assert(prune@ =~= prune_start(texts(kept@))) by {
            assert(prune@.pending =~= seq![Seq::<char>::empty()]);
        }
        prune
    }

    /// The next directory to read, none when all are read.
    pub fn next(&mut self) -> (r: Option<String>)
        ensures
            old(self)@.pending.len() == 0 ==> r is None && final(self)@ == old(self)@,
            old(self)@.pending.len() > 0 ==> opt_text(r) == Some(old(self)@.pending.last())
                && final(self)@ == prune_gone_on(old(self)@),
    {
        let ghost before = self@;
        let r = self.pending.pop();
        proof {
            if before.pending.len() > 0 {
                assert(self@ =~= prune_gone_on(before));
            } else {
                assert(self@ =~= before);
            }
        }
        r
    }

    /// Meet an entry of the directory `dir`, and say whether to remove it.
    /// A directory is walked and left for later; a name that is not UTF-8,
    /// given as none, cannot be mirrored over: `shown` is where it stands.
    pub fn meet(&mut self, dir: &str, name: &Option<String>, is_dir: bool, shown: &str) -> (r: Result<
        bool,
        Error,
    >)
        ensures
            match *name {
                None => {
                    &&& r is Err
                    &&& (r->Err_0)@ == ErrorView::Engine(
                        "cannot mirror over a non-utf8 name at "@ + shown@,
                    )
                    &&& final(self)@ == old(self)@
                },
                Some(name) => {
                    &&& r is Ok
                    &&& r->Ok_0 == (!is_dir && prunes(old(self)@.kept, dir@, name@))
                    &&& final(self)@ == prune_having_met(old(self)@, dir@, name@, is_dir)
                },
            },
    {
        let name = match name {
            None => {
                return Err(Error::Engine(joined("cannot mirror over a non-utf8 name at ", shown)));
            },
            Some(name) => name.as_str(),
        };
        if is_internal_name(name) {
            return Ok(false);
        }
        let path = if dir.is_empty() {
            owned(name)
        } else {
            let mut path = joined(dir, "/");
            path.push_str(name);
            path
        };
        if !is_dir {
            return Ok(!among(&self.kept, path.as_str()));
        }
        let ghost before = self@;
        let ghost view = path@;
        self.directories.push(owned(path.as_str()));
        self.pending.push(path);
        assert(self@ =~= prune_having_met(before, dir@, name@, is_dir)) by {
            assert(self@.pending =~= before.pending.push(view));
            assert(self@.directories =~= before.directories.push(view));
        }
        Ok(false)
    }

    /// The directories the prune found, deepest first: emptied ones go, and
    /// an emptied child empties its parent in turn.
    pub fn into_directories(self) -> (r: Vec<String>)
        ensures
            texts(r@) == deepest_first(self@.directories),
    {
        let ghost all = texts(self.directories@);
        let mut out: Vec<String> = Vec::new();
        let mut i: usize = 0;
        assert(all.take(0) =~= Seq::empty());
        assert(texts(out@) =~= deepest_first(all.take(0)));
        while i < self.directories.len()
            invariant
                i <= self.directories@.len(),
                all == texts(self.directories@),
                texts(out@) == deepest_first(all.take(i as int)),
            decreases self.directories@.len() - i,
        {
            assert(all[i as int] == self.directories@[i as int]@);
            assert(all.take(i + 1).drop_last() =~= all.take(i as int));
            assert(all.take(i + 1).last() == all[i as int]);
            insert_by_depth(&mut out, owned(self.directories[i].as_str()));
            i = i + 1;
        }
        assert(all.take(all.len() as int) =~= all);
        out
    }
}

/// How deep a directory lies: how many pieces its path has.
pub open spec fn depth(path: Seq<char>) -> nat {
    pieces(path).len()
}

/// How many of the leading directories lie at least as deep as `path`.
pub open spec fn depth_place(dirs: Seq<Seq<char>>, path: Seq<char>) -> int
    decreases dirs.len(),
{
    if dirs.len() == 0 || depth(dirs[0]) < depth(path) {
        0
    } else {
        1 + depth_place(dirs.drop_first(), path)
    }
}

/// Directories with the deepest first, those of one depth in the order they
/// were found.
pub open spec fn deepest_first(dirs: Seq<Seq<char>>) -> Seq<Seq<char>>
    decreases dirs.len(),
{
    if dirs.len() == 0 {
        Seq::empty()
    } else {
        let rest = deepest_first(dirs.drop_last());
        rest.insert(depth_place(rest, dirs.last()), dirs.last())
    }
}

/// Insert a directory behind those at least as deep.
fn insert_by_depth(dirs: &mut Vec<String>, path: String)
    ensures
        texts(final(dirs)@) == texts(old(dirs)@).insert(
            depth_place(texts(old(dirs)@), path@),
            path@,
        ),
{
    let ghost all = texts(dirs@);
    let own = path_pieces(path.as_str()).len();
    assert(own == depth(path@));
    let mut at: usize = 0;
    assert(all.skip(0) =~= all);
    while at < dirs.len() && path_pieces(dirs[at].as_str()).len() >= own
        invariant
            at <= dirs@.len(),
            own == depth(path@),
            all == texts(dirs@),
            dirs@ == old(dirs)@,
            depth_place(all, path@) == at + depth_place(all.skip(at as int), path@),
        decreases dirs@.len() - at,
    {
        assert(all[at as int] == dirs@[at as int]@);
        assert(all.skip(at as int)[0] == all[at as int]);
        assert(all.skip(at as int).drop_first() =~= all.skip(at + 1));
        at = at + 1;
    }
    proof {
        if at < dirs@.len() {
            assert(all[at as int] == dirs@[at as int]@);
            assert(all.skip(at as int)[0] == all[at as int]);
        }
    }
    let ghost view = path@;
    dirs.insert(at, path);
    assert(texts(dirs@) =~= all.insert(at as int, view));
}

/// Whether no directory comes behind a shallower one.
pub open spec fn deepening(dirs: Seq<Seq<char>>) -> bool {
    forall|i: int, j: int|
        #![trigger dirs[i], dirs[j]]
        0 <= i < j < dirs.len() ==> depth(dirs[i]) >= depth(dirs[j])
}

/// An insertion by depth keeps the deepest first.
proof fn insertion_deepens(dirs: Seq<Seq<char>>, path: Seq<char>)
    requires
        deepening(dirs),
    ensures
        0 <= depth_place(dirs, path) <= dirs.len(),
        deepening(dirs.insert(depth_place(dirs, path), path)),
        forall|i: int| 0 <= i < depth_place(dirs, path) ==> depth(#[trigger] dirs[i]) >= depth(path),
        forall|i: int| depth_place(dirs, path) <= i < dirs.len() ==> depth(#[trigger] dirs[i]) < depth(path),
    decreases dirs.len(),
{
    if dirs.len() > 0 && depth(dirs[0]) >= depth(path) {
        let rest = dirs.drop_first();
        assert forall|i: int, j: int|
            #![trigger rest[i], rest[j]]
            0 <= i < j < rest.len() implies depth(rest[i]) >= depth(rest[j]) by {
            assert(depth(dirs[i + 1]) >= depth(dirs[j + 1]));
        }
        insertion_deepens(rest, path);
        assert forall|i: int| 0 <= i < depth_place(dirs, path) implies depth(#[trigger] dirs[i]) >= depth(path) by {
            if i > 0 {
                assert(dirs[i] == rest[i - 1]);
            }
        }
        assert forall|i: int| depth_place(dirs, path) <= i < dirs.len() implies depth(#[trigger] dirs[i]) < depth(path) by {
            assert(dirs[i] == rest[i - 1]);
        }
    } else if dirs.len() > 0 {
        assert forall|i: int| 0 <= i < dirs.len() implies depth(#[trigger] dirs[i]) < depth(path) by {
            assert(depth(dirs[0]) >= depth(dirs[i]) || i == 0);
        }
    }
    let at = depth_place(dirs, path);
    let whole = dirs.insert(at, path);
    assert forall|i: int, j: int|
        #![trigger whole[i], whole[j]]
        0 <= i < j < whole.len() implies depth(whole[i]) >= depth(whole[j]) by {
        let x = if i < at {
            i
        } else {
            i - 1
        };
        let y = if j < at {
            j
        } else {
            j - 1
        };
        if i != at && j != at {
            assert(depth(dirs[x]) >= depth(dirs[y]));
        } else if j == at {
            assert(depth(dirs[i]) >= depth(path));
        } else {
            assert(depth(dirs[y]) < depth(path));
        }
    }
}

/// A directory lies deeper than the one it is in.
pub proof fn children_lie_deeper(dir: Seq<char>, name: Seq<char>)
    requires
        dir.len() > 0,
    ensures
        depth(entry_path(dir, name)) > depth(dir),
{
    reveal_strlit("/");
    assert(dir + "/"@ + name =~= dir.push('/') + name);
    pieces_join(dir, name);
    pieces_nonempty(name);
}

/// Pruned directories come deepest first, none lost and none added; so none
/// comes before a directory that lies in it.
pub proof fn children_come_first(dirs: Seq<Seq<char>>)
    ensures
        deepening(deepest_first(dirs)),
        deepest_first(dirs).to_multiset() == dirs.to_multiset(),
        forall|i: int, j: int, name: Seq<char>|
            #![trigger deepest_first(dirs)[j], entry_path(deepest_first(dirs)[i], name)]
            0 <= i < deepest_first(dirs).len() && 0 <= j < deepest_first(dirs).len()
                && deepest_first(dirs)[i].len() > 0 && deepest_first(dirs)[j] == entry_path(
                deepest_first(dirs)[i],
                name,
            ) ==> j < i,
    decreases dirs.len(),
{
    if dirs.len() > 0 {
        let rest = deepest_first(dirs.drop_last());
        children_come_first(dirs.drop_last());
        insertion_deepens(rest, dirs.last());
        vstd::seq_lib::to_multiset_insert(rest, depth_place(rest, dirs.last()), dirs.last());
        assert(dirs.drop_last().push(dirs.last()) =~= dirs);
        vstd::seq_lib::to_multiset_build(dirs.drop_last(), dirs.last());
    } else {
        assert(dirs =~= Seq::empty());
    }
    let sorted = deepest_first(dirs);
    assert forall|i: int, j: int, name: Seq<char>|
        #![trigger sorted[j], entry_path(sorted[i], name)]
        0 <= i < sorted.len() && 0 <= j < sorted.len() && sorted[i].len() > 0 && sorted[j]
            == entry_path(sorted[i], name) implies j < i by {
        children_lie_deeper(sorted[i], name);
        if i < j {
            assert(depth(sorted[i]) >= depth(sorted[j]));
        }
    }
}

/// An entry's path is its name at the root, and its directory, a slash, and
/// its name below it.
pub proof fn entries_lie_in_their_directory(dir: Seq<char>, name: Seq<char>)
    ensures
        entry_path(Seq::empty(), name) == name,
        dir.len() > 0 ==> entry_path(dir, name) == dir.push('/') + name,
{
    reveal_strlit("/");
    assert(dir + "/"@ + name =~= dir.push('/') + name);
}

/// An entry whose name is unreadable, empty, or holds a slash is left behind;
/// any other is left behind exactly when the rules in force leave its path
/// out, it is a repository of its own, or its name is kept aside.
pub proof fn copies_go_by_the_rules_in_force(
    keep_git: bool,
    dir: CopyDirView,
    name: Seq<char>,
    kind: EntryKind,
)
    ensures
        dir_action(keep_git, dir, None, kind) is Skip,
        name.len() == 0 || name.contains('/') ==> dir_action(
            keep_git,
            dir,
            Some(name),
            kind,
        ) is Skip,
        name.len() > 0 && !name.contains('/') ==> {
            let path = if dir.dir.len() == 0 {
                name
            } else {
                dir.dir.push('/') + name
            };
            let ignored = if kind is Directory {
                leaves_dir_out(dir.files, path)
            } else {
                leaves_file_out(dir.files, path)
            };
            let aside = name == ".atelier"@ || name == ".jj"@ || (name == ".git"@ && !(keep_git
                && dir.dir.len() == 0));
            let step = dir_action(keep_git, dir, Some(name), kind);
            &&& step is Skip <==> ignored || aside || kind == (EntryKind::Directory {
                nested: true,
            })
            &&& step is Descend ==> kind is Directory
            &&& step is Link ==> kind is Symlink
            &&& step is Copy ==> kind is File
        },
{
    entries_lie_in_their_directory(dir.dir, name);
    let path = entry_path(dir.dir, name);
    let ignored = if kind is Directory {
        leaves_dir_out(dir.files, path)
    } else {
        leaves_file_out(dir.files, path)
    };
    what_is_left_behind(name, kind, dir.dir.len() == 0, keep_git, ignored);
}

/// The rules in force in a directory are its parent's, then its own, found
/// where they stand; a directory is read later exactly when it is descended
/// into, under the rules in force where it was met.
pub proof fn rules_hold_below(
    walk: CopyView,
    rules: Seq<u8>,
    name: Option<Seq<char>>,
    kind: EntryKind,
)
    ensures
        ({
            let here = walk.current;
            let obeyed = obeying(walk, rules);
            let after = having_met(walk, name, kind);
            &&& obeyed.pending == walk.pending && obeyed.keep_git == walk.keep_git
            &&& obeyed.current.dir == here.dir
            &&& obeyed.current.files.len() == here.files.len() + 1
            &&& obeyed.current.files.last() == (here.dir, rules)
            &&& forall|i: int|
                0 <= i < here.files.len() ==> #[trigger] obeyed.current.files[i] == here.files[i]
            &&& after.current == walk.current && after.keep_git == walk.keep_git
            &&& !(walk_action(walk, name, kind) is Descend) ==> after.pending == walk.pending
            &&& walk_action(walk, name, kind) is Descend ==> after.pending.len()
                == walk.pending.len() + 1 && after.pending.last().dir == entry_path(
                here.dir,
                name->0,
            ) && after.pending.last().files == here.files && forall|i: int|
                0 <= i < walk.pending.len() ==> #[trigger] after.pending[i] == walk.pending[i]
        }),
{
}

/// Pruning removes exactly what is not kept and not kept aside; directories
/// are gone into and noted, but for those kept aside.
pub proof fn pruning_spares_what_is_kept(
    prune: PruneView,
    dir: Seq<char>,
    name: Seq<char>,
    is_dir: bool,
)
    ensures
        ({
            let aside = name == ".atelier"@ || name == ".jj"@ || name == ".git"@;
            let path = if dir.len() == 0 {
                name
            } else {
                dir.push('/') + name
            };
            let after = prune_having_met(prune, dir, name, is_dir);
            &&& prunes(prune.kept, dir, name) <==> !aside && !prune.kept.contains(path)
            &&& after.kept == prune.kept
            &&& !is_dir || aside ==> after == prune
            &&& is_dir && !aside ==> after.pending == prune.pending.push(path)
                && after.directories == prune.directories.push(path)
        }),
{
    entries_lie_in_their_directory(dir, name);
}

/// The rules of a boundary name each of its directories, anchored at the
/// root, on a line of its own and in order.
pub proof fn boundaries_are_anchored(boundary: Seq<Seq<char>>, name: Seq<char>)
    ensures
        boundary_rules(Seq::empty()).len() == 0,
        boundary_rules(boundary.push(name)) == boundary_rules(boundary) + (seq!['/'] + name + seq![
            '/',
            '\n',
        ]),
{
    reveal_strlit("/");
    reveal_strlit("/\n");
    assert(boundary.push(name).drop_last() =~= boundary);
    assert(boundary_rules(boundary) + "/"@ + name + "/\n"@ =~= boundary_rules(boundary) + (seq![
        '/',
    ] + name + seq!['/', '\n']));
}

} // verus!
