//! Attaching sources and founding workspaces: what is refused, in which
//! order, and what an accepted folder becomes.

use crate::apply::Mount;
use crate::config::{ActorView, Actor, ROOT_MOUNT, Source, SourceKind, SourceView, SyncPolicy, source_views};
use crate::error::{Error, ErrorView};
use crate::journal::Act;
use crate::ledger::{Ledger, LedgerView, entry_of, scoped, scoped_text, with_entry};
use crate::paths::{path_pieces, pieces};
use crate::sources::{
    bad_mount_name,
    in_order,
    is_internal,
    is_internal_name,
    is_mount_name,
    mount_names,
    own_mounts,
    valid_mount_name,
};
use crate::words::{
    ahead_of,
    begins,
    behind,
    chars_of,
    comes_before,
    contains_text,
    debug_quoted,
    is_space,
    joined,
    lex_lt,
    occurs,
    opt_text,
    owned,
    owned_opt,
    quoted,
    same,
    strip_back,
    strip_front,
    text_between,
    texts,
    trim_text,
    trimmed,
    trimmed_end,
    trimmed_start,
};
use vstd::prelude::*;

verus! {

/// What stands at a folder's `.git`.
#[derive(Debug, Clone, PartialEq, Eq)]
pub enum GitMark {
    /// Nothing: the folder is no repository.
    Absent,
    /// A directory the folder owns, and the text of its `HEAD`.
    Directory { head: String },
    /// A file, and its text: the repository's state lives elsewhere.
    Pointer { text: String },
}

/// A folder offered as a source, as the filesystem shows it.
#[derive(Debug, Clone, PartialEq, Eq)]
pub struct Offer {
    pub path: String,
    /// Whether the path is a directory.
    pub is_dir: bool,
    /// The text of its `.gitattributes`, when it has such a file.
    pub attributes: Option<String>,
    pub git: GitMark,
}

/// What a [`GitMark`] says.
pub enum MarkView {
    Absent,
    Directory { head: Seq<char> },
    Pointer { text: Seq<char> },
}

/// What an [`Offer`] says.
pub struct OfferView {
    pub path: Seq<char>,
    pub is_dir: bool,
    pub attributes: Option<Seq<char>>,
    pub git: MarkView,
}

impl View for Offer {
    type V = OfferView;

    open spec fn view(&self) -> OfferView {
        OfferView {
            path: self.path@,
            is_dir: self.is_dir,
            attributes: opt_text(self.attributes),
            git: match self.git {
                GitMark::Absent => MarkView::Absent,
                GitMark::Directory { head } => MarkView::Directory { head: head@ },
                GitMark::Pointer { text } => MarkView::Pointer { text: text@ },
            },
        }
    }
}

// ---------------------------------------------------------------------
// Reading git's files.

/// Whether a folder keeps content in git-lfs, by its `.gitattributes`.
pub open spec fn uses_lfs(attributes: Option<Seq<char>>) -> bool {
    match attributes {
        Some(text) => occurs(text, "filter=lfs"@),
        None => false,
    }
}

/// Whether a folder keeps content in git-lfs, by its `.gitattributes`.
pub fn folder_uses_lfs(attributes: &Option<String>) -> (r: bool)
    ensures
        r == uses_lfs(opt_text(*attributes)),
{
    match attributes {
        Some(text) => contains_text(text.as_str(), "filter=lfs"),
        None => false,
    }
}

/// The branch a repository has checked out, by the text of its `HEAD`:
/// the symbolic ref it names, none for a detached head.
pub open spec fn head_branch(head: Seq<char>) -> Option<Seq<char>> {
    behind(trimmed(head), "ref: refs/heads/"@)
}

/// The branch an adopted repository has checked out, by the text of its
/// `HEAD`. Landings move this branch, so a plain push from the mount
/// carries the shared line.
pub fn adopted_branch(head: &str) -> (r: Option<String>)
    ensures
        opt_text(r) == head_branch(head@),
{
    strip_front(trim_text(head).as_str(), "ref: refs/heads/")
}

/// Where a `.git` file points: what follows its `gitdir: `.
pub open spec fn pointer_target(text: Seq<char>) -> Seq<char> {
    match behind(trimmed(text), "gitdir: "@) {
        Some(target) => target,
        None => trimmed(text),
    }
}

/// The repository a linked worktree belongs to, by where its `.git` file
/// points: the owner of `.git/worktrees/<name>`, none when what is pointed
/// at is no such directory.
pub open spec fn worktree_owner(target: Seq<char>) -> Option<Seq<char>> {
    let name = pieces(target).last();
    if name.len() == 0 {
        None
    } else {
        ahead_of(target.take(target.len() - name.len()), "/.git/worktrees/"@)
    }
}

/// A path's last piece is its end.
proof fn last_piece_is_the_end(path: Seq<char>)
    ensures
        pieces(path).len() > 0,
        pieces(path).last().len() <= path.len(),
    decreases path.len(),
{
    if path.len() > 0 {
        last_piece_is_the_end(path.drop_last());
    }
}

/// Why a folder whose `.git` is a file cannot attach.
pub open spec fn pointer_error(folder: Seq<char>, text: Seq<char>) -> ErrorView {
    match worktree_owner(pointer_target(text)) {
        Some(repository) => ErrorView::LinkedWorktreeUnsupported { folder, repository },
        None => ErrorView::Config(
            folder + " carries a .git file pointing at "@ + pointer_target(text)
                + "; only a repository owning its .git directory attaches; clone the committed HEAD first: git clone --no-local --single-branch -- <worktree> <new-source>, then atelier attach <new-source> --mount <name>; cloning does not copy uncommitted edits"@,
        ),
    }
}

/// Why a folder whose `.git` is a file cannot attach: a linked worktree's
/// state belongs to its repository, and only a repository that owns its
/// `.git` directory attaches.
pub fn pointer_refusal(folder: &str, text: &str) -> (r: Error)
    ensures
        r@ == pointer_error(folder@, text@),
{
    let trimmed_text = trim_text(text);
    let target = match strip_front(trimmed_text.as_str(), "gitdir: ") {
        Some(target) => target,
        None => owned(trimmed_text.as_str()),
    };
    assert(target@ == pointer_target(text@));
    let list = path_pieces(target.as_str());
    let ghost all = texts(list@);
    proof {
        last_piece_is_the_end(target@);
        assert(all.last() == list@.last()@);
    }
    let name = chars_of(list[list.len() - 1].as_str());
    if name.len() > 0 {
        let chars = chars_of(target.as_str());
        let cut: usize = chars.len() - name.len();
        let directory = text_between(&chars, 0, cut);
        assert(directory@ =~= target@.take(cut as int));
        if let Some(repository) = strip_back(directory.as_str(), "/.git/worktrees/") {
            return Error::LinkedWorktreeUnsupported { folder: owned(folder), repository };
        }
    }
    let mut detail = joined(folder, " carries a .git file pointing at ");
    detail.push_str(target.as_str());
    detail.push_str(
        "; only a repository owning its .git directory attaches; clone the committed HEAD first: git clone --no-local --single-branch -- <worktree> <new-source>, then atelier attach <new-source> --mount <name>; cloning does not copy uncommitted edits",
    );
    Error::Config(detail)
}

// ---------------------------------------------------------------------
// Attaching.

/// Whether a source is mounted at `mount`.
pub open spec fn mounted(sources: Seq<SourceView>, mount: Seq<char>) -> bool {
    exists|i: int| 0 <= i < sources.len() && (#[trigger] sources[i]).mount == mount
}

/// Whether a source is mounted at `mount`.
pub fn is_mounted(sources: &Vec<Source>, mount: &str) -> (r: bool)
    ensures
        r == mounted(source_views(sources@), mount@),
{
    let ghost all = source_views(sources@);
    let mut i: usize = 0;
    while i < sources.len()
        invariant
            i <= sources@.len(),
            all == source_views(sources@),
            forall|k: int| 0 <= k < i ==> (#[trigger] all[k]).mount != mount@,
        decreases sources@.len() - i,
    {
        assert(all[i as int] == sources@[i as int]@);
        if same(sources[i].mount.as_str(), mount) {
            return true;
        }
        i = i + 1;
    }
    false
}

/// The mount of the source whose content a line carries: the root's line
/// carries the root import.
pub open spec fn line_mount(line: Option<Seq<char>>) -> Seq<char> {
    match line {
        Some(name) => name,
        None => ROOT_MOUNT@,
    }
}

/// The source a line is attached from, none when there is none: the first
/// at its mount.
pub fn source_at<'a>(sources: &'a Vec<Source>, line: &Option<String>) -> (r: Option<&'a Source>)
    ensures
        r is Some <==> mounted(source_views(sources@), line_mount(opt_text(*line))),
        r is Some ==> exists|i: int|
            {
                &&& 0 <= i < sources@.len()
                &&& *(r->0) == #[trigger] sources@[i]
                &&& sources@[i]@.mount == line_mount(opt_text(*line))
                &&& forall|j: int|
                    0 <= j < i ==> (#[trigger] sources@[j])@.mount != line_mount(opt_text(*line))
            },
{
    let mount = match line {
        Some(name) => name.as_str(),
        None => ROOT_MOUNT,
    };
    let ghost all = source_views(sources@);
    let mut i: usize = 0;
    while i < sources.len()
        invariant
            i <= sources@.len(),
            all == source_views(sources@),
            mount@ == line_mount(opt_text(*line)),
            forall|k: int| 0 <= k < i ==> (#[trigger] sources@[k])@.mount != mount@,
        decreases sources@.len() - i,
    {
        assert(all[i as int] == sources@[i as int]@);
        if same(sources[i].mount.as_str(), mount) {
            return Some(&sources[i]);
        }
        i = i + 1;
    }
    assert forall|k: int| 0 <= k < all.len() implies (#[trigger] all[k]).mount != mount@ by {
        assert(all[k] == sources@[k]@);
    }
    None
}

/// The error of a folder that is not there.
pub open spec fn folder_missing(path: Seq<char>) -> ErrorView {
    ErrorView::Io("source folder not found: "@ + path)
}

/// Why a folder cannot be imported into the root, if it cannot.
pub open spec fn import_error(sources: Seq<SourceView>, offer: OfferView) -> Option<ErrorView> {
    if !offer.is_dir {
        Some(folder_missing(offer.path))
    } else if mounted(sources, ROOT_MOUNT@) {
        Some(ErrorView::AlreadyAttached)
    } else if uses_lfs(offer.attributes) {
        Some(ErrorView::LfsSourceUnsupported)
    } else {
        None
    }
}

/// The source a root import becomes.
pub open spec fn imported(offer: OfferView) -> SourceView {
    SourceView {
        kind: SourceKind::LocalFolder,
        path: offer.path,
        sync: SyncPolicy::TwoWay,
        mount: ROOT_MOUNT@,
        branch: None,
    }
}

/// The source a folder becomes when its content is imported into the root:
/// one root import per workspace.
pub fn import_root(sources: &Vec<Source>, offer: &Offer) -> (r: Result<Source, Error>)
    ensures
        r is Ok <==> import_error(source_views(sources@), offer@) is None,
        r is Ok ==> (r->Ok_0)@ == imported(offer@),
        r is Err ==> Some((r->Err_0)@) == import_error(source_views(sources@), offer@),
{
    if !offer.is_dir {
        return Err(Error::Io(joined("source folder not found: ", offer.path.as_str())));
    }
    if is_mounted(sources, ROOT_MOUNT) {
        return Err(Error::AlreadyAttached);
    }
    if folder_uses_lfs(&offer.attributes) {
        return Err(Error::LfsSourceUnsupported);
    }
    Ok(
        Source {
            kind: SourceKind::LocalFolder,
            path: owned(offer.path.as_str()),
            sync: SyncPolicy::TwoWay,
            mount: owned(ROOT_MOUNT),
            branch: None,
        },
    )
}

/// Why a folder cannot be mounted at `name`, if it cannot; `collides` says
/// that workspace content already stands there.
pub open spec fn mount_error(
    sources: Seq<SourceView>,
    offer: OfferView,
    name: Seq<char>,
    collides: bool,
) -> Option<ErrorView> {
    if !offer.is_dir {
        Some(folder_missing(offer.path))
    } else if !is_mount_name(name) {
        Some(bad_mount_name(name))
    } else if mounted(sources, name) {
        Some(ErrorView::AlreadyAttached)
    } else if collides {
        Some(
            ErrorView::Config(
                "mount "@ + debug_quoted(name) + " collides with existing workspace content"@,
            ),
        )
    } else if uses_lfs(offer.attributes) {
        Some(ErrorView::LfsSourceUnsupported)
    } else {
        match offer.git {
            MarkView::Pointer { text } => Some(pointer_error(offer.path, text)),
            _ => None,
        }
    }
}

/// The source a mounted folder becomes: a repository is adopted with the
/// branch it has checked out, any other folder is imported.
pub open spec fn mounted_source(offer: OfferView, name: Seq<char>) -> SourceView {
    let (kind, branch) = match offer.git {
        MarkView::Directory { head } => (SourceKind::LocalGit, head_branch(head)),
        _ => (SourceKind::LocalFolder, None),
    };
    SourceView { kind, path: offer.path, sync: SyncPolicy::TwoWay, mount: name, branch }
}

/// The source a folder becomes when it is mounted at `name`: its own
/// history, beside the root's.
pub fn mount_folder(sources: &Vec<Source>, offer: &Offer, name: &str, collides: bool) -> (r: Result<
    Source,
    Error,
>)
    ensures
        r is Ok <==> mount_error(source_views(sources@), offer@, name@, collides) is None,
        r is Ok ==> (r->Ok_0)@ == mounted_source(offer@, name@),
        r is Err ==> Some((r->Err_0)@) == mount_error(
            source_views(sources@),
            offer@,
            name@,
            collides,
        ),
{
    if !offer.is_dir {
        return Err(Error::Io(joined("source folder not found: ", offer.path.as_str())));
    }
    if let Err(error) = valid_mount_name(name) {
        return Err(error);
    }
    if is_mounted(sources, name) {
        return Err(Error::AlreadyAttached);
    }
    if collides {
        let mut detail = joined("mount ", quoted(name).as_str());
        detail.push_str(" collides with existing workspace content");
        return Err(Error::Config(detail));
    }
    if folder_uses_lfs(&offer.attributes) {
        return Err(Error::LfsSourceUnsupported);
    }
    let (kind, branch) = match &offer.git {
        GitMark::Pointer { text } => {
            return Err(pointer_refusal(offer.path.as_str(), text.as_str()));
        },
        GitMark::Directory { head } => (SourceKind::LocalGit, adopted_branch(head.as_str())),
        GitMark::Absent => (SourceKind::LocalFolder, None),
    };
    Ok(
        Source {
            kind,
            path: owned(offer.path.as_str()),
            sync: SyncPolicy::TwoWay,
            mount: owned(name),
            branch,
        },
    )
}

/// Why a bucket cannot be mounted at `name`, if it cannot.
pub open spec fn remote_error(sources: Seq<SourceView>, name: Seq<char>, collides: bool) -> Option<
    ErrorView,
> {
    if !is_mount_name(name) {
        Some(bad_mount_name(name))
    } else if mounted(sources, name) {
        Some(ErrorView::AlreadyAttached)
    } else if collides {
        Some(
            ErrorView::Config(
                "mount "@ + debug_quoted(name) + " collides with existing workspace content"@,
            ),
        )
    } else {
        None
    }
}

/// The source a bucket becomes when it is mounted at `name`.
pub fn mount_remote(sources: &Vec<Source>, url: &str, name: &str, collides: bool) -> (r: Result<
    Source,
    Error,
>)
    ensures
        r is Ok <==> remote_error(source_views(sources@), name@, collides) is None,
        r is Ok ==> (r->Ok_0)@ == (SourceView {
            kind: SourceKind::Remote,
            path: url@,
            sync: SyncPolicy::TwoWay,
            mount: name@,
            branch: None,
        }),
        r is Err ==> Some((r->Err_0)@) == remote_error(source_views(sources@), name@, collides),
{
    if let Err(error) = valid_mount_name(name) {
        return Err(error);
    }
    if is_mounted(sources, name) {
        return Err(Error::AlreadyAttached);
    }
    if collides {
        let mut detail = joined("mount ", quoted(name).as_str());
        detail.push_str(" collides with existing workspace content");
        return Err(Error::Config(detail));
    }
    Ok(
        Source {
            kind: SourceKind::Remote,
            path: owned(url),
            sync: SyncPolicy::TwoWay,
            mount: owned(name),
            branch: None,
        },
    )
}

/// Whether copying a source takes an entry along: never the engine's
/// internals, but the repository itself when it is adopted.
pub fn copies_entry(name: &str, keeps_git: bool) -> (r: bool)
    ensures
        r == (!is_internal(name@) || (keeps_git && name@ == ".git"@)),
{
    !is_internal_name(name) || (keeps_git && same(name, ".git"))
}

/// The ledger after a source attached.
pub open spec fn attached(
    ledger: LedgerView,
    actor: ActorView,
    mount: Option<Seq<char>>,
    snapshot: Option<Seq<char>>,
    at_ms: int,
) -> LedgerView {
    let reference = match snapshot {
        Some(id) => Some(scoped(mount, id)),
        None => None,
    };
    with_entry(ledger, entry_of(actor, Act::SourceAttach, None, reference, at_ms))
}

impl Ledger {
    /// Journal that a source attached, with the snapshot that took its
    /// content in, when there was any.
    pub fn record_attach(
        &mut self,
        actor: &Actor,
        mount: &Option<String>,
        snapshot: &Option<String>,
        at_ms: i64,
    )
        requires
            old(self).wf(),
        ensures
            final(self).wf(),
            final(self)@ == attached(
                old(self)@,
                actor@,
                opt_text(*mount),
                opt_text(*snapshot),
                at_ms as int,
            ),
    {
        let reference = match snapshot {
            Some(id) => Some(scoped_text(mount, id.as_str())),
            None => None,
        };
        self.append_entry(actor, Act::SourceAttach, reference, at_ms);
    }
}

// ---------------------------------------------------------------------
// The mounts of an open workspace.

/// The names of the mounts, in order.
pub open spec fn mount_list(mounts: Seq<Mount>) -> Seq<Seq<char>> {
    mounts.map_values(|mount: Mount| mount.name@)
}

/// The branch of the first source mounted at `name`.
pub open spec fn branch_at(sources: Seq<SourceView>, name: Seq<char>) -> Option<Seq<char>>
    decreases sources.len(),
{
    if sources.len() == 0 {
        None
    } else if sources[0].mount == name {
        sources[0].branch
    } else {
        branch_at(sources.drop_first(), name)
    }
}

/// The branch of the first source mounted at `name`.
fn branch_of(sources: &Vec<Source>, name: &str) -> (r: Option<String>)
    ensures
        opt_text(r) == branch_at(source_views(sources@), name@),
{
    let ghost all = source_views(sources@);
    let mut i: usize = 0;
    assert(all.skip(0) =~= all);
    while i < sources.len()
        invariant
            i <= sources@.len(),
            all == source_views(sources@),
            branch_at(all, name@) == branch_at(all.skip(i as int), name@),
        decreases sources@.len() - i,
    {
        assert(all[i as int] == sources@[i as int]@);
        assert(all.skip(i as int)[0] == all[i as int]);
        assert(all.skip(i as int).drop_first() =~= all.skip(i + 1));
        if same(sources[i].mount.as_str(), name) {
            return owned_opt(&sources[i].branch);
        }
        i = i + 1;
    }
    None
}

/// The mounts a config names, in name order, each with the branch its
/// landings move.
pub fn mounts_of(sources: &Vec<Source>) -> (r: Vec<Mount>)
    ensures
        in_order(mount_list(r@)),
        mount_list(r@).to_multiset() == own_mounts(source_views(sources@)).to_multiset(),
        forall|i: int|
            0 <= i < r@.len() ==> opt_text((#[trigger] r@[i]).branch) == branch_at(
                source_views(sources@),
                r@[i].name@,
            ),
{
    let names = mount_names(sources);
    let ghost all = texts(names@);
    let mut out: Vec<Mount> = Vec::new();
    let mut i: usize = 0;
    assert(mount_list(out@) =~= all.take(0));
    while i < names.len()
        invariant
            i <= names@.len(),
            all == texts(names@),
            mount_list(out@) == all.take(i as int),
            forall|k: int|
                0 <= k < out@.len() ==> opt_text((#[trigger] out@[k]).branch) == branch_at(
                    source_views(sources@),
                    out@[k].name@,
                ),
        decreases names@.len() - i,
    {
        let ghost before = mount_list(out@);
        assert(all[i as int] == names@[i as int]@);
        let branch = branch_of(sources, names[i].as_str());
        out.push(Mount { name: owned(names[i].as_str()), branch });
        assert(mount_list(out@) =~= before.push(all[i as int]));
        assert(all.take(i + 1) =~= all.take(i as int).push(all[i as int]));
        i = i + 1;
    }
    assert(all.take(all.len() as int) =~= all);
    out
}

/// Where a name belongs among names in order: behind those before it.
pub open spec fn place(names: Seq<Seq<char>>, name: Seq<char>) -> int
    decreases names.len(),
{
    if names.len() == 0 || !lex_lt(names[0], name) {
        0
    } else {
        1 + place(names.drop_first(), name)
    }
}

/// Insert a new mount where its name belongs.
pub fn insert_mount(mounts: &mut Vec<Mount>, mount: Mount)
    ensures
        0 <= place(mount_list(old(mounts)@), mount.name@) <= old(mounts)@.len(),
        final(mounts)@ == old(mounts)@.insert(
            place(mount_list(old(mounts)@), mount.name@),
            mount,
        ),
{
    let ghost all = mount_list(mounts@);
    let mut at: usize = 0;
    assert(all.skip(0) =~= all);
    while at < mounts.len() && comes_before(mounts[at].name.as_str(), mount.name.as_str())
        invariant
            at <= mounts@.len(),
            mounts@ == old(mounts)@,
            all == mount_list(mounts@),
            place(all, mount.name@) == at + place(all.skip(at as int), mount.name@),
        decreases mounts@.len() - at,
    {
        assert(all[at as int] == mounts@[at as int].name@);
        assert(all.skip(at as int)[0] == all[at as int]);
        assert(all.skip(at as int).drop_first() =~= all.skip(at + 1));
        at = at + 1;
    }
    proof {
        if at < mounts@.len() {
            assert(all[at as int] == mounts@[at as int].name@);
            assert(all.skip(at as int)[0] == all[at as int]);
        }
    }
    mounts.insert(at, mount);
}

/// A new mount keeps the mounts in name order.
pub proof fn inserted_keeps_order(names: Seq<Seq<char>>, name: Seq<char>)
    requires
        in_order(names),
    ensures
        0 <= place(names, name) <= names.len(),
        in_order(names.insert(place(names, name), name)),
    decreases names.len(),
{
    if names.len() > 0 && lex_lt(names[0], name) {
        let rest = names.drop_first();
        assert forall|i: int, j: int|
            #![trigger rest[i], rest[j]]
            0 <= i < j < rest.len() implies !lex_lt(rest[j], rest[i]) by {
            assert(!lex_lt(names[j + 1], names[i + 1]));
        }
        inserted_keeps_order(rest, name);
        let at = place(rest, name);
        let small = rest.insert(at, name);
        let whole = names.insert(at + 1, name);
        assert(whole =~= seq![names[0]] + small);
        assert forall|i: int, j: int|
            #![trigger whole[i], whole[j]]
            0 <= i < j < whole.len() implies !lex_lt(whole[j], whole[i]) by {
            if i > 0 {
                assert(!lex_lt(small[j - 1], small[i - 1]));
            } else if j == at + 1 {
                crate::words::lex_asymmetric(names[0], name);
            } else {
                let k = if j < at + 1 {
                    j
                } else {
                    j - 1
                };
                assert(whole[j] == names[k]);
                assert(!lex_lt(names[k], names[0]));
            }
        }
    } else if names.len() > 0 {
        let whole = names.insert(0, name);
        assert forall|i: int, j: int|
            #![trigger whole[i], whole[j]]
            0 <= i < j < whole.len() implies !lex_lt(whole[j], whole[i]) by {
            if i > 0 {
                assert(!lex_lt(names[j - 1], names[i - 1]));
            } else {
                assert(!lex_lt(names[0], name));
                if j > 1 {
                    assert(!lex_lt(names[j - 1], names[0]));
                    crate::sources::not_before_transitive(name, names[0], names[j - 1]);
                }
            }
        }
    }
}

/// The order every aggregate walks is settled by the mounts alone: two
/// listings of the same names in order are the same.
pub proof fn mount_order_is_unique(a: Seq<Seq<char>>, b: Seq<Seq<char>>)
    requires
        in_order(a),
        in_order(b),
        a.to_multiset() == b.to_multiset(),
    ensures
        a == b,
    decreases a.len(),
{
    broadcast use vstd::seq_lib::group_to_multiset_ensures;

    assert(a.len() == a.to_multiset().len());
    assert(b.len() == b.to_multiset().len());
    if a.len() == 0 {
        assert(a =~= b);
    } else {
        assert(a.contains(a[0]));
        assert(b.to_multiset().count(a[0]) > 0);
        assert(b.contains(a[0]));
        let j = choose|j: int| 0 <= j < b.len() && b[j] == a[0];
        assert(b.contains(b[0]));
        assert(a.to_multiset().count(b[0]) > 0);
        assert(a.contains(b[0]));
        let i = choose|i: int| 0 <= i < a.len() && a[i] == b[0];
        if i != 0 && j != 0 {
            assert(!lex_lt(a[i], a[0]));
            assert(!lex_lt(b[j], b[0]));
            crate::words::lex_total(a[0], b[0]);
        }
        assert(a[0] == b[0]);
        let x = a.drop_first();
        let y = b.drop_first();
        assert(x =~= a.remove(0));
        assert(y =~= b.remove(0));
        assert forall|i: int, j: int|
            #![trigger x[i], x[j]]
            0 <= i < j < x.len() implies !lex_lt(x[j], x[i]) by {
            assert(!lex_lt(a[j + 1], a[i + 1]));
        }
        assert forall|i: int, j: int|
            #![trigger y[i], y[j]]
            0 <= i < j < y.len() implies !lex_lt(y[j], y[i]) by {
            assert(!lex_lt(b[j + 1], b[i + 1]));
        }
        mount_order_is_unique(x, y);
        assert(a =~= seq![a[0]] + x);
        assert(b =~= seq![b[0]] + y);
    }
}

// ---------------------------------------------------------------------
// Founding and opening workspaces.

/// Why a path cannot become a workspace, if it cannot: it holds one, it is
/// a git repository, or a workspace encloses it. A control directory
/// without a config is a stray marker and counts for nothing.
pub open spec fn init_error(
    root: Seq<char>,
    holds_config: bool,
    holds_git: bool,
    enclosing: Option<Seq<char>>,
) -> Option<ErrorView> {
    if holds_config {
        Some(ErrorView::WorkspaceExists(root))
    } else if holds_git {
        Some(ErrorView::GitRepositoryExists(root))
    } else {
        match enclosing {
            Some(ancestor) => Some(ErrorView::NestedWorkspace(ancestor)),
            None => None,
        }
    }
}

/// Refuse to found a workspace where one stands, where a git repository
/// stands, or inside another.
pub fn check_init(root: &str, holds_config: bool, holds_git: bool, enclosing: &Option<String>) -> (r:
    Result<(), Error>)
    ensures
        r is Ok <==> init_error(root@, holds_config, holds_git, opt_text(*enclosing)) is None,
        r is Err ==> Some((r->Err_0)@) == init_error(
            root@,
            holds_config,
            holds_git,
            opt_text(*enclosing),
        ),
{
    if holds_config {
        return Err(Error::WorkspaceExists(owned(root)));
    }
    if holds_git {
        return Err(Error::GitRepositoryExists(owned(root)));
    }
    match enclosing {
        Some(ancestor) => Err(Error::NestedWorkspace(owned(ancestor.as_str()))),
        None => Ok(()),
    }
}

/// Refuse to open a workspace where no config stands.
pub fn check_open(root: &str, holds_config: bool) -> (r: Result<(), Error>)
    ensures
        r is Ok <==> holds_config,
        r is Err ==> (r->Err_0)@ == ErrorView::NotAWorkspace(root@),
{
    if holds_config {
        Ok(())
    } else {
        Err(Error::NotAWorkspace(owned(root)))
    }
}

/// The nearest of a path's ancestors that is a workspace; the ancestors
/// come nearest first, each with whether it holds a config.
pub fn enclosing_workspace(ancestors: &Vec<(String, bool)>) -> (r: Option<String>)
    ensures
        match r {
            Some(found) => exists|i: int|
                0 <= i < ancestors@.len() && (#[trigger] ancestors@[i]).1 && ancestors@[i].0@
                    == found@ && forall|k: int| 0 <= k < i ==> !(#[trigger] ancestors@[k]).1,
            None => forall|k: int| 0 <= k < ancestors@.len() ==> !(#[trigger] ancestors@[k]).1,
        },
{
    let mut i: usize = 0;
    while i < ancestors.len()
        invariant
            i <= ancestors@.len(),
            forall|k: int| 0 <= k < i ==> !(#[trigger] ancestors@[k]).1,
        decreases ancestors@.len() - i,
    {
        if ancestors[i].1 {
            return Some(owned(ancestors[i].0.as_str()));
        }
        i = i + 1;
    }
    None
}

/// Attributes ask for large-file storage exactly when the filter stands in
/// them somewhere.
pub proof fn large_files_are_seen(text: Seq<char>, before: Seq<char>, after: Seq<char>)
    ensures
        uses_lfs(Some(before + "filter=lfs"@ + after)),
        !uses_lfs(None),
        uses_lfs(Some(text)) ==> exists|at: int|
            0 <= at <= text.len() && #[trigger] text.take(at) + "filter=lfs"@ + text.skip(
                at + "filter=lfs"@.len(),
            ) == text,
{
    crate::words::occurrences_are_found(text, "filter=lfs"@, before, after);
}

/// Trimming leaves alone what has no blank at its ends.
proof fn trimming_ends_at_text(text: Seq<char>, blank: char)
    requires
        text.len() > 0,
        !is_space(text[0]),
        !is_space(text.last()),
        is_space(blank),
    ensures
        trimmed(text) == text,
        trimmed(text.push(blank)) == text,
{
    let longer = text.push(blank);
    assert(longer[0] == text[0]);
    assert(longer.drop_last() =~= text);
    assert(trimmed_start(longer) == longer);
    reveal_with_fuel(trimmed_end, 2);
    assert(trimmed_end(longer) == text);
}

/// A head names a branch exactly when it refers to one, with or without the
/// line's end behind it; a detached head names none.
pub proof fn heads_name_branches(head: Seq<char>, branch: Seq<char>)
    requires
        branch.len() > 0,
        !is_space(branch.last()),
    ensures
        head_branch("ref: refs/heads/"@ + branch) == Some(branch),
        head_branch(("ref: refs/heads/"@ + branch).push('\n')) == Some(branch),
        head_branch(head) is Some ==> trimmed(head) == "ref: refs/heads/"@ + head_branch(head)->0,
        head_branch(head) is None <==> !begins(trimmed(head), "ref: refs/heads/"@),
{
    reveal_strlit("ref: refs/heads/");
    let line = "ref: refs/heads/"@ + branch;
    assert(line[0] == 'r' && line.last() == branch.last());
    trimming_ends_at_text(line, '\n');
    crate::words::parts_are_found("ref: refs/heads/"@, branch, trimmed(head));
    if head_branch(head) is Some {
        crate::words::parts_are_found(
            "ref: refs/heads/"@,
            head_branch(head)->0,
            trimmed(head),
        );
    }
}

/// A worktree's pointer is known by where it points: its owner is what
/// stands ahead of the owner's worktrees, and it is refused in the owner's
/// name.
pub proof fn worktrees_name_their_owner(folder: Seq<char>, owner: Seq<char>, name: Seq<char>)
    requires
        name.len() > 0,
        !name.contains('/'),
        !is_space(name.last()),
    ensures
        worktree_owner(owner + "/.git/worktrees/"@ + name) == Some(owner),
        pointer_error(
            folder,
            ("gitdir: "@ + (owner + "/.git/worktrees/"@ + name)).push('\n'),
        ) == (ErrorView::LinkedWorktreeUnsupported { folder, repository: owner }),
{
    let marker = "/.git/worktrees/"@;
    let path = owner + marker + name;
    assert(worktree_owner(path) == Some(owner)) by {
        reveal_strlit("/.git/worktrees/");
        let base = owner + marker.drop_last();
        assert(path =~= base.push('/') + name);
        crate::paths::pieces_join(base, name);
        crate::paths::one_piece(name);
        assert(pieces(path).last() == name);
        assert(path.take(path.len() - name.len()) =~= owner + marker);
        crate::words::parts_are_found(marker, owner, owner + marker);
    }
    let line = "gitdir: "@ + path;
    assert(pointer_target(line.push('\n')) == path) by {
        reveal_strlit("gitdir: ");
        assert(line[0] == 'g' && line.last() == name.last());
        trimming_ends_at_text(line, '\n');
        crate::words::parts_are_found("gitdir: "@, path, line);
    }
}

/// Only a path into a repository's worktrees has an owner: the path is the
/// owner, its worktrees, and one name.
pub proof fn only_worktrees_have_owners(target: Seq<char>)
    ensures
        worktree_owner(target) is Some ==> exists|at: int|
            0 <= at < target.len() && target == worktree_owner(target)->0 + "/.git/worktrees/"@
                + #[trigger] target.skip(at) && !target.skip(at).contains('/'),
{
    if worktree_owner(target) is Some {
        let last = pieces(target).last();
        last_piece_ends(target);
        let at = target.len() - last.len();
        crate::words::parts_are_found(
            "/.git/worktrees/"@,
            worktree_owner(target)->0,
            target.take(at),
        );
        assert(target =~= target.take(at) + target.skip(at));
    }
}

/// A path ends in its last piece, which has no slash.
proof fn last_piece_ends(path: Seq<char>)
    ensures
        pieces(path).len() > 0,
        pieces(path).last().len() <= path.len(),
        path.skip(path.len() - pieces(path).last().len()) == pieces(path).last(),
        !pieces(path).last().contains('/'),
    decreases path.len(),
{
    crate::paths::pieces_nonempty(path);
    if path.len() > 0 {
        let rest = path.drop_last();
        last_piece_ends(rest);
        let before = pieces(rest).last();
        let last = pieces(path).last();
        if path.last() == '/' {
            assert(last =~= Seq::empty());
            assert(path.skip(path.len() - last.len()) =~= last);
        } else {
            assert(last == before.push(path.last()));
            assert(rest.skip(rest.len() - before.len()) == before);
            assert(path.skip(path.len() - last.len()) =~= last) by {
                assert forall|k: int| 0 <= k < last.len() implies path.skip(
                    path.len() - last.len(),
                )[k] == last[k] by {
                    if k < before.len() {
                        assert(before[k] == rest.skip(rest.len() - before.len())[k]);
                    }
                }
            }
            assert forall|k: int| 0 <= k < last.len() implies last[k] != '/' by {
                if k < before.len() {
                    assert(before[k] == last[k]);
                }
            }
        }
    } else {
        assert(pieces(path).last() =~= Seq::empty());
        assert(path.skip(0) =~= path);
    }
}

/// Whether a source is attached at a mount.
pub open spec fn taken(sources: Seq<SourceView>, mount: Seq<char>) -> bool {
    exists|i: int| #![trigger sources[i]] 0 <= i < sources.len() && sources[i].mount == mount
}

/// A folder is imported exactly when it is there, nothing is at the root yet,
/// and it asks for no large-file storage; a missing folder is said first,
/// then a taken root.
pub proof fn imports_are_refused(sources: Seq<SourceView>, offer: OfferView)
    ensures
        import_error(sources, offer) is None <==> offer.is_dir && !taken(sources, seq!['/'])
            && !uses_lfs(offer.attributes),
        !offer.is_dir ==> import_error(sources, offer) == Some(
            ErrorView::Io("source folder not found: "@ + offer.path),
        ),
        offer.is_dir && taken(sources, seq!['/']) ==> import_error(sources, offer) == Some(
            ErrorView::AlreadyAttached,
        ),
        import_error(sources, offer) == Some(ErrorView::LfsSourceUnsupported) <==> offer.is_dir
            && !taken(sources, seq!['/']) && uses_lfs(offer.attributes),
        imported(offer).path == offer.path,
        imported(offer).mount == seq!['/'],
        imported(offer).kind == SourceKind::LocalFolder,
        imported(offer).branch is None,
{
    reveal_strlit("/");
    assert("/"@ =~= seq!['/']);
}

/// A source is mounted exactly when its folder is there, its name is a
/// mount's, free, and in nobody's way, it asks for no large-file storage, and
/// it is not a worktree of a repository elsewhere.
pub proof fn mounts_are_refused(
    sources: Seq<SourceView>,
    offer: OfferView,
    name: Seq<char>,
    collides: bool,
)
    ensures
        mount_error(sources, offer, name, collides) is None <==> offer.is_dir && is_mount_name(name)
            && !taken(sources, name) && !collides && !uses_lfs(offer.attributes)
            && !(offer.git is Pointer),
        remote_error(sources, name, collides) is None <==> is_mount_name(name) && !taken(
            sources,
            name,
        ) && !collides,
        offer.is_dir && is_mount_name(name) && taken(sources, name) ==> mount_error(
            sources,
            offer,
            name,
            collides,
        ) == Some(ErrorView::AlreadyAttached),
        is_mount_name(name) && taken(sources, name) ==> remote_error(sources, name, collides)
            == Some(ErrorView::AlreadyAttached),
        mount_error(sources, offer, name, collides) == Some(ErrorView::LfsSourceUnsupported)
            <==> offer.is_dir && is_mount_name(name) && !taken(sources, name) && !collides
            && uses_lfs(offer.attributes),
{
}

/// A mounted source keeps its folder and its name; it is a repository's
/// exactly when the folder owns one, and only such a source has a branch: the
/// one its head names.
pub proof fn mounted_sources_are_what_they_hold(offer: OfferView, name: Seq<char>)
    ensures
        mounted_source(offer, name).path == offer.path,
        mounted_source(offer, name).mount == name,
        mounted_source(offer, name).kind == SourceKind::LocalGit <==> offer.git is Directory,
        mounted_source(offer, name).kind == SourceKind::LocalFolder <==> !(offer.git is Directory),
        !(offer.git is Directory) ==> mounted_source(offer, name).branch is None,
        offer.git matches MarkView::Directory { head } ==> mounted_source(offer, name).branch
            == head_branch(head),
{
}

/// A mount's branch is that of the first source attached there; where none
/// is, there is no branch.
pub proof fn branches_go_by_mount(sources: Seq<SourceView>, name: Seq<char>, i: int)
    requires
        0 <= i < sources.len(),
        forall|j: int| #![trigger sources[j]] 0 <= j < i ==> sources[j].mount != name,
    ensures
        sources[i].mount == name ==> branch_at(sources, name) == sources[i].branch,
        !taken(sources, name) ==> branch_at(sources, name) is None,
    decreases sources.len(),
{
    let rest = sources.drop_first();
    if sources[0].mount != name {
        if i > 0 {
            assert(rest[i - 1] == sources[i]);
            assert forall|j: int| #![trigger rest[j]] 0 <= j < i - 1 implies rest[j].mount
                != name by {
                assert(rest[j] == sources[j + 1]);
            }
            branches_go_by_mount(rest, name, i - 1);
        } else if rest.len() > 0 {
            branches_go_by_mount(rest, name, 0);
        }
        if taken(rest, name) {
            let j = choose|j: int|
                #![trigger rest[j]]
                0 <= j < rest.len() && rest[j].mount == name;
            assert(sources[j + 1].mount == name);
        }
    }
}

/// A workspace is made exactly where there is none, no repository, and no
/// workspace around it; the nearest reason is said first.
pub proof fn workspaces_are_made_alone(
    root: Seq<char>,
    holds_config: bool,
    holds_git: bool,
    enclosing: Option<Seq<char>>,
)
    ensures
        init_error(root, holds_config, holds_git, enclosing) is None <==> !holds_config
            && !holds_git && enclosing is None,
        init_error(root, true, holds_git, enclosing) == Some(ErrorView::WorkspaceExists(root)),
        init_error(root, false, true, enclosing) == Some(ErrorView::GitRepositoryExists(root)),
        enclosing is Some ==> init_error(root, false, false, enclosing) == Some(
            ErrorView::NestedWorkspace(enclosing->0),
        ),
{
}

/// A line is the source's at its mount; the line of no mount is the root's.
pub proof fn lines_are_known_by_mount(name: Seq<char>)
    ensures
        line_mount(Some(name)) == name,
        line_mount(None) == seq!['/'],
{
    reveal_strlit("/");
    assert("/"@ =~= seq!['/']);
}

} // verus!
