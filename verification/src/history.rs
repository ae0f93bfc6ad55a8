//! Histories: the snapshots of a line, how new ones enter it, how the line
//! steps back, and how it is listed.

use crate::apply::fenced;
use crate::error::{Error, ErrorView};
use crate::ledger::Ledger;
use crate::projection::hex_bytes;
use crate::undo::StepBack;
use crate::words::{debug_quoted, digit, joined, opt_text, owned, quoted, same, texts};
use jj_lib::backend::CommitId;
use jj_lib::object_id::ObjectId;
use vstd::prelude::*;

verus! {

/// The largest new file a snapshot takes in, in bytes.
pub const NEW_FILE_SIZE_MAX: u64 = 52_428_800;

/// One immutable whole-workspace state in history, attributed to an actor.
#[derive(Debug, Clone, PartialEq, Eq)]
pub struct Snapshot {
    /// The snapshot's stable identity.
    pub id: String,
    /// The actor the snapshot is attributed to.
    pub actor: String,
    /// When the snapshot was taken, in unix milliseconds.
    pub at_ms: i64,
    /// The ids of the snapshot's parents in history.
    pub parents: Vec<String>,
}

/// What a [`Snapshot`] says.
pub struct SnapshotView {
    pub id: Seq<char>,
    pub actor: Seq<char>,
    pub at_ms: int,
    pub parents: Seq<Seq<char>>,
}

impl View for Snapshot {
    type V = SnapshotView;

    open spec fn view(&self) -> SnapshotView {
        SnapshotView {
            id: self.id@,
            actor: self.actor@,
            at_ms: self.at_ms as int,
            parents: texts(self.parents@),
        }
    }
}

/// What each of the snapshots says, in order.
pub open spec fn snapshot_views(snapshots: Seq<Snapshot>) -> Seq<SnapshotView> {
    snapshots.map_values(|snapshot: Snapshot| snapshot@)
}

/// One snapshot in one source's history: the root's when `source` is
/// `None`, else the named mount's.
#[derive(Debug, Clone, PartialEq, Eq)]
pub struct SourceSnapshot {
    pub source: Option<String>,
    pub snapshot: Snapshot,
}

/// A [`SourceSnapshot`]'s source and what its snapshot says.
pub open spec fn source_snapshot_views(list: Seq<SourceSnapshot>) -> Seq<
    (Option<Seq<char>>, SnapshotView),
> {
    list.map_values(|item: SourceSnapshot| (opt_text(item.source), item.snapshot@))
}

/// A commit as its store knows it: its content is named by its tree.
#[derive(Debug, Clone, PartialEq, Eq)]
pub struct Commit {
    pub id: String,
    pub tree: String,
    pub parents: Vec<String>,
    pub author: String,
    pub at_ms: i64,
}

/// What a [`Commit`] says.
pub struct CommitView {
    pub id: Seq<char>,
    pub tree: Seq<char>,
    pub parents: Seq<Seq<char>>,
    pub author: Seq<char>,
    pub at_ms: int,
}

impl View for Commit {
    type V = CommitView;

    open spec fn view(&self) -> CommitView {
        CommitView {
            id: self.id@,
            tree: self.tree@,
            parents: texts(self.parents@),
            author: self.author@,
            at_ms: self.at_ms as int,
        }
    }
}

/// A commit to write: on which parents, with which content, and how it
/// describes itself; `None` keeps the description of what it rewrites.
#[derive(Debug, Clone, PartialEq, Eq)]
pub struct NewCommit {
    pub parents: Vec<String>,
    pub tree: String,
    pub description: Option<String>,
}

/// What a [`NewCommit`] says.
pub struct NewCommitView {
    pub parents: Seq<Seq<char>>,
    pub tree: Seq<char>,
    pub description: Option<Seq<char>>,
}

impl View for NewCommit {
    type V = NewCommitView;

    open spec fn view(&self) -> NewCommitView {
        NewCommitView {
            parents: texts(self.parents@),
            tree: self.tree@,
            description: opt_text(self.description),
        }
    }
}

/// One text as a list.
fn alone(text: &str) -> (r: Vec<String>)
    ensures
        texts(r@) == seq![text@],
{
    let mut out: Vec<String> = Vec::new();
    out.push(owned(text));
    assert(texts(out@) =~= seq![text@]);
    out
}

/// A copy of a list of texts.
fn copied(items: &Vec<String>) -> (r: Vec<String>)
    ensures
        texts(r@) == texts(items@),
{
    let ghost all = texts(items@);
    let mut out: Vec<String> = Vec::new();
    let mut i: usize = 0;
    assert(texts(out@) =~= all.take(0));
    while i < items.len()
        invariant
            i <= items@.len(),
            all == texts(items@),
            texts(out@) == all.take(i as int),
        decreases items@.len() - i,
    {
        let ghost before = texts(out@);
        assert(all[i as int] == items@[i as int]@);
        out.push(owned(items[i].as_str()));
        assert(texts(out@) =~= before.push(all[i as int]));
        assert(all.take(i + 1) =~= all.take(i as int).push(all[i as int]));
        i = i + 1;
    }
    assert(all.take(all.len() as int) =~= all);
    out
}

// ---------------------------------------------------------------------
// New states.

/// How a snapshot enters history: the shared line stacks a new commit per
/// state; the fold's pre-snapshot stacks without moving git's head, where an
/// out-of-band move may have put what the fold must read; a session amends
/// its one change, so the change's identity survives.
#[derive(Debug, Clone, Copy, PartialEq, Eq, Structural)]
pub enum SnapshotStyle {
    Stack,
    StackKeepHead,
    Amend,
}

/// What recording a snapshot takes: the commit, whether it is the
/// working-copy commit's own change rewritten, so that the change's identity
/// survives, rather than a change of its own, and whether git's head moves
/// onto it.
#[derive(Debug, Clone, PartialEq, Eq)]
pub struct SnapshotPlan {
    pub commit: NewCommit,
    pub rewrites: bool,
    pub moves_head: bool,
}

/// The commit a snapshot records over the working-copy commit `on`: a
/// stacked state names itself, so a plain log never reads a blank; an amend
/// keeps the change's place and description.
pub open spec fn snapshot_commit(style: SnapshotStyle, on: CommitView, tree: Seq<char>) -> NewCommitView {
    match style {
        SnapshotStyle::Amend => NewCommitView { parents: on.parents, tree, description: None },
        _ => NewCommitView { parents: seq![on.id], tree, description: Some("snapshot"@) },
    }
}

/// Plan the snapshot of a working copy whose content is `tree`, over its
/// commit `on`. Nothing is recorded for unchanged content, and content with
/// a name that is not UTF-8 refuses.
pub fn plan_snapshot(style: SnapshotStyle, on: &Commit, tree: &str, has_invalid_names: bool) -> (r:
    Result<Option<SnapshotPlan>, Error>)
    ensures
        r is Err <==> has_invalid_names,
        r is Err ==> (r->Err_0)@ == ErrorView::Engine(
            "working copy has paths with invalid utf-8 names"@,
        ),
        r is Ok ==> (r->Ok_0 is None <==> tree@ == on@.tree),
        r matches Ok(Some(plan)) ==> plan.commit@ == snapshot_commit(style, on@, tree@)
            && plan.rewrites == (style == SnapshotStyle::Amend) && plan.moves_head == (style
            == SnapshotStyle::Stack),
{
    if has_invalid_names {
        return Err(Error::Engine(owned("working copy has paths with invalid utf-8 names")));
    }
    if same(tree, on.tree.as_str()) {
        return Ok(None);
    }
    let commit = match style {
        SnapshotStyle::Amend => NewCommit {
            parents: copied(&on.parents),
            tree: owned(tree),
            description: None,
        },
        SnapshotStyle::Stack | SnapshotStyle::StackKeepHead => NewCommit {
            parents: alone(on.id.as_str()),
            tree: owned(tree),
            description: Some(owned("snapshot")),
        },
    };
    Ok(
        Some(
            SnapshotPlan {
                commit,
                rewrites: matches!(style, SnapshotStyle::Amend),
                moves_head: matches!(style, SnapshotStyle::Stack),
            },
        ),
    )
}

/// The commit that continues a line: on its head, with the head's content.
pub open spec fn continuation(head: CommitView, description: Seq<char>) -> NewCommitView {
    NewCommitView {
        parents: seq![head.id],
        tree: head.tree,
        description: Some(description),
    }
}

/// The commit a session works on: the shared head's content on the shared
/// head, under the session's description.
pub fn session_commit(head: &Commit, description: &str) -> (r: NewCommit)
    ensures
        r@ == continuation(head@, description@),
{
    NewCommit {
        parents: alone(head.id.as_str()),
        tree: owned(head.tree.as_str()),
        description: Some(owned(description)),
    }
}

/// The commit that continues an adopted repository: on the commit it has
/// checked out, with that commit's content. A repository without commits
/// adopts as a fresh line.
pub fn adoption_commit(head: &Option<Commit>) -> (r: Option<NewCommit>)
    ensures
        match *head {
            Some(head) => r is Some && (r->0)@ == continuation(head@, "adopt"@),
            None => r is None,
        },
{
    match head {
        Some(head) => Some(session_commit(head, "adopt")),
        None => None,
    }
}

/// The commit a fold writes over moved history that diverged from the line:
/// the merged content on the move's target, and on nothing else, so the line
/// goes on from where the move put it.
pub fn fold_commit(target: &Commit, tree: &str) -> (r: NewCommit)
    ensures
        r@ == (NewCommitView {
            parents: seq![target@.id],
            tree: tree@,
            description: Some("fold"@),
        }),
{
    NewCommit {
        parents: alone(target.id.as_str()),
        tree: owned(tree),
        description: Some(owned("fold")),
    }
}

/// A snapshot holds what the working copy held. A stacked one has the state
/// before it as its only parent; an amended change keeps its own parents.
pub proof fn snapshot_keeps_its_place(style: SnapshotStyle, on: CommitView, tree: Seq<char>)
    ensures
        snapshot_commit(style, on, tree).tree == tree,
        style != SnapshotStyle::Amend ==> snapshot_commit(style, on, tree).parents == seq![on.id],
        style == SnapshotStyle::Amend ==> snapshot_commit(style, on, tree).parents == on.parents,
{
}

// ---------------------------------------------------------------------
// Ids.

/// The value of a hexadecimal digit, in either case.
pub open spec fn nibble(c: char) -> Option<int> {
    if '0' <= c <= '9' {
        Some(c as int - 48)
    } else if 'a' <= c <= 'f' {
        Some(c as int - 87)
    } else if 'A' <= c <= 'F' {
        Some(c as int - 55)
    } else {
        None
    }
}

/// Whether a text spells bytes in hexadecimal: digits alone, in pairs.
pub open spec fn is_hex(text: Seq<char>) -> bool {
    text.len() % 2 == 0 && forall|i: int| 0 <= i < text.len() ==> nibble(#[trigger] text[i]) is Some
}

/// The bytes a text spells in hexadecimal.
pub open spec fn spelled_bytes(text: Seq<char>) -> Seq<u8>
    decreases text.len(),
{
    if text.len() < 2 {
        Seq::empty()
    } else {
        let n = text.len() as int;
        spelled_bytes(text.take(n - 2)).push(
            (nibble(text[n - 2])->0 * 16 + nibble(text[n - 1])->0) as u8,
        )
    }
}

/// The bytes of a commit id spelled in hexadecimal, by `jj_lib`'s
/// `CommitId::try_from_hex`: none unless the text is hexadecimal digits in
/// pairs.
#[verifier::external_body]
pub(crate) fn commit_id_bytes(id: &str) -> (r: Option<Vec<u8>>)
    ensures
        r is Some <==> is_hex(id@),
        r is Some ==> (r->0)@ == spelled_bytes(id@),
{
    CommitId::try_from_hex(id).map(|id| id.to_bytes())
}

/// The bytes of a snapshot's id.
pub fn snapshot_bytes(id: &str) -> (r: Result<Vec<u8>, Error>)
    ensures
        r is Ok <==> is_hex(id@),
        r is Ok ==> (r->Ok_0)@ == spelled_bytes(id@),
        r is Err ==> (r->Err_0)@ == ErrorView::Engine("not a snapshot id: "@ + id@),
{
    match commit_id_bytes(id) {
        Some(bytes) => Ok(bytes),
        None => Err(Error::Engine(joined("not a snapshot id: ", id))),
    }
}

/// An id in lower case is how its bytes are spelled.
pub proof fn ids_are_their_bytes(id: Seq<char>)
    requires
        is_hex(id),
        forall|i: int| 0 <= i < id.len() ==> !('A' <= #[trigger] id[i] <= 'F'),
    ensures
        hex_bytes(spelled_bytes(id)) == id,
    decreases id.len(),
{
    let n = id.len() as int;
    if n >= 2 {
        let before = id.take(n - 2);
        assert forall|i: int| 0 <= i < before.len() implies nibble(#[trigger] before[i]) is Some
            && !('A' <= before[i] <= 'F') by {
            assert(before[i] == id[i]);
        }
        ids_are_their_bytes(before);
        let (a, b) = (id[n - 2], id[n - 1]);
        assert(nibble(a) is Some && nibble(b) is Some);
        let (x, y) = (nibble(a)->0, nibble(b)->0);
        let byte = (x * 16 + y) as u8;
        assert(0 <= x < 16 && 0 <= y < 16);
        assert(byte as int / 16 == x && byte as int % 16 == y);
        assert(digit(x) == a && digit(y) == b);
        let bytes = spelled_bytes(id);
        assert(bytes.drop_last() =~= spelled_bytes(before));
        assert(bytes.last() == byte);
        assert(before + seq![a, b] =~= id);
    } else {
        assert(id =~= Seq::empty());
    }
}

// ---------------------------------------------------------------------
// Parents.

/// A commit's first parent: for a session's change, the shared-line
/// snapshot it forked from.
pub fn parent_of(commit: &Commit) -> (r: Result<String, Error>)
    ensures
        commit@.parents.len() > 0 ==> r is Ok && (r->Ok_0)@ == commit@.parents[0],
        commit@.parents.len() == 0 ==> r is Err && (r->Err_0)@ == ErrorView::Engine(
            "snapshot "@ + commit@.id + " has no parent"@,
        ),
{
    if commit.parents.len() > 0 {
        assert(commit@.parents[0] == commit.parents@[0]@);
        Ok(owned(commit.parents[0].as_str()))
    } else {
        let mut detail = joined("snapshot ", commit.id.as_str());
        detail.push_str(" has no parent");
        Err(Error::Engine(detail))
    }
}

/// Whether a commit's content differs from its first parent's: the change
/// carries work on this line. Without a parent it does.
pub fn tree_changed(commit: &Commit, parent: &Option<Commit>) -> (r: bool)
    ensures
        r == match *parent {
            Some(parent) => commit@.tree != parent@.tree,
            None => true,
        },
{
    match parent {
        Some(parent) => !same(commit.tree.as_str(), parent.tree.as_str()),
        None => true,
    }
}

/// The parents that are not the store's root.
pub open spec fn real_parents(parents: Seq<Seq<char>>, root: Seq<char>) -> Seq<Seq<char>>
    decreases parents.len(),
{
    if parents.len() == 0 {
        Seq::empty()
    } else if parents.last() == root {
        real_parents(parents.drop_last(), root)
    } else {
        real_parents(parents.drop_last(), root).push(parents.last())
    }
}

/// The parents that are not the store's root.
pub fn without_root(parents: &Vec<String>, root: &str) -> (r: Vec<String>)
    ensures
        texts(r@) == real_parents(texts(parents@), root@),
{
    let ghost all = texts(parents@);
    let mut out: Vec<String> = Vec::new();
    let mut i: usize = 0;
    assert(all.take(0) =~= Seq::<Seq<char>>::empty());
    assert(texts(out@) =~= real_parents(all.take(0), root@));
    while i < parents.len()
        invariant
            i <= parents@.len(),
            all == texts(parents@),
            texts(out@) == real_parents(all.take(i as int), root@),
        decreases parents@.len() - i,
    {
        let ghost before = texts(out@);
        assert(all[i as int] == parents@[i as int]@);
        assert(all.take(i + 1).drop_last() =~= all.take(i as int));
        assert(all.take(i + 1).last() == all[i as int]);
        if !same(parents[i].as_str(), root) {
            out.push(owned(parents[i].as_str()));
            assert(texts(out@) =~= before.push(all[i as int]));
        }
        i = i + 1;
    }
    assert(all.take(all.len() as int) =~= all);
    out
}

/// What a line's latest snapshot is compared with: its first parent that is
/// not the store's root, or nothing at all.
pub fn diff_base(commit: &Commit, root: &str) -> (r: Option<String>)
    ensures
        opt_text(r) == next_id(commit@, root@),
{
    let parents = without_root(&commit.parents, root);
    let ghost all = texts(parents@);
    if parents.len() > 0 {
        assert(all[0] == parents@[0]@);
        Some(owned(parents[0].as_str()))
    } else {
        None
    }
}

// ---------------------------------------------------------------------
// The log.

/// The commit a line's listing goes on with.
pub open spec fn next_id(commit: CommitView, root: Seq<char>) -> Option<Seq<char>> {
    let parents = real_parents(commit.parents, root);
    if parents.len() > 0 {
        Some(parents[0])
    } else {
        None
    }
}

/// How a commit lists.
pub open spec fn listed_commit(commit: CommitView, root: Seq<char>) -> SnapshotView {
    SnapshotView {
        id: commit.id,
        actor: commit.author,
        at_ms: commit.at_ms,
        parents: real_parents(commit.parents, root),
    }
}

/// A walk down a line, newest first: it names the commit it wants next, and
/// lists each one it is given.
pub struct LogWalk {
    root: String,
    limit: usize,
    listed: Vec<Snapshot>,
    current: Option<String>,
}

/// What a [`LogWalk`] has listed and where it stands.
pub struct WalkView {
    pub root: Seq<char>,
    pub limit: nat,
    pub listed: Seq<SnapshotView>,
    pub current: Option<Seq<char>>,
}

impl View for LogWalk {
    type V = WalkView;

    closed spec fn view(&self) -> WalkView {
        WalkView {
            root: self.root@,
            limit: self.limit as nat,
            listed: snapshot_views(self.listed@),
            current: opt_text(self.current),
        }
    }
}

/// The commit a walk wants, while it is short of its limit.
pub open spec fn wanted(walk: WalkView) -> Option<Seq<char>> {
    if walk.listed.len() >= walk.limit {
        None
    } else {
        walk.current
    }
}

/// The walk once it has listed the commit it wanted.
pub open spec fn walked(walk: WalkView, commit: CommitView) -> WalkView {
    WalkView {
        listed: walk.listed.push(listed_commit(commit, walk.root)),
        current: next_id(commit, walk.root),
        ..walk
    }
}

impl LogWalk {
    /// A walk from a line's head; `root` is the store's root commit, which
    /// no listing shows.
    pub fn start(head: &str, root: &str, limit: usize) -> (r: Self)
        ensures
            r@ == (WalkView {
                root: root@,
                limit: limit as nat,
                listed: Seq::empty(),
                current: Some(head@),
            }),
    {
        let walk = LogWalk {
            root: owned(root),
            limit,
            listed: Vec::new(),
            current: Some(owned(head)),
        };
        assert(snapshot_views(walk.listed@) =~= Seq::empty());
        walk
    }

    /// The commit the walk wants next, none when it is done.
    pub fn next(&self) -> (r: Option<String>)
        ensures
            opt_text(r) == wanted(self@),
    {
        if self.listed.len() >= self.limit {
            return None;
        }
        crate::words::owned_opt(&self.current)
    }

    /// List the commit the walk asked for.
    pub fn list(&mut self, commit: &Commit)
        ensures
            final(self)@ == walked(old(self)@, commit@),
    {
        let ghost before = snapshot_views(self.listed@);
        let parents = without_root(&commit.parents, self.root.as_str());
        let snapshot = Snapshot {
            id: owned(commit.id.as_str()),
            actor: owned(commit.author.as_str()),
            at_ms: commit.at_ms,
            parents,
        };
        let ghost view = snapshot@;
        self.listed.push(snapshot);
        assert(snapshot_views(self.listed@) =~= before.push(view));
        self.current = diff_base(commit, self.root.as_str());
    }

    /// What the walk listed, newest first.
    pub fn into_listed(self) -> (r: Vec<Snapshot>)
        ensures
            snapshot_views(r@) == self@.listed,
    {
        self.listed
    }
}

/// The listing of a line in a history: its first `limit` commits from `id`
/// down the first parents.
pub open spec fn listing(
    history: Map<Seq<char>, CommitView>,
    root: Seq<char>,
    id: Option<Seq<char>>,
    limit: nat,
) -> Seq<SnapshotView>
    decreases limit,
{
    match id {
        Some(id) => if limit == 0 {
            Seq::empty()
        } else {
            seq![listed_commit(history[id], root)] + listing(
                history,
                root,
                next_id(history[id], root),
                (limit - 1) as nat,
            )
        },
        None => Seq::empty(),
    }
}

/// What a walk has listed and what is left of the line make up the line's
/// listing, before and after each commit it is given.
pub proof fn walk_lists_the_line(
    history: Map<Seq<char>, CommitView>,
    head: Seq<char>,
    walk: WalkView,
)
    requires
        walk.listed.len() <= walk.limit,
        walk.listed + listing(
            history,
            walk.root,
            walk.current,
            (walk.limit - walk.listed.len()) as nat,
        ) == listing(history, walk.root, Some(head), walk.limit),
    ensures
        wanted(walk) matches Some(id) ==> {
            let after = walked(walk, history[id]);
            &&& after.listed.len() <= after.limit
            &&& after.listed + listing(
                history,
                after.root,
                after.current,
                (after.limit - after.listed.len()) as nat,
            ) == listing(history, after.root, Some(head), after.limit)
        },
        wanted(walk) is None ==> walk.listed == listing(history, walk.root, Some(head), walk.limit),
{
    if let Some(id) = wanted(walk) {
        let after = walked(walk, history[id]);
        let rest = listing(
            history,
            after.root,
            after.current,
            (after.limit - after.listed.len()) as nat,
        );
        assert(walk.listed + (seq![listed_commit(history[id], walk.root)] + rest) =~= after.listed
            + rest);
    } else {
        let rest = listing(
            history,
            walk.root,
            walk.current,
            (walk.limit - walk.listed.len()) as nat,
        );
        assert(rest =~= Seq::empty());
        assert(walk.listed + rest =~= walk.listed);
    }
}

/// Each mount's listing, behind its name.
pub open spec fn mount_listings(mounts: Seq<(String, Vec<Snapshot>)>) -> Seq<
    (Seq<char>, Seq<SnapshotView>),
> {
    mounts.map_values(|mount: (String, Vec<Snapshot>)| (mount.0@, snapshot_views(mount.1@)))
}

/// One source's listing, every snapshot with its source.
pub open spec fn sourced(source: Option<Seq<char>>, list: Seq<SnapshotView>) -> Seq<
    (Option<Seq<char>>, SnapshotView),
> {
    list.map_values(|snapshot: SnapshotView| (source, snapshot))
}

/// A workspace's listing: the root's, then each mount's.
pub open spec fn workspace_listing(
    root: Seq<SnapshotView>,
    mounts: Seq<(Seq<char>, Seq<SnapshotView>)>,
) -> Seq<(Option<Seq<char>>, SnapshotView)>
    decreases mounts.len(),
{
    if mounts.len() == 0 {
        sourced(None, root)
    } else {
        workspace_listing(root, mounts.drop_last()) + sourced(
            Some(mounts.last().0),
            mounts.last().1,
        )
    }
}

/// Add one source's listing to a workspace's.
fn add_listing(out: &mut Vec<SourceSnapshot>, source: &Option<String>, list: Vec<Snapshot>)
    ensures
        source_snapshot_views(final(out)@) == source_snapshot_views(old(out)@) + sourced(
            opt_text(*source),
            snapshot_views(list@),
        ),
{
    let ghost base = source_snapshot_views(out@);
    let ghost tail = sourced(opt_text(*source), snapshot_views(list@));
    let mut list = list;
    let ghost given = list@;
    let mut rest: Vec<Snapshot> = Vec::new();
    while list.len() > 0
        invariant
            list@.len() + rest@.len() == given.len(),
            list@ == given.take(list@.len() as int),
            forall|k: int|
                0 <= k < rest@.len() ==> #[trigger] rest@[k] == given[given.len() - 1 - k],
        decreases list@.len(),
    {
        let ghost n = list@.len();
        if let Some(item) = list.pop() {
            assert(item == given[n - 1]);
            rest.push(item);
            assert(list@ =~= given.take(n - 1));
        }
    }
    assert(base =~= base + tail.take(0));
    while rest.len() > 0
        invariant
            rest@.len() <= given.len(),
            tail == sourced(opt_text(*source), snapshot_views(given)),
            forall|k: int|
                0 <= k < rest@.len() ==> #[trigger] rest@[k] == given[given.len() - 1 - k],
            source_snapshot_views(out@) == base + tail.take(given.len() - rest@.len()),
        decreases rest@.len(),
    {
        let ghost n = rest@.len();
        let ghost done = source_snapshot_views(out@);
        let ghost at = given.len() - n;
        if let Some(snapshot) = rest.pop() {
            assert(snapshot == given[at]);
            out.push(SourceSnapshot { source: crate::words::owned_opt(source), snapshot });
            assert(source_snapshot_views(out@) =~= done.push(tail[at]));
            assert(base + tail.take(at + 1) =~= (base + tail.take(at)).push(tail[at]));
        }
    }
    assert(tail.take(given.len() as int) =~= tail);
}

/// The shared lines' snapshots: the root's, then each mount's in the order
/// given, each newest first.
pub fn workspace_log(root: Vec<Snapshot>, mounts: Vec<(String, Vec<Snapshot>)>) -> (r: Vec<
    SourceSnapshot,
>)
    ensures
        source_snapshot_views(r@) == workspace_listing(
            snapshot_views(root@),
            mount_listings(mounts@),
        ),
{
    let ghost first = snapshot_views(root@);
    let ghost all = mount_listings(mounts@);
    let mut out: Vec<SourceSnapshot> = Vec::new();
    assert(source_snapshot_views(out@) =~= Seq::empty());
    add_listing(&mut out, &None, root);
    assert(source_snapshot_views(out@) =~= sourced(None, first));
    assert(all.take(0) =~= Seq::empty());
    let mut mounts = mounts;
    let ghost given = mounts@;
    let mut rest: Vec<(String, Vec<Snapshot>)> = Vec::new();
    while mounts.len() > 0
        invariant
            mounts@.len() + rest@.len() == given.len(),
            mounts@ == given.take(mounts@.len() as int),
            forall|k: int|
                0 <= k < rest@.len() ==> #[trigger] rest@[k] == given[given.len() - 1 - k],
        decreases mounts@.len(),
    {
        let ghost n = mounts@.len();
        if let Some(item) = mounts.pop() {
            assert(item == given[n - 1]);
            rest.push(item);
            assert(mounts@ =~= given.take(n - 1));
        }
    }
    while rest.len() > 0
        invariant
            rest@.len() <= given.len(),
            all == mount_listings(given),
            forall|k: int|
                0 <= k < rest@.len() ==> #[trigger] rest@[k] == given[given.len() - 1 - k],
            source_snapshot_views(out@) == workspace_listing(
                first,
                all.take(given.len() - rest@.len()),
            ),
        decreases rest@.len(),
    {
        let ghost n = rest@.len();
        let ghost at = given.len() - n;
        if let Some((name, list)) = rest.pop() {
            assert((name, list) == given[at]);
            assert(all[at] == (name@, snapshot_views(list@)));
            assert(all.take(at + 1).drop_last() =~= all.take(at));
            assert(all.take(at + 1).last() == all[at]);
            add_listing(&mut out, &Some(name), list);
        }
    }
    assert(all.take(all.len() as int) =~= all);
    out
}

// ---------------------------------------------------------------------
// Stepping back.

/// What an undo finds on a line whose head is `head`, for the landed
/// snapshot `landed` with the first parent `parent`.
pub open spec fn step_found(head: Seq<char>, landed: Seq<char>, parent: Seq<char>) -> StepView {
    if head == parent {
        StepView::AlreadyStepped
    } else if head != landed {
        StepView::LineMoved { head }
    } else {
        StepView::Stepped { restored: parent }
    }
}

/// What a [`StepBack`] says.
pub enum StepView {
    Stepped { restored: Seq<char> },
    AlreadyStepped,
    LineMoved { head: Seq<char> },
}

impl View for StepBack {
    type V = StepView;

    open spec fn view(&self) -> StepView {
        match *self {
            StepBack::Stepped { restored } => StepView::Stepped { restored: restored@ },
            StepBack::AlreadyStepped => StepView::AlreadyStepped,
            StepBack::LineMoved { head } => StepView::LineMoved { head: head@ },
        }
    }
}

/// The error of a landed snapshot without a parent.
pub open spec fn parentless(landed: Seq<char>) -> ErrorView {
    ErrorView::Engine("the landed snapshot "@ + landed + " has no parent to step back to"@)
}

impl Ledger {
    /// Judge what undoing `landed` takes on a line: the fence comes before
    /// the verdict, because the verdict itself is acted on, so a superseded
    /// holder neither steps the line nor classifies it.
    pub fn judge_step_back(
        &mut self,
        source: &Option<String>,
        holder: &str,
        epoch: i64,
        now_ms: i64,
        ttl_ms: i64,
        head: &str,
        landed: &Commit,
    ) -> (r: Result<StepBack, Error>)
        requires
            old(self).wf(),
        ensures
            final(self).wf(),
            landed@.parents.len() == 0 ==> {
                &&& r is Err
                &&& (r->Err_0)@ == parentless(landed@.id)
                &&& final(self)@ == old(self)@
            },
            landed@.parents.len() > 0 ==> {
                let fence = fenced(
                    old(self)@,
                    opt_text(*source),
                    holder@,
                    epoch as int,
                    now_ms as int,
                    ttl_ms as int,
                );
                &&& final(self)@ == fence.1
                &&& r is Err <==> fence.0 is Some
                &&& r is Err ==> Some((r->Err_0)@) == fence.0
                &&& r is Ok ==> (r->Ok_0)@ == step_found(head@, landed@.id, landed@.parents[0])
            },
    {
        if landed.parents.len() == 0 {
            let mut detail = joined("the landed snapshot ", landed.id.as_str());
            detail.push_str(" has no parent to step back to");
            return Err(Error::Engine(detail));
        }
        assert(landed@.parents[0] == landed.parents@[0]@);
        match self.fence_line(source, holder, epoch, now_ms, ttl_ms) {
            Ok(()) => {},
            Err(error) => {
                return Err(error);
            },
        }
        let parent = landed.parents[0].as_str();
        if same(head, parent) {
            return Ok(StepBack::AlreadyStepped);
        }
        if !same(head, landed.id.as_str()) {
            return Ok(StepBack::LineMoved { head: owned(head) });
        }
        Ok(StepBack::Stepped { restored: owned(parent) })
    }
}

/// Undoing twice says so: once a line stands on the landed snapshot's
/// parent, the next attempt finds it already stepped.
pub proof fn stepping_back_is_idempotent(head: Seq<char>, landed: Seq<char>, parent: Seq<char>)
    ensures
        step_found(head, landed, parent) matches StepView::Stepped { restored } ==> step_found(
            restored,
            landed,
            parent,
        ) is AlreadyStepped,
{
}

// ---------------------------------------------------------------------
// Publishing failures.

/// The line whose git head moved while it was being landed on or undone:
/// the next operation folds the move first.
pub fn head_raced(undoing: bool, error: &str) -> (r: Error)
    ensures
        r@ == ErrorView::Engine(
            if undoing {
                "git HEAD moved during the undo ("@ + error@
                    + "); rerun the undo — the next operation folds the move first"@
            } else {
                "git HEAD moved during the apply ("@ + error@
                    + "); rerun the landing — the next operation folds the move first"@
            },
        ),
{
    if undoing {
        let mut detail = joined("git HEAD moved during the undo (", error);
        detail.push_str("); rerun the undo — the next operation folds the move first");
        Error::Engine(detail)
    } else {
        let mut detail = joined("git HEAD moved during the apply (", error);
        detail.push_str("); rerun the landing — the next operation folds the move first");
        Error::Engine(detail)
    }
}

/// Refuse a line move whose branch did not export; `failed` is what the
/// store reports of it, none when all exported.
pub fn check_export(bookmark: &str, failed: &Option<String>) -> (r: Result<(), Error>)
    ensures
        r is Ok <==> *failed is None,
        r is Err ==> (r->Err_0)@ == ErrorView::Engine(
            "bookmark "@ + debug_quoted(bookmark@) + " failed to export: "@ + (failed->0)@,
        ),
{
    match failed {
        None => Ok(()),
        Some(failed) => {
            let mut detail = joined("bookmark ", quoted(bookmark).as_str());
            detail.push_str(" failed to export: ");
            detail.push_str(failed.as_str());
            Err(Error::Engine(detail))
        },
    }
}

/// A commit's parents are listed in order, all but the root commit.
pub proof fn parents_leave_out_the_root(parents: Seq<Seq<char>>, root: Seq<char>) -> (at: Seq<int>)
    ensures
        at.len() == real_parents(parents, root).len(),
        forall|j: int, k: int| #![trigger at[j], at[k]] 0 <= j < k < at.len() ==> at[j] < at[k],
        forall|k: int|
            #![trigger at[k]]
            0 <= k < at.len() ==> 0 <= at[k] < parents.len() && real_parents(parents, root)[k]
                == parents[at[k]],
        forall|i: int|
            0 <= i < parents.len() ==> (#[trigger] at.contains(i) <==> parents[i] != root),
    decreases parents.len(),
{
    if parents.len() == 0 {
        Seq::empty()
    } else {
        let rest = parents.drop_last();
        let before = parents_leave_out_the_root(rest, root);
        let last = parents.len() - 1;
        let at = if parents.last() != root {
            before.push(last)
        } else {
            before
        };
        assert forall|k: int| #![trigger at[k]] 0 <= k < at.len() implies 0 <= at[k] < parents.len()
            && real_parents(parents, root)[k] == parents[at[k]] by {
            if k < before.len() {
                assert(at[k] == before[k]);
                assert(rest[before[k]] == parents[before[k]]);
            }
        }
        assert forall|j: int, k: int| #![trigger at[j], at[k]] 0 <= j < k < at.len() implies at[j]
            < at[k] by {
            assert(at[j] == before[j]);
            if k < before.len() {
                assert(at[k] == before[k]);
            }
        }
        assert forall|i: int| 0 <= i < parents.len() implies (#[trigger] at.contains(i)
            <==> parents[i] != root) by {
            if i < last {
                assert(rest[i] == parents[i]);
                assert(before.contains(i) <==> rest[i] != root);
                if before.contains(i) {
                    let k = choose|k: int| 0 <= k < before.len() && before[k] == i;
                    assert(at[k] == i);
                }
                if at.contains(i) {
                    let k = choose|k: int| 0 <= k < at.len() && at[k] == i;
                    assert(before[k] == i);
                }
            } else {
                if parents[i] != root {
                    assert(at[before.len() as int] == i);
                } else if at.contains(i) {
                    let k = choose|k: int| 0 <= k < at.len() && at[k] == i;
                    assert(before[k] == i);
                }
            }
        }
        at
    }
}

/// A new snapshot is described as one; an amended one keeps the words it
/// had. What carries a line on changes no content: it stands on the head
/// alone, with the head's tree, under its own words.
pub proof fn new_commits_say_what_they_are(
    style: SnapshotStyle,
    on: CommitView,
    tree: Seq<char>,
    description: Seq<char>,
)
    ensures
        style == SnapshotStyle::Amend <==> snapshot_commit(style, on, tree).description is None,
        style != SnapshotStyle::Amend ==> snapshot_commit(style, on, tree).description == Some(
            "snapshot"@,
        ),
        continuation(on, description).tree == on.tree,
        continuation(on, description).parents.len() == 1,
        continuation(on, description).parents[0] == on.id,
        continuation(on, description).description == Some(description),
{
}

/// A listing starts at the head and goes from each commit to its first
/// parent, the root commit left out, until there is none or enough are
/// listed; each is shown as the commit it is.
pub proof fn listings_follow_first_parents(
    history: Map<Seq<char>, CommitView>,
    root: Seq<char>,
    head: Seq<char>,
    limit: nat,
) -> (ids: Seq<Seq<char>>)
    ensures
        ({
            let list = listing(history, root, Some(head), limit);
            &&& ids.len() == list.len()
            &&& list.len() <= limit
            &&& limit > 0 ==> list.len() > 0 && ids[0] == head
            &&& forall|i: int|
                #![trigger ids[i]]
                0 <= i < ids.len() ==> list[i].id == history[ids[i]].id && list[i].actor
                    == history[ids[i]].author && list[i].at_ms == history[ids[i]].at_ms
                    && list[i].parents == real_parents(history[ids[i]].parents, root)
            &&& forall|i: int|
                #![trigger list[i]]
                0 <= i < ids.len() - 1 ==> list[i].parents.len() > 0 && ids[i + 1]
                    == list[i].parents[0]
            &&& 0 < list.len() < limit ==> list.last().parents.len() == 0
        }),
    decreases limit,
{
    let list = listing(history, root, Some(head), limit);
    let shown = listed_commit(history[head], root);
    if limit == 0 {
        Seq::empty()
    } else {
        assert(list[0] == shown);
        match next_id(history[head], root) {
            Some(next) => {
                let rest = listings_follow_first_parents(history, root, next, (limit - 1) as nat);
                let tail = listing(history, root, Some(next), (limit - 1) as nat);
                let ids = seq![head] + rest;
                assert(list == seq![shown] + tail);
                assert forall|i: int| #![trigger ids[i]] 0 <= i < ids.len() implies list[i].id
                    == history[ids[i]].id && list[i].actor == history[ids[i]].author
                    && list[i].at_ms == history[ids[i]].at_ms && list[i].parents == real_parents(
                    history[ids[i]].parents,
                    root,
                ) by {
                    if i > 0 {
                        assert(ids[i] == rest[i - 1]);
                        assert(list[i] == tail[i - 1]);
                    }
                }
                assert forall|i: int| #![trigger list[i]] 0 <= i < ids.len() - 1 implies
                    list[i].parents.len() > 0 && ids[i + 1] == list[i].parents[0] by {
                    assert(ids[i + 1] == rest[i]);
                    if i > 0 {
                        assert(list[i] == tail[i - 1]);
                        assert(rest[i - 1 + 1] == tail[i - 1].parents[0]);
                    } else {
                        assert(list[0] == shown);
                        assert(next_id(history[head], root) == Some(shown.parents[0]));
                    }
                }
                if tail.len() > 0 {
                    assert(list.last() == tail.last());
                }
                ids
            },
            None => {
                assert(listing(history, root, None, (limit - 1) as nat) =~= Seq::empty());
                assert(list =~= seq![shown]);
                let ids = seq![head];
                assert(ids[0] == head);
                ids
            },
        }
    }
}

/// A workspace's listing is the root's, then each mount's in order, and each
/// snapshot is listed as its source's.
pub proof fn sources_are_listed_in_turn(
    root: Seq<SnapshotView>,
    mounts: Seq<(Seq<char>, Seq<SnapshotView>)>,
    name: Seq<char>,
    list: Seq<SnapshotView>,
)
    ensures
        workspace_listing(root, Seq::empty()).len() == root.len(),
        forall|i: int|
            #![trigger root[i]]
            0 <= i < root.len() ==> workspace_listing(root, Seq::empty())[i] == (
                None::<Seq<char>>,
                root[i],
            ),
        ({
            let before = workspace_listing(root, mounts);
            let after = workspace_listing(root, mounts.push((name, list)));
            &&& after.len() == before.len() + list.len()
            &&& forall|i: int|
                #![trigger after[i]]
                0 <= i < after.len() ==> after[i] == if i < before.len() {
                    before[i]
                } else {
                    (Some(name), list[i - before.len()])
                }
        }),
{
    assert(mounts.push((name, list)).drop_last() =~= mounts);
}

/// A line steps back exactly when its head is the landed snapshot; it then
/// stands on that snapshot's parent. Where it stands there already nothing
/// is left to do, and where it stands elsewhere it moved on.
pub proof fn lines_step_off_their_head(head: Seq<char>, landed: Seq<char>, parent: Seq<char>)
    requires
        landed != parent,
    ensures
        step_found(landed, landed, parent) == (StepView::Stepped { restored: parent }),
        step_found(parent, landed, parent) is AlreadyStepped,
        head != landed && head != parent ==> step_found(head, landed, parent)
            == (StepView::LineMoved { head }),
{
}

/// A hex digit reads as its value, in either case; nothing else reads.
pub proof fn hex_reads_either_case(c: char, d: int)
    ensures
        0 <= d < 16 ==> nibble(digit(d)) == Some(d),
        'A' <= c <= 'F' ==> nibble(c) == nibble((c as int + 32) as char),
        nibble(c) is Some <==> '0' <= c <= '9' || 'a' <= c <= 'f' || 'A' <= c <= 'F',
{
}

/// A text spells bytes exactly when every digit of it reads and they pair
/// up; two digits more spell one byte more.
pub proof fn pairs_spell_bytes(text: Seq<char>, high: char, low: char)
    ensures
        is_hex(text.push(high).push(low)) <==> is_hex(text) && nibble(high) is Some && nibble(
            low,
        ) is Some,
        !(is_hex(text) && is_hex(text.push(high))),
        is_hex(Seq::empty()),
        is_hex(text.push(high).push(low)) ==> spelled_bytes(text.push(high).push(low))
            == spelled_bytes(text).push((16 * nibble(high)->0 + nibble(low)->0) as u8),
{
    let longer = text.push(high).push(low);
    let n = longer.len() as int;
    assert(longer.take(n - 2) =~= text);
    assert(longer[n - 2] == high && longer[n - 1] == low);
    if is_hex(longer) {
        assert forall|i: int| 0 <= i < text.len() implies nibble(#[trigger] text[i]) is Some by {
            assert(longer[i] == text[i]);
        }
        assert(nibble(longer[n - 2]) is Some && nibble(longer[n - 1]) is Some);
    }
}

} // verus!
