//! Folding out-of-band git moves into a line: what becomes of the line when
//! the repository beneath it moved, and the bounded search of the moved
//! history for the line's own content.

use crate::config::{Actor, ActorView};
use crate::error::{Error, ErrorView};
use crate::history::{Commit, CommitView, NewCommit, NewCommitView, fold_commit};
use crate::journal::Act;
use crate::ledger::{Ledger, LedgerView, entry_of, scoped, scoped_text, with_entry};
use crate::words::{among, opt_text, owned, same, texts};
use vstd::prelude::*;

verus! {

/// The largest stretch of moved history a fold searches for a commit
/// carrying the line's content; past it the fold merges.
pub const FOLD_SCAN_MAX: usize = 1000;

/// What a fold attempt did with a repository that moved out of band.
#[derive(Debug, Clone, PartialEq, Eq)]
pub enum GitFold {
    /// Nothing moved beneath the line's view; the line stands.
    Current,
    /// The moved state folded into the line; `head` is the line now.
    Folded { head: String },
}

/// The commit an out-of-band move put the line's target on: the branch's
/// when there is such a branch, git's head otherwise.
pub fn line_target(branch: &Option<String>, head: &Option<String>) -> (r: Option<String>)
    ensures
        opt_text(r) == match *branch {
            Some(id) => Some(id@),
            None => opt_text(*head),
        },
{
    match branch {
        Some(id) => Some(owned(id.as_str())),
        None => crate::words::owned_opt(head),
    }
}

/// What a fold knows of the move so far. `built_on` and `carried` are
/// answers to questions it asked, none before it asked them.
pub struct FoldFacts {
    /// Whether the repository moved at all.
    pub moved: bool,
    /// The commit the line stands on.
    pub line: Commit,
    /// The commit the move put the line's target on.
    pub target: Option<Commit>,
    /// Whether the snapshot before the fold recorded new work.
    pub fresh: bool,
    /// Whether the target builds on the line.
    pub built_on: Option<bool>,
    /// Whether the moved history carries the line's exact content.
    pub carried: Option<bool>,
}

/// What a fold does next.
#[derive(Debug, Clone, Copy, PartialEq, Eq, Structural)]
pub enum FoldStep {
    /// Nothing moved.
    Current,
    /// Refs moved but the line's target did not leave it: keep the refs,
    /// leave the line.
    Absorb,
    /// Ask whether the target builds on the line.
    AskBuiltOn,
    /// Ask whether the moved history carries the line's content.
    AskCarried,
    /// The target becomes the line.
    TakeTarget,
    /// The line and the target merge into one fold state.
    Merge,
}

/// What a fold does next, given what is known.
pub open spec fn fold_next(
    moved: bool,
    line: CommitView,
    target: Option<CommitView>,
    fresh: bool,
    built_on: Option<bool>,
    carried: Option<bool>,
) -> FoldStep {
    if !moved {
        FoldStep::Current
    } else if target is None || target->0.id == line.id || line.parents == seq![target->0.id] {
        FoldStep::Absorb
    } else if built_on is None {
        FoldStep::AskBuiltOn
    } else if built_on->0 || line.tree == target->0.tree {
        FoldStep::TakeTarget
    } else if fresh {
        FoldStep::Merge
    } else if carried is None {
        FoldStep::AskCarried
    } else if carried->0 {
        FoldStep::TakeTarget
    } else {
        FoldStep::Merge
    }
}

/// What the target of a move says.
pub open spec fn target_view(target: Option<Commit>) -> Option<CommitView> {
    match target {
        Some(commit) => Some(commit@),
        None => None,
    }
}

impl FoldFacts {
    /// What the fold does next. A target built on the line, carrying its
    /// exact content, or carrying it somewhere in the moved history becomes
    /// the line; other divergence merges. Freshly recorded work is never
    /// superseded by old history that merely resembles it: it merges.
    pub fn next(&self) -> (r: FoldStep)
        ensures
            r == fold_next(
                self.moved,
                self.line@,
                target_view(self.target),
                self.fresh,
                self.built_on,
                self.carried,
            ),
    {
        if !self.moved {
            return FoldStep::Current;
        }
        let target = match &self.target {
            None => {
                return FoldStep::Absorb;
            },
            Some(target) => target,
        };
        if same(target.id.as_str(), self.line.id.as_str()) {
            return FoldStep::Absorb;
        }
        let ghost parents = self.line@.parents;
        if self.line.parents.len() == 1 {
            assert(parents[0] == self.line.parents@[0]@);
            if same(self.line.parents[0].as_str(), target.id.as_str()) {
                assert(parents =~= seq![target@.id]);
                return FoldStep::Absorb;
            }
            assert(parents != seq![target@.id]) by {
                assert(seq![target@.id][0] == target@.id);
            }
        } else {
            assert(parents.len() != seq![target@.id].len());
        }
        let built_on = match self.built_on {
            None => {
                return FoldStep::AskBuiltOn;
            },
            Some(built_on) => built_on,
        };
        if built_on || same(self.line.tree.as_str(), target.tree.as_str()) {
            return FoldStep::TakeTarget;
        }
        if self.fresh {
            return FoldStep::Merge;
        }
        match self.carried {
            None => FoldStep::AskCarried,
            Some(true) => FoldStep::TakeTarget,
            Some(false) => FoldStep::Merge,
        }
    }
}

/// Freshly recorded work is never dropped for the sake of what the moved
/// history holds: it goes unmerged only into a target that builds on the
/// line or has its exact content.
pub proof fn fresh_work_is_kept(
    line: CommitView,
    target: CommitView,
    built_on: Option<bool>,
    carried: Option<bool>,
)
    requires
        fold_next(true, line, Some(target), true, built_on, carried) == FoldStep::TakeTarget,
    ensures
        built_on == Some(true) || line.tree == target.tree,
{
}

/// A repository that did not move leaves the line, and so does one whose
/// move put the line's target nowhere new: nowhere, on the line itself, or on
/// the one commit the line stands on. Only those leave it.
pub proof fn the_line_stands_where_nothing_new_came(
    moved: bool,
    line: CommitView,
    target: Option<CommitView>,
    fresh: bool,
    built_on: Option<bool>,
    carried: Option<bool>,
)
    ensures
        ({
            let step = fold_next(moved, line, target, fresh, built_on, carried);
            let came = target is Some && target->0.id != line.id && !(line.parents.len() == 1
                && line.parents[0] == target->0.id);
            &&& step == FoldStep::Current <==> !moved
            &&& step == FoldStep::Absorb <==> moved && !came
        }),
{
    if target is Some {
        let only = seq![target->0.id];
        if line.parents.len() == 1 && line.parents[0] == target->0.id {
            assert(line.parents =~= only);
        }
        if line.parents == only {
            assert(only[0] == target->0.id);
        }
    }
}

/// A moved target that builds on the line, or has its exact content, is the
/// line from there on, whether or not fresh work was recorded and whatever
/// else is known. A merge is made only of contents that differ, where the
/// target does not build on the line.
pub proof fn the_moved_commit_is_the_line(
    line: CommitView,
    target: CommitView,
    fresh: bool,
    built_on: bool,
    carried: Option<bool>,
)
    requires
        target.id != line.id,
        line.parents != seq![target.id],
    ensures
        ({
            let step = fold_next(true, line, Some(target), fresh, Some(built_on), carried);
            &&& built_on || target.tree == line.tree ==> step == FoldStep::TakeTarget
            &&& step == FoldStep::Merge ==> !built_on && target.tree != line.tree
        }),
{
}

/// How a fold that moved onto new history ends, once its questions have their
/// answers: the target is taken exactly where the line's content is known to
/// be in it, and fresh work is never looked for in old history; everything
/// else merges.
pub proof fn folds_lose_no_content(
    line: CommitView,
    target: CommitView,
    fresh: bool,
    built_on: bool,
    carried: bool,
)
    requires
        target.id != line.id,
        line.parents != seq![target.id],
    ensures
        ({
            let step = fold_next(true, line, Some(target), fresh, Some(built_on), Some(carried));
            let holds_the_line = built_on || line.tree == target.tree || (carried && !fresh);
            &&& step == FoldStep::TakeTarget <==> holds_the_line
            &&& step == FoldStep::Merge <==> !holds_the_line
        }),
{
}

/// A fold asks only what decides: it asks whether the target builds on the
/// line before anything else, and searches the moved history only where both
/// answers are possible and the outcome hangs on it. A step taken before a
/// question is asked is the step taken whatever its answer.
pub proof fn folds_ask_what_decides(
    line: CommitView,
    target: CommitView,
    fresh: bool,
    built_on: bool,
    answer: bool,
)
    requires
        target.id != line.id,
        line.parents != seq![target.id],
    ensures
        ({
            let first = |carried: Option<bool>|
                fold_next(true, line, Some(target), fresh, None, carried);
            let later = |carried: Option<bool>|
                fold_next(true, line, Some(target), fresh, Some(built_on), carried);
            &&& first(None) == FoldStep::AskBuiltOn
            &&& first(Some(answer)) == FoldStep::AskBuiltOn
            &&& later(None) == FoldStep::AskCarried <==> later(Some(true)) != later(Some(false))
            &&& later(None) != FoldStep::AskCarried ==> later(None) == later(Some(answer))
        }),
{
}

/// A fold asks each question at most once, and answers end it.
pub proof fn folds_end(
    moved: bool,
    line: CommitView,
    target: Option<CommitView>,
    fresh: bool,
    built_on: bool,
    carried: bool,
)
    ensures
        !(fold_next(moved, line, target, fresh, Some(built_on), None) is AskBuiltOn),
        !(fold_next(moved, line, target, fresh, Some(built_on), Some(carried)) is AskBuiltOn),
        !(fold_next(moved, line, target, fresh, Some(built_on), Some(carried)) is AskCarried),
{
}

/// The refusal of a merge that conflicts: the shared line never carries a
/// conflicted state. `fence` is what the line's fence said first, because a
/// superseded holder must not report a conflict its rival may have settled.
pub fn fold_conflict(fence: Result<(), Error>, branch: &str) -> (r: Error)
    ensures
        r@ == match fence {
            Ok(()) => ErrorView::GitFoldConflicted { branch: branch@ },
            Err(error) => error@,
        },
{
    match fence {
        Ok(()) => Error::GitFoldConflicted { branch: owned(branch) },
        Err(error) => error,
    }
}

/// What a fold makes of merged content, given as `tree`: a commit on the
/// target alone, or, where the content conflicts, the refusal that names the
/// branch. `fence` is how the line's tenancy stands: a superseded holder must
/// not report a conflict its rival may already have resolved.
pub fn fold_merge(
    conflicted: bool,
    fence: Result<(), Error>,
    branch: &str,
    target: &Commit,
    tree: &str,
) -> (r: Result<NewCommit, Error>)
    ensures
        r is Ok <==> !conflicted,
        r is Ok ==> (r->Ok_0)@ == (NewCommitView {
            parents: seq![target@.id],
            tree: tree@,
            description: Some("fold"@),
        }),
        r is Err ==> (r->Err_0)@ == match fence {
            Ok(()) => ErrorView::GitFoldConflicted { branch: branch@ },
            Err(error) => error@,
        },
{
    if conflicted {
        Err(fold_conflict(fence, branch))
    } else {
        Ok(fold_commit(target, tree))
    }
}

/// What a fold did, once the line's tenancy was fenced: nothing under a
/// superseded one; else the line stands on the commit it was put on, or
/// where it stood.
pub fn fold_outcome(fence: Result<(), Error>, line: Option<String>) -> (r: Result<GitFold, Error>)
    ensures
        match fence {
            Err(error) => r is Err && (r->Err_0)@ == error@,
            Ok(()) => r is Ok && r->Ok_0 == match line {
                Some(head) => GitFold::Folded { head },
                None => GitFold::Current,
            },
        },
{
    match fence {
        Err(error) => Err(error),
        Ok(()) => match line {
            Some(head) => Ok(GitFold::Folded { head }),
            None => Ok(GitFold::Current),
        },
    }
}

/// Whether a fold that failed is left to whoever has the line's landing
/// point: it is held, or this fold's tenancy of it was superseded.
pub open spec fn is_left_to_others(error: ErrorView) -> bool {
    error is LeaseHeld || error is LeaseSuperseded
}

/// Whether a fold that failed is left to whoever has the line's landing
/// point, so that the operation it stood in front of goes on.
pub fn fold_yields(error: &Error) -> (r: bool)
    ensures
        r == is_left_to_others(error@),
{
    match error {
        Error::LeaseHeld { .. } | Error::LeaseSuperseded { .. } => true,
        _ => false,
    }
}

/// The ledger after a fold: what folded into the line is journaled as a
/// pull that names the line, and where it stands now.
pub open spec fn after_fold(
    ledger: LedgerView,
    actor: ActorView,
    source: Option<Seq<char>>,
    fold: GitFold,
    at_ms: int,
) -> LedgerView {
    match fold {
        GitFold::Current => ledger,
        GitFold::Folded { head } => with_entry(
            ledger,
            entry_of(actor, Act::Pull, None, Some(scoped(source, head@)), at_ms),
        ),
    }
}

impl Ledger {
    /// Journal what a fold did to a line.
    pub fn record_fold(
        &mut self,
        actor: &Actor,
        source: &Option<String>,
        fold: &GitFold,
        at_ms: i64,
    )
        requires
            old(self).wf(),
        ensures
            final(self).wf(),
            final(self)@ == after_fold(
                old(self)@,
                actor@,
                opt_text(*source),
                *fold,
                at_ms as int,
            ),
    {
        if let GitFold::Folded { head } = fold {
            self.append_entry(actor, Act::Pull, Some(scoped_text(source, head.as_str())), at_ms);
        }
    }
}

// ---------------------------------------------------------------------
// The search of the moved history.

/// A search of the moved history for a commit carrying the line's exact
/// content. It names the commit it wants to know of, and walks on to that
/// commit's parents unless the commit is settled: part of what the line and
/// the target have in common.
pub struct ContentScan {
    tree: String,
    seen: Vec<String>,
    pending: Vec<String>,
    current: Option<String>,
    verdict: Option<bool>,
}

/// Where a [`ContentScan`] stands.
#[verifier::ext_equal]
pub struct ScanView {
    /// The content searched for.
    pub tree: Seq<char>,
    /// The commits met so far, each once.
    pub seen: Seq<Seq<char>>,
    /// The commits still to meet, the next one last.
    pub pending: Seq<Seq<char>>,
    /// The commit asked about.
    pub current: Option<Seq<char>>,
    /// Whether the content was found, once the search is over.
    pub verdict: Option<bool>,
}

impl View for ContentScan {
    type V = ScanView;

    closed spec fn view(&self) -> ScanView {
        ScanView {
            tree: self.tree@,
            seen: texts(self.seen@),
            pending: texts(self.pending@),
            current: opt_text(self.current),
            verdict: self.verdict,
        }
    }
}

/// The search's next question: the last pending commit not met yet. With
/// none left, or with more met than the search takes on, it ends with
/// nothing found.
pub open spec fn advanced(scan: ScanView) -> ScanView
    decreases scan.pending.len(),
{
    if scan.pending.len() == 0 {
        ScanView { verdict: Some(false), ..scan }
    } else {
        let id = scan.pending.last();
        let rest = scan.pending.drop_last();
        if scan.seen.contains(id) {
            advanced(ScanView { pending: rest, ..scan })
        } else if scan.seen.len() >= FOLD_SCAN_MAX {
            ScanView { seen: scan.seen.push(id), pending: rest, verdict: Some(false), ..scan }
        } else {
            ScanView { seen: scan.seen.push(id), pending: rest, current: Some(id), ..scan }
        }
    }
}

/// The search once it knows of the commit it asked about.
pub open spec fn told(
    scan: ScanView,
    settled: bool,
    tree: Seq<char>,
    parents: Seq<Seq<char>>,
) -> ScanView {
    if settled {
        ScanView { current: None, ..scan }
    } else if tree == scan.tree {
        ScanView { current: None, verdict: Some(true), ..scan }
    } else {
        ScanView { current: None, pending: scan.pending + parents, ..scan }
    }
}

impl ContentScan {
    /// A search for `tree` from `target` on.
    pub fn start(tree: &str, target: &str) -> (r: Self)
        ensures
            r@ == (ScanView {
                tree: tree@,
                seen: Seq::empty(),
                pending: seq![target@],
                current: None,
                verdict: None,
            }),
    {
        let mut pending: Vec<String> = Vec::new();
        pending.push(owned(target));
        let scan = ContentScan {
            tree: owned(tree),
            seen: Vec::new(),
            pending,
            current: None,
            verdict: None,
        };
        assert(scan@ =~= (ScanView {
            tree: tree@,
            seen: Seq::empty(),
            pending: seq![target@],
            current: None,
            verdict: None,
        }));
        scan
    }

    /// The commit the search wants to know of, none once it is over.
    pub fn ask(&mut self) -> (r: Option<String>)
        ensures
            old(self)@.verdict is Some || old(self)@.current is Some ==> final(self)@ == old(self)@,
            old(self)@.verdict is None && old(self)@.current is None ==> final(self)@ == advanced(
                old(self)@,
            ),
            opt_text(r) == if final(self)@.verdict is Some {
                None
            } else {
                final(self)@.current
            },
    {
        if self.verdict.is_some() {
            return None;
        }
        if let Some(id) = &self.current {
            return Some(owned(id.as_str()));
        }
        let ghost begun = self@;
        while self.pending.len() > 0
            invariant
                begun == old(self)@,
                begun.verdict is None,
                begun.current is None,
                self@.verdict is None,
                self@.current is None,
                advanced(self@) == advanced(begun),
            decreases self.pending@.len(),
        {
            let ghost before = self@;
            if let Some(id) = self.pending.pop() {
                assert(self@.pending =~= before.pending.drop_last());
                assert(before.pending.last() == id@);
                if !among(&self.seen, id.as_str()) {
                    let full = self.seen.len() >= FOLD_SCAN_MAX;
                    self.seen.push(owned(id.as_str()));
                    assert(self@.seen =~= before.seen.push(id@));
                    if full {
                        self.verdict = Some(false);
                        assert(self@ =~= advanced(before));
                        return None;
                    }
                    let asked = owned(id.as_str());
                    self.current = Some(id);
                    assert(self@ =~= advanced(before));
                    return Some(asked);
                }
                assert(self@ =~= (ScanView { pending: before.pending.drop_last(), ..before }));
            }
        }
        let ghost before = self@;
        self.verdict = Some(false);
        assert(self@ =~= advanced(before));
        None
    }

    /// Tell the search of the commit it asked about: whether it is settled,
    /// its content, and its parents.
    pub fn tell(&mut self, settled: bool, tree: &str, parents: &Vec<String>)
        ensures
            final(self)@ == told(old(self)@, settled, tree@, texts(parents@)),
    {
        let ghost before = self@;
        self.current = None;
        if settled {
            assert(self@ =~= told(before, settled, tree@, texts(parents@)));
            return;
        }
        if same(tree, self.tree.as_str()) {
            self.verdict = Some(true);
            assert(self@ =~= told(before, settled, tree@, texts(parents@)));
            return;
        }
        let ghost all = texts(parents@);
        let mut i: usize = 0;
        assert(before.pending + all.take(0) =~= before.pending);
        while i < parents.len()
            invariant
                i <= parents@.len(),
                all == texts(parents@),
                self@ == (ScanView {
                    current: None,
                    pending: before.pending + all.take(i as int),
                    ..before
                }),
            decreases parents@.len() - i,
        {
            let ghost at = self@;
            assert(all[i as int] == parents@[i as int]@);
            self.pending.push(owned(parents[i].as_str()));
            assert(self@.pending =~= at.pending.push(all[i as int]));
            assert(before.pending + all.take(i + 1) =~= (before.pending + all.take(i as int)).push(
                all[i as int],
            ));
            assert(self@ =~= (ScanView {
                current: None,
                pending: before.pending + all.take(i + 1),
                ..before
            }));
            i = i + 1;
        }
        assert(all.take(all.len() as int) =~= all);
    }

    /// Whether the search found the content; false until it is over.
    pub fn found(&self) -> (r: bool)
        ensures
            r == (self@.verdict == Some(true)),
    {
        match self.verdict {
            Some(found) => found,
            None => false,
        }
    }
}

/// A moved history: its commits, and those settled.
pub struct Moved {
    pub commits: Map<Seq<char>, CommitView>,
    pub settled: Set<Seq<char>>,
}

/// A way from the target down the moved history, through commits that are
/// not settled.
pub open spec fn is_way(history: Moved, target: Seq<char>, way: Seq<Seq<char>>) -> bool {
    &&& way.len() > 0
    &&& way[0] == target
    &&& forall|i: int|
        0 <= i < way.len() - 1 ==> !history.settled.contains(#[trigger] way[i])
            && history.commits[way[i]].parents.contains(way[i + 1])
}

/// Whether a way leads from the target to a commit.
pub open spec fn leads_to(history: Moved, target: Seq<char>, id: Seq<char>) -> bool {
    exists|way: Seq<Seq<char>>| #[trigger] is_way(history, target, way) && way.last() == id
}

/// Whether the moved history carries the content: some way from the target
/// leads to a commit with it that is not settled.
pub open spec fn carries(history: Moved, target: Seq<char>, tree: Seq<char>) -> bool {
    exists|id: Seq<char>| #[trigger]
        leads_to(history, target, id) && !history.settled.contains(id) && history.commits[id].tree
            == tree
}

/// What holds of a search of a history all along: it only meets commits a
/// way leads to; of those it is done with, none unsettled has the content,
/// and their parents are met or pending; and a verdict is due.
pub open spec fn scan_sound(scan: ScanView, history: Moved, target: Seq<char>) -> bool {
    &&& scan.current matches Some(id) ==> scan.seen.contains(id)
    &&& scan.seen.contains(target) || scan.pending.contains(target)
    &&& forall|id: Seq<char>| #[trigger]
        scan.seen.contains(id) ==> leads_to(history, target, id)
    &&& forall|id: Seq<char>| #[trigger]
        scan.pending.contains(id) ==> leads_to(history, target, id)
    &&& scan.verdict == Some(true) ==> carries(history, target, scan.tree)
    &&& scan.verdict == Some(false) ==> scan.pending.len() == 0 || scan.seen.len() > FOLD_SCAN_MAX
    &&& !(scan.verdict == Some(true)) ==> forall|id: Seq<char>|
        #![trigger scan.seen.contains(id)]
        scan.seen.contains(id) && scan.current != Some(id) && !(scan.verdict == Some(false)
            && scan.seen.len() > FOLD_SCAN_MAX) && !history.settled.contains(id)
            ==> history.commits[id].tree != scan.tree && forall|p: Seq<char>| #[trigger]
            history.commits[id].parents.contains(p) ==> scan.seen.contains(p)
                || scan.pending.contains(p)
    &&& scan.verdict is Some ==> scan.current is None
}

/// A search starts sound.
pub proof fn scan_starts(tree: Seq<char>, target: Seq<char>, history: Moved)
    ensures
        scan_sound(
            (ScanView {
                tree,
                seen: Seq::empty(),
                pending: seq![target],
                current: None,
                verdict: None,
            }),
            history,
            target,
        ),
{
    let way = seq![target];
    assert(is_way(history, target, way));
    assert(way.last() == target);
    assert(seq![target].contains(target)) by {
        assert(seq![target][0] == target);
    }
    assert forall|id: Seq<char>| #[trigger] seq![target].contains(id) implies leads_to(
        history,
        target,
        id,
    ) by {}
}

/// Asking keeps a search sound.
pub proof fn scan_asks(scan: ScanView, history: Moved, target: Seq<char>)
    requires
        scan_sound(scan, history, target),
        scan.verdict is None,
        scan.current is None,
    ensures
        scan_sound(advanced(scan), history, target),
    decreases scan.pending.len(),
{
    if scan.pending.len() > 0 {
        let id = scan.pending.last();
        let rest = scan.pending.drop_last();
        assert(scan.pending.contains(id));
        assert forall|x: Seq<char>| scan.pending.contains(x) implies x == id || rest.contains(x) by {
            let k = choose|k: int| 0 <= k < scan.pending.len() && scan.pending[k] == x;
            if k < rest.len() {
                assert(rest[k] == x);
            }
        }
        assert forall|x: Seq<char>| #[trigger] rest.contains(x) implies scan.pending.contains(x) by {
            let k = choose|k: int| 0 <= k < rest.len() && rest[k] == x;
            assert(scan.pending[k] == x);
        }
        if scan.seen.contains(id) {
            let next = ScanView { pending: rest, ..scan };
            assert forall|x: Seq<char>|
                #![trigger next.seen.contains(x)]
                next.seen.contains(x) && !history.settled.contains(x) implies history.commits[x].tree
                != next.tree && forall|p: Seq<char>| #[trigger]
                history.commits[x].parents.contains(p) ==> next.seen.contains(p)
                    || next.pending.contains(p) by {
                assert(scan.seen.contains(x));
            }
            scan_asks(next, history, target);
        } else {
            let next = advanced(scan);
            assert(next.seen == scan.seen.push(id));
            pushed_members(scan.seen, id);
            assert forall|x: Seq<char>|
                #![trigger next.seen.contains(x)]
                next.seen.contains(x) && next.current != Some(x) && !(next.verdict == Some(false)
                    && next.seen.len() > FOLD_SCAN_MAX) && !history.settled.contains(
                    x,
                ) implies history.commits[x].tree != next.tree && forall|p: Seq<char>| #[trigger]
                history.commits[x].parents.contains(p) ==> next.seen.contains(p)
                    || next.pending.contains(p) by {
                assert(scan.seen.contains(x));
                assert forall|p: Seq<char>| #[trigger]
                    history.commits[x].parents.contains(p) implies next.seen.contains(p)
                    || next.pending.contains(p) by {
                    assert(scan.seen.contains(p) || scan.pending.contains(p));
                }
            }
        }
    }
}

/// What a longer list holds.
proof fn pushed_members(list: Seq<Seq<char>>, id: Seq<char>)
    ensures
        forall|x: Seq<char>| #[trigger]
            list.push(id).contains(x) <==> (list.contains(x) || x == id),
{
    assert forall|x: Seq<char>| #[trigger]
        list.push(id).contains(x) <==> (list.contains(x) || x == id) by {
        if list.contains(x) {
            let k = choose|k: int| 0 <= k < list.len() && list[k] == x;
            assert(list.push(id)[k] == x);
        }
        if x == id {
            assert(list.push(id)[list.len() as int] == x);
        }
    }
}

/// Telling a search the truth keeps it sound.
pub proof fn scan_learns(scan: ScanView, history: Moved, target: Seq<char>)
    requires
        scan_sound(scan, history, target),
        scan.verdict is None,
        scan.current is Some,
    ensures
        scan_sound(
            told(
                scan,
                history.settled.contains(scan.current->0),
                history.commits[scan.current->0].tree,
                history.commits[scan.current->0].parents,
            ),
            history,
            target,
        ),
{
    let id = scan.current->0;
    let commit = history.commits[id];
    let settled = history.settled.contains(id);
    let next = told(scan, settled, commit.tree, commit.parents);
    assert(leads_to(history, target, id));
    if !settled && commit.tree != scan.tree {
        let all = scan.pending + commit.parents;
        assert(next.pending == all);
        assert forall|x: Seq<char>| #[trigger] all.contains(x) implies leads_to(
            history,
            target,
            x,
        ) by {
            let k = choose|k: int| 0 <= k < all.len() && all[k] == x;
            if k < scan.pending.len() {
                assert(scan.pending[k] == x);
                assert(scan.pending.contains(x));
            } else {
                assert(commit.parents[k - scan.pending.len()] == x);
                assert(commit.parents.contains(x));
                let way = choose|way: Seq<Seq<char>>| #[trigger]
                    is_way(history, target, way) && way.last() == id;
                let longer = way.push(x);
                assert forall|i: int| 0 <= i < longer.len() - 1 implies !history.settled.contains(
                    #[trigger] longer[i],
                ) && history.commits[longer[i]].parents.contains(longer[i + 1]) by {
                    if i < way.len() - 1 {
                        assert(longer[i] == way[i]);
                        assert(longer[i + 1] == way[i + 1]);
                    } else {
                        assert(longer[i] == id);
                        assert(longer[i + 1] == x);
                    }
                }
                assert(is_way(history, target, longer));
                assert(longer.last() == x);
            }
        }
        assert forall|x: Seq<char>| scan.pending.contains(x) || commit.parents.contains(x) implies #[trigger] all.contains(x) by {
            if scan.pending.contains(x) {
                let k = choose|k: int| 0 <= k < scan.pending.len() && scan.pending[k] == x;
                assert(all[k] == x);
            } else {
                let k = choose|k: int| 0 <= k < commit.parents.len() && commit.parents[k] == x;
                assert(all[scan.pending.len() + k] == x);
            }
        }
        assert forall|x: Seq<char>|
            #![trigger next.seen.contains(x)]
            next.seen.contains(x) && !history.settled.contains(x) implies history.commits[x].tree
            != next.tree && forall|p: Seq<char>| #[trigger]
            history.commits[x].parents.contains(p) ==> next.seen.contains(p)
                || next.pending.contains(p) by {
            assert(scan.seen.contains(x));
            assert forall|p: Seq<char>| #[trigger]
                history.commits[x].parents.contains(p) implies next.seen.contains(p)
                || next.pending.contains(p) by {
                if x == id {
                    assert(all.contains(p));
                } else {
                    assert(scan.seen.contains(p) || scan.pending.contains(p));
                    if scan.pending.contains(p) {
                        assert(all.contains(p));
                    }
                }
            }
        }
        if scan.pending.contains(target) {
            assert(all.contains(target));
        }
    } else if !settled {
        assert(carries(history, target, scan.tree));
    } else {
        assert forall|x: Seq<char>|
            #![trigger next.seen.contains(x)]
            next.seen.contains(x) && !history.settled.contains(x) implies history.commits[x].tree
            != next.tree && forall|p: Seq<char>| #[trigger]
            history.commits[x].parents.contains(p) ==> next.seen.contains(p)
                || next.pending.contains(p) by {
            assert(scan.seen.contains(x));
        }
    }
}

/// What a search's verdict means: content found is carried by the moved
/// history, and content not found within the bound is not.
pub proof fn scan_verdict(scan: ScanView, history: Moved, target: Seq<char>)
    requires
        scan_sound(scan, history, target),
    ensures
        scan.verdict == Some(true) ==> carries(history, target, scan.tree),
        scan.verdict == Some(false) && scan.seen.len() <= FOLD_SCAN_MAX ==> !carries(
            history,
            target,
            scan.tree,
        ),
{
    if scan.verdict == Some(false) && scan.seen.len() <= FOLD_SCAN_MAX && carries(
        history,
        target,
        scan.tree,
    ) {
        let id = choose|id: Seq<char>| #[trigger]
            leads_to(history, target, id) && !history.settled.contains(id)
                && history.commits[id].tree == scan.tree;
        let way = choose|way: Seq<Seq<char>>| #[trigger]
            is_way(history, target, way) && way.last() == id;
        way_is_seen(scan, history, target, way, way.len() - 1);
        assert(scan.seen.contains(id));
    }
}

/// An exhausted search has met every commit on every way.
proof fn way_is_seen(
    scan: ScanView,
    history: Moved,
    target: Seq<char>,
    way: Seq<Seq<char>>,
    i: int,
)
    requires
        scan_sound(scan, history, target),
        scan.verdict == Some(false),
        scan.seen.len() <= FOLD_SCAN_MAX,
        is_way(history, target, way),
        0 <= i < way.len(),
    ensures
        scan.seen.contains(way[i]),
    decreases i,
{
    assert(forall|x: Seq<char>| !scan.pending.contains(x));
    if i > 0 {
        way_is_seen(scan, history, target, way, i - 1);
        assert(!history.settled.contains(way[i - 1]));
        assert(history.commits[way[i - 1]].parents.contains(way[i - 1 + 1]));
    }
}

/// A search meets at most one commit more than it takes on.
pub proof fn scan_is_bounded(scan: ScanView)
    requires
        scan.seen.len() <= FOLD_SCAN_MAX,
    ensures
        advanced(scan).seen.len() <= FOLD_SCAN_MAX + 1,
        advanced(scan).seen.len() > FOLD_SCAN_MAX ==> advanced(scan).verdict == Some(false),
    decreases scan.pending.len(),
{
    if scan.pending.len() > 0 && scan.seen.contains(scan.pending.last()) {
        scan_is_bounded(ScanView { pending: scan.pending.drop_last(), ..scan });
    }
}

/// A fold that failed is left to others exactly when somebody else holds the
/// line or took it over meanwhile.
pub proof fn only_leases_are_left_to_others(
    error: ErrorView,
    holder: Seq<char>,
    expires_at_ms: int,
    point: Seq<char>,
)
    ensures
        is_left_to_others(ErrorView::LeaseHeld { holder, expires_at_ms }),
        is_left_to_others(ErrorView::LeaseSuperseded { point }),
        is_left_to_others(error) ==> error is LeaseHeld || error is LeaseSuperseded,
{
}

} // verus!
