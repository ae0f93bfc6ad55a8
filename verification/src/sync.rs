//! Syncing sources with their origins: the guard against origins that
//! changed out of band, pulls, and how to publish what git sources carry.

use crate::apply::LANDED_BOOKMARK;
use crate::config::{Actor, ActorView, ROOT_MOUNT, SourceKind, join_path, path_under};
use crate::coordination::StoreView;
use crate::error::{Error, ErrorView};
use crate::journal::Act;
use crate::ledger::{Ledger, LedgerView, entry_of, scoped, scoped_text, with_entry};
use crate::paths::{path_pieces, pieces};
use crate::sources::{is_internal, is_internal_name};
use crate::words::{
    begins,
    begins_with,
    chars_of,
    debug_quoted,
    is_space,
    joined,
    occurs,
    opt_text,
    owned,
    parts_are_found,
    parts_still_occur,
    quoted,
    same,
    texts,
};
use vstd::prelude::*;

verus! {

/// What one sync did.
#[derive(Debug, Clone, PartialEq, Eq)]
pub enum SyncOutcome {
    /// The origin mirrors this snapshot now.
    Synced { snapshot: String },
    /// The origin changed since the last sync and was left alone.
    Parked { snapshot: String },
}

/// What one pull did.
#[derive(Debug, Clone, PartialEq, Eq)]
pub enum PullOutcome {
    /// The origin holds nothing new.
    Current,
    /// The origin's state is this snapshot on the line now.
    Pulled { snapshot: String },
}

/// The key a source's sync state is kept under: its mount.
pub open spec fn sync_key(source: Option<Seq<char>>) -> Seq<char> {
    match source {
        Some(mount) => mount,
        None => ROOT_MOUNT@,
    }
}

/// The key a source's sync state is kept under.
fn sync_key_of(source: &Option<String>) -> (r: String)
    ensures
        r@ == sync_key(opt_text(*source)),
{
    match source {
        Some(mount) => owned(mount.as_str()),
        None => owned(ROOT_MOUNT),
    }
}

/// Whether landings and undos mirror a source home: git sources never do,
/// they are published with plain git.
pub fn mirrors_home(kind: SourceKind) -> (r: bool)
    ensures
        r == (kind != SourceKind::LocalGit),
{
    match kind {
        SourceKind::LocalGit => false,
        SourceKind::LocalFolder | SourceKind::Remote => true,
    }
}

// ---------------------------------------------------------------------
// Sync.

/// Whether an origin with this fingerprint is as the last sync left it.
pub open spec fn origin_unchanged(store: StoreView, key: Seq<char>, fingerprint: Seq<char>) -> bool {
    store.syncs.dom().contains(key) && store.syncs[key].0 == fingerprint
}

/// The ledger once a source is known to mirror a snapshot.
pub open spec fn with_sync(
    ledger: LedgerView,
    key: Seq<char>,
    fingerprint: Seq<char>,
    snapshot: Seq<char>,
) -> LedgerView {
    LedgerView {
        store: StoreView {
            syncs: ledger.store.syncs.insert(key, (fingerprint, snapshot)),
            ..ledger.store
        },
        ..ledger
    }
}

/// The ledger after a sync that mirrored a snapshot home.
pub open spec fn synced(
    ledger: LedgerView,
    actor: ActorView,
    source: Option<Seq<char>>,
    fingerprint: Seq<char>,
    snapshot: Seq<char>,
    at_ms: int,
) -> LedgerView {
    with_entry(
        with_sync(ledger, sync_key(source), fingerprint, snapshot),
        entry_of(actor, Act::Sync, None, Some(scoped(source, snapshot)), at_ms),
    )
}

/// The ledger after a sync that left a changed origin alone.
pub open spec fn sync_parked(
    ledger: LedgerView,
    actor: ActorView,
    source: Option<Seq<char>>,
    snapshot: Seq<char>,
    at_ms: int,
) -> LedgerView {
    with_entry(
        ledger,
        entry_of(
            actor,
            Act::SyncParked,
            None,
            Some(scoped(source, snapshot + " origin changed"@)),
            at_ms,
        ),
    )
}

impl Ledger {
    /// Whether a sync may overwrite an origin with this fingerprint: when it
    /// is as the last sync left it, or when the overwrite is deliberate.
    pub fn may_sync(&self, source: &Option<String>, fingerprint: &str, force: bool) -> (r: bool)
        requires
            self.wf(),
        ensures
            r == (force || origin_unchanged(
                self@.store,
                sync_key(opt_text(*source)),
                fingerprint@,
            )),
    {
        if force {
            return true;
        }
        match self.store.sync_state(sync_key_of(source).as_str()) {
            Some((recorded, _)) => same(recorded.as_str(), fingerprint),
            None => false,
        }
    }

    /// Seed a source's sync state: its origin, with this fingerprint, is
    /// what the snapshot holds.
    pub fn seed_sync(&mut self, source: &Option<String>, fingerprint: &str, snapshot: &str)
        requires
            old(self).wf(),
        ensures
            final(self).wf(),
            final(self)@ == with_sync(
                old(self)@,
                sync_key(opt_text(*source)),
                fingerprint@,
                snapshot@,
            ),
    {
        self.store.record_sync_state(sync_key_of(source).as_str(), fingerprint, snapshot);
        assert(self@ =~= with_sync(
            old(self)@,
            sync_key(opt_text(*source)),
            fingerprint@,
            snapshot@,
        ));
    }

    /// Record that a source's origin mirrors a snapshot, with the
    /// fingerprint it has now.
    pub fn record_synced(
        &mut self,
        actor: &Actor,
        source: &Option<String>,
        fingerprint: &str,
        snapshot: &str,
        at_ms: i64,
    ) -> (r: SyncOutcome)
        requires
            old(self).wf(),
        ensures
            final(self).wf(),
            r matches SyncOutcome::Synced { snapshot: id } && id@ == snapshot@,
            final(self)@ == synced(
                old(self)@,
                actor@,
                opt_text(*source),
                fingerprint@,
                snapshot@,
                at_ms as int,
            ),
    {
        self.seed_sync(source, fingerprint, snapshot);
        self.append_entry(actor, Act::Sync, Some(scoped_text(source, snapshot)), at_ms);
        SyncOutcome::Synced { snapshot: owned(snapshot) }
    }

    /// Record that a source's origin changed out of band and was left alone.
    pub fn record_sync_parked(
        &mut self,
        actor: &Actor,
        source: &Option<String>,
        snapshot: &str,
        at_ms: i64,
    ) -> (r: SyncOutcome)
        requires
            old(self).wf(),
        ensures
            final(self).wf(),
            r matches SyncOutcome::Parked { snapshot: id } && id@ == snapshot@,
            final(self)@ == sync_parked(
                old(self)@,
                actor@,
                opt_text(*source),
                snapshot@,
                at_ms as int,
            ),
    {
        let told = joined(snapshot, " origin changed");
        let reference = scoped_text(source, told.as_str());
        self.append_entry(actor, Act::SyncParked, Some(reference), at_ms);
        SyncOutcome::Parked { snapshot: owned(snapshot) }
    }
}

/// After a sync the origin is known again: the next one, on an origin left
/// as it is, goes through without force. A parked sync changes nothing of
/// what is known, so a plain retry parks again.
pub proof fn syncs_settle(
    ledger: LedgerView,
    actor: ActorView,
    source: Option<Seq<char>>,
    fingerprint: Seq<char>,
    snapshot: Seq<char>,
    at_ms: int,
)
    ensures
        origin_unchanged(
            synced(ledger, actor, source, fingerprint, snapshot, at_ms).store,
            sync_key(source),
            fingerprint,
        ),
        sync_parked(ledger, actor, source, snapshot, at_ms).store == ledger.store,
{
}

// ---------------------------------------------------------------------
// Pull.

/// How a source is called in a refusal.
pub open spec fn source_called(source: Option<Seq<char>>) -> Seq<char> {
    match source {
        Some(mount) => debug_quoted(mount),
        None => "the root"@,
    }
}

/// How a source is called in a refusal.
fn source_words(source: &Option<String>) -> (r: String)
    ensures
        r@ == source_called(opt_text(*source)),
{
    match source {
        Some(mount) => quoted(mount.as_str()),
        None => owned("the root"),
    }
}

/// Why a source cannot be pulled, if it cannot: it is no remote source, or
/// its bucket changed while its line moved on from what was last synced.
pub open spec fn pull_error(
    store: StoreView,
    source: Option<Seq<char>>,
    kind: SourceKind,
    fingerprint: Seq<char>,
    head: Seq<char>,
) -> Option<ErrorView> {
    let key = sync_key(source);
    if kind != SourceKind::Remote {
        Some(ErrorView::Config(source_called(source) + " is not a remote source"@))
    } else if origin_unchanged(store, key, fingerprint) {
        None
    } else if store.syncs.dom().contains(key) && store.syncs[key].1 == head {
        None
    } else {
        Some(
            ErrorView::Config(
                source_called(source)
                    + " moved locally since its last sync; sync it before pulling"@,
            ),
        )
    }
}

/// The ledger after a pull.
pub open spec fn pulled(
    ledger: LedgerView,
    actor: ActorView,
    source: Option<Seq<char>>,
    fingerprint: Seq<char>,
    snapshot: Seq<char>,
    at_ms: int,
) -> LedgerView {
    with_entry(
        with_sync(ledger, sync_key(source), fingerprint, snapshot),
        entry_of(actor, Act::Pull, None, Some(scoped(source, snapshot)), at_ms),
    )
}

impl Ledger {
    /// Whether a pull folds the bucket's state into the line: when the
    /// bucket changed since the last sync and the line did not.
    pub fn judge_pull(
        &self,
        source: &Option<String>,
        kind: SourceKind,
        fingerprint: &str,
        head: &str,
    ) -> (r: Result<bool, Error>)
        requires
            self.wf(),
        ensures
            r is Err <==> pull_error(
                self@.store,
                opt_text(*source),
                kind,
                fingerprint@,
                head@,
            ) is Some,
            r is Err ==> Some((r->Err_0)@) == pull_error(
                self@.store,
                opt_text(*source),
                kind,
                fingerprint@,
                head@,
            ),
            r is Ok ==> r->Ok_0 == !origin_unchanged(
                self@.store,
                sync_key(opt_text(*source)),
                fingerprint@,
            ),
    {
        match kind {
            SourceKind::Remote => {},
            SourceKind::LocalFolder | SourceKind::LocalGit => {
                let called = source_words(source);
                return Err(Error::Config(joined(called.as_str(), " is not a remote source")));
            },
        }
        if let Some((recorded, at)) = self.store.sync_state(sync_key_of(source).as_str()) {
            if same(recorded.as_str(), fingerprint) {
                return Ok(false);
            }
            if same(at.as_str(), head) {
                return Ok(true);
            }
        }
        let called = source_words(source);
        Err(
            Error::Config(
                joined(
                    called.as_str(),
                    " moved locally since its last sync; sync it before pulling",
                ),
            ),
        )
    }

    /// Record that a bucket's state is a snapshot on the line now.
    pub fn record_pulled(
        &mut self,
        actor: &Actor,
        source: &Option<String>,
        fingerprint: &str,
        snapshot: &str,
        at_ms: i64,
    ) -> (r: PullOutcome)
        requires
            old(self).wf(),
        ensures
            final(self).wf(),
            r matches PullOutcome::Pulled { snapshot: id } && id@ == snapshot@,
            final(self)@ == pulled(
                old(self)@,
                actor@,
                opt_text(*source),
                fingerprint@,
                snapshot@,
                at_ms as int,
            ),
    {
        self.seed_sync(source, fingerprint, snapshot);
        self.append_entry(actor, Act::Pull, Some(scoped_text(source, snapshot)), at_ms);
        PullOutcome::Pulled { snapshot: owned(snapshot) }
    }
}

/// A pull settles: pulling again from the same bucket finds nothing new, and
/// a landing's sync finds the bucket as the pull left it.
pub proof fn pulls_settle(
    ledger: LedgerView,
    actor: ActorView,
    source: Option<Seq<char>>,
    fingerprint: Seq<char>,
    snapshot: Seq<char>,
    at_ms: int,
    head: Seq<char>,
)
    ensures
        ({
            let after = pulled(ledger, actor, source, fingerprint, snapshot, at_ms);
            &&& origin_unchanged(after.store, sync_key(source), fingerprint)
            &&& pull_error(after.store, source, SourceKind::Remote, fingerprint, head) is None
        }),
{
}

// ---------------------------------------------------------------------
// Remote sources.

/// Whether a source is named by a bucket's URL.
pub open spec fn is_bucket(source: Seq<char>) -> bool {
    ||| begins(source, "s3://"@)
    ||| begins(source, "gs://"@)
    ||| begins(source, "az://"@)
    ||| begins(source, "file://"@)
}

/// Whether a source is named by a bucket's URL.
pub fn is_remote_url(source: &str) -> (r: bool)
    ensures
        r == is_bucket(source@),
{
    begins_with(source, "s3://") || begins_with(source, "gs://") || begins_with(source, "az://")
        || begins_with(source, "file://")
}

/// Whether an object's key leads through one of the engine's internals.
pub open spec fn is_smuggled(key: Seq<char>) -> bool {
    exists|i: int| 0 <= i < pieces(key).len() && is_internal(#[trigger] pieces(key)[i])
}

/// Refuse a bucket object whose key leads through the engine's internals.
pub fn check_object(key: &str) -> (r: Result<(), Error>)
    ensures
        r is Ok <==> !is_smuggled(key@),
        r is Err ==> (r->Err_0)@ == ErrorView::Engine(
            "object "@ + debug_quoted(key@) + " carries an engine-internal name"@,
        ),
{
    let list = path_pieces(key);
    let ghost all = texts(list@);
    let mut i: usize = 0;
    while i < list.len()
        invariant
            i <= list@.len(),
            all == texts(list@),
            all == pieces(key@),
            forall|k: int| 0 <= k < i ==> !is_internal(#[trigger] all[k]),
        decreases list@.len() - i,
    {
        assert(all[i as int] == list@[i as int]@);
        if is_internal_name(list[i].as_str()) {
            let mut detail = joined("object ", quoted(key).as_str());
            detail.push_str(" carries an engine-internal name");
            return Err(Error::Engine(detail));
        }
        i = i + 1;
    }
    Ok(())
}

// ---------------------------------------------------------------------
// Publishing git sources.

/// A text inside single quotes: a quote of its own is closed out of them,
/// escaped, and opened again.
pub open spec fn inside_quotes(text: Seq<char>) -> Seq<char>
    decreases text.len(),
{
    if text.len() == 0 {
        Seq::empty()
    } else if text.last() == '\'' {
        inside_quotes(text.drop_last()) + seq!['\'', '\\', '\'', '\'']
    } else {
        inside_quotes(text.drop_last()).push(text.last())
    }
}

/// A text as one shell word.
pub open spec fn shell_quoted(text: Seq<char>) -> Seq<char> {
    seq!['\''] + inside_quotes(text) + seq!['\'']
}

/// A text as one shell word.
pub fn shell_quote(text: &str) -> (r: String)
    ensures
        r@ == shell_quoted(text@),
{
    let chars = chars_of(text);
    let mut out = String::new();
    out.push('\'');
    let mut i: usize = 0;
    assert(text@.take(0) =~= Seq::empty());
    assert(out@ =~= seq!['\''] + inside_quotes(text@.take(0)));
    while i < chars.len()
        invariant
            i <= chars@.len(),
            chars@ == text@,
            out@ == seq!['\''] + inside_quotes(text@.take(i as int)),
        decreases chars@.len() - i,
    {
        assert(text@.take(i + 1).drop_last() =~= text@.take(i as int));
        assert(text@.take(i + 1).last() == text@[i as int]);
        if chars[i] == '\'' {
            out.push('\'');
            out.push('\\');
            out.push('\'');
            out.push('\'');
        } else {
            out.push(chars[i]);
        }
        assert(out@ =~= seq!['\''] + inside_quotes(text@.take(i + 1)));
        i = i + 1;
    }
    assert(text@.take(text@.len() as int) =~= text@);
    out.push('\'');
    out
}

/// Where a shell stands while it reads a word of single-quoted and escaped
/// characters.
pub enum Reading {
    /// Between quotes.
    Quoted,
    /// Outside of quotes.
    Bare,
    /// Behind a backslash outside of quotes.
    Escaped,
}

/// What a shell has read of a word, and where it stands: quoted characters
/// stand for themselves, so does one behind a backslash.
pub open spec fn shell_read(word: Seq<char>) -> (Seq<char>, Reading)
    decreases word.len(),
{
    if word.len() == 0 {
        (Seq::empty(), Reading::Bare)
    } else {
        let (text, state) = shell_read(word.drop_last());
        let c = word.last();
        match state {
            Reading::Quoted => if c == '\'' {
                (text, Reading::Bare)
            } else {
                (text.push(c), Reading::Quoted)
            },
            Reading::Bare => if c == '\'' {
                (text, Reading::Quoted)
            } else if c == '\\' {
                (text, Reading::Escaped)
            } else {
                (text.push(c), Reading::Bare)
            },
            Reading::Escaped => (text.push(c), Reading::Bare),
        }
    }
}

/// Reading on by one character.
proof fn reads_on(word: Seq<char>, c: char)
    ensures
        word.push(c).drop_last() == word,
        word.push(c).last() == c,
{
    assert(word.push(c).drop_last() =~= word);
}

/// A shell reads the inside of quotes as the text itself, and is still
/// between quotes behind it.
proof fn inside_reads_back(text: Seq<char>)
    ensures
        shell_read(seq!['\''] + inside_quotes(text)) == (text, Reading::Quoted),
    decreases text.len(),
{
    let open = seq!['\''];
    if text.len() == 0 {
        assert(open + inside_quotes(text) =~= Seq::<char>::empty().push('\''));
        reads_on(Seq::empty(), '\'');
        assert(text =~= Seq::empty());
        assert(shell_read(Seq::empty()) == (Seq::<char>::empty(), Reading::Bare));
    } else {
        let before = text.drop_last();
        inside_reads_back(before);
        let read = open + inside_quotes(before);
        assert(before.push(text.last()) =~= text);
        if text.last() == '\'' {
            let one = read.push('\'');
            let two = one.push('\\');
            let three = two.push('\'');
            let four = three.push('\'');
            assert(open + inside_quotes(text) =~= four);
            reads_on(read, '\'');
            reads_on(one, '\\');
            reads_on(two, '\'');
            reads_on(three, '\'');
            assert(shell_read(one) == (before, Reading::Bare));
            assert(shell_read(two) == (before, Reading::Escaped));
            assert(shell_read(three) == (text, Reading::Bare));
        } else {
            assert(open + inside_quotes(text) =~= read.push(text.last()));
            reads_on(read, text.last());
        }
    }
}

/// A quoted word is one word to a shell, and reads as the text it quotes,
/// whatever characters that holds.
pub proof fn quoted_reads_back(text: Seq<char>)
    ensures
        shell_read(shell_quoted(text)) == (text, Reading::Bare),
{
    inside_reads_back(text);
    let read = seq!['\''] + inside_quotes(text);
    reads_on(read, '\'');
    assert(shell_quoted(text) =~= read.push('\''));
}

/// The git ref a source's landings update.
pub open spec fn landed_ref(branch: Option<Seq<char>>) -> Seq<char> {
    match branch {
        Some(branch) => "refs/heads/"@ + branch,
        None => "refs/heads/"@ + LANDED_BOOKMARK@,
    }
}

/// How a git source is published, in place of a sync.
pub open spec fn publish_guidance(
    name: Seq<char>,
    original: Seq<char>,
    repository: Seq<char>,
    git_ref: Seq<char>,
) -> Seq<char> {
    debug_quoted(name) + " is a git source; the original clone at "@ + debug_quoted(original)
        + " remains unchanged.\nLandings update "@ + debug_quoted(git_ref)
        + " in the mounted repository at "@ + debug_quoted(repository)
        + ".\nPublish with:\n  git -C "@ + shell_quoted(repository) + " push -- '<remote>' "@
        + shell_quoted(git_ref + ":"@ + git_ref)
        + "\nReplace <remote> with a remote name or URL; list configured remotes with:\n  git -C "@
        + shell_quoted(repository) + " remote -v"@
}

/// The refusal to sync a git source: its original clone is never touched,
/// and what landed is published from the mount with plain git.
pub fn git_sync_refusal(root: &str, name: &str, original: &str, branch: &Option<String>) -> (r:
    Error)
    ensures
        r@ == ErrorView::Config(
            publish_guidance(
                name@,
                original@,
                path_under(root@, name@),
                landed_ref(opt_text(*branch)),
            ),
        ),
{
    let repository = join_path(root, name);
    let git_ref = match branch {
        Some(branch) => joined("refs/heads/", branch.as_str()),
        None => joined("refs/heads/", LANDED_BOOKMARK),
    };
    let mut refspec = joined(git_ref.as_str(), ":");
    refspec.push_str(git_ref.as_str());
    let mut text = joined(quoted(name).as_str(), " is a git source; the original clone at ");
    text.push_str(quoted(original).as_str());
    text.push_str(" remains unchanged.\nLandings update ");
    text.push_str(quoted(git_ref.as_str()).as_str());
    text.push_str(" in the mounted repository at ");
    text.push_str(quoted(repository.as_str()).as_str());
    text.push_str(".\nPublish with:\n  git -C ");
    text.push_str(shell_quote(repository.as_str()).as_str());
    text.push_str(" push -- '<remote>' ");
    text.push_str(shell_quote(refspec.as_str()).as_str());
    text.push_str(
        "\nReplace <remote> with a remote name or URL; list configured remotes with:\n  git -C ",
    );
    text.push_str(shell_quote(repository.as_str()).as_str());
    text.push_str(" remote -v");
    Error::Config(text)
}

/// An origin is unchanged exactly where it looks as the source's last sync or
/// pull left it: a sync makes it so for that look and no other, and says
/// nothing of other sources; one never synced counts as changed.
pub proof fn origins_are_known_by_their_look(
    ledger: LedgerView,
    actor: ActorView,
    source: Option<Seq<char>>,
    other: Seq<char>,
    fingerprint: Seq<char>,
    snapshot: Seq<char>,
    look: Seq<char>,
    at_ms: int,
)
    requires
        other != sync_key(source),
    ensures
        ({
            let after = synced(ledger, actor, source, fingerprint, snapshot, at_ms);
            let fetched = pulled(ledger, actor, source, fingerprint, snapshot, at_ms);
            &&& origin_unchanged(after.store, sync_key(source), look) <==> look == fingerprint
            &&& origin_unchanged(fetched.store, sync_key(source), look) <==> look == fingerprint
            &&& origin_unchanged(after.store, other, look) == origin_unchanged(
                ledger.store,
                other,
                look,
            )
            &&& !ledger.store.syncs.dom().contains(other) ==> !origin_unchanged(
                ledger.store,
                other,
                look,
            )
        }),
{
}

/// A source is pulled exactly when it is a remote one that was synced, and
/// either its origin looks as it did or its line stands where it was left:
/// nothing local is lost.
pub proof fn pulls_lose_nothing(
    store: StoreView,
    source: Option<Seq<char>>,
    kind: SourceKind,
    fingerprint: Seq<char>,
    head: Seq<char>,
)
    ensures
        ({
            let key = match source {
                Some(mount) => mount,
                None => seq!['/'],
            };
            pull_error(store, source, kind, fingerprint, head) is None <==> kind
                == SourceKind::Remote && store.syncs.dom().contains(key) && (store.syncs[key].0
                == fingerprint || store.syncs[key].1 == head)
        }),
{
    reveal_strlit("/");
    assert("/"@ =~= seq!['/']);
}

/// A source is a bucket exactly when it is written as one of the four
/// schemes and something behind it.
pub proof fn buckets_are_told_by_their_scheme(source: Seq<char>, rest: Seq<char>)
    ensures
        is_bucket("s3://"@ + rest),
        is_bucket("gs://"@ + rest),
        is_bucket("az://"@ + rest),
        is_bucket("file://"@ + rest),
        is_bucket(source) ==> exists|at: int|
            0 <= at <= source.len() && (source == "s3://"@ + #[trigger] source.skip(at) || source
                == "gs://"@ + source.skip(at) || source == "az://"@ + source.skip(at) || source
                == "file://"@ + source.skip(at)),
{
    parts_are_found("s3://"@, rest, source);
    parts_are_found("gs://"@, rest, source);
    parts_are_found("az://"@, rest, source);
    parts_are_found("file://"@, rest, source);
    if is_bucket(source) {
        let scheme = if begins(source, "s3://"@) {
            "s3://"@
        } else if begins(source, "gs://"@) {
            "gs://"@
        } else if begins(source, "az://"@) {
            "az://"@
        } else {
            "file://"@
        };
        assert(source =~= scheme + source.skip(scheme.len() as int));
    }
}

/// A key is smuggled exactly when one of its pieces is a directory kept
/// aside, at any depth.
pub proof fn internals_are_smuggled(key: Seq<char>)
    ensures
        is_smuggled(key) <==> pieces(key).contains(".atelier"@) || pieces(key).contains(".jj"@)
            || pieces(key).contains(".git"@),
{
    let list = pieces(key);
    if is_smuggled(key) {
        let i = choose|i: int| 0 <= i < list.len() && is_internal(#[trigger] list[i]);
        assert(list.contains(list[i]));
    }
    if list.contains(".atelier"@) {
        let i = choose|i: int| 0 <= i < list.len() && list[i] == ".atelier"@;
        assert(is_internal(list[i]));
    }
    if list.contains(".jj"@) {
        let i = choose|i: int| 0 <= i < list.len() && list[i] == ".jj"@;
        assert(is_internal(list[i]));
    }
    if list.contains(".git"@) {
        let i = choose|i: int| 0 <= i < list.len() && list[i] == ".git"@;
        assert(is_internal(list[i]));
    }
}

/// Landings go to the branch a head names, and to the bookmark's where it
/// names none.
pub proof fn landings_go_to_the_branch(branch: Seq<char>)
    requires
        branch.len() > 0,
        !is_space(branch.last()),
    ensures
        crate::attach::head_branch("ref: "@ + landed_ref(Some(branch))) == Some(branch),
        landed_ref(None) == landed_ref(Some(LANDED_BOOKMARK@)),
{
    reveal_strlit("ref: ");
    reveal_strlit("refs/heads/");
    reveal_strlit("ref: refs/heads/");
    assert("ref: "@ + ("refs/heads/"@ + branch) =~= "ref: refs/heads/"@ + branch);
    crate::attach::heads_name_branches("ref: refs/heads/"@ + branch, branch);
}

/// The guidance names the mount, the original, and the repository, and its
/// commands quote the repository and push the ref to itself.
pub proof fn guidance_quotes_what_it_names(
    name: Seq<char>,
    original: Seq<char>,
    repository: Seq<char>,
    git_ref: Seq<char>,
)
    ensures
        ({
            let text = publish_guidance(name, original, repository, git_ref);
            &&& occurs(text, debug_quoted(name))
            &&& occurs(text, debug_quoted(original))
            &&& occurs(text, debug_quoted(repository))
            &&& occurs(text, debug_quoted(git_ref))
            &&& occurs(
                text,
                shell_quoted(repository) + " push -- '<remote>' "@ + shell_quoted(
                    git_ref + seq![':'] + git_ref,
                ),
            )
            &&& occurs(text, shell_quoted(repository) + " remote -v"@)
        }),
{
    reveal_strlit(":");
    assert(git_ref + ":"@ + git_ref =~= git_ref + seq![':'] + git_ref);
    parts_still_occur();
    let i = shell_quoted(repository);
    let j = " push -- '<remote>' "@;
    let k = shell_quoted(git_ref + ":"@ + git_ref);
    let m = " remote -v"@;
    let first = debug_quoted(name) + " is a git source; the original clone at "@ + debug_quoted(
        original,
    ) + " remains unchanged.\nLandings update "@ + debug_quoted(git_ref)
        + " in the mounted repository at "@ + debug_quoted(repository)
        + ".\nPublish with:\n  git -C "@;
    let pushed = first + i + j + k;
    assert(pushed =~= first + (i + j + k));
    assert(occurs(first + (i + j + k), i + j + k));
    let second = pushed
        + "\nReplace <remote> with a remote name or URL; list configured remotes with:\n  git -C "@;
    assert(occurs(second, i + j + k));
    let text = second + i + m;
    assert(text == publish_guidance(name, original, repository, git_ref));
    assert(text =~= second + (i + m));
    assert(occurs(second + (i + m), i + m));
    assert(occurs(second + i, i + j + k));
}

} // verus!
