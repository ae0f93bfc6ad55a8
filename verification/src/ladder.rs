//! The fidelity ladder: how a listed delta is raised from the binary rung to
//! text and to a format's own terms, and what is journaled when it cannot
//! be.

use crate::config::{Actor, ActorView};
use crate::error::{Error, ErrorView};
use crate::journal::Act;
use crate::ledger::{Ledger, LedgerView, entry_of, with_entry};
use crate::model::{Address, Delta, DeltaKind, DeltaView, Fidelity, delta_views};
use crate::package::{PackageId, PackageView, package_label};
use crate::projection::projected_read;
use crate::read::{ReadResult, window_end, window_start, window_text};
use crate::text::{as_text, carried_lines, diff_lines, line_changes};
use crate::words::{joined, opt_text, owned};
use vstd::prelude::*;
use vstd::utf8::{decode_utf8, encode_utf8, valid_utf8};

verus! {

/// The largest file the ladder loads to raise its fidelity, in bytes.
/// Bigger files keep their listing line at the binary rung.
pub const LADDER_FILE_SIZE_MAX: u64 = 8_388_608;

/// A file's content on one side of a diff: its content id and its bytes.
#[derive(Debug, Clone, PartialEq, Eq)]
pub struct FileBlob {
    pub id: String,
    pub bytes: Vec<u8>,
}

/// What one side of a diff holds at a path.
#[derive(Debug, Clone, PartialEq, Eq)]
pub enum Side {
    /// The path is absent or not a plain file on this side.
    Absent,
    /// The file exceeds [`LADDER_FILE_SIZE_MAX`].
    TooLarge,
    Blob(FileBlob),
}

/// The side of a file read up to one byte past the cap.
pub fn side_of_read(id: String, bytes: Vec<u8>) -> (r: Side)
    ensures
        bytes@.len() > LADDER_FILE_SIZE_MAX ==> r is TooLarge,
        bytes@.len() <= LADDER_FILE_SIZE_MAX ==> r == Side::Blob(FileBlob { id, bytes }),
{
    if bytes.len() as u64 > LADDER_FILE_SIZE_MAX {
        Side::TooLarge
    } else {
        Side::Blob(FileBlob { id, bytes })
    }
}

// ---------------------------------------------------------------------
// Addresses.

/// An address of a mounted source, scoped by its mount; the root's stand as
/// they are.
pub open spec fn mount_address(mount: Option<Seq<char>>, raw: Seq<char>) -> Seq<char> {
    match mount {
        Some(mount) => mount + "/"@ + raw,
        None => raw,
    }
}

/// A delta at another address.
fn moved_to(delta: Delta, address: Address) -> (r: Delta)
    ensures
        r@ == (DeltaView { address: address@, ..delta@ }),
{
    Delta {
        address,
        kind: delta.kind,
        fidelity: delta.fidelity,
        before: delta.before,
        after: delta.after,
        lines: delta.lines,
        package: delta.package,
        summary: delta.summary,
    }
}

/// The delta a workspace reports: its address scoped by the mount it comes
/// from. Every journal entry about it speaks the scoped address.
pub fn scoped_delta(delta: Delta, mount: &Option<String>) -> (r: Delta)
    ensures
        r@ == (DeltaView {
            address: mount_address(opt_text(*mount), delta@.address),
            ..delta@
        }),
{
    match mount {
        Some(mount) => {
            let mut address = joined(mount.as_str(), "/");
            address.push_str(delta.address.as_str());
            let address = Address::new(address.as_str());
            moved_to(delta, address)
        },
        None => delta,
    }
}

/// Whether a delta is raised: only a changed document is. An added or
/// removed one is already told by its listing line.
pub fn raises(delta: &Delta) -> (r: bool)
    ensures
        r == (delta@.kind == DeltaKind::Changed),
{
    matches!(delta.kind, DeltaKind::Changed)
}

// ---------------------------------------------------------------------
// Degradations.

/// How the journal tells that a package failed on a document.
pub open spec fn package_failure(
    address: Seq<char>,
    package: Option<PackageView>,
    reason: Seq<char>,
) -> Seq<char> {
    match package {
        Some(id) => address + " "@ + package_label(id) + " fell_back_to=binary: "@ + reason,
        None => address + " fell_back_to=binary: "@ + reason,
    }
}

/// How the journal tells that a differ failed on a document.
pub open spec fn differ_failure(address: Seq<char>, package: PackageView, reason: Seq<char>) -> Seq<
    char,
> {
    address + " "@ + package_label(package) + " fell_back_to=text: "@ + reason
}

/// How the journal tells that a document is past the ladder's cap.
pub open spec fn too_large(address: Seq<char>) -> Seq<char> {
    address + " exceeds the 8388608-byte ladder cap; kept at the binary rung"@
}

/// The ledger once a degradation is journaled.
pub open spec fn degraded(
    ledger: LedgerView,
    actor: ActorView,
    act: Act,
    reference: Seq<char>,
    at_ms: int,
) -> LedgerView {
    with_entry(ledger, entry_of(actor, act, None, Some(reference), at_ms))
}

/// What a package made of a document it was asked to project.
#[derive(Debug, Clone, PartialEq, Eq)]
pub enum Projected {
    Text(String),
    /// It failed, for this reason.
    Failed(String),
    Panicked,
}

/// Why there is no projection, if there is none.
pub open spec fn projection_failure(outcome: Projected) -> Option<Seq<char>> {
    match outcome {
        Projected::Text(_) => None,
        Projected::Failed(reason) => Some(reason@),
        Projected::Panicked => Some("the package panicked during projection"@),
    }
}

/// What a package's differ made of the two sides of a document.
pub enum Differed {
    /// The package ships no differ.
    Unsupported,
    Rich(Vec<Delta>),
    /// It failed, for this reason.
    Failed(String),
    Panicked,
}

/// Why a differ gave nothing, if it failed.
pub open spec fn differ_reason(outcome: Differed) -> Option<Seq<char>> {
    match outcome {
        Differed::Failed(reason) => Some(reason@),
        Differed::Panicked => Some("the package panicked during diffing"@),
        _ => None,
    }
}

/// The rich deltas of a differ, each addressed under the file it refines.
pub open spec fn refined(path: Seq<char>, rich: Seq<DeltaView>) -> Seq<DeltaView> {
    rich.map_values(
        |delta: DeltaView|
            DeltaView { address: path + " > "@ + delta.address, ..delta },
    )
}

/// The deltas of a document once its package's differ was asked: the file's
/// own delta first, with whatever lines it had, then the differ's.
pub open spec fn enriched(raised: DeltaView, outcome: Differed) -> Seq<DeltaView> {
    match outcome {
        Differed::Rich(rich) => if rich@.len() == 0 {
            seq![raised]
        } else {
            seq![DeltaView { fidelity: Fidelity::Rich, ..raised }] + refined(
                raised.address,
                delta_views(rich@),
            )
        },
        _ => seq![raised],
    }
}

/// One delta as a list.
fn only(delta: Delta) -> (r: Vec<Delta>)
    ensures
        delta_views(r@) == seq![delta@],
{
    let mut out: Vec<Delta> = Vec::new();
    let ghost view = delta@;
    out.push(delta);
    assert(delta_views(out@) =~= seq![view]);
    out
}

/// The file's delta at the rich rung, and its differ's deltas behind it.
fn enrich(raised: Delta, rich: Vec<Delta>) -> (r: Vec<Delta>)
    ensures
        delta_views(r@) == seq![DeltaView { fidelity: Fidelity::Rich, ..raised@ }] + refined(
            raised@.address,
            delta_views(rich@),
        ),
{
    let ghost first = seq![DeltaView { fidelity: Fidelity::Rich, ..raised@ }];
    let ghost all = refined(raised@.address, delta_views(rich@));
    let path = owned(raised.address.as_str());
    let ghost given = rich@;
    let mut rest: Vec<Delta> = Vec::new();
    let mut rich = rich;
    while rich.len() > 0
        invariant
            rich@.len() + rest@.len() == given.len(),
            rich@ == given.take(rich@.len() as int),
            forall|k: int|
                0 <= k < rest@.len() ==> #[trigger] rest@[k] == given[given.len() - 1 - k],
        decreases rich@.len(),
    {
        let ghost n = rich@.len();
        if let Some(item) = rich.pop() {
            assert(item == given[n - 1]);
            rest.push(item);
            assert(rich@ =~= given.take(n - 1));
        }
    }
    let mut out = only(
        Delta {
            address: raised.address,
            kind: raised.kind,
            fidelity: Fidelity::Rich,
            before: raised.before,
            after: raised.after,
            lines: raised.lines,
            package: raised.package,
            summary: raised.summary,
        },
    );
    assert(delta_views(out@) =~= first + all.take(0));
    while rest.len() > 0
        invariant
            rest@.len() <= given.len(),
            all == refined(path@, delta_views(given)),
            forall|k: int|
                0 <= k < rest@.len() ==> #[trigger] rest@[k] == given[given.len() - 1 - k],
            delta_views(out@) == first + all.take(given.len() - rest@.len()),
        decreases rest@.len(),
    {
        let ghost n = rest@.len();
        let ghost at = given.len() - n;
        let ghost done = delta_views(out@);
        if let Some(delta) = rest.pop() {
            assert(delta == given[at]);
            let mut address = joined(path.as_str(), " > ");
            address.push_str(delta.address.as_str());
            let address = Address::new(address.as_str());
            let delta = moved_to(delta, address);
            let ghost view = delta@;
            assert(view == all[at]);
            out.push(delta);
            assert(delta_views(out@) =~= done.push(view));
            assert(first + all.take(at + 1) =~= (first + all.take(at)).push(all[at]));
        }
    }
    assert(all.take(given.len() as int) =~= all);
    out
}

impl Ledger {
    /// The two sides to raise a document from, when both are plain files
    /// within the cap. One past the cap is journaled.
    pub fn settle_sides(
        &mut self,
        actor: &Actor,
        address: &str,
        before: Side,
        after: Side,
        at_ms: i64,
    ) -> (r: Option<(FileBlob, FileBlob)>)
        requires
            old(self).wf(),
        ensures
            final(self).wf(),
            match (before, after) {
                (Side::Blob(a), Side::Blob(b)) => r == Some((a, b)),
                _ => r is None,
            },
            final(self)@ == if before is TooLarge || after is TooLarge {
                degraded(old(self)@, actor@, Act::FileTooLarge, too_large(address@), at_ms as int)
            } else {
                old(self)@
            },
    {
        match (before, after) {
            (Side::Blob(before), Side::Blob(after)) => Some((before, after)),
            (Side::TooLarge, _) | (_, Side::TooLarge) => {
                let reference = joined(
                    address,
                    " exceeds the 8388608-byte ladder cap; kept at the binary rung",
                );
                self.append_entry(actor, Act::FileTooLarge, Some(reference), at_ms);
                None
            },
            (Side::Absent, _) | (_, Side::Absent) => None,
        }
    }

    /// Journal that a package panicked while the document's package was
    /// being looked for: the document then has none.
    pub fn settle_detection(&mut self, actor: &Actor, address: &str, panicked: bool, at_ms: i64)
        requires
            old(self).wf(),
        ensures
            final(self).wf(),
            final(self)@ == if panicked {
                degraded(
                    old(self)@,
                    actor@,
                    Act::PackageFailed,
                    package_failure(address@, None, "a package panicked during detection"@),
                    at_ms as int,
                )
            } else {
                old(self)@
            },
    {
        if panicked {
            let mut reference = joined(address, " fell_back_to=binary: ");
            reference.push_str("a package panicked during detection");
            self.append_entry(actor, Act::PackageFailed, Some(reference), at_ms);
        }
    }

    /// One side's projection, when the package gave one. A failure is
    /// journaled, so the fall to the binary rung is never silent.
    pub fn settle_projection(
        &mut self,
        actor: &Actor,
        address: &str,
        package: PackageId,
        outcome: Projected,
        at_ms: i64,
    ) -> (r: Option<String>)
        requires
            old(self).wf(),
        ensures
            final(self).wf(),
            match outcome {
                Projected::Text(text) => r == Some(text),
                _ => r is None,
            },
            final(self)@ == match projection_failure(outcome) {
                Some(reason) => degraded(
                    old(self)@,
                    actor@,
                    Act::PackageFailed,
                    package_failure(address@, Some(package@), reason),
                    at_ms as int,
                ),
                None => old(self)@,
            },
    {
        let reason = match outcome {
            Projected::Text(text) => {
                return Some(text);
            },
            Projected::Failed(reason) => reason,
            Projected::Panicked => owned("the package panicked during projection"),
        };
        let mut reference = joined(address, " ");
        reference.push_str(package.to_text().as_str());
        reference.push_str(" fell_back_to=binary: ");
        reference.push_str(reason.as_str());
        self.append_entry(actor, Act::PackageFailed, Some(reference), at_ms);
        None
    }

    /// The deltas of a document raised through its package: the differ's
    /// follow the file's own, which keeps its lines. A failing differ is
    /// journaled, and the text rung stands.
    pub fn settle_rich(
        &mut self,
        actor: &Actor,
        raised: Delta,
        package: PackageId,
        outcome: Differed,
        at_ms: i64,
    ) -> (r: Vec<Delta>)
        requires
            old(self).wf(),
        ensures
            final(self).wf(),
            delta_views(r@) == enriched(raised@, outcome),
            final(self)@ == match differ_reason(outcome) {
                Some(reason) => degraded(
                    old(self)@,
                    actor@,
                    Act::PackageFailed,
                    differ_failure(raised@.address, package@, reason),
                    at_ms as int,
                ),
                None => old(self)@,
            },
    {
        let reason = match outcome {
            Differed::Unsupported => {
                return only(raised);
            },
            Differed::Rich(rich) => {
                if rich.len() == 0 {
                    return only(raised);
                }
                return enrich(raised, rich);
            },
            Differed::Failed(reason) => reason,
            Differed::Panicked => owned("the package panicked during diffing"),
        };
        let mut reference = joined(raised.address.as_str(), " ");
        reference.push_str(package.to_text().as_str());
        reference.push_str(" fell_back_to=text: ");
        reference.push_str(reason.as_str());
        self.append_entry(actor, Act::PackageFailed, Some(reference), at_ms);
        only(raised)
    }
}

/// Whatever a differ does, the file's own delta leads, at its address and
/// with its lines: nothing the differ does not model drops out of a diff.
pub proof fn text_changes_survive_the_differ(raised: DeltaView, outcome: Differed)
    ensures
        enriched(raised, outcome).len() > 0,
        enriched(raised, outcome)[0].lines == raised.lines,
        enriched(raised, outcome)[0].address == raised.address,
        enriched(raised, outcome)[0].kind == raised.kind,
        enriched(raised, outcome)[0].before == raised.before,
        enriched(raised, outcome)[0].after == raised.after,
{
}

// ---------------------------------------------------------------------
// The text rung.

/// The text some bytes are, if they are.
pub open spec fn text_of(bytes: Seq<u8>) -> Option<Seq<char>> {
    if valid_utf8(bytes) && !decode_utf8(bytes).contains('\0') {
        Some(decode_utf8(bytes))
    } else {
        None
    }
}

/// A delta at the text rung, by the comparison of two texts.
pub open spec fn at_text(
    delta: DeltaView,
    before: Seq<char>,
    after: Seq<char>,
    package: Option<PackageView>,
) -> DeltaView {
    DeltaView {
        fidelity: Fidelity::Text,
        lines: carried_lines(line_changes(before, after)),
        package,
        ..delta
    }
}

/// The delta of a document its package projects, raised to the text rung by
/// the comparison of both sides' projections.
pub fn raise_projected(delta: Delta, before: &str, after: &str, package: PackageId) -> (r: Delta)
    ensures
        r@ == at_text(delta@, before@, after@, Some(package@)),
{
    delta.at_text_rung(diff_lines(before, after), Some(package))
}

/// The delta of a document without a package, raised to the text rung when
/// both sides are text: told by their content, not by their names. Opaque
/// bytes stay at the binary rung.
pub fn raise_plain(delta: Delta, before: &[u8], after: &[u8]) -> (r: Delta)
    ensures
        r@ == match (text_of(before@), text_of(after@)) {
            (Some(x), Some(y)) => at_text(delta@, x, y, None),
            _ => delta@,
        },
{
    match (as_text(before), as_text(after)) {
        (Some(before), Some(after)) => delta.at_text_rung(diff_lines(before, after), None),
        _ => delta,
    }
}

/// A document's projection for a read. A read has no lower rung to fall to,
/// so a package that failed or panicked is its error.
pub fn read_projected(package: PackageId, outcome: Projected) -> (r: Result<String, Error>)
    ensures
        match projection_failure(outcome) {
            None => r is Ok && outcome == Projected::Text(r->Ok_0),
            Some(reason) => r is Err && (r->Err_0)@ == (ErrorView::PackageFailed {
                package: package_label(package@),
                reason,
            }),
        },
{
    projected_read(
        package,
        match outcome {
            Projected::Text(text) => Ok(text),
            Projected::Failed(reason) => Err(reason),
            Projected::Panicked => Err(owned("the package panicked during projection")),
        },
    )
}

/// One windowed read of a document without a package: text reads as itself,
/// anything else refuses.
pub fn read_plain(path: &str, bytes: &[u8], start: usize, size: usize) -> (r: Result<
    ReadResult,
    Error,
>)
    ensures
        match text_of(bytes@) {
            Some(text) => {
                &&& r is Ok
                &&& (r->Ok_0).projected_by is None
                &&& (r->Ok_0).window.start == window_start(encode_utf8(text), start as int)
                &&& (r->Ok_0).window.end == window_end(
                    encode_utf8(text),
                    start as int,
                    size as int,
                )
                &&& (r->Ok_0).window.total == encode_utf8(text).len()
                &&& encode_utf8((r->Ok_0).content@) == encode_utf8(text).subrange(
                    (r->Ok_0).window.start as int,
                    (r->Ok_0).window.end as int,
                )
                &&& (r->Ok_0).next == if (r->Ok_0).window.end < (r->Ok_0).window.total {
                    Some((r->Ok_0).window.end)
                } else {
                    None
                }
            },
            None => r is Err && (r->Err_0)@ == ErrorView::NotText(path@),
        },
{
    match as_text(bytes) {
        Some(text) => Ok(window_text(text, start, size, None)),
        None => Err(Error::NotText(owned(path))),
    }
}

// ---------------------------------------------------------------------
// Raising one delta.

/// What came of looking for a document's package and asking it.
pub enum Claimed {
    /// No package claims the document.
    Nobody,
    /// A package panicked while it was being looked for.
    Panicked,
    /// A package claims it: what it made of either side, and what its differ
    /// made of both.
    By { package: PackageId, before: Projected, after: Projected, differed: Differed },
}

/// The ledger once one side's projection is settled.
pub open spec fn projected_ledger(
    ledger: LedgerView,
    actor: ActorView,
    address: Seq<char>,
    package: PackageView,
    outcome: Projected,
    at_ms: int,
) -> LedgerView {
    match projection_failure(outcome) {
        Some(reason) => degraded(
            ledger,
            actor,
            Act::PackageFailed,
            package_failure(address, Some(package), reason),
            at_ms,
        ),
        None => ledger,
    }
}

/// What a document whose package was looked for becomes, and what is
/// journaled on the way.
pub open spec fn raised_claimed(
    ledger: LedgerView,
    actor: ActorView,
    delta: DeltaView,
    before: FileBlob,
    after: FileBlob,
    claimed: Claimed,
    at_ms: int,
) -> (LedgerView, Seq<DeltaView>) {
    let plain = match (text_of(before.bytes@), text_of(after.bytes@)) {
        (Some(x), Some(y)) => seq![at_text(delta, x, y, None)],
        _ => seq![delta],
    };
    match claimed {
        Claimed::Nobody => (ledger, plain),
        Claimed::Panicked => (
            degraded(
                ledger,
                actor,
                Act::PackageFailed,
                package_failure(delta.address, None, "a package panicked during detection"@),
                at_ms,
            ),
            plain,
        ),
        Claimed::By { package, before: x, after: y, differed } => {
            let both = projected_ledger(
                projected_ledger(ledger, actor, delta.address, package@, x, at_ms),
                actor,
                delta.address,
                package@,
                y,
                at_ms,
            );
            match (x, y) {
                (Projected::Text(x), Projected::Text(y)) => (
                    match differ_reason(differed) {
                        Some(reason) => degraded(
                            both,
                            actor,
                            Act::PackageFailed,
                            differ_failure(delta.address, package@, reason),
                            at_ms,
                        ),
                        None => both,
                    },
                    enriched(at_text(delta, x@, y@, Some(package@)), differed),
                ),
                _ => (both, seq![delta]),
            }
        },
    }
}

/// What one listed delta becomes, and what is journaled on the way.
pub open spec fn raised(
    ledger: LedgerView,
    actor: ActorView,
    delta: DeltaView,
    mount: Option<Seq<char>>,
    before: Side,
    after: Side,
    claimed: Claimed,
    at_ms: int,
) -> (LedgerView, Seq<DeltaView>) {
    let scoped = DeltaView { address: mount_address(mount, delta.address), ..delta };
    if delta.kind != DeltaKind::Changed {
        (ledger, seq![scoped])
    } else {
        match (before, after) {
            (Side::Blob(x), Side::Blob(y)) => raised_claimed(
                ledger,
                actor,
                scoped,
                x,
                y,
                claimed,
                at_ms,
            ),
            _ => (
                if before is TooLarge || after is TooLarge {
                    degraded(ledger, actor, Act::FileTooLarge, too_large(scoped.address), at_ms)
                } else {
                    ledger
                },
                seq![scoped],
            ),
        }
    }
}

impl Ledger {
    /// Raise one listed delta as far as the ladder allows: through a
    /// package's projection when one claims the document, as plain text when
    /// both sides are text, else it stays where it arrived.
    pub fn raise(
        &mut self,
        actor: &Actor,
        delta: Delta,
        mount: &Option<String>,
        before: Side,
        after: Side,
        claimed: Claimed,
        at_ms: i64,
    ) -> (r: Vec<Delta>)
        requires
            old(self).wf(),
        ensures
            final(self).wf(),
            (final(self)@, delta_views(r@)) == raised(
                old(self)@,
                actor@,
                delta@,
                opt_text(*mount),
                before,
                after,
                claimed,
                at_ms as int,
            ),
    {
        let delta = scoped_delta(delta, mount);
        if !raises(&delta) {
            return only(delta);
        }
        let address = owned(delta.address.as_str());
        let (before, after) = match self.settle_sides(actor, address.as_str(), before, after, at_ms) {
            Some(blobs) => blobs,
            None => {
                return only(delta);
            },
        };
        match claimed {
            Claimed::Nobody => only(
                raise_plain(delta, before.bytes.as_slice(), after.bytes.as_slice()),
            ),
            Claimed::Panicked => {
                self.settle_detection(actor, address.as_str(), true, at_ms);
                only(raise_plain(delta, before.bytes.as_slice(), after.bytes.as_slice()))
            },
            Claimed::By { package, before, after, differed } => {
                let x = self.settle_projection(actor, address.as_str(), package, before, at_ms);
                let y = self.settle_projection(actor, address.as_str(), package, after, at_ms);
                match (x, y) {
                    (Some(x), Some(y)) => {
                        let raised = raise_projected(delta, x.as_str(), y.as_str(), package);
                        self.settle_rich(actor, raised, package, differed, at_ms)
                    },
                    _ => only(delta),
                }
            },
        }
    }
}

/// However far a delta is raised, the document it lists is still told: the
/// first of what it becomes is at its scoped address, of its kind, with the
/// content ids of both sides.
pub proof fn raising_keeps_the_delta(
    ledger: LedgerView,
    actor: ActorView,
    delta: DeltaView,
    mount: Option<Seq<char>>,
    before: Side,
    after: Side,
    claimed: Claimed,
    at_ms: int,
)
    ensures
        ({
            let out = raised(ledger, actor, delta, mount, before, after, claimed, at_ms).1;
            &&& out.len() > 0
            &&& out[0].address == mount_address(mount, delta.address)
            &&& out[0].kind == delta.kind
            &&& out[0].before == delta.before
            &&& out[0].after == delta.after
        }),
{
}

/// Bytes read as text exactly when they are UTF-8 without a NUL, and read as
/// the text they encode.
pub proof fn text_reads_as_itself(text: Seq<char>, bytes: Seq<u8>)
    ensures
        !text.contains('\0') ==> text_of(encode_utf8(text)) == Some(text),
        text.contains('\0') ==> text_of(encode_utf8(text)) is None,
        text_of(bytes) is Some ==> encode_utf8(text_of(bytes)->0) == bytes && !(text_of(
            bytes,
        )->0).contains('\0'),
        !valid_utf8(bytes) ==> text_of(bytes) is None,
{
    vstd::utf8::encode_utf8_valid_utf8(text);
    vstd::utf8::encode_utf8_decode_utf8(text);
    if valid_utf8(bytes) {
        vstd::utf8::decode_utf8_encode_utf8(bytes);
    }
}

/// The entries told between two ledgers: how many, and that none before them
/// changed.
pub open spec fn told_since(before: LedgerView, after: LedgerView, count: int) -> bool {
    &&& after.store == before.store
    &&& after.journal.len() == before.journal.len() + count
    &&& forall|i: int|
        0 <= i < before.journal.len() ==> #[trigger] after.journal[i] == before.journal[i]
}

/// What only one side has, or was not read, stays as the listing has it,
/// under its mount; only a file over the cap is told, once.
pub proof fn unread_sides_are_listed(
    ledger: LedgerView,
    actor: ActorView,
    delta: DeltaView,
    mount: Option<Seq<char>>,
    before: Side,
    after: Side,
    claimed: Claimed,
    at_ms: int,
)
    requires
        delta.kind != DeltaKind::Changed || !(before is Blob) || !(after is Blob),
    ensures
        ({
            let (now, out) = raised(ledger, actor, delta, mount, before, after, claimed, at_ms);
            let capped = delta.kind == DeltaKind::Changed && (before is TooLarge
                || after is TooLarge);
            let address = match mount {
                Some(name) => name + seq!['/'] + delta.address,
                None => delta.address,
            };
            &&& out.len() == 1
            &&& out[0] == DeltaView { address, ..delta }
            &&& !capped ==> now == ledger
            &&& capped ==> told_since(ledger, now, 1) && now.journal.last().act
                == Act::FileTooLarge && now.journal.last().actor_name == actor.name
                && now.journal.last().actor_kind == actor.kind && now.journal.last().at_ms == at_ms
                && now.journal.last().session is None && now.journal.last().reference == Some(
                address + " exceeds the 8388608-byte ladder cap; kept at the binary rung"@,
            )
        }),
{
    reveal_strlit("/");
    if mount is Some {
        assert(mount->0 + "/"@ + delta.address =~= mount->0 + seq!['/'] + delta.address);
    }
}

/// A changed document that no package claims is shown by its lines where both
/// sides are text, in nobody's name, and else as the listing has it; nothing
/// is told.
pub proof fn unclaimed_text_is_shown_by_lines(
    ledger: LedgerView,
    actor: ActorView,
    delta: DeltaView,
    mount: Option<Seq<char>>,
    before: FileBlob,
    after: FileBlob,
    at_ms: int,
)
    requires
        delta.kind == DeltaKind::Changed,
    ensures
        ({
            let (now, out) = raised(
                ledger,
                actor,
                delta,
                mount,
                Side::Blob(before),
                Side::Blob(after),
                Claimed::Nobody,
                at_ms,
            );
            let old_text = text_of(before.bytes@);
            let new_text = text_of(after.bytes@);
            &&& now == ledger
            &&& out.len() == 1
            &&& old_text is Some && new_text is Some ==> out[0].fidelity == Fidelity::Text
                && out[0].lines == carried_lines(line_changes(old_text->0, new_text->0))
                && out[0].package is None && out[0].summary == delta.summary
            &&& old_text is None || new_text is None ==> out[0].fidelity == delta.fidelity
                && out[0].lines == delta.lines && out[0].package == delta.package
        }),
{
}

/// A claimed document is shown by the lines of its projections, in the
/// package's name, and by what the package's differ adds; the differ alone
/// makes it rich. Each thing the package failed at is told once, and where a
/// projection failed the listing's delta stands alone.
pub proof fn claimed_documents_are_shown_by_their_package(
    ledger: LedgerView,
    actor: ActorView,
    delta: DeltaView,
    before: FileBlob,
    after: FileBlob,
    package: PackageId,
    x: Projected,
    y: Projected,
    differed: Differed,
    at_ms: int,
)
    requires
        delta.kind == DeltaKind::Changed,
    ensures
        ({
            let (now, out) = raised(
                ledger,
                actor,
                delta,
                None,
                Side::Blob(before),
                Side::Blob(after),
                Claimed::By { package, before: x, after: y, differed },
                at_ms,
            );
            let both = x is Text && y is Text;
            let failures = (if x is Text {
                0int
            } else {
                1
            }) + (if y is Text {
                0int
            } else {
                1
            }) + (if both && (differed is Failed || differed is Panicked) {
                1int
            } else {
                0
            });
            let adds: int = match differed {
                Differed::Rich(rich) => rich@.len() as int,
                _ => 0,
            };
            &&& told_since(ledger, now, failures)
            &&& forall|i: int|
                #![trigger now.journal[i]]
                ledger.journal.len() <= i < now.journal.len() ==> now.journal[i].act
                    == Act::PackageFailed && now.journal[i].actor_name == actor.name
                    && now.journal[i].actor_kind == actor.kind && now.journal[i].at_ms == at_ms
                    && now.journal[i].session is None
            &&& !both ==> out.len() == 1 && out[0] == delta
            &&& both ==> {
                &&& out.len() == 1 + adds
                &&& out[0].package == Some(package@)
                &&& out[0].lines == carried_lines(line_changes((x->Text_0)@, (y->Text_0)@))
                &&& out[0].fidelity == if adds > 0 {
                    Fidelity::Rich
                } else {
                    Fidelity::Text
                }
            }
        }),
{
    let (now, out) = raised(
        ledger,
        actor,
        delta,
        None,
        Side::Blob(before),
        Side::Blob(after),
        Claimed::By { package, before: x, after: y, differed },
        at_ms,
    );
    assert((DeltaView { address: delta.address, ..delta }) == delta);
    let first = projected_ledger(ledger, actor, delta.address, package@, x, at_ms);
    let second = projected_ledger(first, actor, delta.address, package@, y, at_ms);
    assert forall|i: int| 0 <= i < ledger.journal.len() implies #[trigger] now.journal[i]
        == ledger.journal[i] by {
        assert(first.journal[i] == ledger.journal[i]);
        assert(second.journal[i] == first.journal[i]);
    }
    assert forall|i: int|
        #![trigger now.journal[i]]
        ledger.journal.len() <= i < now.journal.len() implies now.journal[i].act
        == Act::PackageFailed && now.journal[i].actor_name == actor.name
        && now.journal[i].actor_kind == actor.kind && now.journal[i].at_ms == at_ms
        && now.journal[i].session is None by {
        if i < second.journal.len() {
            assert(now.journal[i] == second.journal[i]);
            if i < first.journal.len() {
                assert(second.journal[i] == first.journal[i]);
            }
        }
    }
}

/// What a differ adds stands below the document, each under its address, and
/// is otherwise as the differ gave it.
pub proof fn rich_deltas_stand_below(shown: DeltaView, rich: Vec<Delta>, i: int)
    requires
        0 <= i < rich@.len(),
    ensures
        ({
            let out = enriched(shown, Differed::Rich(rich));
            &&& out.len() == rich@.len() + 1
            &&& out[i + 1] == (DeltaView {
                address: shown.address + " > "@ + delta_views(rich@)[i].address,
                ..delta_views(rich@)[i]
            })
            &&& out[0] == (DeltaView { fidelity: Fidelity::Rich, ..shown })
        }),
{
}

/// What is told of a package that failed names the document, the package
/// where it is known, the rung it fell back to, and the reason.
pub proof fn failures_name_their_package(
    address: Seq<char>,
    package: PackageView,
    reason: Seq<char>,
)
    ensures
        package_failure(address, Some(package), reason) == address + " "@ + package.name
            + seq!['@'] + package.version + " fell_back_to=binary: "@ + reason,
        package_failure(address, None, reason) == address + " fell_back_to=binary: "@ + reason,
        differ_failure(address, package, reason) == address + " "@ + package.name + seq!['@']
            + package.version + " fell_back_to=text: "@ + reason,
{
    let label = package.name + seq!['@'] + package.version;
    assert(address + " "@ + label =~= address + " "@ + package.name + seq!['@']
        + package.version);
}

/// A package that panicked while documents were looked for leaves the
/// document to its text, and is told once, unnamed.
pub proof fn panicked_detection_is_told(
    ledger: LedgerView,
    actor: ActorView,
    delta: DeltaView,
    before: FileBlob,
    after: FileBlob,
    at_ms: int,
)
    requires
        delta.kind == DeltaKind::Changed,
    ensures
        ({
            let x = Side::Blob(before);
            let y = Side::Blob(after);
            let (now, out) = raised(ledger, actor, delta, None, x, y, Claimed::Panicked, at_ms);
            &&& told_since(ledger, now, 1)
            &&& now.journal.last().act == Act::PackageFailed
            &&& now.journal.last().reference == Some(
                delta.address + " fell_back_to=binary: "@
                    + "a package panicked during detection"@,
            )
            &&& out == raised(ledger, actor, delta, None, x, y, Claimed::Nobody, at_ms).1
        }),
{
}

} // verus!
