//! The format-independent diff model: addressed deltas, each carried at a
//! rung of the fidelity ladder.

use crate::package::{PackageId, PackageView, opt_package};
use crate::words::{opt_text, owned};
use vstd::prelude::*;

verus! {

/// The rung a delta is carried at: the format-independent fidelity ladder.
#[derive(Debug, Clone, Copy, PartialEq, Eq, Structural)]
pub enum Fidelity {
    /// The floor: changed-or-not over opaque bytes. Every document diffs
    /// at least here.
    Binary,
    /// A line diff over projected or plain text.
    Text,
    /// A delta in the format's own terms, produced by a package differ.
    Rich,
}

/// What kind of change one [`Delta`] records.
///
/// `Moved` is part of the model but is never produced at the binary rung:
/// rename detection belongs to the engine, not to a content-id comparison.
#[derive(Debug, Clone, Copy, PartialEq, Eq, Structural)]
pub enum DeltaKind {
    /// The address exists only on the after side.
    Added,
    /// The address exists only on the before side.
    Removed,
    /// The address exists on both sides with different content.
    Changed,
    /// The content moved to a new address.
    Moved,
}

/// Where a delta lands, in the format's own terms: a workspace-relative
/// path at the binary rung.
#[derive(Debug, Clone, PartialEq, Eq, PartialOrd, Ord)]
pub struct Address(pub String);

impl View for Address {
    type V = Seq<char>;

    open spec fn view(&self) -> Seq<char> {
        self.0@
    }
}

impl Address {
    /// An address from a workspace-relative path or format-native locator.
    pub fn new(path: &str) -> (r: Self)
        ensures
            r@ == path@,
    {
        Address(owned(path))
    }

    /// The address as its underlying string.
    #[must_use]
    pub fn as_str(&self) -> (r: &str)
        ensures
            r@ == self@,
    {
        self.0.as_str()
    }
}

/// What happened to one line at the text rung.
#[derive(Debug, Clone, Copy, PartialEq, Eq, Structural)]
pub enum LineKind {
    /// The line exists only on the after side.
    Added,
    /// The line exists only on the before side.
    Removed,
    /// The synthetic marker after a changed line with no trailing newline:
    /// its own kind, so document content that happens to contain the
    /// marker text can never be mistaken for it.
    NoNewline,
}

/// One line of a text-rung comparison: what happened and the line's content.
#[derive(Debug, Clone, PartialEq, Eq)]
pub struct Line {
    /// What happened to the line.
    pub kind: LineKind,
    /// The line's content, without its trailing newline.
    pub text: String,
}

/// What a [`Line`] says.
pub struct LineView {
    pub kind: LineKind,
    pub text: Seq<char>,
}

impl View for Line {
    type V = LineView;

    open spec fn view(&self) -> LineView {
        LineView { kind: self.kind, text: self.text@ }
    }
}

/// What each of the lines says, in order.
pub open spec fn line_views(lines: Seq<Line>) -> Seq<LineView> {
    lines.map_values(|line: Line| line@)
}

/// One addressed difference inside a [`Diff`], carried at its own rung.
///
/// `before` and `after` hold content ids, not content: the identity of the
/// bytes on each side, absent when the side does not exist. `lines` carries
/// the text-rung comparison and is empty at the binary rung. `package`
/// names the format package whose projection or differ produced the delta
/// and is `None` at rungs no package produced. `summary` is a rich delta's
/// difference in the format's own terms, and `None` below the rich rung.
#[derive(Debug, Clone, PartialEq, Eq)]
pub struct Delta {
    /// Where the delta lands, in the format's own terms.
    pub address: Address,
    /// What kind of change the delta records.
    pub kind: DeltaKind,
    /// The rung the delta is carried at.
    pub fidelity: Fidelity,
    /// The content id of the before side; `None` when the side does not exist.
    pub before: Option<String>,
    /// The content id of the after side; `None` when the side does not exist.
    pub after: Option<String>,
    /// The text-rung line comparison; empty at the binary rung.
    pub lines: Vec<Line>,
    /// The package whose projection or differ produced the delta; `None`
    /// at rungs no package produced.
    pub package: Option<PackageId>,
    /// A rich delta's difference in the format's own terms; `None` below
    /// the rich rung.
    pub summary: Option<String>,
}

/// What a [`Delta`] says.
pub struct DeltaView {
    pub address: Seq<char>,
    pub kind: DeltaKind,
    pub fidelity: Fidelity,
    pub before: Option<Seq<char>>,
    pub after: Option<Seq<char>>,
    pub lines: Seq<LineView>,
    pub package: Option<PackageView>,
    pub summary: Option<Seq<char>>,
}

impl View for Delta {
    type V = DeltaView;

    open spec fn view(&self) -> DeltaView {
        DeltaView {
            address: self.address@,
            kind: self.kind,
            fidelity: self.fidelity,
            before: opt_text(self.before),
            after: opt_text(self.after),
            lines: line_views(self.lines@),
            package: opt_package(self.package),
            summary: opt_text(self.summary),
        }
    }
}

impl Delta {
    /// This delta raised to the text rung, carrying its line comparison and
    /// the package that projected the compared text (`None` for plain text).
    #[must_use]
    pub fn at_text_rung(self, lines: Vec<Line>, package: Option<PackageId>) -> (r: Self)
        ensures
            r@ == (DeltaView {
                fidelity: Fidelity::Text,
                lines: line_views(lines@),
                package: opt_package(package),
                ..self@
            }),
    {
        Delta {
            address: self.address,
            kind: self.kind,
            fidelity: Fidelity::Text,
            before: self.before,
            after: self.after,
            lines,
            package,
            summary: self.summary,
        }
    }

    /// A rich-rung delta a format package produced: addressed in the
    /// format's own terms, its difference described by `summary`.
    #[must_use]
    pub fn rich(address: Address, summary: &str, package: PackageId) -> (r: Self)
        ensures
            r@ == (DeltaView {
                address: address@,
                kind: DeltaKind::Changed,
                fidelity: Fidelity::Rich,
                before: None,
                after: None,
                lines: Seq::empty(),
                package: Some(package@),
                summary: Some(summary@),
            }),
    {
        let r = Delta {
            address,
            kind: DeltaKind::Changed,
            fidelity: Fidelity::Rich,
            before: None,
            after: None,
            lines: Vec::new(),
            package: Some(package),
            summary: Some(owned(summary)),
        };
        assert(r@.lines =~= Seq::<LineView>::empty());
        r
    }
}

/// The differences between two versions: addressed deltas, each carried at
/// the highest fidelity the ladder could raise it to.
#[derive(Debug, Clone, PartialEq, Eq)]
pub struct Diff {
    /// The addressed deltas, one per changed address.
    pub deltas: Vec<Delta>,
}

impl View for Diff {
    type V = Seq<DeltaView>;

    open spec fn view(&self) -> Seq<DeltaView> {
        delta_views(self.deltas@)
    }
}

/// What each of the deltas says, in order.
pub open spec fn delta_views(deltas: Seq<Delta>) -> Seq<DeltaView> {
    deltas.map_values(|delta: Delta| delta@)
}

} // verus!
