//! Format packages: one format's support each, and the rule that picks the
//! package a document belongs to.

use crate::model::Delta;
use crate::words::{comes_before, joined, lex_lt, lex_total, lex_transitive, same};
use vstd::prelude::*;

verus! {

/// The identity of a format package: its name plus semver version.
///
/// Determinism is contract: outputs carry this id and caches key on it, so
/// a version bump is a new projection.
#[derive(Debug, Clone, Copy, PartialEq, Eq, Hash)]
pub struct PackageId {
    pub name: &'static str,
    pub version: &'static str,
}

/// What a [`PackageId`] says.
pub struct PackageView {
    pub name: Seq<char>,
    pub version: Seq<char>,
}

impl View for PackageId {
    type V = PackageView;

    open spec fn view(&self) -> PackageView {
        PackageView { name: self.name@, version: self.version@ }
    }
}

/// What an optional package id says.
pub open spec fn opt_package(package: Option<PackageId>) -> Option<PackageView> {
    match package {
        Some(package) => Some(package@),
        None => None,
    }
}

/// A package id as printed: `name@version`.
pub open spec fn package_label(package: PackageView) -> Seq<char> {
    package.name + seq!['@'] + package.version
}

impl PackageId {
    /// The id as printed: `name@version`.
    #[must_use]
    pub fn to_text(&self) -> (r: String)
        ensures
            r@ == package_label(self@),
    {
        let mut out = joined(self.name, "@");
        out.push_str(self.version);
        proof {
            reveal_strlit("@");
            assert("@"@ =~= seq!['@']);
        }
        out
    }
}

/// A deterministic text rendering of a document, stamped with the package
/// that produced it. The original document is always kept.
#[derive(Debug, Clone, PartialEq, Eq)]
pub struct Projection {
    pub package: PackageId,
    pub text: String,
}

/// Why a package could not handle a document it detected.
#[derive(Debug, Clone)]
pub struct PackageError {
    pub package: PackageId,
    pub reason: String,
}

impl PackageError {
    /// The error as printed: `name@version: reason`.
    #[must_use]
    pub fn message(&self) -> (r: String)
        ensures
            r@ == package_label(self.package@) + ": "@ + self.reason@,
    {
        let mut out = self.package.to_text();
        out.push_str(": ");
        out.push_str(self.reason.as_str());
        out
    }
}

/// How strongly a package claims a document: by its path alone, or by its
/// content.
///
/// When several packages claim the same document, the highest confidence
/// wins and ties break by package id: selection never depends on registry
/// construction order.
#[derive(Debug, Clone, Copy, PartialEq, Eq, PartialOrd, Ord, Structural)]
pub enum Confidence {
    /// The path matches the format's naming convention; the content was
    /// not examined.
    Extension,
    /// The content itself was verified: magic bytes or structure.
    Content,
}

/// The strength of a claim.
pub open spec fn strength(confidence: Confidence) -> int {
    match confidence {
        Confidence::Extension => 0,
        Confidence::Content => 1,
    }
}

/// One format's support, shipped as its own versioned unit.
///
/// A package never gates a diff: when it is absent or fails, fidelity drops
/// to the text or binary rung instead. Determinism is contract: the same
/// bytes under the same package version must produce the same projection
/// and the same diff.
pub trait FormatPackage {
    /// The identity [`FormatPackage::id`] gives: some identity, unless a
    /// package says which.
    closed spec fn identity(&self) -> PackageView {
        arbitrary()
    }

    /// The claim [`FormatPackage::detect`] makes: some claim, unless a
    /// package says which.
    closed spec fn claim(&self, path: Seq<char>, bytes: Seq<u8>) -> Option<Confidence> {
        arbitrary()
    }

    /// The package's stable identity.
    fn id(&self) -> (r: PackageId)
        ensures
            r@ == self.identity(),
    ;

    /// How confidently this package claims the document at `path` with
    /// these bytes; `None` when it does not handle the document.
    fn detect(&self, path: &str, bytes: &[u8]) -> (r: Option<Confidence>)
        ensures
            r == self.claim(path@, bytes@),
    ;

    /// Render the document to its text projection.
    fn project(&self, bytes: &[u8]) -> (r: Result<Projection, PackageError>);

    /// The rich diff in the format's own terms, or `None` while the package
    /// ships no differ: the ladder then falls back to projected text.
    fn diff(&self, _before: &[u8], _after: &[u8]) -> (r: Option<Result<Vec<Delta>, PackageError>>)
        default_ensures
            r is None,
    {
        None
    }
}

/// The tie-break order between equally confident packages: by name, then
/// by version.
pub open spec fn id_precedes(a: PackageView, b: PackageView) -> bool {
    lex_lt(a.name, b.name) || (a.name == b.name && lex_lt(a.version, b.version))
}

/// Whether a claim beats another: more confident, or equally confident and
/// first by package id.
pub open spec fn beats(a: Confidence, a_id: PackageView, b: Confidence, b_id: PackageView) -> bool {
    strength(a) > strength(b) || (a == b && id_precedes(a_id, b_id))
}

/// The tie-break order between equally confident packages.
fn precedes(candidate: PackageId, incumbent: PackageId) -> (r: bool)
    ensures
        r == id_precedes(candidate@, incumbent@),
{
    if same(candidate.name, incumbent.name) {
        proof {
            crate::words::lex_irreflexive(candidate.name@);
        }
        comes_before(candidate.version, incumbent.version)
    } else {
        comes_before(candidate.name, incumbent.name)
    }
}

/// One package's answer to whether it handles a document.
#[derive(Debug, Clone, Copy, PartialEq, Eq)]
pub struct Claim {
    pub package: PackageId,
    /// How confidently it claims the document; none when it does not.
    pub confidence: Option<Confidence>,
}

/// What each of the answers says, in order.
pub open spec fn claim_views(claims: Seq<Claim>) -> Seq<(PackageView, Option<Confidence>)> {
    claims.map_values(|claim: Claim| (claim.package@, claim.confidence))
}

/// Whether the answer at `i` is picked: it claims the document, no other
/// claim beats it, and it beats every claim before it.
pub open spec fn is_best(claims: Seq<(PackageView, Option<Confidence>)>, i: int) -> bool {
    &&& 0 <= i < claims.len()
    &&& claims[i].1 is Some
    &&& forall|j: int|
        #![trigger claims[j]]
        0 <= j < claims.len() && claims[j].1 is Some ==> !beats(
            claims[j].1->0,
            claims[j].0,
            claims[i].1->0,
            claims[i].0,
        )
    &&& forall|j: int|
        #![trigger claims[j]]
        0 <= j < i && claims[j].1 is Some ==> beats(
            claims[i].1->0,
            claims[i].0,
            claims[j].1->0,
            claims[j].0,
        )
}

/// Whether no package claims the document.
pub open spec fn none_claims(claims: Seq<(PackageView, Option<Confidence>)>) -> bool {
    forall|i: int| 0 <= i < claims.len() ==> (#[trigger] claims[i]).1 is None
}

/// Which of the answers is picked: the most confident claim; equal ones
/// break by package id, so the pick does not depend on the order of the
/// answers.
pub fn best_claim(claims: &Vec<Claim>) -> (r: Option<usize>)
    ensures
        r is None <==> none_claims(claim_views(claims@)),
        r is Some ==> is_best(claim_views(claims@), r->0 as int),
{
    let ghost all = claim_views(claims@);
    let mut best: Option<usize> = None;
    let mut i: usize = 0;
    while i < claims.len()
        invariant
            i <= claims@.len(),
            all == claim_views(claims@),
            best is None ==> none_claims(all.take(i as int)),
            best is Some ==> best->0 < i && is_best(all.take(i as int), best->0 as int),
        decreases claims@.len() - i,
    {
        let ghost seen = all.take(i as int);
        let ghost next = all.take(i + 1);
        proof {
            assert(all[i as int] == (claims@[i as int].package@, claims@[i as int].confidence));
            assert(next[i as int] == all[i as int]);
            assert forall|j: int| 0 <= j < i implies next[j] == #[trigger] seen[j] by {}
        }
        if let Some(confidence) = claims[i].confidence {
            let package = claims[i].package;
            let replaces = match best {
                None => true,
                Some(held) => match claims[held].confidence {
                    None => true,
                    Some(incumbent) => {
                        let stronger = match (confidence, incumbent) {
                            (Confidence::Content, Confidence::Extension) => true,
                            _ => false,
                        };
                        stronger || (confidence == incumbent && precedes(
                            package,
                            claims[held].package,
                        ))
                    },
                },
            };
            proof {
                beats_irreflexive(confidence, package@);
                if best is Some {
                    let held = best->0 as int;
                    assert(seen[held] == all[held]);
                    assert(replaces == beats(confidence, package@, all[held].1->0, all[held].0));
                    if replaces {
                        assert forall|j: int|
                            #![trigger next[j]]
                            0 <= j < i && next[j].1 is Some implies beats(
                            confidence,
                            package@,
                            next[j].1->0,
                            next[j].0,
                        ) && !beats(next[j].1->0, next[j].0, confidence, package@) by {
                            assert(next[j] == seen[j]);
                            best_beats_all(seen, held, j, confidence, package@);
                        }
                    } else {
                        assert forall|j: int|
                            #![trigger next[j]]
                            0 <= j < next.len() && next[j].1 is Some implies !beats(
                            next[j].1->0,
                            next[j].0,
                            next[held].1->0,
                            next[held].0,
                        ) by {
                            if j < i {
                                assert(next[j] == seen[j]);
                            }
                        }
                        assert forall|j: int|
                            #![trigger next[j]]
                            0 <= j < held && next[j].1 is Some implies beats(
                            next[held].1->0,
                            next[held].0,
                            next[j].1->0,
                            next[j].0,
                        ) by {
                            assert(next[j] == seen[j]);
                        }
                    }
                } else {
                    assert forall|j: int| 0 <= j < i implies (#[trigger] next[j]).1 is None by {
                        assert(next[j] == seen[j]);
                    }
                }
            }
            if replaces {
                best = Some(i);
            }
        } else {
            proof {
                if best is Some {
                    let held = best->0 as int;
                    assert forall|j: int|
                        #![trigger next[j]]
                        0 <= j < next.len() && next[j].1 is Some implies !beats(
                        next[j].1->0,
                        next[j].0,
                        next[held].1->0,
                        next[held].0,
                    ) by {
                        assert(next[j] == seen[j]);
                    }
                    assert forall|j: int|
                        #![trigger next[j]]
                        0 <= j < held && next[j].1 is Some implies beats(
                        next[held].1->0,
                        next[held].0,
                        next[j].1->0,
                        next[j].0,
                    ) by {
                        assert(next[j] == seen[j]);
                    }
                } else {
                    assert forall|j: int| 0 <= j < next.len() implies (#[trigger] next[j]).1
                        is None by {
                        if j < i {
                            assert(next[j] == seen[j]);
                        }
                    }
                }
            }
        }
        i = i + 1;
    }
    assert(all.take(all.len() as int) =~= all);
    best
}

/// What the packages answer for a document.
pub open spec fn claims_of(
    packages: Seq<Box<dyn FormatPackage>>,
    path: Seq<char>,
    bytes: Seq<u8>,
) -> Seq<(PackageView, Option<Confidence>)> {
    packages.map_values(
        |package: Box<dyn FormatPackage>| (package.identity(), package.claim(path, bytes)),
    )
}

/// The package that claims the document most confidently; equal claims
/// break by package id, so selection is deterministic whatever order the
/// registry was built in.
pub fn detect_package<'a>(
    packages: &'a [Box<dyn FormatPackage>],
    path: &str,
    bytes: &[u8],
) -> (r: Option<&'a Box<dyn FormatPackage>>)
    ensures
        r is None <==> none_claims(claims_of(packages@, path@, bytes@)),
        r is Some ==> exists|i: int| #[trigger]
            is_best(claims_of(packages@, path@, bytes@), i) && *(r->0) == packages@[i],
{
    let ghost all = claims_of(packages@, path@, bytes@);
    let mut claims: Vec<Claim> = Vec::new();
    let mut i: usize = 0;
    assert(claim_views(claims@) =~= all.take(0));
    while i < packages.len()
        invariant
            i <= packages@.len(),
            all == claims_of(packages@, path@, bytes@),
            claim_views(claims@) == all.take(i as int),
        decreases packages@.len() - i,
    {
        let ghost seen = claim_views(claims@);
        let package: &'a Box<dyn FormatPackage> = &packages[i];
        let claim = Claim { package: package.id(), confidence: package.detect(path, bytes) };
        assert((claim.package@, claim.confidence) == all[i as int]);
        claims.push(claim);
        assert(claim_views(claims@) =~= seen.push(all[i as int]));
        assert(all.take(i + 1) =~= all.take(i as int).push(all[i as int]));
        i = i + 1;
    }
    assert(all.take(all.len() as int) =~= all);
    match best_claim(&claims) {
        Some(best) => {
            assert(is_best(all, best as int));
            Some(&packages[best])
        },
        None => None,
    }
}

/// A claim that beats the best one beats every claim.
proof fn best_beats_all(
    claims: Seq<(PackageView, Option<Confidence>)>,
    best: int,
    j: int,
    confidence: Confidence,
    id: PackageView,
)
    requires
        is_best(claims, best),
        0 <= j < claims.len(),
        claims[j].1 is Some,
        beats(confidence, id, claims[best].1->0, claims[best].0),
    ensures
        beats(confidence, id, claims[j].1->0, claims[j].0),
        !beats(claims[j].1->0, claims[j].0, confidence, id),
{
    let held = claims[best];
    let other = claims[j];
    lex_total(held.0.name, other.0.name);
    lex_total(held.0.version, other.0.version);
    if beats(held.1->0, held.0, other.1->0, other.0) {
        beats_transitive(confidence, id, held.1->0, held.0, other.1->0, other.0);
    } else {
        assert(held.1->0 == other.1->0);
        assert(held.0 == other.0);
    }
    if beats(other.1->0, other.0, confidence, id) {
        beats_transitive(other.1->0, other.0, confidence, id, held.1->0, held.0);
    }
}

proof fn beats_irreflexive(c: Confidence, id: PackageView)
    ensures
        !beats(c, id, c, id),
{
    crate::words::lex_irreflexive(id.name);
    crate::words::lex_irreflexive(id.version);
}

proof fn beats_transitive(
    a: Confidence,
    a_id: PackageView,
    b: Confidence,
    b_id: PackageView,
    c: Confidence,
    c_id: PackageView,
)
    requires
        beats(a, a_id, b, b_id),
        beats(b, b_id, c, c_id),
    ensures
        beats(a, a_id, c, c_id),
{
    if a == b && b == c {
        if lex_lt(a_id.name, b_id.name) && lex_lt(b_id.name, c_id.name) {
            lex_transitive(a_id.name, b_id.name, c_id.name);
        }
        if lex_lt(a_id.version, b_id.version) && lex_lt(b_id.version, c_id.version) {
            lex_transitive(a_id.version, b_id.version, c_id.version);
        }
    }
}

/// Detection is independent of the registry's order: two registries whose
/// packages give the same answers pick packages of the same identity and
/// claim.
pub proof fn detection_ignores_registry_order(
    a: Seq<(PackageView, Option<Confidence>)>,
    b: Seq<(PackageView, Option<Confidence>)>,
    i: int,
    j: int,
)
    requires
        forall|answer: (PackageView, Option<Confidence>)| #[trigger]
            a.contains(answer) <==> b.contains(answer),
        is_best(a, i),
        is_best(b, j),
    ensures
        a[i] == b[j],
{
    assert(a.contains(a[i]));
    assert(b.contains(b[j]));
    assert(b.contains(a[i]));
    assert(a.contains(b[j]));
    let y = choose|y: int| 0 <= y < b.len() && b[y] == a[i];
    let x = choose|x: int| 0 <= x < a.len() && a[x] == b[j];
    assert(!beats(b[y].1->0, b[y].0, b[j].1->0, b[j].0));
    assert(!beats(a[x].1->0, a[x].0, a[i].1->0, a[i].0));
    lex_total(a[i].0.name, b[j].0.name);
    lex_total(a[i].0.version, b[j].0.version);
    assert(a[i].0 == b[j].0);
}

/// At most one answer is picked.
pub proof fn one_best_claim(claims: Seq<(PackageView, Option<Confidence>)>, i: int, j: int)
    requires
        is_best(claims, i),
        is_best(claims, j),
    ensures
        i == j,
{
    if i < j {
        assert(claims[i].1 is Some);
    } else if j < i {
        assert(claims[j].1 is Some);
    }
}

/// A claim by content beats any by extension; among equals the package that
/// comes first by name, then by version, wins, and no claim beats itself.
pub proof fn content_beats_extension(a: PackageView, b: PackageView, how: Confidence)
    ensures
        beats(Confidence::Content, a, Confidence::Extension, b),
        !beats(Confidence::Extension, a, Confidence::Content, b),
        lex_lt(a.name, b.name) ==> beats(how, a, how, b),
        a.name == b.name && lex_lt(a.version, b.version) ==> beats(how, a, how, b),
        !beats(how, a, how, a),
{
    crate::words::lex_irreflexive(a.name);
    crate::words::lex_irreflexive(a.version);
}

/// The best claim is by content wherever any is.
pub proof fn content_is_found_first(
    claims: Seq<(PackageView, Option<Confidence>)>,
    i: int,
    j: int,
)
    requires
        is_best(claims, i),
        0 <= j < claims.len(),
        claims[j].1 == Some(Confidence::Content),
    ensures
        claims[i].1 == Some(Confidence::Content),
        !lex_lt(claims[j].0.name, claims[i].0.name),
{
    content_beats_extension(claims[j].0, claims[i].0, Confidence::Content);
    assert(!beats(claims[j].1->0, claims[j].0, claims[i].1->0, claims[i].0));
}

/// A lone claim is the best, and a package that does not claim never is.
pub proof fn lone_claims_win(claims: Seq<(PackageView, Option<Confidence>)>, i: int)
    requires
        0 <= i < claims.len(),
        forall|j: int|
            #![trigger claims[j]]
            0 <= j < claims.len() && j != i ==> claims[j].1 is None,
    ensures
        is_best(claims, i) <==> claims[i].1 is Some,
        none_claims(claims) <==> claims[i].1 is None,
{
    if claims[i].1 is Some {
        content_beats_extension(claims[i].0, claims[i].0, claims[i].1->0);
    }
}

} // verus!
