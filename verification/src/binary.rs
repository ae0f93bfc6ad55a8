//! The binary rung: file listings compared by content id alone.

use crate::model::{Address, Delta, DeltaKind, DeltaView, Diff, Fidelity, LineView, delta_views};
use crate::table::Table;
use crate::words::{comes_before, lex_asymmetric, lex_lt, lex_total, lex_transitive, opt_text, owned, same};
use vstd::prelude::*;

verus! {

/// A file listing: each workspace-relative path with the content id of the
/// bytes at that path.
pub type Listing = Table<String>;

/// The content id a listing gives `path`, when it lists it.
pub open spec fn listed(listing: Listing, path: Seq<char>) -> Option<Seq<char>> {
    if listing@.dom().contains(path) {
        Some(listing@[path]@)
    } else {
        None
    }
}

/// The binary-rung delta of a path whose content id is `before` on one side
/// and `after` on the other.
pub open spec fn binary_delta(
    path: Seq<char>,
    before: Option<Seq<char>>,
    after: Option<Seq<char>>,
) -> DeltaView {
    DeltaView {
        address: path,
        kind: if before is None {
            DeltaKind::Added
        } else if after is None {
            DeltaKind::Removed
        } else {
            DeltaKind::Changed
        },
        fidelity: Fidelity::Binary,
        before,
        after,
        lines: Seq::empty(),
        package: None,
        summary: None,
    }
}

/// Whether `deltas` is the difference of the two listings: one binary delta
/// for each path whose content id differs, in the order of the paths.
pub open spec fn is_listing_diff(before: Listing, after: Listing, deltas: Seq<DeltaView>) -> bool {
    &&& forall|i: int, j: int|
        #![trigger deltas[i], deltas[j]]
        0 <= i < j < deltas.len() ==> lex_lt(deltas[i].address, deltas[j].address)
    &&& forall|i: int|
        #![trigger deltas[i]]
        0 <= i < deltas.len() ==> {
            let path = deltas[i].address;
            listed(before, path) != listed(after, path) && deltas[i] == binary_delta(
                path,
                listed(before, path),
                listed(after, path),
            )
        }
    &&& forall|path: Seq<char>|
        #![trigger listed(before, path)]
        #![trigger listed(after, path)]
        listed(before, path) != listed(after, path) ==> addressed(deltas, path)
}

/// Whether one of the deltas has the address `path`.
pub open spec fn addressed(deltas: Seq<DeltaView>, path: Seq<char>) -> bool {
    exists|i: int| #![trigger deltas[i]] 0 <= i < deltas.len() && deltas[i].address == path
}

/// One binary-rung delta.
fn delta_of(path: &str, before: Option<&String>, after: Option<&String>) -> (r: Delta)
    requires
        before is Some || after is Some,
    ensures
        r@ == binary_delta(
            path@,
            match before {
                Some(id) => Some(id@),
                None => None,
            },
            match after {
                Some(id) => Some(id@),
                None => None,
            },
        ),
{
    let kind = match (before, after) {
        (None, _) => DeltaKind::Added,
        (Some(_), None) => DeltaKind::Removed,
        (Some(_), Some(_)) => DeltaKind::Changed,
    };
    let r = Delta {
        address: Address::new(path),
        kind,
        fidelity: Fidelity::Binary,
        before: match before {
            Some(id) => Some(owned(id.as_str())),
            None => None,
        },
        after: match after {
            Some(id) => Some(owned(id.as_str())),
            None => None,
        },
        lines: Vec::new(),
        package: None,
        summary: None,
    };
    assert(r@.lines =~= Seq::<LineView>::empty());
    r
}

/// Whether `path` stands among the first `n` paths of the listing.
spec fn met(listing: Listing, n: int, path: Seq<char>) -> bool {
    exists|i: int| #![trigger listing.order()[i]] 0 <= i < n && listing.order()[i].0 == path
}

/// What holds once the first `i` paths of `before` and the first `j` of
/// `after` have been compared.
spec fn compared(before: Listing, after: Listing, i: int, j: int, deltas: Seq<DeltaView>) -> bool {
    let b = before.order();
    let a = after.order();
    &&& before.wf()
    &&& after.wf()
    &&& 0 <= i <= b.len()
    &&& 0 <= j <= a.len()
    &&& forall|x: int| #![trigger b[x]] 0 <= x < i && j < a.len() ==> lex_lt(b[x].0, a[j].0)
    &&& forall|y: int| #![trigger a[y]] 0 <= y < j && i < b.len() ==> lex_lt(a[y].0, b[i].0)
    &&& forall|x: int, y: int|
        #![trigger deltas[x], deltas[y]]
        0 <= x < y < deltas.len() ==> lex_lt(deltas[x].address, deltas[y].address)
    &&& forall|x: int|
        #![trigger deltas[x]]
        0 <= x < deltas.len() ==> {
            let path = deltas[x].address;
            &&& met(before, i, path) || met(after, j, path)
            &&& listed(before, path) != listed(after, path)
            &&& deltas[x] == binary_delta(path, listed(before, path), listed(after, path))
        }
    &&& forall|path: Seq<char>|
        #![trigger listed(before, path)]
        #![trigger listed(after, path)]
        (met(before, i, path) || met(after, j, path)) && listed(before, path) != listed(after, path)
            ==> addressed(deltas, path)
}

/// Every path met comes before a path that comes after both last ones met.
proof fn met_precede(before: Listing, after: Listing, i: int, j: int, deltas: Seq<DeltaView>, next: Seq<char>)
    requires
        compared(before, after, i, j, deltas),
        i < before.order().len() ==> next == before.order()[i].0 || lex_lt(
            next,
            before.order()[i].0,
        ),
        j < after.order().len() ==> next == after.order()[j].0 || lex_lt(next, after.order()[j].0),
        (i < before.order().len() && next == before.order()[i].0) || (j < after.order().len()
            && next == after.order()[j].0),
    ensures
        forall|path: Seq<char>| met(before, i, path) || met(after, j, path) ==> lex_lt(path, next),
{
    let b = before.order();
    let a = after.order();
    assert forall|path: Seq<char>| met(before, i, path) || met(after, j, path) implies lex_lt(
        path,
        next,
    ) by {
        if met(before, i, path) {
            let x = choose|x: int| #![trigger before.order()[x]] 0 <= x < i && before.order()[x].0
                == path;
            if i < b.len() && next == b[i].0 {
                assert(lex_lt(b[x].0, b[i].0));
            } else {
                assert(lex_lt(b[x].0, a[j].0));
            }
        } else {
            let y = choose|y: int| #![trigger after.order()[y]] 0 <= y < j && after.order()[y].0
                == path;
            if j < a.len() && next == a[j].0 {
                assert(lex_lt(a[y].0, a[j].0));
            } else {
                assert(lex_lt(a[y].0, b[i].0));
            }
        }
    }
}

/// What a listing says of a path it has at one of its indices.
proof fn listed_at(listing: Listing, i: int)
    requires
        listing.wf(),
        0 <= i < listing.order().len(),
    ensures
        listed(listing, listing.order()[i].0) == Some(listing.order()[i].1@),
{
    listing.slot_is(listing.order()[i].0, i);
}

/// A path between two neighbouring paths of a listing is not listed.
proof fn not_listed(listing: Listing, i: int, path: Seq<char>)
    requires
        listing.wf(),
        0 <= i <= listing.order().len(),
        forall|x: int| #![trigger listing.order()[x]] 0 <= x < i ==> lex_lt(
            listing.order()[x].0,
            path,
        ),
        i < listing.order().len() ==> lex_lt(path, listing.order()[i].0),
    ensures
        listed(listing, path) is None,
{
    if listing.has(path) {
        let x = listing.slot(path);
        if x < i {
            lex_asymmetric(listing.order()[x].0, path);
        } else {
            if x > i {
                lex_transitive(path, listing.order()[i].0, listing.order()[x].0);
            }
            lex_asymmetric(path, listing.order()[x].0);
        }
    }
}

/// One comparison step: the path `next` joins the paths met.
proof fn step(
    before: Listing,
    after: Listing,
    i: int,
    j: int,
    i2: int,
    j2: int,
    deltas: Seq<DeltaView>,
    next: Seq<char>,
    grown: Seq<DeltaView>,
)
    requires
        compared(before, after, i, j, deltas),
        i <= i2 <= i + 1,
        j <= j2 <= j + 1,
        i2 <= before.order().len(),
        j2 <= after.order().len(),
        i < i2 || j < j2,
        i < i2 ==> before.order()[i].0 == next,
        j < j2 ==> after.order()[j].0 == next,
        i == i2 && i < before.order().len() ==> lex_lt(next, before.order()[i].0),
        j == j2 && j < after.order().len() ==> lex_lt(next, after.order()[j].0),
        listed(before, next) == listed(after, next) ==> grown == deltas,
        listed(before, next) != listed(after, next) ==> grown == deltas.push(
            binary_delta(next, listed(before, next), listed(after, next)),
        ),
    ensures
        compared(before, after, i2, j2, grown),
{
    let b = before.order();
    let a = after.order();
    met_precede(before, after, i, j, deltas, next);
    assert forall|x: int| #![trigger b[x]] 0 <= x < i2 && j2 < a.len() implies lex_lt(
        b[x].0,
        a[j2].0,
    ) by {
        if j2 == j + 1 {
            assert(lex_lt(a[j].0, a[j2].0));
            if x < i {
                assert(lex_lt(b[x].0, a[j].0));
                lex_transitive(b[x].0, a[j].0, a[j2].0);
            }
        }
    }
    assert forall|y: int| #![trigger a[y]] 0 <= y < j2 && i2 < b.len() implies lex_lt(
        a[y].0,
        b[i2].0,
    ) by {
        if i2 == i + 1 {
            assert(lex_lt(b[i].0, b[i2].0));
            if y < j {
                assert(lex_lt(a[y].0, b[i].0));
                lex_transitive(a[y].0, b[i].0, b[i2].0);
            }
        }
    }
    assert(met(before, i2, next) || met(after, j2, next)) by {
        if i < i2 {
            assert(before.order()[i].0 == next);
        } else {
            assert(after.order()[j].0 == next);
        }
    }
    assert forall|path: Seq<char>| met(before, i, path) implies met(before, i2, path) by {
        let x = choose|x: int| #![trigger before.order()[x]] 0 <= x < i && before.order()[x].0
            == path;
        assert(before.order()[x].0 == path);
    }
    assert forall|path: Seq<char>| met(after, j, path) implies met(after, j2, path) by {
        let x = choose|x: int| #![trigger after.order()[x]] 0 <= x < j && after.order()[x].0
            == path;
        assert(after.order()[x].0 == path);
    }
    assert forall|path: Seq<char>| met(before, i2, path) || met(after, j2, path) implies path
        == next || met(before, i, path) || met(after, j, path) by {
        if met(before, i2, path) {
            let x = choose|x: int| #![trigger before.order()[x]] 0 <= x < i2 && before.order()[x].0
                == path;
            if x < i {
                assert(before.order()[x].0 == path);
            }
        } else {
            let x = choose|x: int| #![trigger after.order()[x]] 0 <= x < j2 && after.order()[x].0
                == path;
            if x < j {
                assert(after.order()[x].0 == path);
            }
        }
    }
    assert forall|path: Seq<char>|
        #![trigger listed(before, path)]
        #![trigger listed(after, path)]
        (met(before, i2, path) || met(after, j2, path)) && listed(before, path) != listed(
            after,
            path,
        ) implies addressed(grown, path) by {
        if path == next {
            assert(grown[deltas.len() as int].address == path);
        } else {
            assert(addressed(deltas, path));
            let x = choose|x: int| #![trigger deltas[x]] 0 <= x < deltas.len() && deltas[x].address
                == path;
            assert(grown[x] == deltas[x]);
        }
    }
}

/// The binary rung: diff two file listings by content id alone.
///
/// A path present on one side only is `Added` or `Removed`; a path on both
/// sides with a different id is `Changed`; an unchanged id yields no delta.
/// Deltas come back sorted by path, so the same inputs always produce the
/// same diff. `Moved` is never produced here.
#[must_use]
pub fn diff_listings(before: &Listing, after: &Listing) -> (r: Diff)
    requires
        before.wf(),
        after.wf(),
    ensures
        is_listing_diff(*before, *after, r@),
{
    let mut deltas: Vec<Delta> = Vec::new();
    let mut i: usize = 0;
    let mut j: usize = 0;
    while i < before.len() || j < after.len()
        invariant
            compared(*before, *after, i as int, j as int, delta_views(deltas@)),
        decreases before.order().len() - i + after.order().len() - j,
    {
        let ghost seen = delta_views(deltas@);
        let ghost (x, y) = (i as int, j as int);
        let take_before = j >= after.len() || (i < before.len() && !comes_before(
            after.key(j),
            before.key(i),
        ));
        let take_after = i >= before.len() || (j < after.len() && !comes_before(
            before.key(i),
            after.key(j),
        ));
        let ghost next = if take_before {
            before.order()[x].0
        } else {
            after.order()[y].0
        };
        proof {
            if x < before.order().len() && y < after.order().len() {
                lex_total(before.order()[x].0, after.order()[y].0);
                if lex_lt(before.order()[x].0, after.order()[y].0) {
                    lex_asymmetric(before.order()[x].0, after.order()[y].0);
                }
                if lex_lt(after.order()[y].0, before.order()[x].0) {
                    lex_asymmetric(after.order()[y].0, before.order()[x].0);
                }
            }
            if take_before {
                listed_at(*before, x);
            } else {
                met_precede(*before, *after, x, y, seen, next);
                assert forall|k: int|
                    #![trigger before.order()[k]]
                    0 <= k < x implies lex_lt(before.order()[k].0, next) by {
                    assert(met(*before, x, before.order()[k].0));
                }
                not_listed(*before, x, next);
            }
            if take_after {
                listed_at(*after, y);
            } else {
                met_precede(*before, *after, x, y, seen, next);
                assert forall|k: int|
                    #![trigger after.order()[k]]
                    0 <= k < y implies lex_lt(after.order()[k].0, next) by {
                    assert(met(*after, y, after.order()[k].0));
                }
                not_listed(*after, y, next);
            }
        }
        let mut found: Option<Delta> = None;
        if take_before && take_after {
            let old_id = before.value(i);
            let new_id = after.value(j);
            if !same(old_id.as_str(), new_id.as_str()) {
                found = Some(delta_of(before.key(i), Some(old_id), Some(new_id)));
            }
        } else if take_before {
            found = Some(delta_of(before.key(i), Some(before.value(i)), None));
        } else {
            found = Some(delta_of(after.key(j), None, Some(after.value(j))));
        }
        if let Some(delta) = found {
            deltas.push(delta);
            assert(delta_views(deltas@) =~= seen.push(
                binary_delta(next, listed(*before, next), listed(*after, next)),
            ));
        }
        if take_before {
            i = i + 1;
        }
        if take_after {
            j = j + 1;
        }
        proof {
            step(
                *before,
                *after,
                x,
                y,
                i as int,
                j as int,
                seen,
                next,
                delta_views(deltas@),
            );
        }
    }
    proof {
        let deltas = delta_views(deltas@);
        assert forall|path: Seq<char>|
            #![trigger listed(*before, path)]
            #![trigger listed(*after, path)]
            listed(*before, path) != listed(*after, path) implies addressed(deltas, path) by {
            if listed(*before, path) is Some {
                before.slot_holds(path);
                assert(met(*before, i as int, path));
            } else {
                after.slot_holds(path);
                assert(met(*after, j as int, path));
            }
        }
    }
    Diff { deltas }
}

/// Two listings that list the same paths with the same content ids have no
/// differences.
pub proof fn same_listings_have_no_deltas(before: Listing, after: Listing, deltas: Seq<DeltaView>)
    requires
        is_listing_diff(before, after, deltas),
        forall|path: Seq<char>| listed(before, path) == listed(after, path),
    ensures
        deltas.len() == 0,
{
    if deltas.len() > 0 {
        assert(listed(before, deltas[0].address) == listed(after, deltas[0].address));
    }
}

/// The same listings always have the same diff, delta for delta.
pub proof fn listing_diff_is_unique(
    before: Listing,
    after: Listing,
    a: Seq<DeltaView>,
    b: Seq<DeltaView>,
)
    requires
        is_listing_diff(before, after, a),
        is_listing_diff(before, after, b),
    ensures
        a == b,
{
    prefix_agrees(before, after, a, b, a.len() as int);
    prefix_agrees(before, after, b, a, b.len() as int);
    assert(a =~= b);
}

/// The first `n` deltas of one diff are those of the other.
proof fn prefix_agrees(
    before: Listing,
    after: Listing,
    a: Seq<DeltaView>,
    b: Seq<DeltaView>,
    n: int,
)
    requires
        is_listing_diff(before, after, a),
        is_listing_diff(before, after, b),
        0 <= n <= a.len(),
    ensures
        n <= b.len(),
        forall|i: int| 0 <= i < n ==> a[i] == b[i],
    decreases n,
{
    if n > 0 {
        prefix_agrees(before, after, a, b, n - 1);
        let path = a[n - 1].address;
        assert(listed(before, path) != listed(after, path));
        assert(addressed(b, path));
        let k = choose|k: int| #![trigger b[k]] 0 <= k < b.len() && b[k].address == path;
        if k < n - 1 {
            assert(a[k] == b[k]);
            lex_asymmetric(a[k].address, a[n - 1].address);
        }
        if k > n - 1 {
            let mid = b[n - 1].address;
            assert(listed(before, mid) != listed(after, mid));
            assert(addressed(a, mid));
            let m = choose|m: int| #![trigger a[m]] 0 <= m < a.len() && a[m].address == mid;
            lex_asymmetric(b[n - 1].address, b[k].address);
            if m < n - 1 {
                assert(a[m] == b[m]);
                lex_asymmetric(b[m].address, b[n - 1].address);
            } else if m > n - 1 {
                lex_asymmetric(a[n - 1].address, a[m].address);
            }
        }
    }
}

/// Read in the other direction, a difference has the same addresses, each
/// with its sides exchanged: an addition is a removal there.
pub proof fn reversed_listing_diff(
    before: Listing,
    after: Listing,
    forth: Seq<DeltaView>,
    back: Seq<DeltaView>,
    i: int,
)
    requires
        is_listing_diff(before, after, forth),
        is_listing_diff(after, before, back),
        0 <= i < forth.len(),
    ensures
        i < back.len(),
        back[i].address == forth[i].address,
        back[i].before == forth[i].after,
        back[i].after == forth[i].before,
        forth[i].kind == DeltaKind::Added <==> back[i].kind == DeltaKind::Removed,
        forth[i].kind == DeltaKind::Removed <==> back[i].kind == DeltaKind::Added,
        forth[i].kind == DeltaKind::Changed <==> back[i].kind == DeltaKind::Changed,
{
    let mirrored = Seq::new(
        back.len(),
        |k: int| binary_delta(back[k].address, back[k].after, back[k].before),
    );
    assert forall|k: int|
        #![trigger mirrored[k]]
        0 <= k < mirrored.len() implies {
            let path = mirrored[k].address;
            listed(before, path) != listed(after, path) && mirrored[k] == binary_delta(
                path,
                listed(before, path),
                listed(after, path),
            )
        } by {
        let path = back[k].address;
        assert(back[k] == binary_delta(path, listed(after, path), listed(before, path)));
    }
    assert forall|x: int, y: int|
        #![trigger mirrored[x], mirrored[y]]
        0 <= x < y < mirrored.len() implies lex_lt(mirrored[x].address, mirrored[y].address) by {
        assert(lex_lt(back[x].address, back[y].address));
    }
    assert forall|path: Seq<char>|
        #![trigger listed(before, path)]
        #![trigger listed(after, path)]
        listed(before, path) != listed(after, path) implies addressed(mirrored, path) by {
        assert(addressed(back, path));
        let k = choose|k: int| #![trigger back[k]] 0 <= k < back.len() && back[k].address == path;
        assert(mirrored[k].address == path);
    }
    listing_diff_is_unique(before, after, forth, mirrored);
    let path = back[i].address;
    assert(back[i] == binary_delta(path, listed(after, path), listed(before, path)));
}

// ---------------------------------------------------------------------
// Listings from a walk of two trees.

/// A path at which two trees may differ: its content id on each side, none
/// where the side does not have it.
#[derive(Debug, Clone, PartialEq, Eq)]
pub struct TreeChange {
    pub path: String,
    pub before: Option<String>,
    pub after: Option<String>,
}

/// What a walk says one side holds at a path: what it said last.
pub open spec fn walked_side(changes: Seq<TreeChange>, path: Seq<char>, after: bool) -> Option<
    Seq<char>,
>
    decreases changes.len(),
{
    if changes.len() == 0 {
        None
    } else {
        let change = changes.last();
        let side = if after {
            change.after
        } else {
            change.before
        };
        if change.path@ == path && side is Some {
            opt_text(side)
        } else {
            walked_side(changes.drop_last(), path, after)
        }
    }
}

/// The two listings a walk of two trees gives.
pub fn listings_of(changes: &Vec<TreeChange>) -> (r: (Listing, Listing))
    ensures
        r.0.wf(),
        r.1.wf(),
        forall|path: Seq<char>| #[trigger] listed(r.0, path) == walked_side(changes@, path, false),
        forall|path: Seq<char>| #[trigger] listed(r.1, path) == walked_side(changes@, path, true),
{
    let mut before: Listing = Table::new();
    let mut after: Listing = Table::new();
    let mut i: usize = 0;
    assert(changes@.take(0) =~= Seq::empty());
    while i < changes.len()
        invariant
            i <= changes@.len(),
            before.wf(),
            after.wf(),
            forall|path: Seq<char>| #[trigger]
                listed(before, path) == walked_side(changes@.take(i as int), path, false),
            forall|path: Seq<char>| #[trigger]
                listed(after, path) == walked_side(changes@.take(i as int), path, true),
        decreases changes@.len() - i,
    {
        let ghost (b, a) = (before, after);
        let change = &changes[i];
        if let Some(id) = &change.before {
            before.insert(change.path.as_str(), owned(id.as_str()));
        }
        if let Some(id) = &change.after {
            after.insert(change.path.as_str(), owned(id.as_str()));
        }
        proof {
            let seen = changes@.take(i + 1);
            assert(seen.drop_last() =~= changes@.take(i as int));
            assert(seen.last() == changes@[i as int]);
            assert forall|path: Seq<char>| #[trigger] listed(before, path) == walked_side(
                seen,
                path,
                false,
            ) by {
                assert(listed(b, path) == walked_side(changes@.take(i as int), path, false));
            }
            assert forall|path: Seq<char>| #[trigger] listed(after, path) == walked_side(
                seen,
                path,
                true,
            ) by {
                assert(listed(a, path) == walked_side(changes@.take(i as int), path, true));
            }
        }
        i = i + 1;
    }
    assert(changes@.take(changes@.len() as int) =~= changes@);
    (before, after)
}

/// A path is in the diff of two listings exactly when they hold different
/// ids for it, or only one holds it; its delta says which, with both ids, and
/// carries no lines.
pub proof fn deltas_tell_what_differs(
    before: Listing,
    after: Listing,
    deltas: Seq<DeltaView>,
    path: Seq<char>,
)
    requires
        is_listing_diff(before, after, deltas),
    ensures
        ({
            let was = before@.dom().contains(path);
            let is_now = after@.dom().contains(path);
            let differs = was != is_now || (was && before@[path]@ != after@[path]@);
            &&& addressed(deltas, path) <==> differs
            &&& forall|i: int|
                #![trigger deltas[i]]
                0 <= i < deltas.len() && deltas[i].address == path ==> {
                    &&& deltas[i].kind == DeltaKind::Added <==> !was
                    &&& deltas[i].kind == DeltaKind::Removed <==> !is_now
                    &&& deltas[i].kind == DeltaKind::Changed <==> was && is_now
                    &&& deltas[i].before is Some <==> was
                    &&& was ==> deltas[i].before == Some(before@[path]@)
                    &&& deltas[i].after is Some <==> is_now
                    &&& is_now ==> deltas[i].after == Some(after@[path]@)
                    &&& deltas[i].fidelity == Fidelity::Binary
                    &&& deltas[i].lines.len() == 0
                    &&& deltas[i].package is None
                    &&& deltas[i].summary is None
                }
            &&& forall|i: int, j: int|
                #![trigger deltas[i], deltas[j]]
                0 <= i < j < deltas.len() ==> lex_lt(deltas[i].address, deltas[j].address)
        }),
{
    let x = listed(before, path);
    let y = listed(after, path);
    if addressed(deltas, path) {
        let i = choose|i: int|
            #![trigger deltas[i]]
            0 <= i < deltas.len() && deltas[i].address == path;
        assert(deltas[i].address == path);
    }
}

/// A side of a walked path is the last one given for it, and there is none
/// exactly where none was given.
pub proof fn walked_sides_are_the_last(
    changes: Seq<TreeChange>,
    path: Seq<char>,
    after: bool,
    change: TreeChange,
)
    ensures
        ({
            let side = if after {
                change.after
            } else {
                change.before
            };
            walked_side(changes.push(change), path, after) == if change.path@ == path
                && side is Some {
                Some((side->0)@)
            } else {
                walked_side(changes, path, after)
            }
        }),
        walked_side(Seq::empty(), path, after) is None,
{
    assert(changes.push(change).drop_last() =~= changes);
}

} // verus!
