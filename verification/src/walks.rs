//! Walks by an explicit stack: what such a walk has visited once its stack is
//! empty.

use vstd::prelude::*;

verus! {

/// Where a walk stands: what it has still to visit, and what it visited, in
/// order.
#[verifier::ext_equal]
pub struct Work<D> {
    pub pending: Seq<D>,
    pub done: Seq<D>,
}

/// A walk from `root` after `n` visits. A visit takes what was put off last,
/// and puts off what lies directly below it.
pub open spec fn worked<D>(root: D, below: spec_fn(D) -> Seq<D>, n: nat) -> Work<D>
    decreases n,
{
    if n == 0 {
        Work { pending: seq![root], done: Seq::empty() }
    } else {
        let work = worked(root, below, (n - 1) as nat);
        if work.pending.len() == 0 {
            work
        } else {
            Work {
                pending: work.pending.drop_last() + below(work.pending.last()),
                done: work.done.push(work.pending.last()),
            }
        }
    }
}

/// Whether each place of a chain lies directly below the one before it, from
/// `root` on.
pub open spec fn is_chain<D>(root: D, below: spec_fn(D) -> Seq<D>, chain: Seq<D>) -> bool {
    &&& chain.len() > 0
    &&& chain[0] == root
    &&& forall|i: int| 1 <= i < chain.len() ==> below(chain[i - 1]).contains(#[trigger] chain[i])
}

/// Whether a place is `root`, or lies below it, however deep.
pub open spec fn lies_under<D>(root: D, below: spec_fn(D) -> Seq<D>, place: D) -> bool {
    exists|chain: Seq<D>| #[trigger] is_chain(root, below, chain) && chain.last() == place
}

/// What lies directly below a place under `root` is under it too.
proof fn lies_under_too<D>(root: D, below: spec_fn(D) -> Seq<D>, place: D, next: D)
    requires
        lies_under(root, below, place),
        below(place).contains(next),
    ensures
        lies_under(root, below, next),
{
    let chain = choose|chain: Seq<D>| #[trigger]
        is_chain(root, below, chain) && chain.last() == place;
    let longer = chain.push(next);
    assert forall|i: int| 1 <= i < longer.len() implies below(longer[i - 1]).contains(
        #[trigger] longer[i],
    ) by {
        if i < chain.len() {
            assert(longer[i] == chain[i]);
            assert(longer[i - 1] == chain[i - 1]);
        }
    }
    assert(is_chain(root, below, longer));
}

/// Whether a walk has a place in hand: put off, or visited.
pub open spec fn has_met<D>(work: Work<D>, place: D) -> bool {
    work.pending.contains(place) || work.done.contains(place)
}

/// A walk meets only what is under its root.
proof fn meets_only_what_is_there<D>(root: D, below: spec_fn(D) -> Seq<D>, n: nat, place: D)
    requires
        has_met(worked(root, below, n), place),
    ensures
        lies_under(root, below, place),
    decreases n,
{
    if n == 0 {
        assert(is_chain(root, below, seq![root]));
        assert(seq![root].last() == root);
    } else {
        let before = worked(root, below, (n - 1) as nat);
        if before.pending.len() == 0 {
            meets_only_what_is_there(root, below, (n - 1) as nat, place);
        } else {
            let taken = before.pending.last();
            assert(before.pending[before.pending.len() - 1] == taken);
            let after = worked(root, below, n);
            if has_met(before, place) {
                meets_only_what_is_there(root, below, (n - 1) as nat, place);
            } else {
                if after.done.contains(place) {
                    let i = choose|i: int| 0 <= i < after.done.len() && after.done[i] == place;
                    if i < before.done.len() {
                        assert(before.done[i] == place);
                    }
                } else {
                    let i = choose|i: int|
                        0 <= i < after.pending.len() && after.pending[i] == place;
                    if i < before.pending.len() - 1 {
                        assert(before.pending[i] == place);
                    } else {
                        assert(below(taken)[i - (before.pending.len() - 1)] == place);
                        meets_only_what_is_there(root, below, (n - 1) as nat, taken);
                        lies_under_too(root, below, taken, place);
                    }
                }
            }
        }
    }
}

/// A walk never loses what it met.
proof fn keeps_what_it_met<D>(root: D, below: spec_fn(D) -> Seq<D>, n: nat, place: D)
    requires
        n > 0,
        has_met(worked(root, below, (n - 1) as nat), place),
    ensures
        has_met(worked(root, below, n), place),
{
    let before = worked(root, below, (n - 1) as nat);
    let after = worked(root, below, n);
    if before.pending.len() > 0 {
        if before.done.contains(place) {
            let i = choose|i: int| 0 <= i < before.done.len() && before.done[i] == place;
            assert(after.done[i] == place);
        } else {
            let i = choose|i: int| 0 <= i < before.pending.len() && before.pending[i] == place;
            if i < before.pending.len() - 1 {
                assert(after.pending[i] == place);
            } else {
                assert(after.done[before.done.len() as int] == place);
            }
        }
    }
}

/// A walk has met its root.
proof fn has_met_its_root<D>(root: D, below: spec_fn(D) -> Seq<D>, n: nat)
    ensures
        has_met(worked(root, below, n), root),
    decreases n,
{
    if n == 0 {
        assert(worked(root, below, n).pending[0] == root);
    } else {
        has_met_its_root(root, below, (n - 1) as nat);
        keeps_what_it_met(root, below, n, root);
    }
}

/// A walk has met all that lies directly below what it visited.
proof fn has_met_what_is_below<D>(
    root: D,
    below: spec_fn(D) -> Seq<D>,
    n: nat,
    place: D,
    next: D,
)
    requires
        worked(root, below, n).done.contains(place),
        below(place).contains(next),
    ensures
        has_met(worked(root, below, n), next),
    decreases n,
{
    if n > 0 {
        let before = worked(root, below, (n - 1) as nat);
        let after = worked(root, below, n);
        if before.done.contains(place) {
            has_met_what_is_below(root, below, (n - 1) as nat, place, next);
            keeps_what_it_met(root, below, n, next);
        } else {
            let i = choose|i: int| 0 <= i < after.done.len() && after.done[i] == place;
            if i < before.done.len() {
                assert(before.done[i] == place);
            }
            assert(before.pending.last() == place);
            let lower = below(place);
            let j = choose|j: int| 0 <= j < lower.len() && lower[j] == next;
            assert(after.pending[before.pending.len() - 1 + j] == next);
        }
    }
}

/// A walk that has nothing left to visit has visited its root and all that
/// lies below it, however deep, and nothing else.
pub proof fn a_finished_walk_visited_all<D>(
    root: D,
    below: spec_fn(D) -> Seq<D>,
    n: nat,
    place: D,
)
    requires
        worked(root, below, n).pending.len() == 0,
    ensures
        worked(root, below, n).done.contains(place) <==> lies_under(root, below, place),
{
    let work = worked(root, below, n);
    if work.done.contains(place) {
        meets_only_what_is_there(root, below, n, place);
    }
    if lies_under(root, below, place) {
        let chain = choose|chain: Seq<D>| #[trigger]
            is_chain(root, below, chain) && chain.last() == place;
        visited_along(root, below, n, chain, chain.len() - 1);
    }
}

/// A finished walk visited every place of a chain.
proof fn visited_along<D>(
    root: D,
    below: spec_fn(D) -> Seq<D>,
    n: nat,
    chain: Seq<D>,
    i: int,
)
    requires
        worked(root, below, n).pending.len() == 0,
        is_chain(root, below, chain),
        0 <= i < chain.len(),
    ensures
        worked(root, below, n).done.contains(chain[i]),
    decreases i,
{
    if i == 0 {
        has_met_its_root(root, below, n);
    } else {
        visited_along(root, below, n, chain, i - 1);
        has_met_what_is_below(root, below, n, chain[i - 1], chain[i]);
    }
}

/// What is found at each of some places, one behind the other.
pub open spec fn found_at<D, T>(places: Seq<D>, at: spec_fn(D) -> Seq<T>) -> Seq<T>
    decreases places.len(),
{
    if places.len() == 0 {
        Seq::empty()
    } else {
        found_at(places.drop_last(), at) + at(places.last())
    }
}

/// What is found at some places is found at one of them.
proof fn found_somewhere<D, T>(places: Seq<D>, at: spec_fn(D) -> Seq<T>, thing: T)
    ensures
        found_at(places, at).contains(thing) <==> exists|place: D|
            places.contains(place) && #[trigger] at(place).contains(thing),
    decreases places.len(),
{
    if places.len() == 0 {
        assert(found_at(places, at) =~= Seq::empty());
    } else {
        let rest = places.drop_last();
        let all = found_at(places, at);
        let before = found_at(rest, at);
        found_somewhere(rest, at, thing);
        assert(places[places.len() - 1] == places.last());
        if all.contains(thing) {
            let i = choose|i: int| 0 <= i < all.len() && all[i] == thing;
            if i < before.len() {
                assert(before[i] == thing);
                let place = choose|place: D|
                    rest.contains(place) && #[trigger] at(place).contains(thing);
                let k = choose|k: int| 0 <= k < rest.len() && rest[k] == place;
                assert(places[k] == place);
                assert(places.contains(place) && at(place).contains(thing));
            } else {
                let here = at(places.last());
                assert(here[i - before.len()] == thing);
                assert(places.contains(places.last()) && at(places.last()).contains(thing));
            }
        }
        if exists|place: D| places.contains(place) && #[trigger] at(place).contains(thing) {
            let place = choose|place: D|
                places.contains(place) && #[trigger] at(place).contains(thing);
            let k = choose|k: int| 0 <= k < places.len() && places[k] == place;
            if k < rest.len() {
                assert(rest[k] == place);
                assert(rest.contains(place));
                let i = choose|i: int| 0 <= i < before.len() && before[i] == thing;
                assert(all[i] == thing);
                assert(all.contains(thing));
            } else {
                let here = at(place);
                let i = choose|i: int| 0 <= i < here.len() && here[i] == thing;
                assert(all[before.len() + i] == thing);
                assert(all.contains(thing));
            }
        }
    }
}

/// What a finished walk found on its way is what there is at its root and at
/// the places below it.
pub proof fn a_finished_walk_found_all<D, T>(
    root: D,
    below: spec_fn(D) -> Seq<D>,
    at: spec_fn(D) -> Seq<T>,
    n: nat,
    thing: T,
)
    requires
        worked(root, below, n).pending.len() == 0,
    ensures
        found_at(worked(root, below, n).done, at).contains(thing) <==> exists|place: D|
            lies_under(root, below, place) && #[trigger] at(place).contains(thing),
{
    let done = worked(root, below, n).done;
    found_somewhere(done, at, thing);
    assert forall|place: D| done.contains(place) <==> #[trigger] lies_under(root, below, place) by {
        a_finished_walk_visited_all(root, below, n, place);
    }
}

/// What is picked of some entries, in order.
pub open spec fn picked<E, T>(entries: Seq<E>, pick: spec_fn(E) -> Option<T>) -> Seq<T>
    decreases entries.len(),
{
    if entries.len() == 0 {
        Seq::empty()
    } else {
        let rest = picked(entries.drop_last(), pick);
        match pick(entries.last()) {
            Some(thing) => rest.push(thing),
            None => rest,
        }
    }
}

/// What is picked is picked of an entry.
pub proof fn picked_of_an_entry<E, T>(entries: Seq<E>, pick: spec_fn(E) -> Option<T>, thing: T)
    ensures
        picked(entries, pick).contains(thing) <==> exists|i: int|
            0 <= i < entries.len() && pick(#[trigger] entries[i]) == Some(thing),
    decreases entries.len(),
{
    if entries.len() == 0 {
        assert(picked(entries, pick) =~= Seq::empty());
    } else {
        let before = entries.drop_last();
        let rest = picked(before, pick);
        let all = picked(entries, pick);
        picked_of_an_entry(before, pick, thing);
        if all.contains(thing) {
            let k = choose|k: int| 0 <= k < all.len() && all[k] == thing;
            if k < rest.len() {
                assert(rest[k] == thing);
                let i = choose|i: int|
                    0 <= i < before.len() && pick(#[trigger] before[i]) == Some(thing);
                assert(entries[i] == before[i]);
            } else {
                assert(entries[entries.len() - 1] == entries.last());
            }
        }
        if exists|i: int| 0 <= i < entries.len() && pick(#[trigger] entries[i]) == Some(thing) {
            let i = choose|i: int|
                0 <= i < entries.len() && pick(#[trigger] entries[i]) == Some(thing);
            if i < before.len() {
                assert(before[i] == entries[i]);
                assert(rest.contains(thing));
                let k = choose|k: int| 0 <= k < rest.len() && rest[k] == thing;
                assert(all[k] == thing);
            } else {
                assert(all[rest.len() as int] == thing);
            }
        }
    }
}

} // verus!
