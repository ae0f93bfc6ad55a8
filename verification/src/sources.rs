//! Sources: which may be attached, under which mount, and how.

use crate::config::{ROOT_MOUNT, Source, SourceView, source_views};
use crate::error::{Error, ErrorView};
use crate::words::{
    comes_before,
    debug_quoted,
    holds,
    joined,
    lex_lt,
    lex_total,
    lex_transitive,
    owned,
    quoted,
    same,
    texts,
};
use vstd::prelude::*;

verus! {

/// Whether a name is one of the engine's internals.
pub open spec fn is_internal(name: Seq<char>) -> bool {
    name == ".atelier"@ || name == ".jj"@ || name == ".git"@
}

/// Whether a name is one of the engine's internals: the control directory,
/// and the version stores.
pub fn is_internal_name(name: &str) -> (r: bool)
    ensures
        r == is_internal(name@),
{
    same(name, ".atelier") || same(name, ".jj") || same(name, ".git")
}

/// Whether a name can name a mount: one path component that cannot collide
/// with engine internals or escape the root.
pub open spec fn is_mount_name(name: Seq<char>) -> bool {
    &&& name.len() > 0
    &&& name != "."@
    &&& name != ".."@
    &&& !name.contains('/')
    &&& !name.contains('\\')
    &&& !is_internal(name)
}

/// The error of a name that cannot name a mount.
pub open spec fn bad_mount_name(name: Seq<char>) -> ErrorView {
    ErrorView::Config(
        "mount name "@ + debug_quoted(name)
            + " must be one path component outside the engine's internals"@,
    )
}

/// Refuse a name that cannot name a mount.
pub fn valid_mount_name(name: &str) -> (r: Result<(), Error>)
    ensures
        r is Ok <==> is_mount_name(name@),
        r is Err ==> (r->Err_0)@ == bad_mount_name(name@),
{
    let flat = !name.is_empty() && !same(name, ".") && !same(name, "..") && !holds(name, '/')
        && !holds(name, '\\');
    if !flat || is_internal_name(name) {
        let mut detail = joined("mount name ", quoted(name).as_str());
        detail.push_str(" must be one path component outside the engine's internals");
        return Err(Error::Config(detail));
    }
    Ok(())
}

// ---------------------------------------------------------------------
// The mounts of a config, in name order.

/// Whether the texts come in order, none before its predecessor.
pub open spec fn in_order(names: Seq<Seq<char>>) -> bool {
    forall|i: int, j: int|
        #![trigger names[i], names[j]]
        0 <= i < j < names.len() ==> !lex_lt(names[j], names[i])
}

/// The mounts of the sources that have one of their own, in config order.
pub open spec fn own_mounts(sources: Seq<SourceView>) -> Seq<Seq<char>>
    decreases sources.len(),
{
    if sources.len() == 0 {
        Seq::empty()
    } else if sources.last().mount == ROOT_MOUNT@ {
        own_mounts(sources.drop_last())
    } else {
        own_mounts(sources.drop_last()).push(sources.last().mount)
    }
}

/// A text that does not come before another, and that other not before a
/// third: the first does not come before the third.
pub proof fn not_before_transitive(a: Seq<char>, b: Seq<char>, c: Seq<char>)
    requires
        !lex_lt(b, a),
        !lex_lt(c, b),
    ensures
        !lex_lt(c, a),
{
    lex_total(a, b);
    lex_total(b, c);
    if lex_lt(c, a) {
        if lex_lt(a, b) {
            lex_transitive(c, a, b);
        }
    }
}

/// Insert `name` into `names` where its order places it.
fn insert_in_order(names: &mut Vec<String>, name: String)
    requires
        in_order(texts(old(names)@)),
    ensures
        in_order(texts(final(names)@)),
        texts(final(names)@).to_multiset() == texts(old(names)@).to_multiset().insert(name@),
{
    let ghost before = texts(names@);
    let mut at: usize = 0;
    while at < names.len() && !comes_before(name.as_str(), names[at].as_str())
        invariant
            at <= names@.len(),
            texts(names@) == before,
            forall|i: int| 0 <= i < at ==> !lex_lt(name@, #[trigger] before[i]),
        decreases names@.len() - at,
    {
        assert(before[at as int] == names@[at as int]@);
        at = at + 1;
    }
    let ghost view = name@;
    proof {
        if at < names@.len() {
            assert(before[at as int] == names@[at as int]@);
        }
    }
    names.insert(at, name);
    proof {
        let after = texts(names@);
        assert(after =~= before.insert(at as int, view));
        assert forall|i: int, j: int|
            #![trigger after[i], after[j]]
            0 <= i < j < after.len() implies !lex_lt(after[j], after[i]) by {
            let x = if i < at {
                i
            } else {
                i - 1
            };
            let y = if j < at {
                j
            } else {
                j - 1
            };
            if i != at && j != at {
                assert(!lex_lt(before[y], before[x]));
            } else if j == at {
                assert(!lex_lt(view, before[i]));
            } else {
                crate::words::lex_asymmetric(view, before[at as int]);
                if j - 1 > at {
                    assert(!lex_lt(before[j - 1], before[at as int]));
                    not_before_transitive(view, before[at as int], before[j - 1]);
                }
            }
        }
        vstd::seq_lib::to_multiset_insert(before, at as int, view);
    }
}

/// The mounted sources a config names, in name order: the one order every
/// aggregate walks.
pub fn mount_names(sources: &Vec<Source>) -> (r: Vec<String>)
    ensures
        in_order(texts(r@)),
        texts(r@).to_multiset() == own_mounts(source_views(sources@)).to_multiset(),
{
    let ghost all = source_views(sources@);
    let mut names: Vec<String> = Vec::new();
    let mut i: usize = 0;
    assert(all.take(0) =~= Seq::<SourceView>::empty());
    assert(texts(names@) =~= own_mounts(all.take(0)));
    while i < sources.len()
        invariant
            i <= sources@.len(),
            all == source_views(sources@),
            in_order(texts(names@)),
            texts(names@).to_multiset() == own_mounts(all.take(i as int)).to_multiset(),
        decreases sources@.len() - i,
    {
        assert(all[i as int] == sources@[i as int]@);
        assert(all.take(i + 1).drop_last() =~= all.take(i as int));
        assert(all.take(i + 1).last() == all[i as int]);
        if !same(sources[i].mount.as_str(), ROOT_MOUNT) {
            insert_in_order(&mut names, owned(sources[i].mount.as_str()));
            proof {
                let head = own_mounts(all.take(i as int));
                vstd::seq_lib::to_multiset_build(head, all[i as int].mount);
            }
        }
        i = i + 1;
    }
    assert(all.take(all.len() as int) =~= all);
    names
}

/// A workspace's mounts are its sources in order, all but the one at its
/// root.
pub proof fn mounts_leave_out_the_root(sources: Seq<SourceView>) -> (at: Seq<int>)
    ensures
        at.len() == own_mounts(sources).len(),
        forall|j: int, k: int| #![trigger at[j], at[k]] 0 <= j < k < at.len() ==> at[j] < at[k],
        forall|k: int|
            #![trigger at[k]]
            0 <= k < at.len() ==> 0 <= at[k] < sources.len() && own_mounts(sources)[k]
                == sources[at[k]].mount,
        forall|i: int|
            0 <= i < sources.len() ==> (#[trigger] at.contains(i) <==> sources[i].mount != seq![
                '/',
            ]),
    decreases sources.len(),
{
    reveal_strlit("/");
    assert("/"@ =~= seq!['/']);
    if sources.len() == 0 {
        Seq::empty()
    } else {
        let rest = sources.drop_last();
        let before = mounts_leave_out_the_root(rest);
        let last = sources.len() - 1;
        let at = if sources.last().mount != seq!['/'] {
            before.push(last)
        } else {
            before
        };
        assert forall|k: int| #![trigger at[k]] 0 <= k < at.len() implies 0 <= at[k] < sources.len()
            && own_mounts(sources)[k] == sources[at[k]].mount by {
            if k < before.len() {
                assert(at[k] == before[k]);
                assert(rest[before[k]] == sources[before[k]]);
            }
        }
        assert forall|j: int, k: int| #![trigger at[j], at[k]] 0 <= j < k < at.len() implies at[j]
            < at[k] by {
            assert(at[j] == before[j]);
            if k < before.len() {
                assert(at[k] == before[k]);
            }
        }
        assert forall|i: int| 0 <= i < sources.len() implies (#[trigger] at.contains(i)
            <==> sources[i].mount != seq!['/']) by {
            if i < last {
                assert(rest[i] == sources[i]);
                assert(before.contains(i) <==> rest[i].mount != seq!['/']);
                if before.contains(i) {
                    let k = choose|k: int| 0 <= k < before.len() && before[k] == i;
                    assert(at[k] == i);
                }
                if at.contains(i) {
                    let k = choose|k: int| 0 <= k < at.len() && at[k] == i;
                    assert(before[k] == i);
                }
            } else {
                if sources[i].mount != seq!['/'] {
                    assert(at[before.len() as int] == i);
                } else if at.contains(i) {
                    let k = choose|k: int| 0 <= k < at.len() && at[k] == i;
                    assert(before[k] == i);
                }
            }
        }
        at
    }
}

/// A name is a mount's exactly when it is one plain path component and none
/// of the directories kept aside.
pub proof fn mount_names_are_plain(name: Seq<char>)
    ensures
        is_mount_name(name) <==> name.len() > 0 && name != seq!['.'] && name != seq!['.', '.']
            && (forall|i: int|
            0 <= i < name.len() ==> #[trigger] name[i] != '/' && name[i] != '\\') && name
            != ".atelier"@ && name != ".jj"@ && name != ".git"@,
        is_internal(name) <==> name == ".atelier"@ || name == ".jj"@ || name == ".git"@,
{
    reveal_strlit(".");
    reveal_strlit("..");
    assert("."@ =~= seq!['.']);
    assert(".."@ =~= seq!['.', '.']);
    if name.contains('/') {
        let i = choose|i: int| 0 <= i < name.len() && name[i] == '/';
        assert(name[i] == '/');
    }
    if name.contains('\\') {
        let i = choose|i: int| 0 <= i < name.len() && name[i] == '\\';
        assert(name[i] == '\\');
    }
}

} // verus!
