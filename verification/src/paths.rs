//! Paths as text: their pieces and components, and which of them stay
//! inside a working copy.

use crate::config::{join_path, path_under};
use crate::error::{Error, ErrorView};
use crate::sources::{is_internal, is_internal_name};
use crate::words::{chars_of, joined_by, opt_text, owned, same, texts};
use vstd::prelude::*;

verus! {

/// The pieces of a path between its slashes, empty ones included.
pub open spec fn pieces(path: Seq<char>) -> Seq<Seq<char>>
    decreases path.len(),
{
    if path.len() == 0 {
        seq![Seq::empty()]
    } else {
        let before = pieces(path.drop_last());
        if path.last() == '/' {
            before.push(Seq::empty())
        } else {
            before.drop_last().push(before.last().push(path.last()))
        }
    }
}

/// A path has at least one piece.
pub proof fn pieces_nonempty(path: Seq<char>)
    ensures
        pieces(path).len() > 0,
    decreases path.len(),
{
    if path.len() > 0 {
        pieces_nonempty(path.drop_last());
    }
}

/// The pieces of a path between its slashes.
pub fn path_pieces(path: &str) -> (r: Vec<String>)
    ensures
        texts(r@) == pieces(path@),
{
    let chars = chars_of(path);
    let mut out: Vec<String> = Vec::new();
    let mut piece = String::new();
    let mut i: usize = 0;
    assert(path@.take(0) =~= Seq::<char>::empty());
    assert(texts(out@).push(piece@) =~= pieces(path@.take(0)));
    while i < chars.len()
        invariant
            i <= chars@.len(),
            chars@ == path@,
            texts(out@).push(piece@) == pieces(path@.take(i as int)),
        decreases chars@.len() - i,
    {
        let ghost done = texts(out@);
        let ghost before = piece@;
        proof {
            assert(path@.take(i + 1).drop_last() =~= path@.take(i as int));
            assert(path@.take(i + 1).last() == path@[i as int]);
            assert(done.push(before).drop_last() =~= done);
        }
        if chars[i] == '/' {
            out.push(piece);
            piece = String::new();
            assert(texts(out@) =~= done.push(before));
        } else {
            piece.push(chars[i]);
        }
        i = i + 1;
    }
    let ghost done = texts(out@);
    let ghost last = piece@;
    out.push(piece);
    assert(texts(out@) =~= done.push(last));
    assert(path@.take(path@.len() as int) =~= path@);
    out
}

/// One component of a path.
#[derive(Debug, Clone, PartialEq, Eq)]
pub enum PathComponent {
    /// The leading slash of an absolute path.
    RootDir,
    /// A leading `.`.
    CurDir,
    /// `..`.
    ParentDir,
    /// A name.
    Normal(String),
}

/// What a [`PathComponent`] says.
pub enum ComponentView {
    RootDir,
    CurDir,
    ParentDir,
    Normal(Seq<char>),
}

impl View for PathComponent {
    type V = ComponentView;

    open spec fn view(&self) -> ComponentView {
        match *self {
            PathComponent::RootDir => ComponentView::RootDir,
            PathComponent::CurDir => ComponentView::CurDir,
            PathComponent::ParentDir => ComponentView::ParentDir,
            PathComponent::Normal(name) => ComponentView::Normal(name@),
        }
    }
}

/// What each of the components says, in order.
pub open spec fn component_views(components: Seq<PathComponent>) -> Seq<ComponentView> {
    components.map_values(|component: PathComponent| component@)
}

/// The component a piece is: none for an empty piece, and none for a `.`
/// that does not lead the path.
pub open spec fn piece_component(piece: Seq<char>, leads: bool) -> Option<ComponentView> {
    if piece.len() == 0 {
        None
    } else if piece == "."@ {
        if leads {
            Some(ComponentView::CurDir)
        } else {
            None
        }
    } else if piece == ".."@ {
        Some(ComponentView::ParentDir)
    } else {
        Some(ComponentView::Normal(piece))
    }
}

/// The components the first `n` pieces are.
pub open spec fn components_upto(list: Seq<Seq<char>>, n: int) -> Seq<ComponentView>
    decreases n,
{
    if n <= 0 {
        Seq::empty()
    } else {
        match piece_component(list[n - 1], n == 1) {
            Some(component) => components_upto(list, n - 1).push(component),
            None => components_upto(list, n - 1),
        }
    }
}

/// A path's components: its leading slash, then its pieces. Repeated
/// slashes and every `.` but a leading one do not count.
pub open spec fn components(path: Seq<char>) -> Seq<ComponentView> {
    let root = if path.len() > 0 && path[0] == '/' {
        seq![ComponentView::RootDir]
    } else {
        Seq::empty()
    };
    root + components_upto(pieces(path), pieces(path).len() as int)
}

/// A path's components.
pub fn path_components(path: &str) -> (r: Vec<PathComponent>)
    ensures
        component_views(r@) == components(path@),
{
    let list = path_pieces(path);
    let ghost all = texts(list@);
    let chars = chars_of(path);
    let mut out: Vec<PathComponent> = Vec::new();
    let ghost root = if path@.len() > 0 && path@[0] == '/' {
        seq![ComponentView::RootDir]
    } else {
        Seq::empty()
    };
    if chars.len() > 0 && chars[0] == '/' {
        out.push(PathComponent::RootDir);
    }
    let mut i: usize = 0;
    assert(component_views(out@) =~= root + components_upto(all, 0));
    while i < list.len()
        invariant
            i <= list@.len(),
            all == texts(list@),
            component_views(out@) == root + components_upto(all, i as int),
        decreases list@.len() - i,
    {
        let ghost seen = component_views(out@);
        let piece = list[i].as_str();
        assert(all[i as int] == list@[i as int]@);
        let component = if piece.is_empty() {
            None
        } else if same(piece, ".") {
            if i == 0 {
                Some(PathComponent::CurDir)
            } else {
                None
            }
        } else if same(piece, "..") {
            Some(PathComponent::ParentDir)
        } else {
            Some(PathComponent::Normal(owned(piece)))
        };
        if let Some(component) = component {
            let ghost view = component@;
            out.push(component);
            assert(component_views(out@) =~= seen.push(view));
            assert(component_views(out@) =~= root + components_upto(all, i + 1));
        }
        i = i + 1;
    }
    out
}

// ---------------------------------------------------------------------
// Session files.

/// Whether a path stays inside the directory it is relative to: it is not
/// empty, does not start at the root, and never climbs.
pub open spec fn stays_inside(path: Seq<char>) -> bool {
    &&& path.len() > 0
    &&& forall|i: int|
        0 <= i < components(path).len() ==> (#[trigger] components(path)[i]) is Normal || components(
            path,
        )[i] is CurDir
}

/// The file at `path` inside `working_copy`: a relative path that never
/// climbs out; parent and root components refuse.
pub fn session_file(working_copy: &str, path: &str) -> (r: Result<String, Error>)
    ensures
        r is Ok <==> stays_inside(path@),
        r is Ok ==> (r->Ok_0)@ == path_under(working_copy@, path@),
        r is Err ==> (r->Err_0)@ == ErrorView::PathOutsideWorkingCopy(path@),
{
    let parts = path_components(path);
    let ghost views = component_views(parts@);
    let mut inside = !path.is_empty();
    let mut i: usize = 0;
    while i < parts.len()
        invariant
            i <= parts@.len(),
            views == component_views(parts@),
            views == components(path@),
            inside == (path@.len() > 0 && forall|k: int|
                0 <= k < i ==> (#[trigger] views[k]) is Normal || views[k] is CurDir),
        decreases parts@.len() - i,
    {
        assert(views[i as int] == parts@[i as int]@);
        match parts[i] {
            PathComponent::Normal(_) | PathComponent::CurDir => {},
            PathComponent::ParentDir | PathComponent::RootDir => {
                inside = false;
            },
        }
        i = i + 1;
    }
    if !inside {
        return Err(Error::PathOutsideWorkingCopy(owned(path)));
    }
    Ok(join_path(working_copy, path))
}

/// The pieces of a path under a directory are the directory's, then the
/// path's own.
pub proof fn pieces_under(base: Seq<char>, rel: Seq<char>)
    requires
        base.len() > 0,
        base.last() != '/',
    ensures
        pieces(path_under(base, rel)) == pieces(base) + pieces(rel),
{
    reveal_strlit("/");
    assert(base + "/"@ + rel =~= (base.push('/')) + rel);
    pieces_join(base, rel);
}

/// The pieces of one path behind another and a slash are those of both.
pub proof fn pieces_join(base: Seq<char>, rel: Seq<char>)
    ensures
        pieces(base.push('/') + rel) == pieces(base) + pieces(rel),
    decreases rel.len(),
{
    let whole = base.push('/') + rel;
    if rel.len() == 0 {
        assert(whole =~= base.push('/'));
        assert(whole.drop_last() =~= base);
        assert(pieces(whole) =~= pieces(base) + pieces(rel));
    } else {
        let rest = rel.drop_last();
        assert(whole.drop_last() =~= base.push('/') + rest);
        assert(whole.last() == rel.last());
        pieces_join(base, rest);
        pieces_nonempty(rest);
        let before = pieces(base) + pieces(rest);
        if rel.last() == '/' {
            assert(pieces(whole) =~= pieces(base) + pieces(rel));
        } else {
            assert(before.last() == pieces(rest).last());
            assert(before.drop_last() =~= pieces(base) + pieces(rest).drop_last());
            assert(pieces(whole) =~= pieces(base) + pieces(rel));
        }
    }
}

/// A session file never leaves the working copy: its path is the working
/// copy's pieces followed by the file's own, and none of those climbs.
pub proof fn session_files_stay_inside(working_copy: Seq<char>, path: Seq<char>)
    requires
        stays_inside(path),
        working_copy.len() > 0,
        working_copy.last() != '/',
    ensures
        pieces(path_under(working_copy, path)) == pieces(working_copy) + pieces(path),
        forall|i: int| 0 <= i < pieces(path).len() ==> #[trigger] pieces(path)[i] != ".."@,
        path[0] != '/',
{
    pieces_under(working_copy, path);
    let list = pieces(path);
    let n = list.len() as int;
    let root = if path[0] == '/' {
        seq![ComponentView::RootDir]
    } else {
        Seq::<ComponentView>::empty()
    };
    if path[0] == '/' {
        assert(components(path)[0] is RootDir);
    }
    assert forall|i: int| 0 <= i < n implies #[trigger] list[i] != ".."@ by {
        if list[i] == ".."@ {
            reveal_strlit("..");
            reveal_strlit(".");
            assert(".."@.len() == 2 && "."@.len() == 1);
            let at = component_at(list, i, n);
            assert(components(path)[root.len() + at] == components_upto(list, n)[at]);
        }
    }
}

/// A climbing piece shows up among the components.
proof fn component_at(list: Seq<Seq<char>>, i: int, n: int) -> (at: int)
    requires
        0 <= i < n <= list.len(),
        list[i] == ".."@,
        ".."@.len() == 2,
        "."@.len() == 1,
    ensures
        0 <= at < components_upto(list, n).len(),
        components_upto(list, n)[at] == ComponentView::ParentDir,
    decreases n,
{
    if i == n - 1 {
        components_upto(list, n - 1).len() as int
    } else {
        let at = component_at(list, i, n - 1);
        at
    }
}

// ---------------------------------------------------------------------
// Session targets.

/// Where a session path lives, given the mounts: the mount whose name leads
/// it and the rest of the path, or the session's root working copy and the
/// whole path.
pub open spec fn session_target(mounts: Seq<Seq<char>>, path: Seq<char>) -> (
    Option<Seq<char>>,
    Seq<char>,
) {
    if path.contains('/') {
        let cut = path.index_of_first('/')->0;
        let first = path.take(cut);
        let rest = path.skip(cut + 1);
        if rest.len() > 0 && mounts.contains(first) {
            (Some(first), rest)
        } else {
            (None, path)
        }
    } else {
        (None, path)
    }
}

/// Where a session path lives.
pub fn target_of(mounts: &Vec<String>, path: &str) -> (r: (Option<String>, String))
    ensures
        (opt_text(r.0), r.1@) == session_target(texts(mounts@), path@),
{
    let chars = chars_of(path);
    let mut cut: usize = 0;
    while cut < chars.len() && chars[cut] != '/'
        invariant
            cut <= chars@.len(),
            chars@ == path@,
            forall|i: int| 0 <= i < cut ==> path@[i] != '/',
        decreases chars@.len() - cut,
    {
        cut = cut + 1;
    }
    if cut == chars.len() {
        return (None, owned(path));
    }
    proof {
        assert(path@[cut as int] == '/');
        path@.index_of_first_ensures('/');
        assert(path@.index_of_first('/') == Some(cut as int));
    }
    let first = crate::words::text_between(&chars, 0, cut);
    let rest = crate::words::text_between(&chars, cut + 1, chars.len());
    assert(first@ =~= path@.take(cut as int));
    assert(rest@ =~= path@.skip(cut + 1));
    if !rest.as_str().is_empty() && crate::words::among(mounts, first.as_str()) {
        (Some(first), rest)
    } else {
        (None, owned(path))
    }
}

// ---------------------------------------------------------------------
// Names and content.

/// The name a path ends in: its last component, when that is a name.
pub open spec fn file_name(path: Seq<char>) -> Option<Seq<char>> {
    let parts = components(path);
    if parts.len() > 0 && parts.last() is Normal {
        Some(parts.last()->Normal_0)
    } else {
        None
    }
}

/// A workspace's name: the name its root ends in, or `workspace`.
pub fn workspace_name(root: &str) -> (r: String)
    ensures
        r@ == match file_name(root@) {
            Some(name) => name,
            None => "workspace"@,
        },
{
    let parts = path_components(root);
    let ghost views = component_views(parts@);
    let n = parts.len();
    if n > 0 {
        assert(views[n - 1] == parts@[n - 1]@);
        if let PathComponent::Normal(name) = &parts[n - 1] {
            return owned(name.as_str());
        }
    }
    owned("workspace")
}

/// Whether a path under a watched root is content: it is outside the root,
/// or what leads the way there is none of the engine's internals.
pub open spec fn is_content(root: Seq<char>, path: Seq<char>) -> bool {
    let base = components(root);
    let parts = components(path);
    if !base.is_prefix_of(parts) {
        true
    } else if parts.len() > base.len() && parts[base.len() as int] is Normal {
        !is_internal(parts[base.len() as int]->Normal_0)
    } else {
        true
    }
}

/// Whether both are the same component.
fn same_component(a: &PathComponent, b: &PathComponent) -> (r: bool)
    ensures
        r == (a@ == b@),
{
    match (a, b) {
        (PathComponent::RootDir, PathComponent::RootDir) => true,
        (PathComponent::CurDir, PathComponent::CurDir) => true,
        (PathComponent::ParentDir, PathComponent::ParentDir) => true,
        (PathComponent::Normal(x), PathComponent::Normal(y)) => same(x.as_str(), y.as_str()),
        _ => false,
    }
}

/// Whether a path under a watched root is content.
pub fn is_content_path(root: &str, path: &str) -> (r: bool)
    ensures
        r == is_content(root@, path@),
{
    let base = path_components(root);
    let parts = path_components(path);
    let ghost b = component_views(base@);
    let ghost p = component_views(parts@);
    if parts.len() < base.len() {
        return true;
    }
    let mut i: usize = 0;
    while i < base.len()
        invariant
            i <= base@.len() <= parts@.len(),
            b == component_views(base@),
            p == component_views(parts@),
            b == components(root@),
            p == components(path@),
            forall|k: int| 0 <= k < i ==> b[k] == p[k],
        decreases base@.len() - i,
    {
        assert(b[i as int] == base@[i as int]@);
        assert(p[i as int] == parts@[i as int]@);
        if !same_component(&base[i], &parts[i]) {
            assert(p.subrange(0, b.len() as int)[i as int] != b[i as int]);
            return true;
        }
        i = i + 1;
    }
    assert(p.subrange(0, b.len() as int) =~= b);
    if parts.len() > base.len() {
        assert(p[b.len() as int] == parts@[base@.len() as int]@);
        if let PathComponent::Normal(name) = &parts[base.len()] {
            return !is_internal_name(name.as_str());
        }
    }
    true
}

/// A path's pieces, joined by slashes, are the path, and none has a slash:
/// nothing else splits it so.
pub proof fn pieces_spell_the_path(path: Seq<char>)
    ensures
        joined_by(pieces(path), seq!['/']) == path,
        forall|i: int, k: int|
            #![trigger pieces(path)[i][k]]
            0 <= i < pieces(path).len() && 0 <= k < pieces(path)[i].len() ==> pieces(path)[i][k]
                != '/',
    decreases path.len(),
{
    if path.len() > 0 {
        let rest = path.drop_last();
        let before = pieces(rest);
        let list = pieces(path);
        let gap = seq!['/'];
        pieces_spell_the_path(rest);
        pieces_nonempty(rest);
        assert(path =~= rest.push(path.last()));
        if path.last() == '/' {
            assert(list.drop_last() =~= before);
            assert(joined_by(list, gap) =~= path);
            assert forall|i: int, k: int|
                #![trigger list[i][k]]
                0 <= i < list.len() && 0 <= k < list[i].len() implies list[i][k] != '/' by {
                assert(list[i] == before[i]);
            }
        } else {
            assert(list.drop_last() =~= before.drop_last());
            if list.len() > 1 {
                assert(joined_by(list, gap) =~= path);
            } else {
                assert(before.last() == before[0]);
                assert(joined_by(list, gap) =~= path);
            }
            assert forall|i: int, k: int|
                #![trigger list[i][k]]
                0 <= i < list.len() && 0 <= k < list[i].len() implies list[i][k] != '/' by {
                if i < list.len() - 1 {
                    assert(list[i] == before[i]);
                } else {
                    assert(list[i] == before.last().push(path.last()));
                    if k < before.last().len() {
                        assert(list[i][k] == before[before.len() - 1][k]);
                    }
                }
            }
        }
    } else {
        assert(pieces(path)[0] =~= Seq::<char>::empty());
    }
}

/// What a piece of a path is as a component: nothing where it is empty, or a
/// `.` that does not lead; a step up where it is `..`; else its own name.
pub open spec fn read_as(piece: Seq<char>, leads: bool, component: Option<ComponentView>) -> bool {
    if piece.len() == 0 {
        component is None
    } else if piece == seq!['.'] {
        component == if leads {
            Some(ComponentView::CurDir)
        } else {
            None
        }
    } else if piece == seq!['.', '.'] {
        component == Some(ComponentView::ParentDir)
    } else {
        component == Some(ComponentView::Normal(piece))
    }
}

/// A path's components are its pieces in order, without the empty ones and
/// the dots that say nothing, behind a root where the path starts with a
/// slash.
pub proof fn components_are_the_pieces(path: Seq<char>) -> (at: Seq<int>)
    ensures
        ({
            let list = pieces(path);
            let root: int = if path.len() > 0 && path[0] == '/' {
                1
            } else {
                0
            };
            &&& components(path).len() == at.len() + root
            &&& root == 1 ==> components(path)[0] == ComponentView::RootDir
            &&& forall|j: int, k: int|
                #![trigger at[j], at[k]]
                0 <= j < k < at.len() ==> at[j] < at[k]
            &&& forall|k: int|
                #![trigger at[k]]
                0 <= k < at.len() ==> 0 <= at[k] < list.len() && read_as(
                    list[at[k]],
                    at[k] == 0,
                    Some(components(path)[k + root]),
                )
            &&& forall|i: int|
                #![trigger list[i]]
                0 <= i < list.len() && !at.contains(i) ==> read_as(list[i], i == 0, None)
        }),
{
    let list = pieces(path);
    let at = kept_pieces(list, list.len() as int);
    let root: int = if path.len() > 0 && path[0] == '/' {
        1
    } else {
        0
    };
    assert forall|k: int| #![trigger at[k]] 0 <= k < at.len() implies 0 <= at[k] < list.len()
        && read_as(list[at[k]], at[k] == 0, Some(components(path)[k + root])) by {
        assert(components(path)[k + root] == components_upto(list, list.len() as int)[k]);
    }
    at
}

/// Which of the first pieces are components.
proof fn kept_pieces(list: Seq<Seq<char>>, n: int) -> (at: Seq<int>)
    requires
        0 <= n <= list.len(),
    ensures
        at.len() == components_upto(list, n).len(),
        forall|j: int, k: int| #![trigger at[j], at[k]] 0 <= j < k < at.len() ==> at[j] < at[k],
        forall|k: int|
            #![trigger at[k]]
            0 <= k < at.len() ==> 0 <= at[k] < n && read_as(
                list[at[k]],
                at[k] == 0,
                Some(components_upto(list, n)[k]),
            ),
        forall|i: int|
            #![trigger list[i]]
            0 <= i < n && !at.contains(i) ==> read_as(list[i], i == 0, None),
    decreases n,
{
    if n <= 0 {
        Seq::empty()
    } else {
        let before = kept_pieces(list, n - 1);
        let piece = list[n - 1];
        let component = piece_component(piece, n == 1);
        reveal_strlit(".");
        reveal_strlit("..");
        assert("."@ =~= seq!['.']);
        assert(".."@ =~= seq!['.', '.']);
        assert(seq!['.'].len() == 1 && seq!['.', '.'].len() == 2);
        assert(read_as(piece, n == 1, component));
        let at = if component is Some {
            before.push(n - 1)
        } else {
            before
        };
        assert forall|k: int| #![trigger at[k]] 0 <= k < at.len() implies 0 <= at[k] < n
            && read_as(list[at[k]], at[k] == 0, Some(components_upto(list, n)[k])) by {
            if k < before.len() {
                assert(at[k] == before[k]);
            }
        }
        assert forall|j: int, k: int| #![trigger at[j], at[k]] 0 <= j < k < at.len() implies at[j]
            < at[k] by {
            assert(at[j] == before[j]);
            if k < before.len() {
                assert(at[k] == before[k]);
            }
        }
        assert forall|i: int| #![trigger list[i]] 0 <= i < n && !at.contains(i) implies read_as(
            list[i],
            i == 0,
            None,
        ) by {
            if i < n - 1 {
                if before.contains(i) {
                    let k = choose|k: int| 0 <= k < before.len() && before[k] == i;
                    assert(at[k] == i);
                }
            } else if component is Some {
                assert(at[before.len() as int] == i);
            }
        }
        at
    }
}

/// A path stays inside exactly when it is there, starts with no slash, and
/// none of its pieces steps up.
pub proof fn only_climbing_leaves(path: Seq<char>)
    ensures
        stays_inside(path) <==> path.len() > 0 && path[0] != '/' && forall|i: int|
            0 <= i < pieces(path).len() ==> #[trigger] pieces(path)[i] != seq!['.', '.'],
{
    let at = components_are_the_pieces(path);
    let list = pieces(path);
    let parts = components(path);
    let root: int = if path.len() > 0 && path[0] == '/' {
        1
    } else {
        0
    };
    if root == 1 {
        assert(parts[0] is RootDir);
    }
    if stays_inside(path) {
        assert forall|i: int| 0 <= i < list.len() implies #[trigger] list[i] != seq!['.', '.'] by {
            if at.contains(i) {
                let k = choose|k: int| 0 <= k < at.len() && at[k] == i;
                assert(read_as(list[at[k]], at[k] == 0, Some(parts[k + root])));
            }
        }
    }
    if root == 0 && path.len() > 0 && forall|i: int|
        0 <= i < list.len() ==> #[trigger] list[i] != seq!['.', '.'] {
        assert forall|k: int| 0 <= k < parts.len() implies (#[trigger] parts[k]) is Normal
            || parts[k] is CurDir by {
            assert(read_as(list[at[k]], at[k] == 0, Some(parts[k + root])));
        }
    }
}

/// A session file lies in a mount exactly when its path is the mount's name,
/// a slash, and something; what lies in it is that something. Any other path
/// is the root's, as it is.
pub proof fn session_files_lie_in_their_mount(mounts: Seq<Seq<char>>, path: Seq<char>)
    ensures
        session_target(mounts, path).0 is Some ==> {
            let mount = session_target(mounts, path).0->0;
            let rest = session_target(mounts, path).1;
            mounts.contains(mount) && !mount.contains('/') && rest.len() > 0 && path == mount
                + seq!['/'] + rest
        },
        session_target(mounts, path).0 is None ==> session_target(mounts, path).1 == path
            && forall|mount: Seq<char>, rest: Seq<char>|
            #![trigger mounts.contains(mount), mount + seq!['/'] + rest]
            mounts.contains(mount) && !mount.contains('/') && rest.len() > 0 ==> path != mount
                + seq!['/'] + rest,
{
    if path.contains('/') {
        path.index_of_first_ensures('/');
        let cut = path.index_of_first('/')->0;
        let first = path.take(cut);
        assert(path =~= first + seq!['/'] + path.skip(cut + 1));
        assert forall|k: int| 0 <= k < first.len() implies first[k] != '/' by {
            assert(first[k] == path[k]);
        }
    }
    assert forall|mount: Seq<char>, rest: Seq<char>|
        #![trigger mounts.contains(mount), mount + seq!['/'] + rest]
        mounts.contains(mount) && !mount.contains('/') && rest.len() > 0 && path == mount + seq![
            '/',
        ] + rest implies session_target(mounts, path).0 is Some by {
        assert(path[mount.len() as int] == '/');
        assert(path.contains('/'));
        path.index_of_first_ensures('/');
        let cut = path.index_of_first('/')->0;
        if cut < mount.len() {
            assert(mount[cut] == path[cut]);
            assert(mount.contains('/'));
        }
        assert(cut == mount.len());
        assert(path.take(cut) =~= mount);
        assert(path.skip(cut + 1) =~= rest);
    }
}

/// A text without a slash is one piece.
pub proof fn one_piece(name: Seq<char>)
    requires
        !name.contains('/'),
    ensures
        pieces(name) == seq![name],
    decreases name.len(),
{
    if name.len() > 0 {
        let rest = name.drop_last();
        assert forall|k: int| 0 <= k < rest.len() implies rest[k] != '/' by {
            assert(rest[k] == name[k]);
        }
        one_piece(rest);
        assert(name[name.len() - 1] != '/');
        assert(rest.push(name.last()) =~= name);
        assert(pieces(name) =~= seq![name]);
    } else {
        assert(name =~= Seq::empty());
        assert(pieces(name) =~= seq![name]);
    }
}

/// The first components go by the first pieces.
proof fn first_components(a: Seq<Seq<char>>, b: Seq<Seq<char>>, n: int)
    requires
        0 <= n <= a.len(),
        n <= b.len(),
        forall|i: int| #![trigger a[i]] 0 <= i < n ==> a[i] == b[i],
    ensures
        components_upto(a, n) == components_upto(b, n),
    decreases n,
{
    if n > 0 {
        first_components(a, b, n - 1);
        assert(a[n - 1] == b[n - 1]);
    }
}

/// A file is named by what stands behind the last slash; a slash at the end
/// names nothing new, and a path that ends in a step up has no name.
pub proof fn files_are_named_last(base: Seq<char>, name: Seq<char>)
    requires
        !name.contains('/'),
        name.len() > 0,
        name != seq!['.'],
        name != seq!['.', '.'],
    ensures
        file_name(name) == Some(name),
        file_name(base.push('/') + name) == Some(name),
        file_name(base.push('/') + seq!['.', '.']) is None,
        base.len() > 0 ==> file_name(base.push('/')) == file_name(base),
{
    reveal_strlit(".");
    reveal_strlit("..");
    assert("."@ =~= seq!['.']);
    assert(".."@ =~= seq!['.', '.']);
    assert(seq!['.'].len() == 1 && seq!['.', '.'].len() == 2);
    one_piece(name);
    assert(pieces(name)[0] == name);
    assert(components_upto(pieces(name), 1).last() == ComponentView::Normal(name));
    assert(components(name).last() == ComponentView::Normal(name));
    pieces_join(base, name);
    let path = base.push('/') + name;
    let list = pieces(path);
    assert(list.last() == name);
    assert(components_upto(list, list.len() as int).last() == ComponentView::Normal(name));
    assert(components(path).last() == ComponentView::Normal(name));
    let up = seq!['.', '.'];
    assert(up[0] == '.' && up[1] == '.');
    one_piece(up);
    pieces_join(base, up);
    let climbing = base.push('/') + up;
    let steps = pieces(climbing);
    assert(steps.last() == up);
    assert(components_upto(steps, steps.len() as int).last() == ComponentView::ParentDir);
    assert(components(climbing).last() == ComponentView::ParentDir);
    if base.len() > 0 {
        let slashed = base.push('/');
        assert(slashed.drop_last() =~= base);
        assert(slashed[0] == base[0]);
        let longer = pieces(slashed);
        assert(longer =~= pieces(base).push(Seq::empty()));
        first_components(pieces(base), longer, pieces(base).len() as int);
        pieces_nonempty(base);
        assert(components(slashed) =~= components(base));
    }
}

/// A path is not content exactly when it lies below the root, and the first
/// step below it is into one of the directories kept aside.
pub proof fn only_internals_are_not_content(root: Seq<char>, path: Seq<char>)
    ensures
        ({
            let base = components(root);
            let parts = components(path);
            let below = parts.len() > base.len() && forall|i: int|
                0 <= i < base.len() ==> #[trigger] parts[i] == base[i];
            let step = parts[base.len() as int];
            !is_content(root, path) <==> below && (step == ComponentView::Normal(".atelier"@)
                || step == ComponentView::Normal(".jj"@) || step == ComponentView::Normal(
                ".git"@,
            ))
        }),
{
    let base = components(root);
    let parts = components(path);
    if base.is_prefix_of(parts) {
        assert forall|i: int| 0 <= i < base.len() implies #[trigger] parts[i] == base[i] by {
            assert(parts.subrange(0, base.len() as int)[i] == base[i]);
        }
    }
    if parts.len() > base.len() && forall|i: int|
        0 <= i < base.len() ==> #[trigger] parts[i] == base[i] {
        assert(parts.subrange(0, base.len() as int) =~= base);
    }
}

} // verus!
