//! The text rung: plain text recognised in bytes, and the line-level
//! comparison of two texts.

use crate::model::{Line, LineKind, LineView, line_views};
use crate::words::{chars_of, owned, text_between};
use similar::{ChangeTag, TextDiff};
use vstd::prelude::*;
use vstd::utf8::{decode_utf8, encode_utf8, encode_utf8_decode_utf8, valid_utf8};

verus! {

/// `core::str::Utf8Error`, carried without looking inside.
#[verifier::external_type_specification]
#[verifier::external_body]
pub struct ExUtf8Error(core::str::Utf8Error);

/// `core::str::from_utf8` gives the text the bytes encode when they are
/// valid UTF-8, and an error otherwise.
pub assume_specification[ core::str::from_utf8 ](bytes: &[u8]) -> (r: Result<
    &str,
    core::str::Utf8Error,
>)
    ensures
        r is Ok <==> valid_utf8(bytes@),
        r is Ok ==> encode_utf8((r->Ok_0)@) == bytes@,
;

/// The bytes as text, when they are valid UTF-8 without NUL: the
/// precondition for diffing at the text rung without a projection.
pub fn as_text(bytes: &[u8]) -> (r: Option<&str>)
    ensures
        r is Some <==> valid_utf8(bytes@) && !decode_utf8(bytes@).contains('\0'),
        r is Some ==> (r->0)@ == decode_utf8(bytes@),
{
    match core::str::from_utf8(bytes) {
        Ok(text) => {
            proof {
                encode_utf8_decode_utf8(text@);
            }
            if crate::words::holds(text, '\0') {
                None
            } else {
                Some(text)
            }
        },
        Err(_) => None,
    }
}

/// The marker line carried after a changed line that has no trailing
/// newline, following git's convention, so a terminal-newline edit stays
/// visible in the comparison.
pub const NO_NEWLINE_MARKER: &'static str = "\\ no newline at end of file";

/// Which sides of a comparison a piece of text stands on.
#[derive(Debug, Clone, Copy, PartialEq, Eq, Structural)]
pub enum ChangeSide {
    /// On both sides.
    Both,
    /// On the before side only.
    Before,
    /// On the after side only.
    After,
}

/// One line of either text, its line ending included, with the sides it
/// stands on.
#[derive(Debug, Clone, PartialEq, Eq)]
pub struct LineChange {
    /// The sides the line stands on.
    pub side: ChangeSide,
    /// The line, its ending included.
    pub value: String,
}

/// What a [`LineChange`] says.
pub struct LineChangeView {
    pub side: ChangeSide,
    pub value: Seq<char>,
}

impl View for LineChange {
    type V = LineChangeView;

    open spec fn view(&self) -> LineChangeView {
        LineChangeView { side: self.side, value: self.value@ }
    }
}

/// What each of the changes says, in order.
pub open spec fn change_views(changes: Seq<LineChange>) -> Seq<LineChangeView> {
    changes.map_values(|change: LineChange| change@)
}

/// Whether a character begins a line behind another: lines end behind `\n`,
/// `\r\n`, and a `\r` alone.
pub open spec fn begins_line(before: char, c: char) -> bool {
    before == '\n' || (before == '\r' && c != '\n')
}

/// The lines of a text, each with its ending; the last may have none.
pub open spec fn lines_in(text: Seq<char>) -> Seq<Seq<char>>
    decreases text.len(),
{
    if text.len() == 0 {
        Seq::empty()
    } else {
        let lines = lines_in(text.drop_last());
        if text.len() == 1 || begins_line(text[text.len() - 2], text.last()) {
            lines.push(seq![text.last()])
        } else {
            lines.drop_last().push(lines.last().push(text.last()))
        }
    }
}

/// The lines of a comparison that do not stand only on the side `dropped`.
pub open spec fn lines_without(changes: Seq<LineChangeView>, dropped: ChangeSide) -> Seq<Seq<char>>
    decreases changes.len(),
{
    if changes.len() == 0 {
        Seq::empty()
    } else if changes.last().side == dropped {
        lines_without(changes.drop_last(), dropped)
    } else {
        lines_without(changes.drop_last(), dropped).push(changes.last().value)
    }
}

/// Whether a comparison is one of two texts, line by line: its lines without
/// those of one side are the lines of the other text, in order. What stands
/// on both sides is common to both.
pub open spec fn compares(
    changes: Seq<LineChangeView>,
    before: Seq<char>,
    after: Seq<char>,
) -> bool {
    &&& lines_without(changes, ChangeSide::After) == lines_in(before)
    &&& lines_without(changes, ChangeSide::Before) == lines_in(after)
}

/// The text left of a comparison when the lines that stand only on the side
/// `dropped` are taken out.
pub open spec fn without(changes: Seq<LineChangeView>, dropped: ChangeSide) -> Seq<char>
    decreases changes.len(),
{
    if changes.len() == 0 {
        Seq::empty()
    } else if changes.last().side == dropped {
        without(changes.drop_last(), dropped)
    } else {
        without(changes.drop_last(), dropped) + changes.last().value
    }
}

/// Whether the texts of a comparison can be read back from its changes:
/// taking out the lines of one side leaves the text of the other, and no
/// line is empty.
pub open spec fn spells_both(
    changes: Seq<LineChangeView>,
    before: Seq<char>,
    after: Seq<char>,
) -> bool {
    &&& without(changes, ChangeSide::After) == before
    &&& without(changes, ChangeSide::Before) == after
    &&& forall|i: int| 0 <= i < changes.len() ==> (#[trigger] changes[i]).value.len() > 0
}

/// Texts one behind the other.
pub open spec fn run_together(lines: Seq<Seq<char>>) -> Seq<char>
    decreases lines.len(),
{
    if lines.len() == 0 {
        Seq::empty()
    } else {
        run_together(lines.drop_last()) + lines.last()
    }
}

/// The lines of a text run together are the text, and none is empty.
proof fn lines_make_the_text(text: Seq<char>)
    ensures
        run_together(lines_in(text)) == text,
        forall|i: int| 0 <= i < lines_in(text).len() ==> (#[trigger] lines_in(text)[i]).len() > 0,
        text.len() > 0 ==> lines_in(text).len() > 0,
    decreases text.len(),
{
    if text.len() > 0 {
        let rest = text.drop_last();
        let c = text.last();
        let lines = lines_in(rest);
        lines_make_the_text(rest);
        assert(rest.push(c) =~= text);
        if text.len() == 1 || begins_line(text[text.len() - 2], c) {
            assert(lines.push(seq![c]).drop_last() =~= lines);
            assert(run_together(lines_in(text)) =~= text);
        } else {
            let grown = lines.last().push(c);
            assert(lines_in(text) == lines.drop_last().push(grown));
            assert(lines_in(text).drop_last() =~= lines.drop_last());
            assert(run_together(lines_in(text)) =~= run_together(lines.drop_last())
                + lines.last().push(c));
            assert(run_together(lines_in(text)) =~= text);
        }
        assert forall|i: int| 0 <= i < lines_in(text).len() implies (#[trigger] lines_in(
            text,
        )[i]).len() > 0 by {
            if i < lines_in(text).len() - 1 {
                assert(lines_in(text)[i] == lines[i]);
            }
        }
    }
}

/// The text left of a comparison is its lines run together.
proof fn left_lines_make_the_text(changes: Seq<LineChangeView>, dropped: ChangeSide)
    ensures
        run_together(lines_without(changes, dropped)) == without(changes, dropped),
    decreases changes.len(),
{
    if changes.len() > 0 {
        left_lines_make_the_text(changes.drop_last(), dropped);
        let lines = lines_without(changes.drop_last(), dropped);
        assert(lines.push(changes.last().value).drop_last() =~= lines);
    }
}

/// Every line of a comparison that does not stand only on the side `dropped`
/// is among those left without that side.
proof fn line_is_left(changes: Seq<LineChangeView>, dropped: ChangeSide, i: int)
    requires
        0 <= i < changes.len(),
        changes[i].side != dropped,
    ensures
        lines_without(changes, dropped).contains(changes[i].value),
    decreases changes.len(),
{
    let lines = lines_without(changes, dropped);
    let rest = lines_without(changes.drop_last(), dropped);
    if i == changes.len() - 1 {
        assert(lines[lines.len() - 1] == changes[i].value);
    } else {
        line_is_left(changes.drop_last(), dropped, i);
        let at = choose|at: int| 0 <= at < rest.len() && rest[at] == changes[i].value;
        assert(lines[at] == changes[i].value);
    }
}

/// A comparison of two texts lets both be read back.
pub proof fn comparisons_read_back(
    changes: Seq<LineChangeView>,
    before: Seq<char>,
    after: Seq<char>,
)
    requires
        compares(changes, before, after),
    ensures
        spells_both(changes, before, after),
{
    left_lines_make_the_text(changes, ChangeSide::After);
    left_lines_make_the_text(changes, ChangeSide::Before);
    lines_make_the_text(before);
    lines_make_the_text(after);
    assert forall|i: int| 0 <= i < changes.len() implies (#[trigger] changes[i]).value.len()
        > 0 by {
        let (dropped, text) = if changes[i].side == ChangeSide::After {
            (ChangeSide::Before, after)
        } else {
            (ChangeSide::After, before)
        };
        line_is_left(changes, dropped, i);
        let lines = lines_in(text);
        let at = choose|at: int| 0 <= at < lines.len() && lines[at] == changes[i].value;
        assert(lines[at].len() > 0);
    }
}

/// The changes `similar`'s `TextDiff::from_lines` finds between two texts,
/// flattened by `iter_all_changes`.
pub uninterp spec fn line_changes(before: Seq<char>, after: Seq<char>) -> Seq<LineChangeView>;

/// The line changes between two texts, from `similar`'s
/// `TextDiff::from_lines` and `iter_all_changes`.
///
/// The changes are a function of the two texts. Every line of either text
/// occurs once, in order, with its ending; equal texts have no line that
/// stands on one side only.
#[verifier::external_body]
pub(crate) fn compare_lines(before: &str, after: &str) -> (r: Vec<LineChange>)
    ensures
        change_views(r@) == line_changes(before@, after@),
        compares(change_views(r@), before@, after@),
        before@ == after@ ==> forall|i: int|
            0 <= i < r@.len() ==> (#[trigger] r@[i]).side == ChangeSide::Both,
{
    let diff = TextDiff::from_lines(before, after);
    let mut out = Vec::new();
    for change in diff.iter_all_changes() {
        let side = match change.tag() {
            ChangeTag::Equal => ChangeSide::Both,
            ChangeTag::Delete => ChangeSide::Before,
            ChangeTag::Insert => ChangeSide::After,
        };
        out.push(LineChange { side, value: change.value().to_owned() });
    }
    out
}

/// A line without its one trailing `\n`; a `\r` stays.
pub open spec fn chomped(value: Seq<char>) -> Seq<char> {
    if value.len() > 0 && value.last() == '\n' {
        value.drop_last()
    } else {
        value
    }
}

/// The lines one change is carried as: none when it stands on both sides,
/// else the line itself, followed by the marker when it has no trailing
/// newline.
pub open spec fn carried(change: LineChangeView) -> Seq<LineView> {
    if change.side == ChangeSide::Both {
        Seq::empty()
    } else {
        let kind = if change.side == ChangeSide::Before {
            LineKind::Removed
        } else {
            LineKind::Added
        };
        let line = LineView { kind, text: chomped(change.value) };
        if change.value.len() > 0 && change.value.last() == '\n' {
            seq![line]
        } else {
            seq![line, LineView { kind: LineKind::NoNewline, text: NO_NEWLINE_MARKER@ }]
        }
    }
}

/// The lines a comparison is carried as: those of its changes in turn.
pub open spec fn carried_lines(changes: Seq<LineChangeView>) -> Seq<LineView>
    decreases changes.len(),
{
    if changes.len() == 0 {
        Seq::empty()
    } else {
        carried_lines(changes.drop_last()) + carried(changes.last())
    }
}

/// The changed lines that carried lines tell of, each with the side it
/// stands on and its ending: a line ends in a newline unless the marker
/// follows it.
pub open spec fn told_changes(lines: Seq<LineView>) -> Seq<(LineKind, Seq<char>)>
    decreases lines.len(),
{
    if lines.len() == 0 {
        Seq::empty()
    } else if lines.last().kind != LineKind::NoNewline {
        told_changes(lines.drop_last()).push(
            (lines.last().kind, lines.last().text.push('\n')),
        )
    } else if lines.len() == 1 {
        Seq::empty()
    } else {
        let line = lines[lines.len() - 2];
        told_changes(lines.take(lines.len() - 2)).push((line.kind, line.text))
    }
}

/// The changes of a comparison that stand on one side, each as removed or
/// added.
pub open spec fn one_sided_changes(changes: Seq<LineChangeView>) -> Seq<(LineKind, Seq<char>)>
    decreases changes.len(),
{
    if changes.len() == 0 {
        Seq::empty()
    } else {
        let rest = one_sided_changes(changes.drop_last());
        match changes.last().side {
            ChangeSide::Both => rest,
            ChangeSide::Before => rest.push((LineKind::Removed, changes.last().value)),
            ChangeSide::After => rest.push((LineKind::Added, changes.last().value)),
        }
    }
}

/// The changed lines of both texts can be read back from the carried lines,
/// whole and in order: nothing of a line is lost but the newline that a
/// missing marker stands for. So two comparisons carried as the same lines
/// changed the same lines.
pub proof fn carried_lines_tell_the_changes(changes: Seq<LineChangeView>)
    ensures
        told_changes(carried_lines(changes)) == one_sided_changes(changes),
    decreases changes.len(),
{
    if changes.len() > 0 {
        let rest = changes.drop_last();
        let change = changes.last();
        let before = carried_lines(rest);
        let all = carried_lines(changes);
        carried_lines_tell_the_changes(rest);
        if change.side == ChangeSide::Both {
            assert(all =~= before);
        } else if change.value.len() > 0 && change.value.last() == '\n' {
            assert(all.drop_last() =~= before);
            assert(all.last().text.push('\n') =~= change.value);
        } else {
            assert(all.take(all.len() - 2) =~= before);
            assert(all[all.len() - 2].text =~= change.value);
            assert(all.last().kind == LineKind::NoNewline);
        }
    }
}

/// Every marker that is carried is the marker's own text, and follows a
/// changed line; a line that is changed is never carried under its kind.
pub proof fn markers_follow_lines(changes: Seq<LineChangeView>, i: int)
    requires
        0 <= i < carried_lines(changes).len(),
        carried_lines(changes)[i].kind == LineKind::NoNewline,
    ensures
        carried_lines(changes)[i].text == NO_NEWLINE_MARKER@,
        i > 0,
        carried_lines(changes)[i - 1].kind != LineKind::NoNewline,
    decreases changes.len(),
{
    if changes.len() > 0 {
        let before = carried_lines(changes.drop_last());
        if i < before.len() {
            assert(carried_lines(changes)[i] == before[i]);
            markers_follow_lines(changes.drop_last(), i);
            assert(carried_lines(changes)[i - 1] == before[i - 1]);
        }
    }
}

/// The lines of one kind among told changes.
pub open spec fn told_of(told: Seq<(LineKind, Seq<char>)>, kind: LineKind) -> Seq<Seq<char>>
    decreases told.len(),
{
    if told.len() == 0 {
        Seq::empty()
    } else if told.last().0 == kind {
        told_of(told.drop_last(), kind).push(told.last().1)
    } else {
        told_of(told.drop_last(), kind)
    }
}

/// What a comparison carries accounts for the whole difference: the lines of
/// the text before with the added ones are, as many times each, the lines of
/// the text after with the removed ones.
pub proof fn carried_lines_account_for_the_texts(
    changes: Seq<LineChangeView>,
    before: Seq<char>,
    after: Seq<char>,
)
    requires
        compares(changes, before, after),
    ensures
        ({
            let told = told_changes(carried_lines(changes));
            lines_in(before).to_multiset().add(told_of(told, LineKind::Added).to_multiset())
                == lines_in(after).to_multiset().add(
                told_of(told, LineKind::Removed).to_multiset(),
            )
        }),
{
    carried_lines_tell_the_changes(changes);
    sides_balance(changes);
}

/// The two sides of a comparison balance, line by line.
proof fn sides_balance(changes: Seq<LineChangeView>)
    ensures
        lines_without(changes, ChangeSide::After).to_multiset().add(
            told_of(one_sided_changes(changes), LineKind::Added).to_multiset(),
        ) == lines_without(changes, ChangeSide::Before).to_multiset().add(
            told_of(one_sided_changes(changes), LineKind::Removed).to_multiset(),
        ),
    decreases changes.len(),
{
    let none = Seq::<Seq<char>>::empty();
    if changes.len() > 0 {
        let rest = changes.drop_last();
        let change = changes.last();
        let told = one_sided_changes(rest);
        sides_balance(rest);
        let old_lines = lines_without(rest, ChangeSide::After);
        let new_lines = lines_without(rest, ChangeSide::Before);
        let added = told_of(told, LineKind::Added);
        let removed = told_of(told, LineKind::Removed);
        vstd::seq_lib::to_multiset_build(old_lines, change.value);
        vstd::seq_lib::to_multiset_build(new_lines, change.value);
        vstd::seq_lib::to_multiset_build(added, change.value);
        vstd::seq_lib::to_multiset_build(removed, change.value);
        if change.side == ChangeSide::Before {
            assert(told.push((LineKind::Removed, change.value)).drop_last() =~= told);
        } else if change.side == ChangeSide::After {
            assert(told.push((LineKind::Added, change.value)).drop_last() =~= told);
        }
        let a = lines_without(changes, ChangeSide::After).to_multiset();
        let b = told_of(one_sided_changes(changes), LineKind::Added).to_multiset();
        let c = lines_without(changes, ChangeSide::Before).to_multiset();
        let d = told_of(one_sided_changes(changes), LineKind::Removed).to_multiset();
        let prior = old_lines.to_multiset().add(added.to_multiset());
        assert(prior == new_lines.to_multiset().add(removed.to_multiset()));
        assert forall|line: Seq<char>| a.add(b).count(line) == c.add(d).count(line) by {
            assert(prior.count(line) == old_lines.to_multiset().count(line)
                + added.to_multiset().count(line));
            assert(prior.count(line) == new_lines.to_multiset().count(line)
                + removed.to_multiset().count(line));
        }
        assert(a.add(b) =~= c.add(d));
    } else {
        assert(lines_without(changes, ChangeSide::After) =~= none);
    }
}

/// The lines a comparison's changes are carried as.
pub fn lines_of_changes(changes: &Vec<LineChange>) -> (r: Vec<Line>)
    ensures
        line_views(r@) == carried_lines(change_views(changes@)),
{
    let mut lines: Vec<Line> = Vec::new();
    let ghost all = change_views(changes@);
    let mut i: usize = 0;
    assert(all.take(0) =~= Seq::<LineChangeView>::empty());
    assert(line_views(lines@) =~= Seq::<LineView>::empty());
    while i < changes.len()
        invariant
            i <= changes@.len(),
            all == change_views(changes@),
            line_views(lines@) == carried_lines(all.take(i as int)),
        decreases changes@.len() - i,
    {
        let change = &changes[i];
        let ghost seen = line_views(lines@);
        if change.side != ChangeSide::Both {
            let kind = match change.side {
                ChangeSide::Before => LineKind::Removed,
                _ => LineKind::Added,
            };
            let chars = chars_of(change.value.as_str());
            let n = chars.len();
            if n > 0 && chars[n - 1] == '\n' {
                let text = text_between(&chars, 0, n - 1);
                assert(text@ =~= chomped(change.value@));
                lines.push(Line { kind, text });
            } else {
                lines.push(Line { kind, text: owned(change.value.as_str()) });
                lines.push(Line { kind: LineKind::NoNewline, text: owned(NO_NEWLINE_MARKER) });
            }
        }
        proof {
            assert(line_views(lines@) =~= seen + carried(change@));
            assert(all.take(i + 1).drop_last() =~= all.take(i as int));
            assert(all.take(i + 1).last() == change@);
        }
        i = i + 1;
    }
    assert(all.take(all.len() as int) =~= all);
    lines
}

/// The text rung: the line-level comparison of two texts.
///
/// Only changed lines are carried, in document order; an unchanged line
/// yields nothing. The same inputs always yield the same lines. A carried
/// line strips its one trailing `\n` but keeps a `\r`, so a CRLF conversion
/// stays visible, and a changed line without any trailing newline is
/// followed by [`NO_NEWLINE_MARKER`].
pub fn diff_lines(before: &str, after: &str) -> (r: Vec<Line>)
    ensures
        line_views(r@) == carried_lines(line_changes(before@, after@)),
        compares(line_changes(before@, after@), before@, after@),
        spells_both(line_changes(before@, after@), before@, after@),
        r@.len() == 0 <==> before@ == after@,
        before@.len() == 0 ==> forall|i: int|
            0 <= i < r@.len() ==> (#[trigger] r@[i]).kind != LineKind::Removed,
        after@.len() == 0 ==> forall|i: int|
            0 <= i < r@.len() ==> (#[trigger] r@[i]).kind != LineKind::Added,
{
    let changes = compare_lines(before, after);
    let lines = lines_of_changes(&changes);
    proof {
        let views = change_views(changes@);
        comparisons_read_back(views, before@, after@);
        if before@ == after@ {
            assert forall|i: int| 0 <= i < views.len() implies (#[trigger] views[i]).side
                == ChangeSide::Both by {
                assert(views[i] == changes@[i]@);
            }
            unchanged_carries_nothing(views);
        } else {
            if line_views(lines@).len() == 0 {
                nothing_carried_means_equal(views);
            }
        }
        assert(line_views(lines@).len() == lines@.len());
        if before@.len() == 0 {
            absent_side(views, ChangeSide::After);
            one_sided(views, ChangeSide::After);
            assert forall|i: int| 0 <= i < lines@.len() implies (#[trigger] lines@[i]).kind
                != LineKind::Removed by {
                assert(line_views(lines@)[i].kind != LineKind::Removed);
            }
        }
        if after@.len() == 0 {
            absent_side(views, ChangeSide::Before);
            one_sided(views, ChangeSide::Before);
            assert forall|i: int| 0 <= i < lines@.len() implies (#[trigger] lines@[i]).kind
                != LineKind::Added by {
                assert(line_views(lines@)[i].kind != LineKind::Added);
            }
        }
    }
    lines
}

/// Changes that all stand on both sides carry no line.
proof fn unchanged_carries_nothing(changes: Seq<LineChangeView>)
    requires
        forall|i: int| 0 <= i < changes.len() ==> (#[trigger] changes[i]).side == ChangeSide::Both,
    ensures
        carried_lines(changes).len() == 0,
    decreases changes.len(),
{
    if changes.len() > 0 {
        unchanged_carries_nothing(changes.drop_last());
    }
}

/// Changes that carry no line leave the two texts equal.
proof fn nothing_carried_means_equal(changes: Seq<LineChangeView>)
    requires
        carried_lines(changes).len() == 0,
    ensures
        without(changes, ChangeSide::After) == without(changes, ChangeSide::Before),
    decreases changes.len(),
{
    if changes.len() > 0 {
        assert(carried(changes.last()).len() == 0);
        nothing_carried_means_equal(changes.drop_last());
    }
}

/// When taking out one side's lines leaves nothing, every line stands on
/// that side only.
proof fn absent_side(changes: Seq<LineChangeView>, dropped: ChangeSide)
    requires
        without(changes, dropped).len() == 0,
        forall|i: int| 0 <= i < changes.len() ==> (#[trigger] changes[i]).value.len() > 0,
    ensures
        forall|i: int| 0 <= i < changes.len() ==> (#[trigger] changes[i]).side == dropped,
    decreases changes.len(),
{
    if changes.len() > 0 {
        assert(changes.last() == changes[changes.len() - 1]);
        let rest = changes.drop_last();
        assert forall|i: int| 0 <= i < rest.len() implies (#[trigger] rest[i]).value.len() > 0 by {
            assert(rest[i] == changes[i]);
        }
        absent_side(rest, dropped);
        assert forall|i: int| 0 <= i < changes.len() implies (#[trigger] changes[i]).side
            == dropped by {
            if i < rest.len() {
                assert(rest[i] == changes[i]);
            }
        }
    }
}

/// Lines of one side only are carried as that side's kind, and markers.
proof fn one_sided(changes: Seq<LineChangeView>, side: ChangeSide)
    requires
        side != ChangeSide::Both,
        forall|i: int| 0 <= i < changes.len() ==> (#[trigger] changes[i]).side == side,
    ensures
        forall|i: int| 0 <= i < carried_lines(changes).len() ==> (
        #[trigger] carried_lines(changes)[i]).kind != (if side == ChangeSide::After {
            LineKind::Removed
        } else {
            LineKind::Added
        }),
    decreases changes.len(),
{
    if changes.len() > 0 {
        let rest = changes.drop_last();
        assert forall|i: int| 0 <= i < rest.len() implies (#[trigger] rest[i]).side == side by {
            assert(rest[i] == changes[i]);
        }
        one_sided(rest, side);
        assert(changes.last() == changes[changes.len() - 1]);
        let head = carried_lines(rest);
        let tail = carried(changes.last());
        assert forall|i: int| 0 <= i < carried_lines(changes).len() implies (
        #[trigger] carried_lines(changes)[i]).kind != (if side == ChangeSide::After {
            LineKind::Removed
        } else {
            LineKind::Added
        }) by {
            if i < head.len() {
                assert(carried_lines(changes)[i] == head[i]);
            } else {
                assert(carried_lines(changes)[i] == tail[i - head.len()]);
            }
        }
    }
}

/// A text's lines, run together, are the text; a line ends behind a line
/// feed, or a carriage return that no line feed follows, and nowhere else.
pub proof fn lines_end_at_line_ends(text: Seq<char>)
    ensures
        run_together(lines_in(text)) == text,
        text.len() > 0 ==> lines_in(text).len() > 0,
        forall|i: int|
            #![trigger lines_in(text)[i]]
            0 <= i < lines_in(text).len() ==> lines_in(text)[i].len() > 0 && (i < lines_in(
                text,
            ).len() - 1 ==> lines_in(text)[i].last() == '\n' || lines_in(text)[i].last()
                == '\r'),
        forall|i: int, k: int|
            #![trigger lines_in(text)[i][k]]
            0 <= i < lines_in(text).len() && 0 <= k < lines_in(text)[i].len() - 1 ==> lines_in(
                text,
            )[i][k] != '\n' && (lines_in(text)[i][k] == '\r' ==> lines_in(text)[i][k + 1]
                == '\n'),
        text.len() > 0 ==> lines_in(text).last().last() == text.last(),
    decreases text.len(),
{
    if text.len() > 0 {
        let rest = text.drop_last();
        let before = lines_in(rest);
        let lines = lines_in(text);
        let c = text.last();
        lines_end_at_line_ends(rest);
        assert(rest.push(c) =~= text);
        if text.len() == 1 || begins_line(text[text.len() - 2], c) {
            assert(lines.drop_last() =~= before);
            assert(run_together(lines) =~= text);
            if text.len() > 1 {
                assert(text[text.len() - 2] == rest.last());
            }
            assert forall|i: int, k: int|
                #![trigger lines[i][k]]
                0 <= i < lines.len() && 0 <= k < lines[i].len() - 1 implies lines[i][k] != '\n'
                && (lines[i][k] == '\r' ==> lines[i][k + 1] == '\n') by {
                if i < before.len() {
                    assert(lines[i] == before[i]);
                    assert(before[i][k] == lines[i][k]);
                }
            }
            assert forall|i: int| #![trigger lines[i]] 0 <= i < lines.len() implies lines[i].len()
                > 0 && (i < lines.len() - 1 ==> lines[i].last() == '\n' || lines[i].last()
                == '\r') by {
                if i < before.len() {
                    assert(lines[i] == before[i]);
                }
            }
        } else {
            let grown = before.last().push(c);
            assert(lines.drop_last() =~= before.drop_last());
            assert(lines.last() == grown);
            assert(run_together(before) == run_together(before.drop_last()) + before.last());
            assert(run_together(lines) =~= text);
            assert(text[text.len() - 2] == rest.last());
            assert forall|i: int, k: int|
                #![trigger lines[i][k]]
                0 <= i < lines.len() && 0 <= k < lines[i].len() - 1 implies lines[i][k] != '\n'
                && (lines[i][k] == '\r' ==> lines[i][k + 1] == '\n') by {
                if i < lines.len() - 1 {
                    assert(lines[i] == before[i]);
                    assert(before[i][k] == lines[i][k]);
                } else {
                    assert(lines[i] == grown);
                    assert(before[i] == before.last());
                    if k < before.last().len() - 1 {
                        assert(before[i][k] == lines[i][k]);
                        assert(before[i][k + 1] == lines[i][k + 1]);
                    } else {
                        assert(lines[i][k] == before.last().last());
                        assert(lines[i][k + 1] == c);
                    }
                }
            }
            assert forall|i: int| #![trigger lines[i]] 0 <= i < lines.len() implies lines[i].len()
                > 0 && (i < lines.len() - 1 ==> lines[i].last() == '\n' || lines[i].last()
                == '\r') by {
                if i < lines.len() - 1 {
                    assert(lines[i] == before[i]);
                }
            }
        }
    }
}

} // verus!
