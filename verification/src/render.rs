//! Diffs as printable lines: every face renders the same comparison
//! through this one path.

use crate::model::{Delta, DeltaKind, DeltaView, Diff, LineKind, LineView};
use crate::words::{chars_of, digit, digits, hex, hex_text, joined, owned, texts};
use vstd::prelude::*;

verus! {

/// Whether `c` is a control code: the C0 range, delete, or the C1 range.
pub open spec fn is_control(c: char) -> bool {
    c <= '\u{1f}' || '\u{7f}' <= c <= '\u{9f}'
}

/// Whether `c` is a bidi formatting character, which can visually reorder
/// or conceal text without being a control code.
pub open spec fn is_bidi(c: char) -> bool {
    c == '\u{061c}' || c == '\u{200e}' || c == '\u{200f}' || '\u{202a}' <= c <= '\u{202e}'
        || '\u{2066}' <= c <= '\u{2069}'
}

/// Whether printing `c` as it stands could disturb a terminal.
pub open spec fn is_unsafe(c: char) -> bool {
    (is_control(c) && c != '\t') || is_bidi(c)
}

/// `c` as `\u{..}`.
pub open spec fn unicode_escape(c: char) -> Seq<char> {
    seq!['\\', 'u', '{'] + hex(c as nat) + seq!['}']
}

/// How one character prints: a backslash doubles, an unsafe character is
/// spelled as an escape, every other character stays.
pub open spec fn escaped(c: char) -> Seq<char> {
    if c == '\\' {
        seq!['\\', '\\']
    } else if !is_unsafe(c) {
        seq![c]
    } else if c == '\0' {
        seq!['\\', '0']
    } else if c == '\r' {
        seq!['\\', 'r']
    } else if c == '\n' {
        seq!['\\', 'n']
    } else {
        unicode_escape(c)
    }
}

/// How a text prints: each of its characters in turn.
pub open spec fn printed(text: Seq<char>) -> Seq<char>
    decreases text.len(),
{
    if text.len() == 0 {
        Seq::empty()
    } else {
        escaped(text[0]) + printed(text.drop_first())
    }
}

/// A text followed by another prints as the one followed by the other.
pub proof fn printed_concat(a: Seq<char>, b: Seq<char>)
    ensures
        printed(a + b) == printed(a) + printed(b),
    decreases a.len(),
{
    if a.len() == 0 {
        assert(a + b =~= b);
        assert(printed(a) + printed(b) =~= printed(b));
    } else {
        assert((a + b).drop_first() =~= a.drop_first() + b);
        printed_concat(a.drop_first(), b);
        assert(printed(a + b) =~= printed(a) + printed(b));
    }
}

/// Whether `c` is a bidi formatting character.
fn is_bidi_control(c: char) -> (r: bool)
    ensures
        r == is_bidi(c),
{
    c == '\u{061c}' || c == '\u{200e}' || c == '\u{200f}' || ('\u{202a}' <= c && c <= '\u{202e}')
        || ('\u{2066}' <= c && c <= '\u{2069}')
}

/// How one character prints.
fn escape(c: char) -> (r: String)
    ensures
        r@ == escaped(c),
{
    let mut out = String::new();
    let control = c <= '\u{1f}' || ('\u{7f}' <= c && c <= '\u{9f}');
    if c == '\\' {
        out.push('\\');
        out.push('\\');
    } else if !((control && c != '\t') || is_bidi_control(c)) {
        out.push(c);
    } else if c == '\0' {
        out.push('\\');
        out.push('0');
    } else if c == '\r' {
        out.push('\\');
        out.push('r');
    } else if c == '\n' {
        out.push('\\');
        out.push('n');
    } else {
        out.push('\\');
        out.push('u');
        out.push('{');
        let code = hex_text(c as u64);
        out.push_str(code.as_str());
        out.push('}');
    }
    assert(out@ =~= escaped(c));
    out
}

/// The text with control characters escaped, so a diffed document cannot
/// inject escape sequences into the terminal that reads it; tabs stay
/// literal. Bidi formatting characters escape too. Literal backslashes
/// double, so text that merely spells an escape sequence never renders like
/// a real control character.
#[must_use]
pub fn printable(text: &str) -> (r: String)
    ensures
        r@ == printed(text@),
{
    let chars = chars_of(text);
    let mut out = String::new();
    let mut i: usize = 0;
    assert(text@.take(0) =~= Seq::<char>::empty());
    while i < chars.len()
        invariant
            i <= chars@.len(),
            chars@ == text@,
            out@ == printed(text@.take(i as int)),
        decreases chars@.len() - i,
    {
        let piece = escape(chars[i]);
        out.push_str(piece.as_str());
        proof {
            let c = text@[i as int];
            assert(text@.take(i + 1) =~= text@.take(i as int) + seq![c]);
            printed_concat(text@.take(i as int), seq![c]);
            assert(seq![c].drop_first() =~= Seq::<char>::empty());
            assert(printed(Seq::<char>::empty()) =~= Seq::<char>::empty());
            assert(printed(seq![c]) =~= escaped(c));
        }
        i = i + 1;
    }
    assert(text@.take(text@.len() as int) =~= text@);
    out
}

/// How a delta's kind is listed: added, deleted or modified.
pub open spec fn label(kind: DeltaKind) -> Seq<char> {
    match kind {
        DeltaKind::Added => "A"@,
        DeltaKind::Removed => "D"@,
        DeltaKind::Changed | DeltaKind::Moved => "M"@,
    }
}

/// How a delta's kind is listed.
fn delta_label(kind: DeltaKind) -> (r: &'static str)
    ensures
        r@ == label(kind),
{
    match kind {
        DeltaKind::Added => "A",
        DeltaKind::Removed => "D",
        DeltaKind::Changed | DeltaKind::Moved => "M",
    }
}

/// How one line of a comparison prints: behind its sign, or bare for the
/// synthetic marker, as git does. Content lines always carry a sign, so the
/// two can never collide.
pub open spec fn rendered_line(line: LineView) -> Seq<char> {
    match line.kind {
        LineKind::Removed => "-"@ + printed(line.text),
        LineKind::Added => "+"@ + printed(line.text),
        LineKind::NoNewline => line.text,
    }
}

/// A delta's listing line, and below it, indented, what a package says of the
/// difference in its format's own terms.
pub open spec fn rendered_heading(delta: DeltaView) -> Seq<Seq<char>> {
    let listing = printed(label(delta.kind) + " "@ + delta.address);
    match delta.summary {
        Some(summary) => seq![listing, "  "@ + printed(summary)],
        None => seq![listing],
    }
}

/// A delta's printed lines: its listing line and summary, then its line
/// comparison.
pub open spec fn rendered_delta(delta: DeltaView) -> Seq<Seq<char>> {
    rendered_heading(delta) + delta.lines.map_values(|line: LineView| rendered_line(line))
}

/// A diff's printed lines: those of its deltas in turn.
pub open spec fn rendered_diff(deltas: Seq<DeltaView>) -> Seq<Seq<char>>
    decreases deltas.len(),
{
    if deltas.len() == 0 {
        Seq::empty()
    } else {
        rendered_diff(deltas.drop_last()) + rendered_delta(deltas.last())
    }
}

/// The delta's listing line, the summary of a rich one below it, then its
/// line comparison when the ladder raised it to the text rung; a binary-rung
/// delta stays a bare listing.
pub fn render_delta(delta: &Delta) -> (r: Vec<String>)
    ensures
        texts(r@) == rendered_delta(delta@),
{
    let mut listing = joined(delta_label(delta.kind), " ");
    listing.push_str(delta.address.as_str());
    let mut rendered: Vec<String> = Vec::new();
    rendered.push(printable(listing.as_str()));
    if let Some(summary) = &delta.summary {
        rendered.push(joined("  ", printable(summary.as_str()).as_str()));
    }
    let mut i: usize = 0;
    let ghost heading = rendered_heading(delta@);
    assert(texts(rendered@) =~= heading);
    let ghost lines = delta@.lines.map_values(|line: LineView| rendered_line(line));
    assert(texts(rendered@) =~= heading + lines.take(0));
    while i < delta.lines.len()
        invariant
            i <= delta.lines@.len(),
            lines == delta@.lines.map_values(|line: LineView| rendered_line(line)),
            texts(rendered@) == heading + lines.take(i as int),
        decreases delta.lines@.len() - i,
    {
        let line = &delta.lines[i];
        let ghost seen = texts(rendered@);
        let text = match line.kind {
            LineKind::Removed => joined("-", printable(line.text.as_str()).as_str()),
            LineKind::Added => joined("+", printable(line.text.as_str()).as_str()),
            LineKind::NoNewline => owned(line.text.as_str()),
        };
        assert(delta@.lines[i as int] == line@);
        assert(text@ == lines[i as int]);
        rendered.push(text);
        assert(texts(rendered@) =~= seen.push(lines[i as int]));
        assert(lines.take(i + 1) =~= lines.take(i as int).push(lines[i as int]));
        i = i + 1;
        assert(texts(rendered@) =~= heading + lines.take(i as int));
    }
    assert(lines.take(lines.len() as int) =~= lines);
    rendered
}

/// The diff as printable lines.
#[must_use]
pub fn render_diff(diff: &Diff) -> (r: Vec<String>)
    ensures
        texts(r@) == rendered_diff(diff@),
{
    let mut rendered: Vec<String> = Vec::new();
    let mut i: usize = 0;
    assert(diff@.take(0) =~= Seq::<DeltaView>::empty());
    assert(texts(rendered@) =~= rendered_diff(diff@.take(0)));
    while i < diff.deltas.len()
        invariant
            i <= diff.deltas@.len(),
            texts(rendered@) == rendered_diff(diff@.take(i as int)),
        decreases diff.deltas@.len() - i,
    {
        let ghost seen = texts(rendered@);
        let mut more = render_delta(&diff.deltas[i]);
        let ghost added = texts(more@);
        rendered.append(&mut more);
        proof {
            assert(texts(rendered@) =~= seen + added);
            assert(diff@.take(i + 1).drop_last() =~= diff@.take(i as int));
            assert(diff@.take(i + 1).last() == diff.deltas@[i as int]@);
        }
        i = i + 1;
    }
    assert(diff@.take(diff@.len() as int) =~= diff@);
    rendered
}

// ---------------------------------------------------------------------
// What holds of every printed text.

/// Hexadecimal digits are digits and lowercase letters up to `f`.
proof fn hex_digits(n: nat)
    ensures
        digits(n, 16).len() > 0,
        forall|i: int| 0 <= i < digits(n, 16).len() ==> {
            let c = #[trigger] digits(n, 16)[i];
            '0' <= c <= '9' || 'a' <= c <= 'f'
        },
    decreases n,
{
    if n >= 16 {
        hex_digits(n / 16);
    }
}

/// Different numbers have different hexadecimal spellings.
proof fn hex_injective(a: nat, b: nat)
    requires
        digits(a, 16) == digits(b, 16),
    ensures
        a == b,
    decreases a,
{
    let x = digits(a, 16);
    let y = digits(b, 16);
    hex_digits(a / 16);
    hex_digits(b / 16);
    if a >= 16 {
        assert(x == digits(a / 16, 16).push(digit((a % 16) as int)));
        assert(x.last() == digit((a % 16) as int));
    } else {
        assert(x == seq![digit(a as int)]);
        assert(x.last() == digit(a as int));
    }
    if b >= 16 {
        assert(y == digits(b / 16, 16).push(digit((b % 16) as int)));
        assert(y.last() == digit((b % 16) as int));
    } else {
        assert(y == seq![digit(b as int)]);
        assert(y.last() == digit(b as int));
    }
    assert(x.last() == y.last());
    if a >= 16 && b >= 16 {
        assert(x.drop_last() =~= digits(a / 16, 16));
        assert(y.drop_last() =~= digits(b / 16, 16));
        hex_injective(a / 16, b / 16);
        digit_injective((a % 16) as int, (b % 16) as int);
    } else if a < 16 && b < 16 {
        digit_injective(a as int, b as int);
    }
}

/// Different digits have different characters.
proof fn digit_injective(d: int, e: int)
    requires
        0 <= d < 16,
        0 <= e < 16,
        digit(d) == digit(e),
    ensures
        d == e,
{
}

/// Two spellings of numbers, each ended by a closing brace, agree only when
/// the numbers do.
proof fn braced_hex_agrees(a: nat, x: Seq<char>, b: nat, y: Seq<char>)
    requires
        hex(a) + seq!['}'] + x == hex(b) + seq!['}'] + y,
    ensures
        a == b,
        x == y,
{
    let p = hex(a) + seq!['}'] + x;
    let q = hex(b) + seq!['}'] + y;
    hex_digits(a);
    hex_digits(b);
    let m = hex(a).len() as int;
    let n = hex(b).len() as int;
    assert(p[m] == '}');
    assert(q[n] == '}');
    if m < n {
        assert(q[m] == hex(b)[m]);
    } else if n < m {
        assert(p[n] == hex(a)[n]);
    }
    assert(hex(a) =~= p.take(m));
    assert(hex(b) =~= q.take(n));
    hex_injective(a, b);
    assert(x =~= p.skip(m + 1));
    assert(y =~= q.skip(n + 1));
}

/// The first character of a text can be read off its printed form.
proof fn first_escape_agrees(c: char, x: Seq<char>, d: char, y: Seq<char>)
    requires
        escaped(c) + x == escaped(d) + y,
    ensures
        c == d,
        x == y,
{
    let p = escaped(c) + x;
    let q = escaped(d) + y;
    assert(p[0] == escaped(c)[0]);
    assert(q[0] == escaped(d)[0]);
    if escaped(c).len() == 1 || escaped(d).len() == 1 {
        hex_digits(c as nat);
        hex_digits(d as nat);
        assert(c == d);
        assert(x =~= p.skip(1));
        assert(y =~= q.skip(1));
    } else {
        hex_digits(c as nat);
        hex_digits(d as nat);
        assert(p[1] == escaped(c)[1]);
        assert(q[1] == escaped(d)[1]);
        if escaped(c)[1] == 'u' {
            assert(p.skip(3) =~= hex(c as nat) + seq!['}'] + x);
            assert(q.skip(3) =~= hex(d as nat) + seq!['}'] + y);
            braced_hex_agrees(c as nat, x, d as nat, y);
        } else {
            assert(c == d);
            assert(x =~= p.skip(2));
            assert(y =~= q.skip(2));
        }
    }
}

/// Distinct texts print distinctly: a text that spells an escape sequence
/// never prints like the character the sequence stands for.
pub proof fn printed_is_injective(a: Seq<char>, b: Seq<char>)
    requires
        printed(a) == printed(b),
    ensures
        a == b,
    decreases a.len(),
{
    if a.len() > 0 {
        hex_digits(a[0] as nat);
        assert(escaped(a[0]).len() > 0);
    }
    if b.len() > 0 {
        hex_digits(b[0] as nat);
        assert(escaped(b[0]).len() > 0);
    }
    if a.len() == 0 || b.len() == 0 {
        assert(a.len() > 0 ==> printed(a).len() > 0);
        assert(b.len() > 0 ==> printed(b).len() > 0);
        assert(a.len() == 0 ==> printed(a).len() == 0);
        assert(b.len() == 0 ==> printed(b).len() == 0);
        assert(a =~= b);
    } else {
        first_escape_agrees(
            a[0],
            printed(a.drop_first()),
            b[0],
            printed(b.drop_first()),
        );
        printed_is_injective(a.drop_first(), b.drop_first());
        assert(a =~= seq![a[0]] + a.drop_first());
        assert(b =~= seq![b[0]] + b.drop_first());
    }
}

/// A printed text holds no control character but the tab, and no bidi
/// formatting character.
pub proof fn printed_is_safe(text: Seq<char>)
    ensures
        forall|i: int| 0 <= i < printed(text).len() ==> !is_unsafe(#[trigger] printed(text)[i]),
    decreases text.len(),
{
    if text.len() > 0 {
        let head = escaped(text[0]);
        let tail = printed(text.drop_first());
        printed_is_safe(text.drop_first());
        hex_digits(text[0] as nat);
        assert forall|i: int| 0 <= i < head.len() implies !is_unsafe(#[trigger] head[i]) by {
            if head.len() > 2 {
                let code = hex(text[0] as nat);
                if 3 <= i < 3 + code.len() {
                    assert(head[i] == code[i - 3]);
                }
            }
        }
        assert forall|i: int| 0 <= i < printed(text).len() implies !is_unsafe(
            #[trigger] printed(text)[i],
        ) by {
            if i < head.len() {
                assert(printed(text)[i] == head[i]);
            } else {
                assert(printed(text)[i] == tail[i - head.len()]);
            }
        }
    }
}

/// A text without backslashes and unsafe characters prints as it stands.
pub proof fn plain_text_prints_as_is(text: Seq<char>)
    requires
        forall|i: int| 0 <= i < text.len() ==> #[trigger] text[i] != '\\' && !is_unsafe(text[i]),
    ensures
        printed(text) == text,
    decreases text.len(),
{
    if text.len() > 0 {
        assert forall|i: int| 0 <= i < text.drop_first().len() implies #[trigger] text.drop_first()[i]
            != '\\' && !is_unsafe(text.drop_first()[i]) by {
            assert(text.drop_first()[i] == text[i + 1]);
        }
        plain_text_prints_as_is(text.drop_first());
        assert(printed(text) =~= text);
    } else {
        assert(printed(text) =~= text);
    }
}

/// No content line of a comparison prints like a marker line that begins
/// with a backslash: content always stands behind its sign.
pub proof fn content_never_prints_as_marker(content: LineView, marker: Seq<char>)
    requires
        content.kind != LineKind::NoNewline,
        marker.len() > 0 && marker[0] == '\\',
    ensures
        rendered_line(content) != marker,
{
    reveal_strlit("-");
    reveal_strlit("+");
    assert(rendered_line(content)[0] == '-' || rendered_line(content)[0] == '+');
}

/// A delta is labelled by what became of its document: `A` where it came,
/// `D` where it went, `M` where it stayed.
pub proof fn labels_tell_what_became(kind: DeltaKind)
    ensures
        label(kind) == seq!['A'] <==> kind == DeltaKind::Added,
        label(kind) == seq!['D'] <==> kind == DeltaKind::Removed,
        label(kind) == seq!['M'] <==> kind == DeltaKind::Changed || kind == DeltaKind::Moved,
{
    reveal_strlit("A");
    reveal_strlit("D");
    reveal_strlit("M");
    assert("A"@ =~= seq!['A']);
    assert("D"@ =~= seq!['D']);
    assert("M"@ =~= seq!['M']);
    assert(seq!['A'][0] == 'A' && seq!['D'][0] == 'D' && seq!['M'][0] == 'M');
}

/// A removed line is printed behind a `-`, an added one behind a `+`; the
/// marker of a missing line end stands as it is.
pub proof fn lines_are_marked(text: Seq<char>)
    ensures
        rendered_line(LineView { kind: LineKind::Removed, text }) == seq!['-'] + printed(text),
        rendered_line(LineView { kind: LineKind::Added, text }) == seq!['+'] + printed(text),
        rendered_line(LineView { kind: LineKind::NoNewline, text }) == text,
{
    reveal_strlit("-");
    reveal_strlit("+");
    assert("-"@ =~= seq!['-']);
    assert("+"@ =~= seq!['+']);
}

/// A delta prints its label and address, its summary set in where it has one,
/// and each of its lines in order; a diff prints its deltas in order.
pub proof fn deltas_print_whole(deltas: Seq<DeltaView>, delta: DeltaView)
    ensures
        ({
            let lines = rendered_delta(delta);
            let n: int = if delta.summary is Some {
                2
            } else {
                1
            };
            &&& lines.len() == n + delta.lines.len()
            &&& lines[0] == printed(label(delta.kind) + " "@ + delta.address)
            &&& delta.summary is Some ==> lines[1] == "  "@ + printed(delta.summary->0)
            &&& forall|i: int|
                #![trigger delta.lines[i]]
                0 <= i < delta.lines.len() ==> lines[n + i] == rendered_line(delta.lines[i])
            &&& rendered_diff(deltas.push(delta)) == rendered_diff(deltas) + lines
            &&& rendered_diff(Seq::empty()).len() == 0
        }),
{
    assert(deltas.push(delta).drop_last() =~= deltas);
}

/// Nothing printed moves the terminal or turns its text: no control
/// character but a tab, and no mark of direction, comes through.
pub proof fn nothing_printed_moves_the_terminal(text: Seq<char>, i: int)
    requires
        0 <= i < printed(text).len(),
    ensures
        ({
            let c = printed(text)[i];
            &&& c == '\t' || '\u{20}' <= c <= '\u{7e}' || c > '\u{9f}'
            &&& c != '\u{061c}' && c != '\u{200e}' && c != '\u{200f}'
            &&& !('\u{202a}' <= c <= '\u{202e}')
            &&& !('\u{2066}' <= c <= '\u{2069}')
        }),
{
    printed_is_safe(text);
    assert(!is_unsafe(printed(text)[i]));
}

/// Everything else is printed as it is, but a backslash, which is doubled.
pub proof fn safe_text_is_printed_as_it_is(c: char)
    ensures
        (c == '\t' || '\u{20}' <= c <= '\u{7e}' || '\u{a0}' <= c < '\u{061c}') && c != '\\'
            ==> escaped(c) == seq![c],
        escaped('\\') == seq!['\\', '\\'],
        escaped('\n') == seq!['\\', 'n'],
        escaped('\r') == seq!['\\', 'r'],
        escaped('\0') == seq!['\\', '0'],
{
}

} // verus!
