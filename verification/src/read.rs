//! Windowed reads: bounded content plus the cursor to continue from.

use crate::error::{Error, ErrorView};
use crate::package::PackageId;
use vstd::prelude::*;
use vstd::utf8::{
    encode_utf8,
    encode_utf8_valid_utf8,
    is_char_boundary,
    is_char_boundary_iff_not_is_continuation_byte,
    is_char_boundary_start_end_of_seq,
    is_continuation_byte,
    length_of_first_scalar,
    pop_first_scalar,
    valid_utf8,
    valid_utf8_split,
};

verus! {

/// The most bytes one read returns; also the default window. No unbounded
/// responses exist on the surface.
pub const MAX_READ_WINDOW: usize = 50_000;

/// Where in the text a read's content sits, in bytes of the text read: the
/// projection's for a projected document, the document's own otherwise.
#[derive(Debug, Clone, Copy, PartialEq, Eq, Structural)]
pub struct ReadWindow {
    pub start: usize,
    pub end: usize,
    pub total: usize,
}

/// One windowed read: bounded content plus the cursor to continue from.
#[derive(Debug, Clone, PartialEq, Eq)]
pub struct ReadResult {
    pub content: String,
    pub window: ReadWindow,
    /// The byte offset the next read starts at; `None` when this window
    /// reached the end.
    pub next: Option<usize>,
    /// The package whose projection was read; `None` for plain text.
    pub projected_by: Option<PackageId>,
}

/// The window size a caller asked for, bounded to `1..=MAX_READ_WINDOW`.
pub fn window_size(requested: Option<usize>) -> (r: Result<usize, Error>)
    ensures
        requested is None ==> r == Ok::<usize, Error>(MAX_READ_WINDOW),
        requested is Some && 1 <= requested->0 <= MAX_READ_WINDOW ==> r == Ok::<usize, Error>(
            requested->0,
        ),
        requested is Some && !(1 <= requested->0 <= MAX_READ_WINDOW) ==> r is Err && (r->Err_0)@
            == (ErrorView::WindowTooLarge { max: MAX_READ_WINDOW as nat }),
{
    match requested {
        None => Ok(MAX_READ_WINDOW),
        Some(size) => {
            if 1 <= size && size <= MAX_READ_WINDOW {
                Ok(size)
            } else {
                Err(Error::WindowTooLarge { max: MAX_READ_WINDOW })
            }
        },
    }
}

/// The first character boundary at or after `at`.
pub open spec fn boundary_from(bytes: Seq<u8>, at: int) -> int
    decreases bytes.len() - at,
{
    if at >= bytes.len() || is_char_boundary(bytes, at) {
        at
    } else {
        boundary_from(bytes, at + 1)
    }
}

/// The last character boundary at or before `at`.
pub open spec fn boundary_upto(bytes: Seq<u8>, at: int) -> int
    decreases at,
{
    if at <= 0 || is_char_boundary(bytes, at) {
        at
    } else {
        boundary_upto(bytes, at - 1)
    }
}

/// The lesser of two numbers.
pub open spec fn lesser(a: int, b: int) -> int {
    if a < b {
        a
    } else {
        b
    }
}

/// Where a window asked for at byte `start` begins.
pub open spec fn window_start(bytes: Seq<u8>, start: int) -> int {
    boundary_from(bytes, lesser(start, bytes.len() as int))
}

/// Where a window of at most `size` bytes asked for at byte `start` ends.
pub open spec fn window_end(bytes: Seq<u8>, start: int, size: int) -> int {
    let from = window_start(bytes, start);
    let upto = boundary_upto(bytes, lesser(from + size, bytes.len() as int));
    if upto < from {
        from
    } else {
        upto
    }
}

/// The first boundary at or after a position is a boundary, and within the
/// text.
proof fn boundary_from_is_boundary(bytes: Seq<u8>, at: int)
    requires
        valid_utf8(bytes),
        0 <= at <= bytes.len(),
    ensures
        at <= boundary_from(bytes, at) <= bytes.len(),
        is_char_boundary(bytes, boundary_from(bytes, at)),
    decreases bytes.len() - at,
{
    is_char_boundary_start_end_of_seq(bytes);
    if at < bytes.len() && !is_char_boundary(bytes, at) {
        boundary_from_is_boundary(bytes, at + 1);
    }
}

/// The last boundary at or before a position is a boundary, and no other
/// boundary lies between.
proof fn boundary_upto_is_boundary(bytes: Seq<u8>, at: int)
    requires
        valid_utf8(bytes),
        0 <= at <= bytes.len(),
    ensures
        0 <= boundary_upto(bytes, at) <= at,
        is_char_boundary(bytes, boundary_upto(bytes, at)),
        forall|i: int| boundary_upto(bytes, at) < i <= at ==> !is_char_boundary(bytes, i),
    decreases at,
{
    is_char_boundary_start_end_of_seq(bytes);
    if at > 0 && !is_char_boundary(bytes, at) {
        boundary_upto_is_boundary(bytes, at - 1);
    }
}

/// The first character boundary of `text` at or after `at`.
fn snap_forward(text: &str, at: usize) -> (r: usize)
    requires
        at <= encode_utf8(text@).len(),
    ensures
        r == boundary_from(encode_utf8(text@), at as int),
{
    let total = text.as_bytes().len();
    let mut at: usize = at;
    let ghost start = at as int;
    while at < total && !text.is_char_boundary(at)
        invariant
            total == encode_utf8(text@).len(),
            at <= total,
            boundary_from(encode_utf8(text@), start) == boundary_from(encode_utf8(text@), at as int),
        decreases total - at,
    {
        at = at + 1;
    }
    at
}

/// The last character boundary of `text` at or before `at`.
fn snap_back(text: &str, at: usize) -> (r: usize)
    requires
        at <= encode_utf8(text@).len(),
    ensures
        r == boundary_upto(encode_utf8(text@), at as int),
{
    let mut at: usize = at;
    let ghost start = at as int;
    while at > 0 && !text.is_char_boundary(at)
        invariant
            boundary_upto(encode_utf8(text@), start) == boundary_upto(encode_utf8(text@), at as int),
        decreases at,
    {
        at = at - 1;
    }
    at
}

/// The window of `text` starting at byte `start`, at most `size` bytes,
/// both edges snapped to character boundaries so the content stays valid
/// UTF-8. A start at or past the end yields an empty window at the end.
pub fn window_text(
    text: &str,
    start: usize,
    size: usize,
    projected_by: Option<PackageId>,
) -> (r: ReadResult)
    ensures
        r.window.start == window_start(encode_utf8(text@), start as int),
        r.window.end == window_end(encode_utf8(text@), start as int, size as int),
        r.window.total == encode_utf8(text@).len(),
        encode_utf8(r.content@) == encode_utf8(text@).subrange(
            r.window.start as int,
            r.window.end as int,
        ),
        r.next == if r.window.end < r.window.total {
            Some(r.window.end)
        } else {
            None
        },
        r.projected_by == projected_by,
{
    let ghost bytes = encode_utf8(text@);
    proof {
        encode_utf8_valid_utf8(text@);
    }
    let total = text.as_bytes().len();
    let asked: usize = if start < total {
        start
    } else {
        total
    };
    let from = snap_forward(text, asked);
    proof {
        boundary_from_is_boundary(bytes, asked as int);
    }
    let limit: usize = if size < total - from {
        from + size
    } else {
        total
    };
    let upto = snap_back(text, limit);
    proof {
        boundary_upto_is_boundary(bytes, limit as int);
    }
    let end: usize = if upto < from {
        from
    } else {
        upto
    };
    let (head, _) = text.split_at(end);
    proof {
        valid_utf8_split(bytes, end as int);
        assert(encode_utf8(head@) =~= bytes.subrange(0, end as int));
        window_edge(bytes, from as int, end as int);
    }
    let (_, content) = head.split_at(from);
    proof {
        assert(encode_utf8(content@) =~= bytes.subrange(from as int, end as int));
    }
    ReadResult {
        content: content.to_owned(),
        window: ReadWindow { start: from, end, total },
        next: if end < total {
            Some(end)
        } else {
            None
        },
        projected_by,
    }
}

/// A boundary of a text is a boundary of every longer head of it.
proof fn window_edge(bytes: Seq<u8>, from: int, end: int)
    requires
        valid_utf8(bytes),
        0 <= from <= end <= bytes.len(),
        is_char_boundary(bytes, from),
        is_char_boundary(bytes, end),
    ensures
        valid_utf8(bytes.subrange(0, end)),
        is_char_boundary(bytes.subrange(0, end), from),
{
    valid_utf8_split(bytes, end);
    let head = bytes.subrange(0, end);
    is_char_boundary_start_end_of_seq(head);
    if from < end {
        is_char_boundary_iff_not_is_continuation_byte(bytes, from);
        is_char_boundary_iff_not_is_continuation_byte(head, from);
        assert(head[from] == bytes[from]);
        assert(is_continuation_byte(head[from]) == is_continuation_byte(bytes[from]));
    } else {
        assert(from == head.len());
    }
}

// ---------------------------------------------------------------------
// What holds of every window.

/// A window never spans more bytes than were asked for, lies within the
/// text, and has character boundaries for its edges.
pub proof fn windows_are_bounded(text: Seq<char>, start: int, size: int)
    requires
        0 <= start,
        0 <= size,
    ensures
        ({
            let bytes = encode_utf8(text);
            let from = window_start(bytes, start);
            let end = window_end(bytes, start, size);
            &&& 0 <= from <= end <= bytes.len()
            &&& end - from <= size
            &&& is_char_boundary(bytes, from)
            &&& is_char_boundary(bytes, end)
        }),
{
    let bytes = encode_utf8(text);
    encode_utf8_valid_utf8(text);
    boundary_from_is_boundary(bytes, lesser(start, bytes.len() as int));
    let from = window_start(bytes, start);
    boundary_upto_is_boundary(bytes, lesser(from + size, bytes.len() as int));
}

/// The next window starts exactly where a window ended.
pub proof fn windows_chain(text: Seq<char>, start: int, size: int)
    requires
        0 <= start,
        0 <= size,
    ensures
        window_start(encode_utf8(text), window_end(encode_utf8(text), start, size)) == window_end(
            encode_utf8(text),
            start,
            size,
        ),
{
    windows_are_bounded(text, start, size);
}

/// A window that can hold any one character holds at least one, unless the
/// text has ended.
pub proof fn windows_progress(text: Seq<char>, start: int, size: int)
    requires
        0 <= start,
        4 <= size,
        window_start(encode_utf8(text), start) < encode_utf8(text).len(),
    ensures
        window_end(encode_utf8(text), start, size) > window_start(encode_utf8(text), start),
{
    let bytes = encode_utf8(text);
    let from = window_start(bytes, start);
    encode_utf8_valid_utf8(text);
    boundary_from_is_boundary(bytes, lesser(start, bytes.len() as int));
    valid_utf8_split(bytes, from);
    let rest = bytes.subrange(from, bytes.len() as int);
    let step = length_of_first_scalar(rest);
    assert(1 <= step <= 4 && step <= rest.len());
    let next = from + step;
    is_char_boundary_start_end_of_seq(bytes);
    if next < bytes.len() {
        is_char_boundary_start_end_of_seq(pop_first_scalar(rest));
        assert(is_char_boundary(rest, step));
        is_char_boundary_iff_not_is_continuation_byte(rest, step);
        is_char_boundary_iff_not_is_continuation_byte(bytes, next);
        assert(rest[step] == bytes[next]);
        assert(is_continuation_byte(rest[step]) == is_continuation_byte(bytes[next]));
    }
    assert(is_char_boundary(bytes, next));
    boundary_upto_is_boundary(bytes, lesser(from + size, bytes.len() as int));
}

/// What reading on from byte `start`, window after window, gives back.
pub open spec fn read_on(bytes: Seq<u8>, start: int, size: int) -> Seq<u8>
    decreases bytes.len() - start,
{
    let from = window_start(bytes, start);
    let end = window_end(bytes, start, size);
    if end <= start || end > bytes.len() {
        Seq::empty()
    } else {
        bytes.subrange(from, end) + read_on(bytes, end, size)
    }
}

/// Windows chained from the start of a text reassemble it, provided they
/// can hold any one character.
pub proof fn windows_reassemble(text: Seq<char>, size: int)
    requires
        4 <= size,
    ensures
        read_on(encode_utf8(text), 0, size) == encode_utf8(text),
{
    encode_utf8_valid_utf8(text);
    is_char_boundary_start_end_of_seq(encode_utf8(text));
    reassembles_from(text, 0, size);
    assert(encode_utf8(text).skip(0) =~= encode_utf8(text));
}

proof fn reassembles_from(text: Seq<char>, start: int, size: int)
    requires
        4 <= size,
        0 <= start <= encode_utf8(text).len(),
        is_char_boundary(encode_utf8(text), start),
    ensures
        read_on(encode_utf8(text), start, size) == encode_utf8(text).skip(start),
    decreases encode_utf8(text).len() - start,
{
    let bytes = encode_utf8(text);
    windows_are_bounded(text, start, size);
    assert(window_start(bytes, start) == start);
    let end = window_end(bytes, start, size);
    if start < bytes.len() {
        windows_progress(text, start, size);
        reassembles_from(text, end, size);
        assert(bytes.subrange(start, end) + bytes.skip(end) =~= bytes.skip(start));
    } else {
        assert(read_on(bytes, start, size) =~= bytes.skip(start));
    }
}

/// A window starts at the first character at or behind where it was asked
/// for: no character in between is passed over.
pub proof fn windows_start_where_asked(text: Seq<char>, start: int)
    requires
        0 <= start,
    ensures
        ({
            let bytes = encode_utf8(text);
            let from = window_start(bytes, start);
            &&& start >= bytes.len() ==> from == bytes.len()
            &&& start < bytes.len() ==> from >= start && forall|at: int|
                start <= at < from ==> !#[trigger] is_char_boundary(bytes, at)
        }),
{
    let bytes = encode_utf8(text);
    if start < bytes.len() {
        nothing_is_passed_over(bytes, start);
    }
}

/// No boundary lies between a place and the first one from it.
proof fn nothing_is_passed_over(bytes: Seq<u8>, at: int)
    requires
        0 <= at <= bytes.len(),
    ensures
        boundary_from(bytes, at) >= at,
        forall|k: int|
            at <= k < boundary_from(bytes, at) ==> !#[trigger] is_char_boundary(bytes, k),
    decreases bytes.len() - at,
{
    if at < bytes.len() && !is_char_boundary(bytes, at) {
        nothing_is_passed_over(bytes, at + 1);
    }
}

} // verus!
