//! The store of derived projections: where an entry lives, what it says, and
//! when it can be trusted.

use crate::config::{join_path, path_under};
use crate::package::{PackageId, PackageView, package_label};
use crate::words::{
    begins,
    begins_with,
    chars_of,
    decimal,
    decimal_text,
    digit,
    digit_char,
    joined,
    opt_text,
    same,
    text_between,
};
use sha2::{Digest, Sha256};
use vstd::prelude::*;
use vstd::utf8::encode_utf8;

verus! {

/// The control directory's subdirectory of projections.
pub const PROJECTIONS_DIR: &'static str = "projections";

// ---------------------------------------------------------------------
// Digests.

/// The SHA-256 digest of some bytes, as `sha2`'s `Sha256::digest` gives it.
pub uninterp spec fn sha256_digest(bytes: Seq<u8>) -> Seq<u8>;

/// The SHA-256 digest of some bytes, by `sha2`'s `Sha256::digest`: a function
/// of the bytes alone, 32 bytes long.
#[verifier::external_body]
pub(crate) fn sha256(bytes: &[u8]) -> (r: Vec<u8>)
    ensures
        r@ == sha256_digest(bytes@),
        r@.len() == 32,
{
    Sha256::digest(bytes).to_vec()
}

/// Bytes in lowercase hexadecimal, two digits each.
pub open spec fn hex_bytes(bytes: Seq<u8>) -> Seq<char>
    decreases bytes.len(),
{
    if bytes.len() == 0 {
        Seq::empty()
    } else {
        hex_bytes(bytes.drop_last()) + seq![
            digit(bytes.last() as int / 16),
            digit(bytes.last() as int % 16),
        ]
    }
}

/// Bytes in lowercase hexadecimal, two digits each.
pub fn hex_of(bytes: &Vec<u8>) -> (r: String)
    ensures
        r@ == hex_bytes(bytes@),
{
    let mut out = String::new();
    let mut i: usize = 0;
    assert(bytes@.take(0) =~= Seq::empty());
    assert(out@ =~= hex_bytes(bytes@.take(0)));
    while i < bytes.len()
        invariant
            i <= bytes@.len(),
            out@ == hex_bytes(bytes@.take(i as int)),
        decreases bytes@.len() - i,
    {
        let ghost before = out@;
        assert(bytes@.take(i + 1).drop_last() =~= bytes@.take(i as int));
        assert(bytes@.take(i + 1).last() == bytes@[i as int]);
        out.push(digit_char(bytes[i] / 16));
        out.push(digit_char(bytes[i] % 16));
        assert(out@ =~= before + seq![
            digit(bytes@[i as int] as int / 16),
            digit(bytes@[i as int] as int % 16),
        ]);
        i = i + 1;
    }
    assert(bytes@.take(bytes@.len() as int) =~= bytes@);
    out
}

/// The digits of bytes are never a newline, and two for each byte.
pub proof fn hex_is_one_line(bytes: Seq<u8>)
    ensures
        hex_bytes(bytes).len() == 2 * bytes.len(),
        !hex_bytes(bytes).contains('\n'),
    decreases bytes.len(),
{
    if bytes.len() > 0 {
        hex_is_one_line(bytes.drop_last());
        let head = hex_bytes(bytes.drop_last());
        let whole = hex_bytes(bytes);
        assert forall|i: int| 0 <= i < whole.len() implies whole[i] != '\n' by {
            if i < head.len() {
                assert(whole[i] == head[i]);
                assert(head.contains(head[i]));
            }
        }
    }
}

/// The content id of some bytes: their digest in hexadecimal.
pub fn content_id(bytes: &[u8]) -> (r: String)
    ensures
        r@ == hex_bytes(sha256_digest(bytes@)),
{
    hex_of(&sha256(bytes))
}

/// The digest of a text, in hexadecimal.
pub fn hex_sha256(text: &str) -> (r: String)
    ensures
        r@ == hex_bytes(sha256_digest(encode_utf8(text@))),
        r@.len() == 64,
        !r@.contains('\n'),
{
    let digest = sha256(text.as_bytes());
    proof {
        hex_is_one_line(digest@);
    }
    hex_of(&digest)
}

// ---------------------------------------------------------------------
// Entries.

/// What an entry says: its text behind the text's digest on a line of its
/// own. The digest is given.
pub open spec fn entry_with(digest: Seq<char>, text: Seq<char>) -> Seq<char> {
    digest + "\n"@ + text
}

/// The entry of a projection's text.
pub open spec fn entry_text(text: Seq<char>) -> Seq<char> {
    entry_with(hex_bytes(sha256_digest(encode_utf8(text))), text)
}

/// Write down a text behind its digest.
pub fn entry_behind(digest: &str, text: &str) -> (r: String)
    ensures
        r@ == entry_with(digest@, text@),
{
    let mut out = joined(digest, "\n");
    out.push_str(text);
    out
}

/// Write down a projection's text as an entry.
pub fn entry_of_text(text: &str) -> (r: String)
    ensures
        r@ == entry_text(text@),
{
    entry_behind(hex_sha256(text).as_str(), text)
}

/// The first line of a text and what follows it, when it has a newline.
pub open spec fn first_line(text: Seq<char>) -> Option<(Seq<char>, Seq<char>)>
    decreases text.len(),
{
    if text.len() == 0 {
        None
    } else if text[0] == '\n' {
        Some((Seq::empty(), text.drop_first()))
    } else {
        match first_line(text.drop_first()) {
            Some((line, rest)) => Some((seq![text[0]] + line, rest)),
            None => None,
        }
    }
}

/// A text whose first newline stands at `at` parts there.
proof fn parts_at(text: Seq<char>, at: int)
    requires
        0 <= at < text.len(),
        text[at] == '\n',
        forall|i: int| 0 <= i < at ==> text[i] != '\n',
    ensures
        first_line(text) == Some((text.take(at), text.skip(at + 1))),
    decreases at,
{
    if at == 0 {
        assert(text.take(0) =~= Seq::empty());
        assert(text.skip(1) =~= text.drop_first());
    } else {
        let rest = text.drop_first();
        assert(rest[at - 1] == '\n');
        assert forall|i: int| 0 <= i < at - 1 implies rest[i] != '\n' by {
            assert(rest[i] == text[i + 1]);
        }
        parts_at(rest, at - 1);
        assert(seq![text[0]] + rest.take(at - 1) =~= text.take(at));
        assert(rest.skip(at - 1 + 1) =~= text.skip(at + 1));
    }
}

/// A text without a newline has no first line.
proof fn parts_nowhere(text: Seq<char>)
    requires
        forall|i: int| 0 <= i < text.len() ==> text[i] != '\n',
    ensures
        first_line(text) is None,
    decreases text.len(),
{
    if text.len() > 0 {
        let rest = text.drop_first();
        assert forall|i: int| 0 <= i < rest.len() implies rest[i] != '\n' by {
            assert(rest[i] == text[i + 1]);
        }
        parts_nowhere(rest);
    }
}

/// The first line of a text and what follows it, when it has a newline.
pub fn split_line(text: &str) -> (r: Option<(String, String)>)
    ensures
        match r {
            Some((line, rest)) => first_line(text@) == Some((line@, rest@)),
            None => first_line(text@) is None,
        },
{
    let chars = chars_of(text);
    let mut at: usize = 0;
    while at < chars.len() && chars[at] != '\n'
        invariant
            at <= chars@.len(),
            chars@ == text@,
            forall|i: int| 0 <= i < at ==> text@[i] != '\n',
        decreases chars@.len() - at,
    {
        at = at + 1;
    }
    if at == chars.len() {
        proof {
            parts_nowhere(text@);
        }
        return None;
    }
    proof {
        parts_at(text@, at as int);
    }
    let line = text_between(&chars, 0, at);
    let rest = text_between(&chars, at + 1, chars.len());
    assert(line@ =~= text@.take(at as int));
    assert(rest@ =~= text@.skip(at + 1));
    Some((line, rest))
}

/// What an entry holds, when it can be trusted: the text behind its first
/// line, if that line is the text's digest.
pub open spec fn trusted_text(entry: Seq<char>) -> Option<Seq<char>> {
    match first_line(entry) {
        Some((digest, text)) => if digest == hex_bytes(sha256_digest(encode_utf8(text))) {
            Some(text)
        } else {
            None
        },
        None => None,
    }
}

/// What an entry holds, when it can be trusted. Anything else counts as a
/// miss: the store is derived, and projecting again heals it.
pub fn read_entry(entry: &str) -> (r: Option<String>)
    ensures
        opt_text(r) == trusted_text(entry@),
{
    match split_line(entry) {
        Some((digest, text)) => {
            let actual = hex_sha256(text.as_str());
            judge_entry(digest.as_str(), text, actual.as_str())
        },
        None => None,
    }
}

/// An entry's text, when the digest recorded with it is its actual one.
pub fn judge_entry(recorded: &str, text: String, actual: &str) -> (r: Option<String>)
    ensures
        recorded@ == actual@ ==> r == Some(text),
        recorded@ != actual@ ==> r is None,
{
    if same(recorded, actual) {
        Some(text)
    } else {
        None
    }
}

/// A published entry reads back as the text it was written for.
pub proof fn published_reads_back(text: Seq<char>)
    ensures
        trusted_text(entry_text(text)) == Some(text),
{
    let digest = hex_bytes(sha256_digest(encode_utf8(text)));
    hex_is_one_line(sha256_digest(encode_utf8(text)));
    reveal_strlit("\n");
    let entry = entry_text(text);
    let at = digest.len() as int;
    assert(entry[at] == '\n');
    assert forall|i: int| 0 <= i < at implies entry[i] != '\n' by {
        assert(entry[i] == digest[i]);
        assert(digest.contains(digest[i]));
    }
    parts_at(entry, at);
    assert(entry.take(at) =~= digest);
    assert(entry.skip(at + 1) =~= text);
}

/// A text that parts at a newline is its first line, that newline, and the
/// rest.
proof fn parted_is_whole(text: Seq<char>)
    ensures
        first_line(text) matches Some((line, rest)) ==> text == line + seq!['\n'] + rest,
    decreases text.len(),
{
    if text.len() > 0 {
        if text[0] == '\n' {
            assert(text =~= Seq::<char>::empty() + seq!['\n'] + text.drop_first());
        } else {
            parted_is_whole(text.drop_first());
            if let Some((line, rest)) = first_line(text.drop_first()) {
                assert(text =~= seq![text[0]] + text.drop_first());
                assert(seq![text[0]] + (line + seq!['\n'] + rest) =~= (seq![text[0]] + line)
                    + seq!['\n'] + rest);
            }
        }
    }
}

/// Only what publishing writes is trusted: an entry that reads as a text is
/// that text's entry.
pub proof fn trusted_was_published(entry: Seq<char>)
    ensures
        trusted_text(entry) matches Some(text) ==> entry == entry_text(text),
{
    parted_is_whole(entry);
    reveal_strlit("\n");
    assert("\n"@ =~= seq!['\n']);
}

// ---------------------------------------------------------------------
// Where entries live.

/// The store of derived projections under the control directory: never part
/// of history, keyed by package and content. A package's output is a
/// function of its input, so an entry stays valid; a new package version
/// writes under a new key.
#[derive(Debug, Clone, PartialEq, Eq)]
pub struct ProjectionCache {
    dir: String,
}

impl View for ProjectionCache {
    type V = Seq<char>;

    /// The store's directory.
    closed spec fn view(&self) -> Seq<char> {
        self.dir@
    }
}

/// The directory of a package's entries.
pub open spec fn package_dir(store: Seq<char>, package: PackageView) -> Seq<char> {
    path_under(store, package_label(package))
}

/// What the name of a file being staged for the content `id` starts with.
pub open spec fn staged_prefix(id: Seq<char>) -> Seq<char> {
    id + ".staged-"@
}

impl ProjectionCache {
    /// The store under a control directory.
    pub fn new(control: &str) -> (r: Self)
        ensures
            r@ == path_under(control@, PROJECTIONS_DIR@),
    {
        ProjectionCache { dir: join_path(control, PROJECTIONS_DIR) }
    }

    /// The directory of a package's entries.
    pub fn package_dir(&self, package: PackageId) -> (r: String)
        ensures
            r@ == package_dir(self@, package@),
    {
        join_path(self.dir.as_str(), package.to_text().as_str())
    }

    /// The path of a package's entry for the content `id`.
    pub fn entry(&self, package: PackageId, id: &str) -> (r: String)
        ensures
            r@ == path_under(package_dir(self@, package@), id@),
    {
        join_path(self.package_dir(package).as_str(), id)
    }
}

/// The name a publisher stages an entry under before it is renamed into
/// place: no two publishers share one, inside a process by the sequence,
/// across processes by the process id. The content `id` is a digest, so it
/// has no extension of its own.
pub fn staged_name(id: &str, pid: u32, sequence: u64) -> (r: String)
    ensures
        r@ == staged_prefix(id@) + decimal(pid as nat) + "-"@ + decimal(sequence as nat),
{
    let mut out = joined(id, ".staged-");
    out.push_str(decimal_text(pid as u64).as_str());
    out.push_str("-");
    out.push_str(decimal_text(sequence).as_str());
    out
}

/// Whether a publisher of the content `id` sweeps a file away: it was staged
/// for the same content.
pub fn sweeps(id: &str, name: &str) -> (r: bool)
    ensures
        r == begins(name@, staged_prefix(id@)),
{
    begins_with(name, joined(id, ".staged-").as_str())
}

/// A publisher sweeps what was staged for its content, and never the entry.
pub proof fn sweeping_spares_the_entry(id: Seq<char>, pid: nat, sequence: nat)
    ensures
        begins(
            staged_prefix(id) + decimal(pid) + "-"@ + decimal(sequence),
            staged_prefix(id),
        ),
        !begins(id, staged_prefix(id)),
{
    let name = staged_prefix(id) + decimal(pid) + "-"@ + decimal(sequence);
    assert(name.subrange(0, staged_prefix(id).len() as int) =~= staged_prefix(id));
    reveal_strlit(".staged-");
}

/// A read that has no lower rung to fall to, once a package was asked to
/// project a document: `outcome` is the projection, or why there is none.
pub fn projected_read(package: PackageId, outcome: Result<String, String>) -> (r: Result<
    String,
    crate::error::Error,
>)
    ensures
        match outcome {
            Ok(text) => r == Ok::<String, crate::error::Error>(text),
            Err(reason) => r is Err && (r->Err_0)@ == (crate::error::ErrorView::PackageFailed {
                package: package_label(package@),
                reason: reason@,
            }),
        },
{
    match outcome {
        Ok(text) => Ok(text),
        Err(reason) => Err(
            crate::error::Error::PackageFailed { package: package.to_text(), reason },
        ),
    }
}

/// A text's first line is what stands ahead of its first line end; without
/// one there is none.
pub proof fn first_lines_end_first(line: Seq<char>, rest: Seq<char>)
    requires
        !line.contains('\n'),
    ensures
        first_line(line.push('\n') + rest) == Some((line, rest)),
        first_line(line) is None,
    decreases line.len(),
{
    let text = line.push('\n') + rest;
    if line.len() == 0 {
        assert(text.drop_first() =~= rest);
        assert(line =~= Seq::empty());
    } else {
        let shorter = line.drop_first();
        assert forall|k: int| 0 <= k < shorter.len() implies shorter[k] != '\n' by {
            assert(shorter[k] == line[k + 1]);
        }
        first_lines_end_first(shorter, rest);
        assert(line[0] != '\n');
        assert(text.drop_first() =~= shorter.push('\n') + rest);
        assert(seq![line[0]] + shorter =~= line);
    }
}

} // verus!
