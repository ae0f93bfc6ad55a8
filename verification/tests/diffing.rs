//! Listings, packages, texts, rendering, windows, and the ladder.

use atelier::binary::{Listing, TreeChange, diff_listings, listings_of};
use atelier::config::{Actor, ActorKind};
use atelier::coordination::Coordination;
use atelier::error::Error;
use atelier::journal::{Act, Journal};
use atelier::ladder::{
    Claimed, Differed, FileBlob, Projected, Side, read_plain, read_projected, side_of_read,
};
use atelier::ledger::Ledger;
use atelier::model::{Address, Delta, DeltaKind, Diff, Fidelity, Line, LineKind};
use atelier::package::{
    Claim, Confidence, FormatPackage, PackageError, PackageId, Projection, best_claim,
    detect_package,
};
use atelier::projection::{
    ProjectionCache, content_id, entry_behind, entry_of_text, hex_sha256, projected_read,
    read_entry, staged_name, sweeps,
};
use atelier::read::{MAX_READ_WINDOW, window_size, window_text};
use atelier::render::{printable, render_delta, render_diff};
use atelier::report::diff_lines_report;
use atelier::table::Table;
use atelier::text::{
    ChangeSide, LineChange, NO_NEWLINE_MARKER, as_text, diff_lines, lines_of_changes,
};

fn listing(entries: &[(&str, &str)]) -> Listing {
    let mut listing: Listing = Table::new();
    for (path, id) in entries {
        listing.insert(path, (*id).to_owned());
    }
    listing
}

#[test]
fn added_path_yields_added_delta() {
    let before = listing(&[]);
    let after = listing(&[("a.txt", "id1")]);

    let diff = diff_listings(&before, &after);

    assert_eq!(diff.deltas.len(), 1);
    let delta = &diff.deltas[0];
    assert_eq!(delta.address, Address::new("a.txt"));
    assert_eq!(delta.kind, DeltaKind::Added);
    assert_eq!(delta.fidelity, Fidelity::Binary);
    assert_eq!(delta.before, None);
    assert_eq!(delta.after, Some("id1".to_owned()));
    assert!(delta.lines.is_empty());
}

#[test]
fn removed_path_yields_removed_delta() {
    let before = listing(&[("a.txt", "id1")]);
    let after = listing(&[]);

    let diff = diff_listings(&before, &after);

    assert_eq!(diff.deltas.len(), 1);
    let delta = &diff.deltas[0];
    assert_eq!(delta.kind, DeltaKind::Removed);
    assert_eq!(delta.fidelity, Fidelity::Binary);
    assert_eq!(delta.before, Some("id1".to_owned()));
    assert_eq!(delta.after, None);
}

#[test]
fn changed_id_yields_changed_delta() {
    let before = listing(&[("a.txt", "id1")]);
    let after = listing(&[("a.txt", "id2")]);

    let diff = diff_listings(&before, &after);

    assert_eq!(diff.deltas.len(), 1);
    let delta = &diff.deltas[0];
    assert_eq!(delta.kind, DeltaKind::Changed);
    assert_eq!(delta.fidelity, Fidelity::Binary);
    assert_eq!(delta.before, Some("id1".to_owned()));
    assert_eq!(delta.after, Some("id2".to_owned()));
}

#[test]
fn mixed_changes_come_back_sorted_by_path() {
    let before = listing(&[("gone.txt", "g1"), ("keep.txt", "k1"), ("edit.txt", "e1")]);
    let after = listing(&[("keep.txt", "k1"), ("edit.txt", "e2"), ("new.txt", "n1")]);

    let diff = diff_listings(&before, &after);

    let observed: Vec<(&str, DeltaKind)> = diff
        .deltas
        .iter()
        .map(|d| (d.address.as_str(), d.kind))
        .collect();
    assert_eq!(
        observed,
        vec![
            ("edit.txt", DeltaKind::Changed),
            ("gone.txt", DeltaKind::Removed),
            ("new.txt", DeltaKind::Added),
        ]
    );
}

#[test]
fn identical_listings_yield_no_deltas() {
    let before = listing(&[("a.txt", "id1"), ("b.txt", "id2")]);
    let after = listing(&[("a.txt", "id1"), ("b.txt", "id2")]);

    let diff = diff_listings(&before, &after);

    assert!(diff.deltas.is_empty());
}

#[test]
fn both_empty_yields_no_deltas() {
    let diff = diff_listings(&listing(&[]), &listing(&[]));

    assert!(diff.deltas.is_empty());
}

#[test]
fn a_reversed_comparison_swaps_added_and_removed() {
    let before = listing(&[("gone.txt", "g1"), ("edit.txt", "e1")]);
    let after = listing(&[("edit.txt", "e2"), ("new.txt", "n1")]);
    let forward = diff_listings(&before, &after);
    let backward = diff_listings(&after, &before);
    assert_eq!(forward.deltas.len(), backward.deltas.len());
    for (there, back) in forward.deltas.iter().zip(&backward.deltas) {
        assert_eq!(there.address, back.address);
        assert_eq!(there.before, back.after);
        assert_eq!(there.after, back.before);
    }
    assert_eq!(backward.deltas[1].kind, DeltaKind::Added);
    assert_eq!(backward.deltas[2].kind, DeltaKind::Removed);
}

#[test]
fn a_tree_walk_gives_both_listings() {
    let change = |path: &str, before: Option<&str>, after: Option<&str>| TreeChange {
        path: path.to_owned(),
        before: before.map(str::to_owned),
        after: after.map(str::to_owned),
    };
    let (before, after) = listings_of(&vec![
        change("b.txt", Some("b1"), Some("b2")),
        change("a.txt", None, Some("a1")),
        change("c.txt", Some("c1"), None),
    ]);
    assert_eq!(before.len(), 2);
    assert_eq!(after.get("a.txt"), Some(&"a1".to_owned()));
    assert_eq!(after.get("c.txt"), None);
    let diff = diff_listings(&before, &after);
    let kinds: Vec<(&str, DeltaKind)> = diff
        .deltas
        .iter()
        .map(|delta| (delta.address.as_str(), delta.kind))
        .collect();
    assert_eq!(
        kinds,
        vec![
            ("a.txt", DeltaKind::Added),
            ("b.txt", DeltaKind::Changed),
            ("c.txt", DeltaKind::Removed),
        ]
    );
}

struct Fake {
    name: &'static str,
    extension: &'static str,
    confidence: Confidence,
}

impl FormatPackage for Fake {
    fn id(&self) -> PackageId {
        PackageId {
            name: self.name,
            version: "1.2.3",
        }
    }

    fn detect(&self, path: &str, _bytes: &[u8]) -> Option<Confidence> {
        path.ends_with(self.extension).then_some(self.confidence)
    }

    fn project(&self, _bytes: &[u8]) -> Result<Projection, PackageError> {
        Ok(Projection {
            package: self.id(),
            text: String::new(),
        })
    }
}

fn fake(name: &'static str, extension: &'static str, confidence: Confidence) -> Box<Fake> {
    Box::new(Fake {
        name,
        extension,
        confidence,
    })
}

#[test]
fn package_id_displays_name_at_version() {
    let id = PackageId {
        name: "format-docx",
        version: "0.1.0",
    };
    assert_eq!(id.to_text(), "format-docx@0.1.0");
}

#[test]
fn a_package_error_names_its_package() {
    let error = PackageError {
        package: PackageId {
            name: "format-docx",
            version: "0.1.0",
        },
        reason: "not a zip".to_owned(),
    };
    assert_eq!(error.message(), "format-docx@0.1.0: not a zip");
}

#[test]
fn detection_picks_the_highest_confidence_whatever_the_registry_order() {
    let forward: Vec<Box<dyn FormatPackage>> = vec![
        fake("by-name", ".a", Confidence::Extension),
        fake("by-content", ".a", Confidence::Content),
    ];
    let backward: Vec<Box<dyn FormatPackage>> = vec![
        fake("by-content", ".a", Confidence::Content),
        fake("by-name", ".a", Confidence::Extension),
    ];

    for packages in [&forward, &backward] {
        let found = detect_package(packages, "doc.a", b"").unwrap();
        assert_eq!(found.id().name, "by-content");
    }
}

#[test]
fn detection_ties_break_by_package_id_whatever_the_registry_order() {
    let forward: Vec<Box<dyn FormatPackage>> = vec![
        fake("zebra", ".a", Confidence::Content),
        fake("aardvark", ".a", Confidence::Content),
    ];
    let backward: Vec<Box<dyn FormatPackage>> = vec![
        fake("aardvark", ".a", Confidence::Content),
        fake("zebra", ".a", Confidence::Content),
    ];

    for packages in [&forward, &backward] {
        let found = detect_package(packages, "doc.a", b"").unwrap();
        assert_eq!(found.id().name, "aardvark");
    }
}

#[test]
fn detection_yields_none_when_no_package_matches() {
    let packages: Vec<Box<dyn FormatPackage>> = vec![fake("first", ".a", Confidence::Content)];
    assert!(detect_package(&packages, "doc.z", b"").is_none());
}

#[test]
fn diff_defaults_to_none_until_a_package_ships_a_differ() {
    let package = fake("first", ".a", Confidence::Content);
    assert!(package.diff(b"before", b"after").is_none());
}

fn line(kind: LineKind, text: &str) -> Line {
    Line {
        kind,
        text: text.to_string(),
    }
}

#[test]
fn valid_utf8_is_text() {
    assert_eq!(as_text(b"hello\n"), Some("hello\n"));
}

#[test]
fn invalid_utf8_and_nul_bytes_are_not_text() {
    assert_eq!(as_text(&[0xff, 0xfe]), None);
    assert_eq!(as_text(b"he\0llo"), None);
}

#[test]
fn identical_texts_yield_no_lines() {
    assert!(diff_lines("a\nb\n", "a\nb\n").is_empty());
}

#[test]
fn an_edited_line_yields_its_removal_and_addition() {
    let lines = diff_lines("a\nold\nc\n", "a\nnew\nc\n");
    assert_eq!(
        lines,
        vec![line(LineKind::Removed, "old"), line(LineKind::Added, "new")]
    );
}

#[test]
fn growth_from_empty_yields_only_additions() {
    let lines = diff_lines("", "a\nb\n");
    assert_eq!(
        lines,
        vec![line(LineKind::Added, "a"), line(LineKind::Added, "b")]
    );
}

#[test]
fn carriage_returns_stay_visible_in_carried_lines() {
    let lines = diff_lines("same\n", "same\r\n");
    assert_eq!(
        lines,
        vec![
            line(LineKind::Removed, "same"),
            line(LineKind::Added, "same\r")
        ]
    );
}

#[test]
fn a_missing_terminal_newline_carries_the_git_marker() {
    let lines = diff_lines("same\n", "same");
    assert_eq!(
        lines,
        vec![
            line(LineKind::Removed, "same"),
            line(LineKind::Added, "same"),
            line(LineKind::NoNewline, NO_NEWLINE_MARKER),
        ]
    );
}

#[test]
fn lines_end_at_a_carriage_return_alone() {
    assert_eq!(
        diff_lines("a\rb", "a\rc"),
        vec![
            line(LineKind::Removed, "b"),
            line(LineKind::NoNewline, NO_NEWLINE_MARKER),
            line(LineKind::Added, "c"),
            line(LineKind::NoNewline, NO_NEWLINE_MARKER),
        ]
    );
    assert_eq!(
        diff_lines("a\r\nb\n", "a\r\nc\n"),
        vec![line(LineKind::Removed, "b"), line(LineKind::Added, "c")]
    );
}

#[test]
fn only_one_sided_changes_are_carried() {
    let change = |side: ChangeSide, value: &str| LineChange {
        side,
        value: value.to_owned(),
    };
    let lines = lines_of_changes(&vec![
        change(ChangeSide::Both, "kept\n"),
        change(ChangeSide::Before, "old"),
        change(ChangeSide::After, "new\n"),
    ]);
    assert_eq!(
        lines,
        vec![
            line(LineKind::Removed, "old"),
            line(LineKind::NoNewline, NO_NEWLINE_MARKER),
            line(LineKind::Added, "new"),
        ]
    );
}

#[test]
fn delta_addresses_print_escaped_like_line_contents() {
    let delta = Delta {
        address: Address::new("x\n+forged.txt\u{1b}[31m"),
        kind: DeltaKind::Changed,
        fidelity: Fidelity::Binary,
        before: Some("id1".to_owned()),
        after: Some("id2".to_owned()),
        lines: Vec::new(),
        package: None,
        summary: None,
    };

    assert_eq!(
        render_delta(&delta),
        vec!["M x\\n+forged.txt\\u{1b}[31m".to_owned()]
    );
}

#[test]
fn literal_backslashes_escape_so_spelled_escapes_stay_distinct() {
    assert_eq!(printable("literal \\n"), "literal \\\\n");
    assert_eq!(printable("actual \n"), "actual \\n");
    assert_ne!(printable("literal \\n"), printable("actual \n"));
}

#[test]
fn bidi_formatting_characters_print_escaped() {
    assert_eq!(printable("user\u{202e}txt.exe"), "user\\u{202e}txt.exe");
    assert_eq!(printable("a\u{2066}b\u{2069}c"), "a\\u{2066}b\\u{2069}c");
}

#[test]
fn control_characters_print_escaped_but_tabs_stay_literal() {
    assert_eq!(
        printable("red \u{1b}[31mnow\r\u{8}"),
        "red \\u{1b}[31mnow\\r\\u{8}"
    );
    assert_eq!(printable("a\tb"), "a\tb");
    assert_eq!(printable("plain text"), "plain text");
}

#[test]
fn printing_follows_concatenation() {
    let (a, b) = ("tab\there\u{7f}", "\u{202a}and \\ there");
    assert_eq!(
        printable(&format!("{a}{b}")),
        format!("{}{}", printable(a), printable(b))
    );
}

#[test]
fn windows_chain_through_the_text_and_reassemble_it() {
    let text = "0123456789";

    let first = window_text(text, 0, 4, None);
    assert_eq!(first.content, "0123");
    assert_eq!((first.window.start, first.window.end), (0, 4));
    assert_eq!(first.window.total, 10);
    assert_eq!(first.next, Some(4));

    let second = window_text(text, 4, 4, None);
    assert_eq!(second.content, "4567");
    assert_eq!(second.next, Some(8));

    let last = window_text(text, 8, 4, None);
    assert_eq!(last.content, "89");
    assert_eq!(last.next, None);

    assert_eq!(
        format!("{}{}{}", first.content, second.content, last.content),
        text
    );
}

#[test]
fn window_edges_snap_to_character_boundaries() {
    // é is two bytes; a window ending inside it must retreat.
    let text = "ané";
    let clipped = window_text(text, 0, 3, None);
    assert_eq!(clipped.content, "an");
    assert_eq!(clipped.next, Some(2));

    let rest = window_text(text, 2, 3, None);
    assert_eq!(rest.content, "é");
    assert_eq!(rest.next, None);
}

#[test]
fn a_start_past_the_end_yields_an_empty_final_window() {
    let result = window_text("abc", 10, 5, None);
    assert_eq!(result.content, "");
    assert_eq!((result.window.start, result.window.end), (3, 3));
    assert_eq!(result.next, None);
}

#[test]
fn window_sizes_are_bounded() {
    assert_eq!(window_size(None).unwrap(), MAX_READ_WINDOW);
    assert_eq!(window_size(Some(1)).unwrap(), 1);
    assert!(window_size(Some(0)).is_err());
    assert!(window_size(Some(MAX_READ_WINDOW + 1)).is_err());
}

#[test]
fn windows_of_four_bytes_walk_any_text() {
    let text = "aé漢🎨z";
    let mut read = String::new();
    let mut start = 0;
    loop {
        let window = window_text(text, start, 4, None);
        read.push_str(&window.content);
        match window.next {
            Some(next) => {
                assert!(next > start);
                start = next;
            }
            None => break,
        }
    }
    assert_eq!(read, text);
}

fn actor() -> Actor {
    Actor {
        name: "test-actor".to_owned(),
        kind: ActorKind::Human,
    }
}

fn ledger() -> Ledger {
    Ledger::new(Coordination::new(), Journal::new())
}

fn docx() -> PackageId {
    PackageId {
        name: "format-docx",
        version: "0.3.0",
    }
}

fn changed(path: &str) -> Delta {
    Delta {
        address: Address::new(path),
        kind: DeltaKind::Changed,
        fidelity: Fidelity::Binary,
        before: Some("id1".to_owned()),
        after: Some("id2".to_owned()),
        lines: Vec::new(),
        package: None,
        summary: None,
    }
}

fn blob(bytes: &[u8]) -> Side {
    Side::Blob(FileBlob {
        id: "id".to_owned(),
        bytes: bytes.to_vec(),
    })
}

fn references(ledger: &Ledger, act: Act) -> Vec<String> {
    ledger
        .journal
        .entries(100)
        .unwrap()
        .into_iter()
        .filter(|entry| entry.act == act)
        .map(|entry| entry.reference.unwrap_or_default())
        .collect()
}

#[test]
fn plain_text_raises_without_a_package() {
    let mut ledger = ledger();
    let deltas = ledger.raise(
        &actor(),
        changed("notes.txt"),
        &Some("app".to_owned()),
        blob(b"old\n"),
        blob(b"new\n"),
        Claimed::Nobody,
        5,
    );
    assert_eq!(deltas.len(), 1);
    assert_eq!(deltas[0].address.as_str(), "app/notes.txt");
    assert_eq!(deltas[0].fidelity, Fidelity::Text);
    assert_eq!(
        deltas[0].lines,
        vec![line(LineKind::Removed, "old"), line(LineKind::Added, "new")]
    );
    assert_eq!(ledger.journal.len(), 0);
}

#[test]
fn opaque_bytes_stay_at_the_binary_rung() {
    let mut ledger = ledger();
    let deltas = ledger.raise(
        &actor(),
        changed("blob.bin"),
        &None,
        blob(&[0xff]),
        blob(b"text"),
        Claimed::Nobody,
        5,
    );
    assert_eq!(deltas, vec![changed("blob.bin")]);
}

#[test]
fn only_changed_documents_raise() {
    let mut ledger = ledger();
    let mut added = changed("new.txt");
    added.kind = DeltaKind::Added;
    let deltas = ledger.raise(
        &actor(),
        added.clone(),
        &None,
        Side::Absent,
        Side::TooLarge,
        Claimed::Nobody,
        5,
    );
    assert_eq!(deltas, vec![added]);
    assert_eq!(ledger.journal.len(), 0);
}

#[test]
fn a_file_past_the_cap_is_journaled() {
    let mut ledger = ledger();
    let deltas = ledger.raise(
        &actor(),
        changed("huge.txt"),
        &None,
        blob(b"x"),
        Side::TooLarge,
        Claimed::Nobody,
        5,
    );
    assert_eq!(deltas, vec![changed("huge.txt")]);
    assert_eq!(
        references(&ledger, Act::FileTooLarge),
        vec!["huge.txt exceeds the 8388608-byte ladder cap; kept at the binary rung".to_owned()]
    );
}

#[test]
fn the_cap_is_eight_mebibytes() {
    assert!(matches!(
        side_of_read("id".to_owned(), vec![b'x'; 8_388_608]),
        Side::Blob(_)
    ));
    assert_eq!(
        side_of_read("id".to_owned(), vec![b'x'; 8_388_609]),
        Side::TooLarge
    );
}

#[test]
fn a_rich_differ_follows_the_file_delta() {
    let mut ledger = ledger();
    let deltas = ledger.raise(
        &actor(),
        changed("report.docx"),
        &Some("docs".to_owned()),
        blob(&[1]),
        blob(&[2]),
        Claimed::By {
            package: docx(),
            before: Projected::Text("a\n".to_owned()),
            after: Projected::Text("b\n".to_owned()),
            differed: Differed::Rich(vec![Delta::rich(
                Address::new("paragraph 1"),
                "bold",
                docx(),
            )]),
        },
        5,
    );
    assert_eq!(deltas.len(), 2);
    assert_eq!(deltas[0].fidelity, Fidelity::Rich);
    assert_eq!(deltas[0].package, Some(docx()));
    assert_eq!(
        deltas[0].lines,
        vec![line(LineKind::Removed, "a"), line(LineKind::Added, "b")]
    );
    assert_eq!(
        deltas[1].address.as_str(),
        "docs/report.docx > paragraph 1"
    );
    assert_eq!(deltas[1].summary, Some("bold".to_owned()));
}

#[test]
fn a_failing_projection_falls_to_the_binary_rung_loudly() {
    let mut ledger = ledger();
    let deltas = ledger.raise(
        &actor(),
        changed("report.docx"),
        &None,
        blob(&[1]),
        blob(&[2]),
        Claimed::By {
            package: docx(),
            before: Projected::Failed("not a zip".to_owned()),
            after: Projected::Panicked,
            differed: Differed::Unsupported,
        },
        5,
    );
    assert_eq!(deltas, vec![changed("report.docx")]);
    assert_eq!(
        references(&ledger, Act::PackageFailed),
        vec![
            "report.docx format-docx@0.3.0 fell_back_to=binary: the package panicked during projection"
                .to_owned(),
            "report.docx format-docx@0.3.0 fell_back_to=binary: not a zip".to_owned(),
        ]
    );
}

#[test]
fn a_failing_differ_leaves_the_text_rung() {
    for (differed, reason) in [
        (Differed::Failed("no styles".to_owned()), "no styles"),
        (Differed::Panicked, "the package panicked during diffing"),
    ] {
        let mut ledger = ledger();
        let deltas = ledger.raise(
            &actor(),
            changed("report.docx"),
            &None,
            blob(&[1]),
            blob(&[2]),
            Claimed::By {
                package: docx(),
                before: Projected::Text("a\n".to_owned()),
                after: Projected::Text("b\n".to_owned()),
                differed,
            },
            5,
        );
        assert_eq!(deltas.len(), 1);
        assert_eq!(deltas[0].fidelity, Fidelity::Text);
        assert_eq!(
            references(&ledger, Act::PackageFailed),
            vec![format!(
                "report.docx format-docx@0.3.0 fell_back_to=text: {reason}"
            )]
        );
    }
}

#[test]
fn a_panicking_detection_reads_as_no_package() {
    let mut ledger = ledger();
    let deltas = ledger.raise(
        &actor(),
        changed("notes.txt"),
        &None,
        blob(b"old\n"),
        blob(b"new\n"),
        Claimed::Panicked,
        5,
    );
    assert_eq!(deltas[0].fidelity, Fidelity::Text);
    assert_eq!(
        references(&ledger, Act::PackageFailed),
        vec!["notes.txt fell_back_to=binary: a package panicked during detection".to_owned()]
    );
}

#[test]
fn a_plain_read_is_windowed_or_refuses() {
    let read = read_plain("notes.txt", b"hello\nworld\n", 0, 6).unwrap();
    assert_eq!(read.content, "hello\n");
    assert_eq!(read.next, Some(6));
    assert_eq!(read.projected_by, None);
    let refused = read_plain("blob.bin", &[0xff, 0], 0, 6).unwrap_err();
    assert_eq!(
        refused.message(),
        "no format package projects blob.bin and it is not utf-8 text"
    );
    assert_eq!(
        Error::WindowTooLarge {
            max: MAX_READ_WINDOW
        }
        .message(),
        "read windows span 1 to 50000 bytes"
    );
}

#[test]
fn a_failed_projection_fails_the_read() {
    assert_eq!(
        projected_read(docx(), Ok("text".to_owned())).unwrap(),
        "text"
    );
    let refused = projected_read(docx(), Err("not a zip".to_owned())).unwrap_err();
    assert_eq!(
        refused.message(),
        "package format-docx@0.3.0 failed: not a zip"
    );
    let read = |outcome: Projected| read_projected(docx(), outcome);
    assert_eq!(read(Projected::Text("text".to_owned())).unwrap(), "text");
    assert_eq!(
        read(Projected::Failed("not a zip".to_owned()))
            .unwrap_err()
            .message(),
        "package format-docx@0.3.0 failed: not a zip"
    );
    assert_eq!(
        read(Projected::Panicked).unwrap_err().message(),
        "package format-docx@0.3.0 failed: the package panicked during projection"
    );
}

#[test]
fn digests_are_sha_256() {
    assert_eq!(
        hex_sha256("abc"),
        "ba7816bf8f01cfea414140de5dae2223b00361a396177a9cb410ff61f20015ad"
    );
    assert_eq!(content_id(b"abc"), hex_sha256("abc"));
    assert_eq!(
        hex_sha256(""),
        "e3b0c44298fc1c149afbf4c8996fb92427ae41e4649b934ca495991b7852b855"
    );
}

#[test]
fn a_published_projection_reads_back_and_a_damaged_one_misses() {
    for text in ["", "line\nline\n", "no newline"] {
        let entry = entry_of_text(text);
        assert_eq!(entry, format!("{}\n{text}", hex_sha256(text)));
        assert_eq!(read_entry(&entry).as_deref(), Some(text));
    }
    let entry = entry_of_text("text\n");
    assert_eq!(read_entry(&format!("{entry}more")), None);
    assert_eq!(read_entry(&entry[1..]), None);
    assert_eq!(read_entry("no line"), None);
    assert_eq!(read_entry(&entry_behind("0000", "text\n")), None);
}

#[test]
fn projections_live_under_their_package_and_content() {
    let cache = ProjectionCache::new("/ws/.atelier");
    assert_eq!(
        cache.entry(docx(), "abc123"),
        "/ws/.atelier/projections/format-docx@0.3.0/abc123"
    );
    let staged = staged_name("abc123", 42, 7);
    assert_eq!(staged, "abc123.staged-42-7");
    assert!(sweeps("abc123", &staged));
    assert!(!sweeps("abc123", "abc123"));
    assert!(!sweeps("abc123", "abc1234.staged-1-1"));
}

#[test]
fn the_best_claim_is_the_most_confident_then_the_first_by_id() {
    let claim = |name: &'static str, version: &'static str, confidence: Option<Confidence>| Claim {
        package: PackageId { name, version },
        confidence,
    };
    assert_eq!(best_claim(&vec![]), None);
    assert_eq!(best_claim(&vec![claim("a", "1", None)]), None);
    let claims = vec![
        claim("a", "1", Some(Confidence::Extension)),
        claim("z", "1", Some(Confidence::Content)),
        claim("m", "2", Some(Confidence::Content)),
        claim("m", "1", Some(Confidence::Content)),
        claim("b", "1", None),
        claim("m", "1", Some(Confidence::Content)),
    ];
    assert_eq!(best_claim(&claims), Some(3));
}

#[test]
fn a_rich_docx_delta_reads_the_same_rendered_and_on_the_cli() {
    let rich = Delta::rich(
        Address::new("report.docx > paragraph 1"),
        "\"resize this clause\" font size 11 \u{2192} 14",
        docx(),
    );
    assert_eq!(
        render_delta(&rich),
        vec![
            "M report.docx > paragraph 1",
            "  \"resize this clause\" font size 11 \u{2192} 14",
        ]
    );
    let diff = Diff {
        deltas: vec![changed("report.docx"), rich],
    };
    assert_eq!(diff_lines_report(&diff), render_diff(&diff));
    let mut printed = render_diff(&diff).join("\n");
    printed.push('\n');
    assert_eq!(
        printed,
        "M report.docx\nM report.docx > paragraph 1\n  \"resize this clause\" font size 11 \u{2192} 14\n"
    );
}

#[test]
fn summaries_print_escaped_before_the_carried_lines() {
    let mut delta = Delta::rich(Address::new("a.docx"), "bold\u{1b} \\", docx());
    delta.lines.push(line(LineKind::Added, "more"));
    assert_eq!(
        render_delta(&delta),
        vec!["M a.docx", "  bold\\u{1b} \\\\", "+more"]
    );
}
