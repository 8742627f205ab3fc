use gliff::clipboard::files::{
    safe_relative_path, top_level, validate_files, FilesError, MAX_FILES_TOTAL, MAX_FILE_ENTRIES,
};
use gliff::clipboard::flow::{Assembler, ChunkError, SendWindow, CHUNK, WINDOW};
use gliff::clipboard::mime::{
    forwardable_mimes, is_file_mime, is_text_mime, local_mimes_for_offer, offers_files, resolve_mime, GNOME_FILES_MIME,
    TEXT_MIMES, URI_LIST_MIME,
};
use gliff::clipboard::msg::ClipboardFile;
use gliff::clipboard::uri::{file_list_body, gnome_copied_files, parse_uri_list, uri_list};

fn strs(v: &[&str]) -> Vec<String> {
    v.iter().map(|s| s.to_string()).collect()
}

#[test]
fn forwardable_drops_atoms_and_file_lists_and_collapses_text() {
    let offered = strs(&[
        "TARGETS",
        "text/plain",
        "image/png",
        "text/uri-list",
        "image/png",
        "UTF8_STRING",
        "x-special/gnome-copied-files",
        "text/html",
    ]);
    let got = forwardable_mimes(&offered);
    let mut expected = strs(&TEXT_MIMES);
    expected.extend(strs(&["image/png", "text/html"]));
    assert_eq!(got, expected);
    assert!(forwardable_mimes(&strs(&["TIMESTAMP", "text/uri-list"])).is_empty());
}

#[test]
fn resolve_prefers_exact_then_any_text() {
    let offered = strs(&["image/png", "STRING"]);
    assert_eq!(resolve_mime("image/png", &offered), Some("image/png"));
    assert_eq!(resolve_mime("text/plain", &offered), Some("STRING"));
    assert_eq!(resolve_mime("image/jpeg", &offered), None);
    assert_eq!(resolve_mime("text/plain", &strs(&["image/png"])), None);
}

#[test]
fn local_mimes_add_file_lists_only_with_files() {
    let mimes = strs(&["text/plain", "text/uri-list"]);
    assert_eq!(local_mimes_for_offer(&mimes, false), strs(&["text/plain"]));
    assert_eq!(
        local_mimes_for_offer(&mimes, true),
        strs(&["text/plain", URI_LIST_MIME, GNOME_FILES_MIME])
    );
}

#[test]
fn uri_list_round_trips_with_escapes() {
    let paths = strs(&["/home/k/My Docs/a#1.txt", "/tmp/ü.png"]);
    let body = uri_list(&paths);
    assert_eq!(body, "file:///home/k/My%20Docs/a%231.txt\r\nfile:///tmp/%C3%BC.png\r\n");
    assert_eq!(parse_uri_list(&body), paths);
    let gnome = gnome_copied_files(&paths);
    assert!(gnome.starts_with("copy\nfile:///home/k/My%20Docs/a%231.txt\n"));
    assert_eq!(parse_uri_list(&gnome), paths);
}

#[test]
fn parse_uri_list_skips_foreign_and_broken_lines() {
    let body = "# comment\r\nhttps://example.com/x\r\nfile://otherhost/a\r\nfile://localhost/b\r\nfile:///bad%zz\r\n\r\nfile:///ok\r\n";
    assert_eq!(parse_uri_list(body), strs(&["/b", "/ok"]));
}

#[test]
fn safe_relative_path_rejects_escapes() {
    assert_eq!(safe_relative_path("a/b.txt"), Some("a/b.txt".to_string()));
    for bad in ["", "/etc/passwd", "../x", "a/../b", "./a", "a\0b"] {
        assert_eq!(safe_relative_path(bad), None, "{bad:?}");
    }
    assert_eq!(safe_relative_path("a/./b"), Some("a/b".to_string()));
}

fn file(p: &str, size: u64, dir: bool) -> ClipboardFile {
    ClipboardFile { path: p.into(), size, dir }
}

#[test]
fn validate_files_enforces_caps_and_duplicates() {
    let f = file;
    assert_eq!(validate_files(&[f("d", 0, true), f("d/x", 5, false)]), Ok(()));
    assert!(matches!(validate_files(&[f("x", 1, false), f("x", 1, false)]), Err(FilesError::BadPath(_))));
    assert!(matches!(validate_files(&[f("../x", 1, false)]), Err(FilesError::BadPath(_))));
    assert!(matches!(validate_files(&[f("d", 1, true)]), Err(FilesError::BadPath(_))));
    assert!(matches!(
        validate_files(&[f("x", MAX_FILES_TOTAL + 1, false)]),
        Err(FilesError::TooLarge(_))
    ));
    let many: Vec<_> = (0..=MAX_FILE_ENTRIES).map(|i| f(&format!("f{i}"), 0, false)).collect();
    assert!(matches!(validate_files(&many), Err(FilesError::TooMany(_))));
    let listed = [f("d", 0, true), f("d/x", 5, false), f("y", 1, false)];
    let tops: Vec<_> = top_level(&listed).iter().map(|f| f.path.clone()).collect();
    assert_eq!(tops, vec!["d", "y"]);
}

#[test]
fn send_window_blocks_after_window_chunks_until_acked() {
    let mut w = SendWindow::default();
    for _ in 0..WINDOW {
        assert!(w.may_send());
        w.on_sent(CHUNK);
    }
    assert!(!w.may_send());
    assert_eq!(w.offset, (CHUNK as u64) * WINDOW as u64);
    w.on_ack(CHUNK as u64).unwrap();
    assert!(w.may_send());
    w.on_sent(CHUNK);
    assert!(!w.may_send());
    assert_eq!(w.on_ack(w.offset + 1), Err(ChunkError::BadAck { received: w.offset + 1 }));
    w.on_ack(w.offset).unwrap();
    w.on_ack(1).unwrap();
    assert!(w.may_send());
}

#[test]
fn assembler_checks_order_size_cap_and_end() {
    let mut a = Assembler::new(Some(10));
    assert_eq!(a.accept(0, 4, false), Ok(()));
    assert_eq!(a.accept(3, 1, false), Err(ChunkError::BadOffset { expected: 4, got: 3 }));
    assert_eq!(a.accept(4, 7, false), Err(ChunkError::OverCap(10)));
    assert_eq!(
        a.accept(4, CHUNK as u32 + 1, false),
        Err(ChunkError::ChunkTooLarge(CHUNK as u32 + 1))
    );
    assert_eq!(a.accept(4, 6, true), Ok(()));
    assert!(a.done);
    assert_eq!(a.accept(10, 0, true), Err(ChunkError::AfterDone));
    let mut unbounded = Assembler::new(None);
    assert_eq!(unbounded.accept(0, CHUNK as u32, false), Ok(()));
    assert_eq!(unbounded.chunks, 1);
}

#[test]
fn kinds_of_mime_types_are_told_apart() {
    assert!(is_text_mime("UTF8_STRING"));
    assert!(!is_text_mime("text/html"));
    assert!(is_file_mime("text/uri-list"));
    assert!(!is_file_mime("text/plain"));
    assert!(offers_files(&strs(&["text/plain", "x-special/gnome-copied-files"])));
    assert!(!offers_files(&strs(&["text/plain"])));
}

#[test]
fn a_file_list_has_the_form_of_its_type() {
    let paths = strs(&["/a b"]);
    assert_eq!(file_list_body("text/uri-list", &paths), Some("file:///a%20b\r\n".to_string()));
    assert_eq!(
        file_list_body("x-special/gnome-copied-files", &paths),
        Some(gnome_copied_files(&paths))
    );
    assert_eq!(file_list_body("text/plain", &paths), None);
}

#[test]
fn a_bad_path_is_named_in_the_error() {
    assert_eq!(
        validate_files(&[file("ok", 1, false), file("a/..", 1, false)]),
        Err(FilesError::BadPath("a/..".to_string()))
    );
    assert_eq!(
        validate_files(&[file("x", MAX_FILES_TOTAL, false), file("y", 1, false)]),
        Err(FilesError::TooLarge(MAX_FILES_TOTAL + 1))
    );
}

#[test]
fn safe_paths_stay_inside_the_directory() {
    for p in ["a//b", "a/b/", "a/./././b"] {
        let safe = safe_relative_path(p).unwrap();
        assert_eq!(safe, "a/b");
    }
    assert_eq!(safe_relative_path("a/b/../.."), None);
}

#[test]
fn forwarded_types_can_be_served() {
    let offered = strs(&["UTF8_STRING", "image/png", "TARGETS", "text/uri-list"]);
    let forwarded = forwardable_mimes(&offered);
    assert_eq!(forwarded.len(), 6);
    for m in &forwarded {
        let served = resolve_mime(m, &offered);
        assert_eq!(served, Some(if m == "image/png" { "image/png" } else { "UTF8_STRING" }));
    }
}

#[test]
fn a_sign_is_no_digit_of_an_escape() {
    assert_eq!(parse_uri_list("file:///a%+5\r\nfile:///b%2F\r\nfile:///c%-1"), strs(&["/b/"]));
}

#[test]
fn accepted_chunks_leave_no_gap() {
    let mut a = Assembler::new(Some(20));
    let offered = [(0, 5), (0, 5), (7, 1), (5, 10), (15, 6), (15, 5)];
    let kept: Vec<(u64, u32)> = offered.into_iter().filter(|&(at, n)| a.accept(at, n, false).is_ok()).collect();
    assert_eq!(kept, vec![(0, 5), (5, 10), (15, 5)]);
    assert_eq!((a.received, a.chunks), (20, 3));
    // As much as a counter holds can be received.
    let mut full = Assembler { received: u64::MAX - 3, ..Assembler::new(None) };
    assert_eq!(full.accept(u64::MAX - 3, 3, true), Ok(()));
    assert_eq!(full.received, u64::MAX);
}
