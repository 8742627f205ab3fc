use gliff::clipboard::files::{FilesError, MAX_FILES_TOTAL, MAX_FILE_ENTRIES};
use gliff::clipboard::flow::{ChunkError, CHUNK, WINDOW};
use gliff::clipboard::msg::{ClipboardFile, ClipboardItem, ClipboardMsg};
use gliff::clipboard::sink::{ChunkSink, Filled, MemorySink, ReadSource};
use gliff::clipboard::spool::{
    base_path, fetch_plan, is_stale, is_whole, spool_name, spool_pid, LocalFiles, Place, Spool, SPOOL_GRACE,
};
use gliff::clipboard::transfer::{split_chunk, Event, Next, Taken, TransferError, Transfers, QUEUE};

const MAX_ITEM_FOR_TEST: u64 = 64 * 1024 * 1024;

fn mime(m: &str) -> ClipboardItem {
    ClipboardItem::Mime(m.to_string())
}

/// The chunks that a reader of `data` hands over, read in steps of `step`.
fn read_chunks(data: &[u8], step: usize) -> Vec<Vec<u8>> {
    let mut source = ReadSource::new();
    let mut out = Vec::new();
    let mut at = 0;
    loop {
        let n = source.want().min(step).min(data.len() - at);
        let f = source.on_read(&data[at..at + n]);
        at += n;
        match f {
            Filled::More => {}
            Filled::Chunk(c) => out.push(c),
            Filled::End => return out,
        }
    }
}

/// Two engines joined back to back: `a` fetches what `b` serves from these
/// chunks.
fn fetch(
    a: &mut Transfers,
    b: &mut Transfers,
    item: ClipboardItem,
    cap: Option<u64>,
    chunks: Vec<Vec<u8>>,
) -> (u32, Result<(u64, Vec<u8>), TransferError>) {
    let (id, request) = a.fetch(item.clone(), 7, cap);
    let r = b.on_msg(request, Vec::new());
    assert_eq!(r.event, Some(Event::Request { id, serial: 7, item }));
    b.serve(id);
    let mut source = chunks.into_iter();
    let mut rest: Option<Vec<u8>> = None;
    let mut sink = MemorySink::default();
    let mut sent_all = false;
    loop {
        while !sent_all && b.may_send(id) {
            let next = rest.take().or_else(|| source.next());
            let done = next.is_none();
            let (bytes, left) = split_chunk(next.unwrap_or_default());
            rest = left;
            let msg = b.send_chunk(id, bytes.len() as u32, done).unwrap();
            let reply = a.on_msg(msg, bytes);
            if let Some(m) = reply.send {
                b.on_msg(m, Vec::new());
            }
            if done {
                sent_all = true;
                assert_eq!(b.end_serve(id, false), None);
            }
        }
        match a.take(id) {
            Taken::Wait => panic!("nothing comes any more"),
            Taken::Failed(e) => return (id, Err(e)),
            Taken::Chunk { bytes, done } => {
                sink.write(&bytes).unwrap();
                match a.written(id, bytes.len() as u64, done) {
                    Next::Ack(m) => {
                        b.on_msg(m, Vec::new());
                    }
                    Next::Finish => {
                        sink.finish().unwrap();
                        let n = a.finish(id);
                        return (id, Ok((n, sink.bytes)));
                    }
                }
            }
        }
    }
}

#[test]
fn fetch_streams_a_large_item_in_chunks() {
    let (mut a, mut b) = (Transfers::new(), Transfers::new());
    let data: Vec<u8> = (0..(3 * CHUNK + 17)).map(|i| (i % 251) as u8).collect();
    let (id, got) = fetch(&mut a, &mut b, mime("image/png"), Some(MAX_ITEM_FOR_TEST), read_chunks(&data, 8192));
    assert_eq!(got.unwrap().0, data.len() as u64);
    assert!(!a.fetching(id));
    assert!(!b.serving(id));
}

#[test]
fn fetched_bytes_match_the_source() {
    let (mut a, mut b) = (Transfers::new(), Transfers::new());
    let data: Vec<u8> = (0..(2 * CHUNK + 5)).map(|i| (i * 7 % 256) as u8).collect();
    let (_, got) = fetch(&mut a, &mut b, mime("x"), None, read_chunks(&data, 100_000));
    assert_eq!(got.unwrap().1, data);
}

#[test]
fn a_sender_waits_for_acks_after_a_window() {
    let mut b = Transfers::new();
    let data = vec![1u8; (WINDOW as usize + 3) * CHUNK];
    let mut chunks = read_chunks(&data, CHUNK).into_iter();
    b.serve(9);
    let mut sent = 0;
    while b.may_send(9) {
        let c = chunks.next().unwrap();
        let msg = b.send_chunk(9, c.len() as u32, false).unwrap();
        assert!(matches!(msg, ClipboardMsg::Data { .. }));
        sent += 1;
    }
    assert_eq!(sent, WINDOW);
    let r = b.on_msg(ClipboardMsg::Ack { id: 9, received: CHUNK as u64 }, Vec::new());
    assert_eq!(r.credit, Some(9));
    assert!(b.may_send(9));
    let c = chunks.next().unwrap();
    let next = b.send_chunk(9, c.len() as u32, false);
    assert!(matches!(next, Some(ClipboardMsg::Data { id: 9, done: false, .. })));
}

#[test]
fn a_refused_request_fails_the_fetch() {
    let (mut a, mut b) = (Transfers::new(), Transfers::new());
    let (id, request) = a.fetch(mime("x"), 1, None);
    let r = b.on_msg(request, Vec::new());
    let asked = match r.event {
        Some(Event::Request { id, .. }) => id,
        other => panic!("{other:?}"),
    };
    a.on_msg(Transfers::refuse(asked), Vec::new());
    let r = a.take(id);
    assert!(matches!(r, Taken::Failed(TransferError::Aborted)), "{r:?}");
    assert!(!a.fetching(id));
}

#[test]
fn an_item_over_the_cap_is_aborted_on_both_sides() {
    let (mut a, mut b) = (Transfers::new(), Transfers::new());
    let (id, r) = fetch(&mut a, &mut b, mime("x"), Some(CHUNK as u64), read_chunks(&vec![0u8; CHUNK * 2], CHUNK));
    // The chunk that kept the cap was taken before the failure came.
    assert!(matches!(r, Err(TransferError::Chunk(ChunkError::OverCap(_)))), "{r:?}");
    assert!(!b.serving(id));
}

#[test]
fn a_channel_source_is_split_into_chunks() {
    let (mut a, mut b) = (Transfers::new(), Transfers::new());
    let (_, r) = fetch(&mut a, &mut b, mime("x"), None, vec![vec![5u8; CHUNK * 2 + 1], b"!".to_vec()]);
    let (n, got) = r.unwrap();
    assert_eq!(n as usize, CHUNK * 2 + 2);
    assert_eq!(got.len(), CHUNK * 2 + 2);
    assert_eq!(got[CHUNK * 2 + 1], b'!');
}

fn file(path: &str, size: u64, dir: bool) -> ClipboardFile {
    ClipboardFile { path: path.into(), size, dir }
}

#[test]
fn a_file_longer_than_declared_is_refused() {
    let (mut a, mut b) = (Transfers::new(), Transfers::new());
    let files = vec![file("short", 1, false)];
    let (places, _) = fetch_plan(&files).unwrap();
    let (index, size) = match &places[0] {
        Place::File { index, size, .. } => (*index, *size),
        other => panic!("{other:?}"),
    };
    let (_, r) = fetch(
        &mut a,
        &mut b,
        ClipboardItem::File(index),
        Some(size),
        read_chunks(b"more than one byte", 100),
    );
    assert!(matches!(r, Err(TransferError::Chunk(ChunkError::OverCap(1)))), "{r:?}");
}

#[test]
fn spooling_rejects_unsafe_paths() {
    let files = vec![file("../escape", 1, false)];
    assert_eq!(fetch_plan(&files), Err(FilesError::BadPath("../escape".to_string())));
}

#[test]
fn a_plan_places_every_entry_below_the_spool() {
    let files = [
        file("photos", 0, true),
        file("photos/./a.txt", 5, false),
        file("photos/sub", 0, true),
        file("solo.md", 6, false),
    ];
    let (places, tops) = fetch_plan(&files).unwrap();
    assert_eq!(
        places,
        vec![
            Place::Dir("photos".to_string()),
            Place::File { index: 1, path: "photos/a.txt".to_string(), size: 5 },
            Place::Dir("photos/sub".to_string()),
            Place::File { index: 3, path: "solo.md".to_string(), size: 6 },
        ]
    );
    assert_eq!(tops, vec!["photos".to_string(), "solo.md".to_string()]);
    assert!(is_whole(5, 5));
    assert!(!is_whole(4, 5));
}

#[test]
fn local_files_are_served_by_index() {
    let mut l = LocalFiles::default();
    l.add_dir("/src/photos".to_string(), "photos".to_string()).unwrap();
    let total = l.add_file("/src/photos/a".to_string(), "photos/a".to_string(), 5, 0).unwrap();
    assert_eq!(total, 5);
    assert_eq!(l.path_for(&ClipboardItem::File(1)).map(|s| s.as_str()), Some("/src/photos/a"));
    assert_eq!(l.path_for(&ClipboardItem::File(2)), None);
    assert_eq!(l.path_for(&mime("text/plain")), None);
    assert_eq!(l.entries[1], file("photos/a", 5, false));
}

#[test]
fn spools_of_dead_processes_are_stale() {
    assert_eq!(spool_name(4294967295, 0), "4294967295-0");
    assert_eq!(spool_pid("4294967295-0"), Some(4294967295));
    assert_eq!(spool_pid("not-a-spool"), None);
    assert_eq!(spool_pid("4294967296-0"), None);
    assert!(is_stale(4294967295, 12, false));
    assert!(!is_stale(12, 12, false));
    assert!(!is_stale(13, 12, true));
    assert_eq!(SPOOL_GRACE, 300_000_000_000);
}

#[test]
fn the_first_free_spool_is_taken() {
    let first = Spool::create(12);
    assert_eq!(first.name(), "12-0");
    assert_eq!(first.dir("/tmp/gliff"), "/tmp/gliff/12-0");
    assert_eq!(first.taken().unwrap().name(), "12-1");
    assert_eq!(Spool { pid: 12, n: u32::MAX }.taken(), None);
}

#[test]
fn the_spool_base_follows_the_environment() {
    let some = |s: &str| Some(s.to_string());
    let tmp = || "/tmp".to_string();
    assert_eq!(base_path(some("/g"), some("/c"), some("/h"), tmp()), "/g");
    assert_eq!(base_path(None, some("/c"), some("/h"), tmp()), "/c/gliff/clipboard");
    assert_eq!(base_path(None, some("/c/"), None, tmp()), "/c/gliff/clipboard");
    assert_eq!(base_path(None, some(""), None, tmp()), "gliff/clipboard");
    assert_eq!(base_path(None, None, some("/h"), tmp()), "/h/.cache/gliff/clipboard");
    assert_eq!(base_path(None, None, None, tmp()), "/tmp/gliff/clipboard");
}

#[test]
fn a_peer_that_ignores_the_window_is_cut_off() {
    let mut a = Transfers::new();
    let (id, _) = a.fetch(mime("x"), 1, None);
    let mut last = None;
    for i in 0..QUEUE as u64 + 1 {
        let r = a.on_msg(ClipboardMsg::Data { id, offset: i, data_len: 1, done: false }, vec![0]);
        last = r.send;
    }
    assert_eq!(last, Some(ClipboardMsg::Abort { id }));
}

#[test]
fn a_short_payload_fails_the_fetch() {
    let mut a = Transfers::new();
    let (id, _) = a.fetch(mime("x"), 1, None);
    let r = a.on_msg(ClipboardMsg::Data { id, offset: 0, data_len: 2, done: false }, vec![0]);
    assert_eq!(r.send, Some(ClipboardMsg::Abort { id }));
    assert!(matches!(
        a.take(id),
        Taken::Failed(TransferError::Chunk(ChunkError::BadOffset { expected: 2, got: 1 }))
    ));
}

#[test]
fn an_abandoned_fetch_stops_the_peer() {
    let mut a = Transfers::new();
    let (id, _) = a.fetch(mime("x"), 1, None);
    assert_eq!(a.abandon(id), Some(ClipboardMsg::Abort { id }));
    assert_eq!(a.abandon(id), None);
}

#[test]
fn a_failed_source_tells_the_peer() {
    let mut b = Transfers::new();
    b.serve(3);
    assert_eq!(b.end_serve(3, true), Some(ClipboardMsg::Abort { id: 3 }));
    assert_eq!(b.end_serve(3, true), None);
}

#[test]
fn a_bad_ack_ends_the_transfer() {
    let mut b = Transfers::new();
    b.serve(3);
    let r = b.on_msg(ClipboardMsg::Ack { id: 3, received: 1 }, Vec::new());
    assert_eq!(r.send, Some(ClipboardMsg::Abort { id: 3 }));
    assert_eq!(r.stop, Some(3));
    assert!(!b.serving(3));
}

#[test]
fn an_offer_is_handed_up() {
    let mut a = Transfers::new();
    let r = a.on_msg(
        ClipboardMsg::Offer { serial: 4, mime_types: vec!["text/plain".to_string()], files: Vec::new() },
        Vec::new(),
    );
    assert_eq!(
        r.event,
        Some(Event::Offer { serial: 4, mime_types: vec!["text/plain".to_string()], files: Vec::new() })
    );
}

#[test]
fn failures_say_what_went_wrong() {
    let chunk = |e| TransferError::Chunk(e).text("");
    assert_eq!(TransferError::Aborted.text(""), "the peer aborted the transfer");
    assert_eq!(TransferError::PeerGone.text(""), "the peer went away");
    assert_eq!(TransferError::Timeout.text(""), "no progress for 30 s");
    assert_eq!(TransferError::Io.text("disk full"), "io: disk full");
    assert_eq!(chunk(ChunkError::BadOffset { expected: 2, got: 1 }), "chunk at offset 1, expected 2");
    assert_eq!(chunk(ChunkError::ChunkTooLarge(262145)), "chunk of 262145 bytes exceeds 262144");
    assert_eq!(chunk(ChunkError::OverCap(10)), "transfer exceeds the 10 byte limit");
    assert_eq!(chunk(ChunkError::AfterDone), "chunk after the final one");
    assert_eq!(chunk(ChunkError::BadAck { received: 7 }), "ack for 7 bytes that were not sent");
    assert_eq!(chunk(ChunkError::WindowExceeded), "more than 4 chunks in flight");
}

#[test]
fn a_plan_tells_why_a_list_is_refused() {
    let many: Vec<ClipboardFile> = (0..MAX_FILE_ENTRIES + 1).map(|i| file(&format!("{i}"), 0, false)).collect();
    assert_eq!(fetch_plan(&many), Err(FilesError::TooMany(MAX_FILE_ENTRIES + 1)));
    let large = [file("a", MAX_FILES_TOTAL, false), file("b", 1, false)];
    assert_eq!(fetch_plan(&large), Err(FilesError::TooLarge(MAX_FILES_TOTAL + 1)));
    let bad = [file("a", 0, false), file("a", 0, false), file("..", 0, false)];
    assert_eq!(fetch_plan(&bad), Err(FilesError::BadPath("a".to_string())));
}

#[test]
fn a_fetch_has_room_for_its_chunks() {
    let mut a = Transfers::new();
    let (id, _) = a.fetch(mime("x"), 1, None);
    assert!(a.has_room(id));
    assert!(a.has_room(id + 1));
}
