use std::collections::HashMap;

use rusttv::client::{ls_cmd, mkdir_cmd, mv_cmd, parent_dir, sanitise_shell_path, temp_path, wipe_cmd};
use rusttv::text::split_lines;
use rusttv::upload::{ChunkProgress, ProgressTracker, UploadMachine, BUF_SIZE};

#[test]
fn temp_path_prefixes_filename() {
    assert_eq!(
        temp_path("shows/Show A/S01E02.mkv").unwrap(),
        "shows/Show A/.rusttv.tmp.S01E02.mkv"
    );
    assert_eq!(temp_path("file.mkv").unwrap(), ".rusttv.tmp.file.mkv");
    assert!(temp_path("dir/").is_none());
}

#[test]
fn sanitise_escapes_embedded_quotes_only() {
    assert_eq!(sanitise_shell_path("plain path"), "plain path");
    assert_eq!(sanitise_shell_path("a \"b\" c"), "a \\\"b\\\" c");
}

#[test]
fn command_lines_are_exact() {
    assert_eq!(mkdir_cmd("/tv/Show A"), "mkdir -p \"/tv/Show A\"");
    assert_eq!(mv_cmd("/tv/a", "/tv/b"), "mv \"/tv/a\" \"/tv/b\"");
    assert_eq!(
        wipe_cmd("/tv"),
        "find \"/tv\" -type f -name \".rusttv.tmp.*\" -delete"
    );
    assert_eq!(ls_cmd("/tv"), "ls -1 \"/tv\"");
}

#[test]
fn parent_dir_of_target() {
    assert_eq!(parent_dir("/tv/Show A/S01E02.mkv").unwrap(), "/tv/Show A");
    assert!(parent_dir("no-slash").is_none());
}

#[test]
fn listing_splits_on_newline_terminators() {
    let lines = split_lines("Show A\nShow B\n");
    assert_eq!(lines, vec!["Show A", "Show B"]);
    let lines = split_lines("one\n\ntwo");
    assert_eq!(lines, vec!["one", "", "two"]);
    assert!(split_lines("").is_empty());
}

#[test]
fn chunk_progress_drains_fully() {
    let mut p = ChunkProgress::new(10);
    assert!(!p.done());
    p.record(4);
    p.record(3);
    assert_eq!(p.remaining(), (7, 10));
    p.record(3);
    assert!(p.done());
}

#[test]
fn upload_machine_finishes_on_short_or_empty_read() {
    let mut m = UploadMachine::new(2 * BUF_SIZE as u64 + 100);
    m.on_read(BUF_SIZE);
    assert!(!m.complete());
    m.on_read(BUF_SIZE);
    assert!(!m.complete());
    m.on_read(100);
    assert!(m.complete());
    assert_eq!(m.sent, 2 * BUF_SIZE as u64 + 100);

    let mut m2 = UploadMachine::new(BUF_SIZE as u64);
    m2.on_read(BUF_SIZE);
    assert!(!m2.complete());
    m2.on_read(0);
    assert!(m2.complete());
    assert_eq!(m2.sent, BUF_SIZE as u64);
}

#[test]
fn progress_tracker_totals_packets() {
    let mut t = ProgressTracker::new();
    t.on_packet(4096);
    t.on_packet(100);
    assert_eq!(t.received, 4196);
}

// The round trip of one upload over an in-memory remote store: stream the
// bytes to the temp path in chunks, then rename onto the target. The
// target then holds exactly the local bytes and the temp path is gone.
#[test]
fn upload_round_trip_over_store() {
    let data: Vec<u8> = (0..10000u32).map(|i| (i % 251) as u8).collect();
    let target = String::from("tv/Show A/S01E02.mkv");
    let tmp = temp_path(&target).unwrap();

    let mut store: HashMap<String, Vec<u8>> = HashMap::new();
    store.insert(String::from("tv/Show A/S01E01.mkv"), vec![1, 2, 3]);

    // Open the write stream at the temp path, sized exactly.
    let mut machine = UploadMachine::new(data.len() as u64);
    let mut written: Vec<u8> = Vec::new();
    let mut offset = 0usize;
    while !machine.complete() {
        let n = std::cmp::min(BUF_SIZE, data.len() - offset);
        // Drain the chunk fully, in uneven writer-sized pieces.
        let mut chunk = ChunkProgress::new(n);
        while !chunk.done() {
            let (done_so_far, len) = chunk.remaining();
            let accepted = std::cmp::min(1000, len - done_so_far);
            written.extend_from_slice(&data[offset + done_so_far..offset + done_so_far + accepted]);
            chunk.record(accepted);
        }
        offset += n;
        machine.on_read(n);
    }
    assert_eq!(machine.sent, data.len() as u64);
    store.insert(tmp.clone(), written);

    // Only after a clean close: the atomic rename.
    let bytes = store.remove(&tmp).unwrap();
    store.insert(target.clone(), bytes);

    // Reading back the target yields byte-identical content, and the
    // temp path no longer exists.
    assert_eq!(store.get(&target).unwrap(), &data);
    assert!(!store.contains_key(&tmp));
    // The unrelated file is untouched.
    assert_eq!(store.get("tv/Show A/S01E01.mkv").unwrap(), &vec![1, 2, 3]);
}
