use seyfr::errors::SeyfrError;
use seyfr::hashseq::{split_root, transfer_root};
use seyfr::metadata::{
    assemble_folder, file_metadata, folder_metadata, folder_shared_message, folder_start_events, new_item,
    require_files, send_file_events, ImportedFile, SeyfrKind,
};
use seyfr::progress::{ProgressEvent, ProgressSink, report};
use seyfr::receive::{
    blob_size, check_ticket_format, invalid_destination, invalid_metadata, invalid_ticket, read_failure, BlobState,
    DownloadStep, DownloadTarget, DownloadWatch, ReceiveSession, StoredBlob,
};
use seyfr::progress::{error_event, outcome_event};
use seyfr::receive::check_item_count;
use seyfr::store::{add_unfinished, on_add_event, AddEvent, AddStep};
use seyfr::ticket::{read_ticket, share_ticket};
use std::sync::Mutex;

#[derive(Default)]
struct TestProgress {
    file_starts: Mutex<Vec<(String, u64, u64)>>,
    file_completes: Mutex<Vec<(String, u64, u64)>>,
    completes: Mutex<Vec<String>>,
    progress: Mutex<Vec<(String, u64, u64)>>,
    errors: Mutex<Vec<String>>,
}

impl ProgressSink for TestProgress {
    fn on_file_start(&self, name: String, current: u64, total: u64) {
        self.file_starts.lock().unwrap().push((name, current, total));
    }
    fn on_file_progress(&self, name: String, bytes: u64, total: u64) {
        self.progress.lock().unwrap().push((name, bytes, total));
    }
    fn on_file_complete(&self, name: String, current: u64, total: u64) {
        self.file_completes.lock().unwrap().push((name, current, total));
    }
    fn on_complete(&self, details: String) {
        self.completes.lock().unwrap().push(details);
    }
    fn on_error(&self, details: String) {
        self.errors.lock().unwrap().push(details);
    }
}

fn hash(b: u8) -> Vec<u8> {
    vec![b; 32]
}

/// A ticket for `root` as a provider with key seed `seed` hands it out.
fn ticket_text(seed: u8, root: u8, format: iroh_blobs::BlobFormat) -> (String, Vec<u8>) {
    let id = iroh::SecretKey::from_bytes(&[seed; 32]).public();
    let addr = iroh::EndpointAddr::new(id);
    let ticket = iroh_blobs::ticket::BlobTicket::new(addr, iroh_blobs::Hash::from([root; 32]), format);
    (ticket.to_string(), id.as_bytes().to_vec())
}

/// Receive the items of a transfer whose root blob is `root`, reporting to `sink`.
fn receive_names(root: &[u8], items: Vec<seyfr::metadata::SeyfrItem>, sink: &TestProgress) -> Result<Vec<(String, Vec<u8>)>, SeyfrError> {
    let (_meta, hashes) = split_root(root)?;
    let mut session = ReceiveSession::new(items, hashes);
    let mut out = Vec::new();
    while let Some(task) = session.next_task() {
        let task = task?;
        report(Some(sink), task.start_event());
        report(Some(sink), task.complete_event());
        out.push((task.name.clone(), task.hash.clone()));
    }
    report(Some(sink), session.finish_event());
    Ok(out)
}

#[test]
fn test_send_file_creates_ticket() {
    let progress = TestProgress::default();
    for e in send_file_events("test.txt") {
        report(Some(&progress), e);
    }
    assert_eq!(progress.file_starts.lock().unwrap().len(), 1);
    assert_eq!(progress.file_completes.lock().unwrap().len(), 1);
    assert_eq!(progress.completes.lock().unwrap().len(), 1);
    assert_eq!(progress.completes.lock().unwrap()[0], "File shared successfully");
    assert_eq!(progress.file_starts.lock().unwrap()[0], ("test.txt".to_string(), 1, 1));
    let addr = iroh::EndpointAddr::new(iroh::SecretKey::from_bytes(&[3; 32]).public());
    let text = share_ticket(&addr, &hash(0x42));
    let parsed: iroh_blobs::ticket::BlobTicket = text.parse().unwrap();
    assert_eq!(parsed.format(), iroh_blobs::BlobFormat::HashSeq);
    assert_eq!(parsed.addr().id, addr.id);
    let ticket = read_ticket(&text).unwrap();
    assert!(ticket.hash_seq);
    assert_eq!(ticket.hash, hash(0x42));
    assert_eq!(ticket.provider, addr.id.as_bytes().to_vec());
    assert!(check_ticket_format(ticket.hash_seq).is_ok());
}

#[test]
fn test_send_receive_single_file_roundtrip() {
    let item = new_item("test.txt".to_string(), "/tmp/t/test.txt", 34, 10, 20);
    let meta = file_metadata(item);
    let copy = meta.clone();
    assert_eq!(copy.items[0].name, "test.txt");
    assert_eq!(meta.version, "seyfr-v1");
    assert_eq!(meta.kind, SeyfrKind::File);
    let root = transfer_root(&hash(0xee), &vec![hash(1)]);
    let recv = TestProgress::default();
    let got = receive_names(&root, meta.items, &recv).unwrap();
    assert_eq!(got, vec![("test.txt".to_string(), hash(1))]);
    assert_eq!(recv.file_starts.lock().unwrap().len(), 1);
    assert_eq!(recv.file_completes.lock().unwrap().len(), 1);
    assert_eq!(recv.completes.lock().unwrap().len(), 1);
    assert_eq!(recv.completes.lock().unwrap()[0], "File received successfully");
}

#[test]
fn test_send_folder_roundtrip() {
    let names = vec!["file1.txt".to_string(), "file2.txt".to_string(), "subdir/file3.txt".to_string()];
    let send = TestProgress::default();
    for e in folder_start_events(&names) {
        report(Some(&send), e);
    }
    let results: Vec<Result<ImportedFile, SeyfrError>> = names
        .iter()
        .enumerate()
        .map(|(i, n)| Ok(ImportedFile { item: new_item(n.clone(), n, 17, 1, 2), hash: hash(i as u8 + 1) }))
        .collect();
    let assembled = assemble_folder(results, 3);
    assert!(assembled.failure.is_none());
    for e in assembled.events {
        report(Some(&send), e);
    }
    report(Some(&send), ProgressEvent::Complete { details: folder_shared_message(3) });
    assert_eq!(send.file_starts.lock().unwrap().len(), 3);
    assert_eq!(send.file_completes.lock().unwrap().len(), 3);
    assert_eq!(send.completes.lock().unwrap().len(), 1);
    assert_eq!(send.completes.lock().unwrap()[0], "Folder shared: 3 items");

    let meta = folder_metadata(assembled.items);
    assert_eq!(meta.kind, SeyfrKind::Folder);
    let root = transfer_root(&hash(0xee), &assembled.hashes);
    let recv = TestProgress::default();
    let got = receive_names(&root, meta.items, &recv).unwrap();
    let got_names: Vec<String> = got.iter().map(|(n, _)| n.clone()).collect();
    assert_eq!(got_names, names);
    assert_eq!(got[2].1, hash(3));
    assert_eq!(recv.file_starts.lock().unwrap().len(), 3);
    assert_eq!(recv.file_completes.lock().unwrap().len(), 3);
    assert_eq!(recv.completes.lock().unwrap().len(), 1);
    assert_eq!(recv.completes.lock().unwrap()[0], "Folder received: 3 items");
    assert_eq!(recv.file_completes.lock().unwrap()[2], ("subdir/file3.txt".to_string(), 3, 3));
}

#[test]
fn test_receive_invalid_ticket() {
    let result = read_ticket("invalid_ticket");
    assert!(matches!(result, Err(SeyfrError::InvalidTicket { .. })));
    let expected = "invalid_ticket".parse::<iroh_blobs::ticket::BlobTicket>().unwrap_err().to_string();
    match result {
        Err(SeyfrError::InvalidTicket { details }) => assert_eq!(details, expected),
        other => panic!("unexpected {:?}", other),
    }
    let e = invalid_ticket("invalid_ticket: bad encoding");
    assert!(matches!(e, SeyfrError::InvalidTicket { .. }));
    match check_ticket_format(false) {
        Err(SeyfrError::InvalidTicket { details }) => {
            assert_eq!(details, "Raw format tickets are not supported — use HashSeq with metadata")
        }
        other => panic!("unexpected {:?}", other),
    }
}

#[test]
fn test_send_empty_folder_fails() {
    let result = require_files("/tmp/t/empty", 0);
    assert!(matches!(result, Err(SeyfrError::EmptyFolder { .. })));
    assert!(require_files("/tmp/t/full", 2).is_ok());
}

#[test]
fn assemble_stops_at_first_failure() {
    let results = vec![
        Ok(ImportedFile { item: new_item("a".to_string(), "a", 1, 0, 0), hash: hash(1) }),
        Err(SeyfrError::Store { details: "failed to import 'b': boom".to_string() }),
        Ok(ImportedFile { item: new_item("c".to_string(), "c", 1, 0, 0), hash: hash(3) }),
    ];
    let a = assemble_folder(results, 3);
    assert_eq!(a.items.len(), 1);
    assert_eq!(a.hashes, vec![hash(1)]);
    assert_eq!(a.events.len(), 1);
    assert!(matches!(a.failure, Some(SeyfrError::Store { .. })));
}

#[test]
fn missing_hash_fails_at_that_item() {
    let items = vec![
        new_item("one".to_string(), "one", 0, 0, 0),
        new_item("two".to_string(), "two", 5, 0, 9),
    ];
    let root = transfer_root(&hash(0), &vec![hash(1)]);
    let (_m, hashes) = split_root(&root).unwrap();
    let mut s = ReceiveSession::new(items, hashes);
    assert_eq!(s.total(), 2);
    let first = s.next_task().unwrap().unwrap();
    assert_eq!(first.name, "one");
    assert_eq!(first.known_size, None);
    assert_eq!(first.modified_at, None);
    match s.next_task() {
        Some(Err(SeyfrError::Store { details })) => assert_eq!(details, "missing hash for file: two"),
        other => panic!("unexpected {:?}", other),
    }
}

#[test]
fn task_details() {
    let items = vec![new_item("x/y.bin".to_string(), "x/y.bin", 5, 0, 9)];
    let mut s = ReceiveSession::new(items, vec![hash(4)]);
    let t = s.next_task().unwrap().unwrap();
    assert_eq!(t.known_size, Some(5));
    assert_eq!(t.modified_at, Some(9));
    assert_eq!((t.index, t.total), (1, 1));
    assert!(s.next_task().is_none());
    let w = t.watch(Some(77));
    assert_eq!(w.size, 5);
    match t.rejected("escaped root") {
        SeyfrError::PathTraversal { path, details } => {
            assert_eq!(path, "x/y.bin");
            assert_eq!(details, "escaped root");
        }
        other => panic!("unexpected {:?}", other),
    }
    match t.export_failed("disk full") {
        SeyfrError::Store { details } => assert_eq!(details, "export failed for 'x/y.bin': disk full"),
        other => panic!("unexpected {:?}", other),
    }
}

#[test]
fn download_watch_steps() {
    let mut w = DownloadWatch::new(DownloadTarget::HashSequence, None);
    match w.on_event("Progress(10)") {
        DownloadStep::Progress { current, refresh_size } => {
            assert_eq!(current, Some(10));
            assert!(refresh_size);
        }
        other => panic!("unexpected {:?}", other),
    }
    w.set_size(Some(64));
    match w.on_event("Progress(20)") {
        DownloadStep::Progress { refresh_size, .. } => assert!(!refresh_size),
        other => panic!("unexpected {:?}", other),
    }
    match w.progress_event(20) {
        ProgressEvent::FileProgress { name, current, total } => {
            assert_eq!((name.as_str(), current, total), ("metadata", 20, 64))
        }
        other => panic!("unexpected {:?}", other),
    }
    assert!(matches!(w.on_event("AllDone"), DownloadStep::Finished));
    match w.on_event("DownloadError") {
        DownloadStep::Failed { error: SeyfrError::Network { details } } => {
            assert_eq!(details, "download failed: DownloadError")
        }
        other => panic!("unexpected {:?}", other),
    }
    let f = DownloadWatch::new(DownloadTarget::File { name: "a.txt".to_string() }, None);
    match f.on_event("Progress(3)") {
        DownloadStep::Progress { refresh_size, .. } => assert!(!refresh_size),
        other => panic!("unexpected {:?}", other),
    }
    match f.start_failure("no route") {
        SeyfrError::Network { details } => assert_eq!(details, "failed to start download for 'a.txt': no route"),
        other => panic!("unexpected {:?}", other),
    }
    let m = DownloadWatch::new(DownloadTarget::Metadata, Some(5));
    match m.on_event("Abort") {
        DownloadStep::Failed { error: SeyfrError::Network { details } } => {
            assert_eq!(details, "failed to download metadata: Abort")
        }
        other => panic!("unexpected {:?}", other),
    }
}

#[test]
fn receive_error_texts() {
    match invalid_destination("root is a file") {
        SeyfrError::InvalidPath { details } => assert_eq!(details, "invalid destination directory: root is a file"),
        other => panic!("unexpected {:?}", other),
    }
    match read_failure(StoredBlob::Metadata, "gone") {
        SeyfrError::Store { details } => assert_eq!(details, "failed to read metadata: gone"),
        other => panic!("unexpected {:?}", other),
    }
    match invalid_metadata("expected value") {
        SeyfrError::Store { details } => assert_eq!(details, "invalid metadata format: expected value"),
        other => panic!("unexpected {:?}", other),
    }
    assert_eq!(blob_size(BlobState::Complete { size: 9 }), Some(9));
    assert_eq!(blob_size(BlobState::Partial { size: None }), None);
    assert_eq!(blob_size(BlobState::Unknown), None);
}

#[test]
fn metadata_item_mime() {
    let item = new_item("notes.txt".to_string(), "/home/u/notes.txt", 3, 1, 2);
    assert_eq!(item.mime_type, "text/plain");
    let item = new_item("blob".to_string(), "/home/u/blob", 3, 1, 2);
    assert_eq!(item.mime_type, "application/octet-stream");
}

#[test]
fn read_ticket_fields() {
    let (text, id) = ticket_text(9, 0x17, iroh_blobs::BlobFormat::HashSeq);
    let t = read_ticket(&text).unwrap();
    assert_eq!(t.hash, hash(0x17));
    assert!(t.hash_seq);
    assert_eq!(t.provider, id);
    let (raw, _) = ticket_text(9, 0x18, iroh_blobs::BlobFormat::Raw);
    let r = read_ticket(&raw).unwrap();
    assert_eq!(r.hash, hash(0x18));
    assert!(!r.hash_seq);
    match check_ticket_format(r.hash_seq) {
        Err(SeyfrError::InvalidTicket { details }) => {
            assert_eq!(details, "Raw format tickets are not supported — use HashSeq with metadata")
        }
        other => panic!("unexpected {:?}", other),
    }
}

#[test]
fn too_many_files_refused() {
    match require_files("/tmp/t/big", 10001) {
        Err(SeyfrError::InvalidPath { details }) => {
            assert_eq!(details, "too many files in /tmp/t/big: 10001 (a transfer holds at most 10000)")
        }
        other => panic!("unexpected {:?}", other),
    }
    assert!(require_files("/tmp/t/big", 10000).is_ok());
    assert!(check_item_count(10000).is_ok());
    match check_item_count(10001) {
        Err(SeyfrError::Store { details }) => {
            assert_eq!(details, "too many items in metadata: 10001 (a transfer holds at most 10000)")
        }
        other => panic!("unexpected {:?}", other),
    }
}

#[test]
fn failures_are_reported_to_the_sink() {
    let sink = TestProgress::default();
    let e = SeyfrError::InvalidTicket { details: "bad".to_string() };
    match error_event(&e) {
        ProgressEvent::Error { details } => assert_eq!(details, "invalid ticket: bad"),
        other => panic!("unexpected {:?}", other),
    }
    let failed: Result<(), SeyfrError> = Err(SeyfrError::InvalidTicket { details: "bad".to_string() });
    let ev = outcome_event(&failed).expect("a failure is reported");
    report(Some(&sink), ev);
    assert!(outcome_event(&Ok::<u8, SeyfrError>(1)).is_none());
    assert_eq!(sink.errors.lock().unwrap().as_slice(), &["invalid ticket: bad".to_string()]);
    assert!(sink.completes.lock().unwrap().is_empty());
}

#[test]
fn store_import_steps() {
    match on_add_event(&AddEvent::Done { hash: hash(7) }) {
        AddStep::Stored { hash: h } => assert_eq!(h, hash(7)),
        other => panic!("unexpected {:?}", other),
    }
    match on_add_event(&AddEvent::Error { details: "disk full".to_string() }) {
        AddStep::Failed { error: SeyfrError::Store { details } } => assert_eq!(details, "add bytes error: disk full"),
        other => panic!("unexpected {:?}", other),
    }
    assert!(matches!(on_add_event(&AddEvent::Other), AddStep::Continue));
    match add_unfinished() {
        SeyfrError::Store { details } => assert_eq!(details, "add_bytes stream ended without Done"),
        other => panic!("unexpected {:?}", other),
    }
}
