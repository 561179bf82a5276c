//! The receiving side: reading download events, pairing the metadata's items
//! with the hashes of the root blob, and the reports and errors of a receive.

use vstd::prelude::*;
use crate::errors::{ErrorModel, SeyfrError};
use crate::hashseq::{HASH_LEN, copy_bytes, root_layout, split_root_spec, well_sized, lemma_root_roundtrip};
use crate::metadata::{ItemModel, MAX_FILES, SeyfrItem, items_view};
use crate::progress::{EventModel, ProgressEvent};
use crate::text::{DownloadEvent, classify_download_event, classify_event, decimal, push_decimal};

verus! {

// ---------------------------------------------------------------------------
// Errors of a receive
// ---------------------------------------------------------------------------

fn join_text(a: &str, b: &str) -> (r: String)
    ensures
        r@ == a@ + b@,
{
    let mut s = String::from_str(a);
    s.append(b);
    s
}

/// A ticket that could not be parsed.
pub fn invalid_ticket(details: &str) -> (r: SeyfrError)
    ensures
        r@ == (ErrorModel::InvalidTicket { details: details@ }),
{
    SeyfrError::InvalidTicket { details: String::from_str(details) }
}

pub open spec fn raw_ticket_text() -> Seq<char> {
    "Raw format tickets are not supported — use HashSeq with metadata"@
}

/// Only tickets in the hash-sequence format carry metadata; raw tickets are refused.
pub fn check_ticket_format(is_hash_seq: bool) -> (r: Result<(), SeyfrError>)
    ensures
        is_hash_seq <==> r is Ok,
        r matches Err(e) ==> e@ == (ErrorModel::InvalidTicket { details: raw_ticket_text() }),
{
    if is_hash_seq {
        Ok(())
    } else {
        Err(
            SeyfrError::InvalidTicket {
                details: String::from_str(
                    "Raw format tickets are not supported — use HashSeq with metadata",
                ),
            },
        )
    }
}

/// A destination directory that the path jail refused.
pub fn invalid_destination(details: &str) -> (r: SeyfrError)
    ensures
        r@ == (ErrorModel::InvalidPath { details: "invalid destination directory: "@ + details@ }),
{
    SeyfrError::InvalidPath { details: join_text("invalid destination directory: ", details) }
}

/// Which blob could not be read back from the store.
#[derive(Debug, Clone, Copy, PartialEq, Eq, Structural)]
pub enum StoredBlob {
    HashSequence,
    Metadata,
}

pub open spec fn read_failure_text(which: StoredBlob, details: Seq<char>) -> Seq<char> {
    match which {
        StoredBlob::HashSequence => "failed to read hash sequence: "@ + details,
        StoredBlob::Metadata => "failed to read metadata: "@ + details,
    }
}

/// A blob that the store could not give back.
pub fn read_failure(which: StoredBlob, details: &str) -> (r: SeyfrError)
    ensures
        r@ == (ErrorModel::Store { details: read_failure_text(which, details@) }),
{
    match which {
        StoredBlob::HashSequence => SeyfrError::Store {
            details: join_text("failed to read hash sequence: ", details),
        },
        StoredBlob::Metadata => SeyfrError::Store {
            details: join_text("failed to read metadata: ", details),
        },
    }
}

/// A metadata blob that is not valid Seyfr metadata.
pub fn invalid_metadata(details: &str) -> (r: SeyfrError)
    ensures
        r@ == (ErrorModel::Store { details: "invalid metadata format: "@ + details@ }),
{
    SeyfrError::Store { details: join_text("invalid metadata format: ", details) }
}

pub open spec fn too_many_items_text(count: nat) -> Seq<char> {
    "too many items in metadata: "@ + decimal(count) + " (a transfer holds at most 10000)"@
}

/// A transfer whose metadata lists more files than a transfer may hold is refused.
pub fn check_item_count(count: usize) -> (r: Result<(), SeyfrError>)
    ensures
        count <= MAX_FILES <==> r is Ok,
        r matches Err(e) ==> e@ == (ErrorModel::Store { details: too_many_items_text(count as nat) }),
{
    if count > MAX_FILES {
        let mut d = String::from_str("too many items in metadata: ");
        push_decimal(&mut d, count as u64);
        d.append(" (a transfer holds at most 10000)");
        Err(SeyfrError::Store { details: d })
    } else {
        Ok(())
    }
}

/// What the store knows of a blob.
#[derive(Debug, Clone, Copy, PartialEq, Eq, Structural)]
pub enum BlobState {
    /// The store has no such blob, or could not be asked.
    Unknown,
    /// Part of the blob is present; its size may be known.
    Partial { size: Option<u64> },
    /// The whole blob is present.
    Complete { size: u64 },
}

/// The size of a blob, when the store knows it.
pub fn blob_size(state: BlobState) -> (r: Option<u64>)
    ensures
        r == match state {
            BlobState::Unknown => None,
            BlobState::Partial { size } => size,
            BlobState::Complete { size } => Some(size),
        },
{
    match state {
        BlobState::Unknown => None,
        BlobState::Partial { size } => size,
        BlobState::Complete { size } => Some(size),
    }
}

// ---------------------------------------------------------------------------
// Watching a download
// ---------------------------------------------------------------------------

/// What is being downloaded.
#[derive(Debug)]
pub enum DownloadTarget {
    /// The root blob: the hash sequence of the transfer.
    HashSequence,
    /// The metadata blob.
    Metadata,
    /// A file, by its name in the metadata.
    File { name: String },
}

pub open spec fn target_label(t: DownloadTarget) -> Seq<char> {
    match t {
        DownloadTarget::File { name } => name@,
        _ => "metadata"@,
    }
}

pub open spec fn start_failure_text(t: DownloadTarget, details: Seq<char>) -> Seq<char> {
    match t {
        DownloadTarget::HashSequence => "failed to start download: "@ + details,
        DownloadTarget::Metadata => "failed to start metadata download: "@ + details,
        DownloadTarget::File { name } => "failed to start download for '"@ + name@ + "': "@
            + details,
    }
}

pub open spec fn stream_failure_text(t: DownloadTarget, event: Seq<char>) -> Seq<char> {
    match t {
        DownloadTarget::HashSequence => "download failed: "@ + event,
        DownloadTarget::Metadata => "failed to download metadata: "@ + event,
        DownloadTarget::File { name } => "download failed for '"@ + name@ + "': "@ + event,
    }
}

/// What to do with one event of a download stream.
#[derive(Debug)]
pub enum DownloadStep {
    /// Bytes arrived. Ask the store for the blob's size first when
    /// `refresh_size` holds; report progress when the count is known.
    Progress { current: Option<u64>, refresh_size: bool },
    /// The download is over.
    Finished,
    /// The download failed: give up with this error.
    Failed { error: SeyfrError },
    /// Nothing to do.
    Other,
}

/// The state of one download: its target and the size shown as total.
pub struct DownloadWatch {
    pub target: DownloadTarget,
    pub size: u64,
}

impl DownloadWatch {
    /// Only the hash sequence and the metadata have their size looked up
    /// again while it is still unknown (zero).
    pub open spec fn refreshes(self) -> bool {
        !(self.target is File) && self.size == 0
    }

    /// Watch a download whose size is known as `size` (0 when unknown).
    pub fn new(target: DownloadTarget, size: Option<u64>) -> (r: DownloadWatch)
        ensures
            r.target == target,
            r.size == match size {
                Some(s) => s,
                None => 0,
            },
    {
        let size = match size {
            Some(s) => s,
            None => 0,
        };
        DownloadWatch { target, size }
    }

    /// The label under which progress is reported.
    pub fn label(&self) -> (r: String)
        ensures
            r@ == target_label(self.target),
    {
        match &self.target {
            DownloadTarget::File { name } => String::from_str(name.as_str()),
            _ => String::from_str("metadata"),
        }
    }

    /// The error when the download could not start.
    pub fn start_failure(&self, details: &str) -> (r: SeyfrError)
        ensures
            r@ == (ErrorModel::Network { details: start_failure_text(self.target, details@) }),
    {
        match &self.target {
            DownloadTarget::HashSequence => SeyfrError::Network {
                details: join_text("failed to start download: ", details),
            },
            DownloadTarget::Metadata => SeyfrError::Network {
                details: join_text("failed to start metadata download: ", details),
            },
            DownloadTarget::File { name } => {
                let mut s = join_text("failed to start download for '", name.as_str());
                s.append("': ");
                s.append(details);
                SeyfrError::Network { details: s }
            },
        }
    }

    fn stream_failure(&self, event: &str) -> (r: SeyfrError)
        ensures
            r@ == (ErrorModel::Network { details: stream_failure_text(self.target, event@) }),
    {
        match &self.target {
            DownloadTarget::HashSequence => SeyfrError::Network {
                details: join_text("download failed: ", event),
            },
            DownloadTarget::Metadata => SeyfrError::Network {
                details: join_text("failed to download metadata: ", event),
            },
            DownloadTarget::File { name } => {
                let mut s = join_text("download failed for '", name.as_str());
                s.append("': ");
                s.append(event);
                SeyfrError::Network { details: s }
            },
        }
    }

    /// Read one event of the download stream, rendered as text.
    pub fn on_event(&self, event: &str) -> (r: DownloadStep)
        ensures
            match classify_event(event@) {
                DownloadEvent::Progress(c) => r matches DownloadStep::Progress { current, refresh_size }
                    && current == c && refresh_size == self.refreshes(),
                DownloadEvent::Finished => r is Finished,
                DownloadEvent::Failed => r matches DownloadStep::Failed { error } && error@
                    == (ErrorModel::Network { details: stream_failure_text(self.target, event@) }),
                DownloadEvent::Other => r is Other,
            },
    {
        match classify_download_event(event) {
            DownloadEvent::Progress(c) => {
                let refresh = match &self.target {
                    DownloadTarget::File { .. } => false,
                    _ => self.size == 0,
                };
                DownloadStep::Progress { current: c, refresh_size: refresh }
            },
            DownloadEvent::Finished => DownloadStep::Finished,
            DownloadEvent::Failed => DownloadStep::Failed { error: self.stream_failure(event) },
            DownloadEvent::Other => DownloadStep::Other,
        }
    }

    /// Take the size the store reports (0 when it reports none).
    pub fn set_size(&mut self, size: Option<u64>)
        ensures
            final(self).target == old(self).target,
            final(self).size == match size {
                Some(s) => s,
                None => 0,
            },
    {
        self.size = match size {
            Some(s) => s,
            None => 0,
        };
    }

    /// The progress event for `current` bytes.
    pub fn progress_event(&self, current: u64) -> (r: ProgressEvent)
        ensures
            r@ == (EventModel::FileProgress {
                name: target_label(self.target),
                current,
                total: self.size,
            }),
    {
        ProgressEvent::FileProgress { name: self.label(), current, total: self.size }
    }
}

// ---------------------------------------------------------------------------
// Pairing items with hashes
// ---------------------------------------------------------------------------

/// What the receiver does for one item of the metadata.
#[derive(Debug)]
pub struct ItemTask {
    /// The item's name, relative to the destination.
    pub name: String,
    /// The content hash of the file.
    pub hash: Vec<u8>,
    /// The size from the metadata, or `None` when it records 0 and the store
    /// is to be asked.
    pub known_size: Option<u64>,
    /// The modification time to set on the written file, when the metadata
    /// records one (non-zero).
    pub modified_at: Option<u64>,
    /// Position of the item, from 1.
    pub index: u64,
    /// Number of items in the transfer.
    pub total: u64,
}

pub struct TaskModel {
    pub name: Seq<char>,
    pub hash: Seq<u8>,
    pub known_size: Option<u64>,
    pub modified_at: Option<u64>,
    pub index: u64,
    pub total: u64,
}

impl View for ItemTask {
    type V = TaskModel;

    open spec fn view(&self) -> TaskModel {
        TaskModel {
            name: self.name@,
            hash: self.hash@,
            known_size: self.known_size,
            modified_at: self.modified_at,
            index: self.index,
            total: self.total,
        }
    }
}

/// The task for item `i`, or the error when the root blob has no hash for it.
pub open spec fn task_at(items: Seq<ItemModel>, hashes: Seq<Seq<u8>>, i: int) -> Result<
    TaskModel,
    ErrorModel,
> {
    if i < hashes.len() {
        Ok(
            TaskModel {
                name: items[i].name,
                hash: hashes[i],
                known_size: if items[i].size > 0 {
                    Some(items[i].size)
                } else {
                    None
                },
                modified_at: if items[i].modified_at > 0 {
                    Some(items[i].modified_at)
                } else {
                    None
                },
                index: (i + 1) as u64,
                total: items.len() as u64,
            },
        )
    } else {
        Err(ErrorModel::Store { details: "missing hash for file: "@ + items[i].name })
    }
}

pub open spec fn received_text(total: u64) -> Seq<char> {
    if total == 1 {
        "File received successfully"@
    } else {
        "Folder received: "@ + decimal(total as nat) + " items"@
    }
}

pub struct SessionModel {
    pub items: Seq<ItemModel>,
    pub hashes: Seq<Seq<u8>>,
    pub next: nat,
}

/// The item loop of a receive: the items of the metadata, the file hashes
/// of the root blob (after the metadata hash), and how many items are done.
pub struct ReceiveSession {
    items: Vec<SeyfrItem>,
    hashes: Vec<Vec<u8>>,
    next: usize,
}

impl View for ReceiveSession {
    type V = SessionModel;

    closed spec fn view(&self) -> SessionModel {
        SessionModel {
            items: items_view(self.items@),
            hashes: self.hashes.deep_view(),
            next: self.next as nat,
        }
    }
}

impl ReceiveSession {
    #[verifier::type_invariant]
    spec fn wf(self) -> bool {
        &&& self.next <= self.items@.len()
        &&& self.items@.len() < u64::MAX
    }

    /// Begin the item loop (item counts are reported as `u64`).
    pub fn new(items: Vec<SeyfrItem>, hashes: Vec<Vec<u8>>) -> (r: ReceiveSession)
        requires
            items@.len() < u64::MAX,
        ensures
            r@ == (SessionModel { items: items_view(items@), hashes: hashes.deep_view(), next: 0 }),
    {
        ReceiveSession { items, hashes, next: 0 }
    }

    /// Number of items in the transfer.
    pub fn total(&self) -> (r: u64)
        ensures
            r == self@.items.len(),
    {
        proof {
            use_type_invariant(self);
        }
        self.items.len() as u64
    }

    /// The next item to receive: `None` when all are done; the error when
    /// the root blob holds no hash for it (the session then stays where it
    /// is); otherwise its task, and the session moves past it.
    pub fn next_task(&mut self) -> (r: Option<Result<ItemTask, SeyfrError>>)
        ensures
            final(self)@.items == old(self)@.items,
            final(self)@.hashes == old(self)@.hashes,
            old(self)@.next == old(self)@.items.len() ==> r is None && final(self)@ == old(self)@,
            old(self)@.next < old(self)@.items.len() ==> {
                &&& r is Some
                &&& match (r->0, task_at(old(self)@.items, old(self)@.hashes, old(self)@.next as int)) {
                    (Ok(t), Ok(m)) => t@ == m && final(self)@.next == old(self)@.next + 1,
                    (Err(e), Err(m)) => e@ == m && final(self)@ == old(self)@,
                    _ => false,
                }
            },
    {
        proof {
            use_type_invariant(&*self);
        }
        let i = self.next;
        if i >= self.items.len() {
            return None;
        }
        let item = &self.items[i];
        let ghost iv = item@;
        assert(items_view(self.items@)[i as int] == iv);
        if i >= self.hashes.len() {
            let mut d = String::from_str("missing hash for file: ");
            d.append(item.name.as_str());
            return Some(Err(SeyfrError::Store { details: d }));
        }
        let hash = copy_bytes(&self.hashes[i]);
        assert(self.hashes.deep_view()[i as int] == self.hashes@[i as int]@) by {
            assert(self.hashes@[i as int].deep_view() =~= self.hashes@[i as int]@);
        }
        let task = ItemTask {
            name: String::from_str(item.name.as_str()),
            hash,
            known_size: if item.size > 0 {
                Some(item.size)
            } else {
                None
            },
            modified_at: if item.modified_at > 0 {
                Some(item.modified_at)
            } else {
                None
            },
            index: (i + 1) as u64,
            total: self.items.len() as u64,
        };
        self.next = i + 1;
        Some(Ok(task))
    }

    /// The event that ends a successful receive.
    pub fn finish_event(&self) -> (r: ProgressEvent)
        ensures
            r@ == (EventModel::Complete { details: received_text(self@.items.len() as u64) }),
    {
        let total = self.total();
        if total == 1 {
            ProgressEvent::Complete { details: String::from_str("File received successfully") }
        } else {
            let mut s = String::from_str("Folder received: ");
            push_decimal(&mut s, total);
            s.append(" items");
            ProgressEvent::Complete { details: s }
        }
    }
}

impl ItemTask {
    /// The event when the item starts.
    pub fn start_event(&self) -> (r: ProgressEvent)
        ensures
            r@ == (EventModel::FileStart { name: self.name@, index: self.index, total: self.total }),
    {
        ProgressEvent::FileStart {
            name: String::from_str(self.name.as_str()),
            index: self.index,
            total: self.total,
        }
    }

    /// The event when the item is written.
    pub fn complete_event(&self) -> (r: ProgressEvent)
        ensures
            r@ == (EventModel::FileComplete { name: self.name@, index: self.index, total: self.total }),
    {
        ProgressEvent::FileComplete {
            name: String::from_str(self.name.as_str()),
            index: self.index,
            total: self.total,
        }
    }

    /// The watch for the item's download, with the size to show as total.
    pub fn watch(&self, store_size: Option<u64>) -> (r: DownloadWatch)
        ensures
            r.target is File,
            target_label(r.target) == self.name@,
            r.size == match self.known_size {
                Some(s) => s,
                None => match store_size {
                    Some(s) => s,
                    None => 0,
                },
            },
    {
        let size = match self.known_size {
            Some(s) => s,
            None => match store_size {
                Some(s) => s,
                None => 0,
            },
        };
        DownloadWatch {
            target: DownloadTarget::File { name: String::from_str(self.name.as_str()) },
            size,
        }
    }

    /// The error when the path jail refuses the item's name.
    pub fn rejected(&self, details: &str) -> (r: SeyfrError)
        ensures
            r@ == (ErrorModel::PathTraversal { path: self.name@, details: details@ }),
    {
        SeyfrError::PathTraversal {
            path: String::from_str(self.name.as_str()),
            details: String::from_str(details),
        }
    }

    /// The error when the file could not be written to its destination.
    pub fn export_failed(&self, details: &str) -> (r: SeyfrError)
        ensures
            r@ == (ErrorModel::Store {
                details: "export failed for '"@ + self.name@ + "': "@ + details@,
            }),
    {
        let mut s = join_text("export failed for '", self.name.as_str());
        s.append("': ");
        s.append(details);
        SeyfrError::Store { details: s }
    }
}

// ---------------------------------------------------------------------------
// Laws
// ---------------------------------------------------------------------------

/// Receiving what was sent: when the root blob is the sender's layout of a
/// metadata hash and one file hash per item, the receiver finds the metadata
/// hash, and the task of every item carries that item's name, exactly the
/// hash the sender stored for it, its modification time to restore (when
/// the sender recorded one) and its size; no item lacks a hash.
pub proof fn lemma_receive_what_was_sent(
    meta: Seq<u8>,
    files: Seq<Seq<u8>>,
    items: Seq<ItemModel>,
)
    requires
        meta.len() == HASH_LEN,
        well_sized(files),
        files.len() == items.len(),
    ensures
        split_root_spec(root_layout(meta, files)) matches Ok((m, hs)) && m == meta && hs == files,
        forall|i: int|
            0 <= i < items.len() ==> (#[trigger] task_at(items, files, i) matches Ok(t) && t.name
                == items[i].name && t.hash == files[i] && t.index == (i + 1) as u64 && t.total
                == items.len() as u64 && (items[i].modified_at > 0 ==> t.modified_at == Some(
                items[i].modified_at)) && (items[i].modified_at == 0 ==> t.modified_at is None)
                && (items[i].size > 0 ==> t.known_size == Some(items[i].size))),
{
    lemma_root_roundtrip(meta, files);
}

/// A root blob with fewer file hashes than items makes the receive fail at
/// the first item without a hash, and at no earlier item.
pub proof fn lemma_missing_hash_fails(items: Seq<ItemModel>, hashes: Seq<Seq<u8>>)
    requires
        hashes.len() < items.len(),
    ensures
        forall|i: int| 0 <= i < hashes.len() ==> (#[trigger] task_at(items, hashes, i)) is Ok,
        task_at(items, hashes, hashes.len() as int) matches Err(e) && e == (ErrorModel::Store {
            details: "missing hash for file: "@ + items[hashes.len() as int].name,
        }),
{
}

} // verus!
