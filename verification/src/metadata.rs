//! The Seyfr metadata format and what the sender builds from the files it
//! shares: one item per file (name, size, timestamps, MIME type), the
//! progress it reports, and the message it ends with.

use vstd::prelude::*;
use crate::errors::{ErrorModel, SeyfrError};
use crate::paths::{extension_of, guess_mime_type, mime_for_extension, mime_for_path};
use crate::progress::{EventModel, ProgressEvent, events_view};
use crate::text::{decimal, push_decimal};

verus! {

/// Whether a transfer carries one file or a folder.
#[derive(Debug, Clone, Copy, PartialEq, Eq, Structural)]
pub enum SeyfrKind {
    File,
    Folder,
}

/// One transferred file.
#[derive(Debug, Clone)]
pub struct SeyfrItem {
    /// Display name for a single file, path relative to the root for a folder.
    pub name: String,
    pub size: u64,
    /// Seconds since the Unix epoch.
    pub created_at: u64,
    /// Seconds since the Unix epoch.
    pub modified_at: u64,
    pub mime_type: String,
}

/// The metadata blob of a transfer.
#[derive(Debug, Clone)]
pub struct SeyfrMetadata {
    pub version: String,
    pub kind: SeyfrKind,
    pub items: Vec<SeyfrItem>,
}

pub struct ItemModel {
    pub name: Seq<char>,
    pub size: u64,
    pub created_at: u64,
    pub modified_at: u64,
    pub mime_type: Seq<char>,
}

pub struct MetadataModel {
    pub version: Seq<char>,
    pub kind: SeyfrKind,
    pub items: Seq<ItemModel>,
}

impl View for SeyfrItem {
    type V = ItemModel;

    open spec fn view(&self) -> ItemModel {
        ItemModel {
            name: self.name@,
            size: self.size,
            created_at: self.created_at,
            modified_at: self.modified_at,
            mime_type: self.mime_type@,
        }
    }
}

pub open spec fn items_view(v: Seq<SeyfrItem>) -> Seq<ItemModel> {
    v.map_values(|i: SeyfrItem| i@)
}

impl View for SeyfrMetadata {
    type V = MetadataModel;

    open spec fn view(&self) -> MetadataModel {
        MetadataModel { version: self.version@, kind: self.kind, items: items_view(self.items@) }
    }
}

/// The format version written into every metadata blob.
pub open spec fn format_version() -> Seq<char> {
    "seyfr-v1"@
}

pub open spec fn single_file_metadata(item: ItemModel) -> MetadataModel {
    MetadataModel { version: format_version(), kind: SeyfrKind::File, items: seq![item] }
}

pub open spec fn folder_metadata_spec(items: Seq<ItemModel>) -> MetadataModel {
    MetadataModel { version: format_version(), kind: SeyfrKind::Folder, items }
}

/// The item recorded for a file shared under `name`, found at `path`.
pub fn new_item(name: String, path: &str, size: u64, created_at: u64, modified_at: u64) -> (r:
    SeyfrItem)
    ensures
        r@ == (ItemModel {
            name: name@,
            size,
            created_at,
            modified_at,
            mime_type: mime_for_path(path@),
        }),
        extension_of(path@) matches Some(e) ==> r.mime_type@ == mime_for_extension(e),
        extension_of(path@) is None ==> r.mime_type@ == "application/octet-stream"@,
{
    SeyfrItem { name, size, created_at, modified_at, mime_type: guess_mime_type(path) }
}

/// The metadata of a single-file transfer.
pub fn file_metadata(item: SeyfrItem) -> (r: SeyfrMetadata)
    ensures
        r@ == single_file_metadata(item@),
{
    let ghost iv = item@;
    let mut items: Vec<SeyfrItem> = Vec::new();
    items.push(item);
    let r = SeyfrMetadata { version: String::from_str("seyfr-v1"), kind: SeyfrKind::File, items };
    assert(r@.items =~= seq![iv]);
    r
}

/// The metadata of a folder transfer.
pub fn folder_metadata(items: Vec<SeyfrItem>) -> (r: SeyfrMetadata)
    ensures
        r@ == folder_metadata_spec(items_view(items@)),
{
    SeyfrMetadata { version: String::from_str("seyfr-v1"), kind: SeyfrKind::Folder, items }
}

// ---------------------------------------------------------------------------
// What the sender reports
// ---------------------------------------------------------------------------

pub open spec fn file_shared_text() -> Seq<char> {
    "File shared successfully"@
}

pub open spec fn folder_shared_text(total: u64) -> Seq<char> {
    "Folder shared: "@ + decimal(total as nat) + " items"@
}

/// The events of sharing one file: it starts as file 1 of 1, completes as
/// file 1 of 1, and the transfer completes.
pub open spec fn send_file_events_spec(name: Seq<char>) -> Seq<EventModel> {
    seq![
        EventModel::FileStart { name, index: 1, total: 1 },
        EventModel::FileComplete { name, index: 1, total: 1 },
        EventModel::Complete { details: file_shared_text() },
    ]
}

/// The events reported while sharing a single file, in order.
pub fn send_file_events(name: &str) -> (r: Vec<ProgressEvent>)
    ensures
        events_view(r@) == send_file_events_spec(name@),
{
    let mut v: Vec<ProgressEvent> = Vec::new();
    v.push(ProgressEvent::FileStart { name: String::from_str(name), index: 1, total: 1 });
    v.push(ProgressEvent::FileComplete { name: String::from_str(name), index: 1, total: 1 });
    v.push(ProgressEvent::Complete { details: String::from_str("File shared successfully") });
    assert(events_view(v@) =~= send_file_events_spec(name@));
    v
}

/// The message that ends a folder transfer on the sending side.
pub fn folder_shared_message(total: u64) -> (r: String)
    ensures
        r@ == folder_shared_text(total),
{
    let mut s = String::from_str("Folder shared: ");
    push_decimal(&mut s, total);
    s.append(" items");
    s
}

/// Before any import, each file of a folder is announced as started, with
/// its position (from 1) among all of them.
pub open spec fn folder_start_events_spec(names: Seq<Seq<char>>) -> Seq<EventModel> {
    Seq::new(
        names.len(),
        |i: int| EventModel::FileStart { name: names[i], index: (i + 1) as u64, total: names.len() as u64 },
    )
}

pub open spec fn strings_view(v: Seq<String>) -> Seq<Seq<char>> {
    v.map_values(|s: String| s@)
}

/// The start events of a folder transfer.
pub fn folder_start_events(names: &Vec<String>) -> (r: Vec<ProgressEvent>)
    requires
        names@.len() < u64::MAX,
    ensures
        events_view(r@) == folder_start_events_spec(strings_view(names@)),
{
    let total = names.len() as u64;
    let mut v: Vec<ProgressEvent> = Vec::new();
    let mut i: usize = 0;
    while i < names.len()
        invariant
            i <= names@.len(),
            names@.len() < u64::MAX,
            total == names@.len(),
            events_view(v@) == folder_start_events_spec(strings_view(names@)).subrange(0, i as int),
        decreases names@.len() - i,
    {
        let ghost prev = v@;
        v.push(
            ProgressEvent::FileStart {
                name: String::from_str(names[i].as_str()),
                index: (i + 1) as u64,
                total,
            },
        );
        assert(events_view(v@) =~= events_view(prev).push(v@[i as int]@));
        i = i + 1;
        assert(events_view(v@) =~= folder_start_events_spec(strings_view(names@)).subrange(
            0,
            i as int,
        ));
    }
    assert(folder_start_events_spec(strings_view(names@)).subrange(0, i as int)
        =~= folder_start_events_spec(strings_view(names@)));
    v
}

/// The most files one transfer may hold.
pub const MAX_FILES: usize = 10000;

pub open spec fn too_many_files_text(path: Seq<char>, count: nat) -> Seq<char> {
    "too many files in "@ + path + ": "@ + decimal(count) + " (a transfer holds at most 10000)"@
}

/// What a folder of `count` files comes to before anything is imported: an
/// empty folder is refused, and so is one with more files than a transfer
/// may hold.
pub open spec fn require_files_spec(path: Seq<char>, count: nat) -> Result<(), ErrorModel> {
    if count == 0 {
        Err(ErrorModel::EmptyFolder { path })
    } else if count > MAX_FILES {
        Err(ErrorModel::InvalidPath { details: too_many_files_text(path, count) })
    } else {
        Ok(())
    }
}

/// A folder is refused as empty exactly when it has no file; any folder of
/// one to ten thousand files is accepted, and a larger one is refused, but
/// never as empty.
pub proof fn lemma_require_files(path: Seq<char>, count: nat)
    ensures
        (require_files_spec(path, count) matches Err(ErrorModel::EmptyFolder { path: p })) <==> count
            == 0,
        require_files_spec(path, count) matches Err(ErrorModel::EmptyFolder { path: p }) ==> p == path,
        1 <= count <= 10000 ==> require_files_spec(path, count) is Ok,
        count > 10000 ==> require_files_spec(path, count) is Err,
{
}

/// A folder with no file to share, or with more than a transfer may hold, is refused.
pub fn require_files(path: &str, count: usize) -> (r: Result<(), SeyfrError>)
    ensures
        (r matches Err(SeyfrError::EmptyFolder { .. })) <==> count == 0,
        1 <= count <= 10000 ==> r is Ok,
        count > 10000 ==> r is Err,
        match (r, require_files_spec(path@, count as nat)) {
            (Ok(_), Ok(_)) => true,
            (Err(e), Err(m)) => e@ == m,
            _ => false,
        },
{
    if count == 0 {
        Err(SeyfrError::EmptyFolder { path: String::from_str(path) })
    } else if count > MAX_FILES {
        let mut d = String::from_str("too many files in ");
        d.append(path);
        d.append(": ");
        push_decimal(&mut d, count as u64);
        d.append(" (a transfer holds at most 10000)");
        Err(SeyfrError::InvalidPath { details: d })
    } else {
        Ok(())
    }
}

// ---------------------------------------------------------------------------
// Gathering the imports of a folder
// ---------------------------------------------------------------------------

/// A file of a folder, imported into the store: its item and content hash.
#[derive(Debug)]
pub struct ImportedFile {
    pub item: SeyfrItem,
    pub hash: Vec<u8>,
}

/// What the imports of a folder come to, in the order they finished: the
/// items and hashes of the imports before the first failure, a completion
/// event for each of them, and the first failure if there is one.
pub struct FolderAssembly {
    pub items: Vec<SeyfrItem>,
    pub hashes: Vec<Vec<u8>>,
    pub events: Vec<ProgressEvent>,
    pub failure: Option<SeyfrError>,
}

/// Number of leading successes in a list of import results.
pub open spec fn ok_prefix(rs: Seq<Result<ImportedFile, SeyfrError>>) -> int
    decreases rs.len(),
{
    if rs.len() == 0 {
        0
    } else if ok_prefix(rs.drop_last()) < rs.len() - 1 {
        ok_prefix(rs.drop_last())
    } else if rs.last() is Ok {
        rs.len() as int
    } else {
        rs.len() - 1
    }
}

pub proof fn lemma_ok_prefix(rs: Seq<Result<ImportedFile, SeyfrError>>)
    ensures
        0 <= ok_prefix(rs) <= rs.len(),
        forall|j: int| 0 <= j < ok_prefix(rs) ==> (#[trigger] rs[j]) is Ok,
        ok_prefix(rs) < rs.len() ==> rs[ok_prefix(rs)] is Err,
    decreases rs.len(),
{
    if rs.len() > 0 {
        lemma_ok_prefix(rs.drop_last());
        assert forall|j: int| 0 <= j < ok_prefix(rs) implies (#[trigger] rs[j]) is Ok by {
            if j < rs.len() - 1 {
                assert(rs[j] == rs.drop_last()[j]);
            }
        }
        if ok_prefix(rs.drop_last()) < rs.len() - 1 {
            assert(rs[ok_prefix(rs)] == rs.drop_last()[ok_prefix(rs)]);
        }
    }
}

pub open spec fn ok_item(r: Result<ImportedFile, SeyfrError>) -> ItemModel {
    match r {
        Ok(f) => f.item@,
        Err(_) => arbitrary(),
    }
}

pub open spec fn ok_hash(r: Result<ImportedFile, SeyfrError>) -> Seq<u8> {
    match r {
        Ok(f) => f.hash@,
        Err(_) => arbitrary(),
    }
}

pub open spec fn ok_items(rs: Seq<Result<ImportedFile, SeyfrError>>) -> Seq<ItemModel> {
    rs.map_values(|x: Result<ImportedFile, SeyfrError>| ok_item(x))
}

pub open spec fn ok_hashes(rs: Seq<Result<ImportedFile, SeyfrError>>) -> Seq<Seq<u8>> {
    rs.map_values(|x: Result<ImportedFile, SeyfrError>| ok_hash(x))
}

pub open spec fn completion_events(items: Seq<ItemModel>, total: u64) -> Seq<EventModel> {
    Seq::new(
        items.len(),
        |i: int| EventModel::FileComplete { name: items[i].name, index: (i + 1) as u64, total },
    )
}

/// Gather the import results of a folder of `total` files: stop at the first
/// failure; each success adds its item and hash, and a completion event that
/// counts it among the completed ones.
pub fn assemble_folder(results: Vec<Result<ImportedFile, SeyfrError>>, total: u64) -> (r:
    FolderAssembly)
    requires
        results@.len() <= total,
    ensures
        ({
            let k = ok_prefix(results@);
            let taken = results@.subrange(0, k);
            &&& items_view(r.items@) == ok_items(taken)
            &&& r.hashes.deep_view() == ok_hashes(taken)
            &&& events_view(r.events@) == completion_events(items_view(r.items@), total)
            &&& match r.failure {
                None => k == results@.len(),
                Some(e) => k < results@.len() && (results@[k] matches Err(f) && e@ == f@),
            }
        }),
{
    let ghost rs = results@;
    proof {
        lemma_ok_prefix(rs);
    }
    let n = results.len();
    let mut items: Vec<SeyfrItem> = Vec::new();
    let mut hashes: Vec<Vec<u8>> = Vec::new();
    let mut events: Vec<ProgressEvent> = Vec::new();
    let mut rest = results;
    let mut i: usize = 0;
    assert(rest@ =~= rs.subrange(0, n as int));
    while i < n
        invariant
            i <= n,
            n == rs.len(),
            rs == results@,
            n <= total,
            rest@ == rs.subrange(i as int, n as int),
            forall|j: int| 0 <= j < i ==> (#[trigger] rs[j]) is Ok,
            items_view(items@) == ok_items(rs.subrange(0, i as int)),
            hashes.deep_view() == ok_hashes(rs.subrange(0, i as int)),
            events_view(events@) == completion_events(items_view(items@), total),
        decreases n - i,
    {
        let r = rest.remove(0);
        assert(r == rs[i as int]);
        match r {
            Ok(f) => {
                let ghost iv = items_view(items@);
                let ghost ev = events_view(events@);
                let ghost hv = hashes.deep_view();
                let done = (i + 1) as u64;
                events.push(
                    ProgressEvent::FileComplete {
                        name: String::from_str(f.item.name.as_str()),
                        index: done,
                        total,
                    },
                );
                let ghost fi = f.item@;
                let ghost fh = f.hash@;
                items.push(f.item);
                assert(f.hash.deep_view() =~= f.hash@);
                hashes.push(f.hash);
                proof {
                    let taken = rs.subrange(0, i + 1);
                    assert(taken =~= rs.subrange(0, i as int).push(rs[i as int]));
                    assert(items_view(items@) =~= iv.push(fi));
                    assert(items_view(items@) =~= ok_items(taken));
                    assert(hashes.deep_view() =~= hv.push(fh));
                    assert(hashes.deep_view() =~= ok_hashes(taken));
                    assert(events_view(events@) =~= ev.push(events@[i as int]@));
                    assert(events_view(events@) =~= completion_events(items_view(items@), total));
                }
                i = i + 1;
                assert(rest@ =~= rs.subrange(i as int, n as int));
            },
            Err(e) => {
                proof {
                    lemma_ok_prefix(rs);
                    let k = ok_prefix(rs);
                    if k < i {
                        assert(rs[k] is Ok);
                    }
                    if k > i {
                        assert(rs[i as int] is Ok);
                    }
                    assert(k == i);
                    assert(rs[k] matches Err(g) && e@ == g@);
                    assert(k < rs.len());
                    assert(items_view(items@) == ok_items(rs.subrange(0, k)));
                    assert(hashes.deep_view() == ok_hashes(rs.subrange(0, k)));
                }
                return FolderAssembly { items, hashes, events, failure: Some(e) };
            },
        }
    }
    proof {
        lemma_ok_prefix(rs);
        let k = ok_prefix(rs);
        if k < n {
            assert(rs[k] is Ok);
        }
        assert(rs.subrange(0, n as int) =~= rs);
    }
    FolderAssembly { items, hashes, events, failure: None }
}

} // verus!
