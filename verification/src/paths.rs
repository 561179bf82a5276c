//! Paths as the transfer engine reads them: the display name of a file, its
//! extension and MIME type, and what a look at the disk tells about a path.

use vstd::prelude::*;
use vstd::string::*;
use crate::errors::{ErrorModel, SeyfrError, view_result};
use crate::text::chars_of;

verus! {

// ---------------------------------------------------------------------------
// File names
// ---------------------------------------------------------------------------

/// Index of the last `/` in `s`, or -1.
pub open spec fn last_index_of(s: Seq<char>, c: char) -> int
    decreases s.len(),
{
    if s.len() == 0 {
        -1
    } else if s.last() == c {
        s.len() - 1
    } else {
        last_index_of(s.drop_last(), c)
    }
}

/// The last normal component of a `/`-separated path, as `Path::file_name`
/// gives it: trailing separators and `.` components are passed over, and a
/// path that ends in `..`, or has no normal component left, has none.
pub open spec fn file_name_of(s: Seq<char>) -> Option<Seq<char>>
    decreases s.len(),
{
    if s.len() == 0 {
        None
    } else if s.last() == '/' {
        file_name_of(s.drop_last())
    } else {
        proof {
            lemma_last_index_bounds(s, '/');
        }
        let k = last_index_of(s, '/') + 1;
        let seg = s.subrange(k, s.len() as int);
        if seg == seq!['.'] {
            file_name_of(s.subrange(0, k))
        } else if seg == seq!['.', '.'] {
            None
        } else {
            Some(seg)
        }
    }
}

/// The extension of a path, as `Path::extension` gives it: what follows the
/// last `.` of the file name, when that dot is not its first character.
pub open spec fn extension_of(s: Seq<char>) -> Option<Seq<char>> {
    match file_name_of(s) {
        None => None,
        Some(f) => {
            let d = last_index_of(f, '.');
            if d <= 0 {
                None
            } else {
                Some(f.subrange(d + 1, f.len() as int))
            }
        },
    }
}

/// Where the last occurrence of a character can lie.
pub proof fn lemma_last_index_bounds(s: Seq<char>, c: char)
    ensures
        -1 <= last_index_of(s, c) < s.len(),
        last_index_of(s, c) >= 0 ==> s[last_index_of(s, c)] == c,
        forall|j: int| last_index_of(s, c) < j < s.len() ==> s[j] != c,
    decreases s.len(),
{
    if s.len() > 0 && s.last() != c {
        lemma_last_index_bounds(s.drop_last(), c);
        assert forall|j: int| last_index_of(s, c) < j < s.len() implies s[j] != c by {
            if j < s.len() - 1 {
                assert(s[j] == s.drop_last()[j]);
            }
        }
    }
}

/// Index of the last `c` in `v[..end]`, plus one (0 when there is none).
fn after_last(v: &Vec<char>, end: usize, c: char) -> (r: usize)
    requires
        end <= v@.len(),
    ensures
        r == last_index_of(v@.subrange(0, end as int), c) + 1,
{
    let mut i = end;
    while i > 0 && v[i - 1] != c
        invariant
            i <= end <= v@.len(),
            last_index_of(v@.subrange(0, end as int), c) == last_index_of(
                v@.subrange(0, i as int),
                c,
            ),
        decreases i,
    {
        assert(v@.subrange(0, i as int).drop_last() =~= v@.subrange(0, i - 1));
        i = i - 1;
    }
    i
}

/// The display name of a path: its last normal component.
pub fn file_name(path: &str) -> (r: Option<String>)
    ensures
        match r {
            Some(n) => file_name_of(path@) == Some(n@),
            None => file_name_of(path@) is None,
        },
{
    let c = chars_of(path);
    let mut i = c.len();
    assert(c@.subrange(0, i as int) =~= c@);
    loop
        invariant
            i <= c@.len(),
            c@ == path@,
            file_name_of(path@) == file_name_of(c@.subrange(0, i as int)),
        decreases i,
    {
        let ghost t = c@.subrange(0, i as int);
        if i == 0 {
            return None;
        }
        if c[i - 1] == '/' {
            assert(t.drop_last() =~= c@.subrange(0, i - 1));
            i = i - 1;
        } else {
            let j = after_last(&c, i, '/');
            proof {
                lemma_last_index_bounds(t, '/');
                assert(t.subrange(0, j as int) =~= c@.subrange(0, j as int));
            }
            let len = i - j;
            if len == 1 && c[j] == '.' {
                assert(t.subrange(j as int, t.len() as int) =~= seq!['.']);
                i = j;
            } else if len == 2 && c[j] == '.' && c[j + 1] == '.' {
                assert(t.subrange(j as int, t.len() as int) =~= seq!['.', '.']);
                return None;
            } else {
                let ghost seg = t.subrange(j as int, t.len() as int);
                assert(seg.len() == len);
                assert(seg != seq!['.']) by {
                    if len == 1 {
                        assert(seg[0] == c@[j as int]);
                        assert(seq!['.'][0] == '.');
                    }
                }
                assert(seg != seq!['.', '.']) by {
                    if seg =~= seq!['.', '.'] {
                        assert(seg[0] == c@[j as int]);
                        assert(seg[1] == c@[j + 1]);
                    }
                }
                let name = path.substring_char(j, i);
                assert(name@ =~= seg);
                return Some(String::from_str(name));
            }
        }
    }
}

/// The extension of a path.
pub fn extension(path: &str) -> (r: Option<String>)
    ensures
        match r {
            Some(e) => extension_of(path@) == Some(e@),
            None => extension_of(path@) is None,
        },
{
    match file_name(path) {
        None => None,
        Some(f) => {
            let fc = chars_of(f.as_str());
            let d = after_last(&fc, fc.len(), '.');
            assert(fc@.subrange(0, fc@.len() as int) =~= fc@);
            proof {
                lemma_last_index_bounds(fc@, '.');
            }
            if d <= 1 {
                None
            } else {
                let e = f.as_str().substring_char(d, fc.len());
                Some(String::from_str(e))
            }
        },
    }
}

// ---------------------------------------------------------------------------
// MIME types
// ---------------------------------------------------------------------------

/// The MIME type that `mime_guess` associates first with an extension, or
/// `application/octet-stream` when it knows none.
pub uninterp spec fn mime_for_extension(ext: Seq<char>) -> Seq<char>;

pub open spec fn octet_stream() -> Seq<char> {
    "application/octet-stream"@
}

/// The MIME type recorded for a file: looked up by its extension.
pub open spec fn mime_for_path(path: Seq<char>) -> Seq<char> {
    match extension_of(path) {
        Some(e) => mime_for_extension(e),
        None => octet_stream(),
    }
}

/// `mime_guess::from_ext(ext).first_or_octet_stream()`, as text.
/// Trusted: the result is the table lookup that `mime_for_extension` names,
/// and for the empty extension the lookup finds nothing, so the result is
/// `application/octet-stream`. Nothing else about the table is stated.
#[verifier::external_body]
fn mime_from_extension(ext: &str) -> (r: String)
    ensures
        r@ == mime_for_extension(ext@),
        ext@.len() == 0 ==> r@ == octet_stream(),
{
    mime_guess::from_ext(ext).first_or_octet_stream().to_string()
}

/// The extension of a path is what follows the last dot of its file name,
/// when that dot is not the name's first character; a name with no dot
/// after its first character has no extension, and neither has a path
/// without a file name.
pub proof fn lemma_extension_is_after_last_dot(path: Seq<char>)
    ensures
        file_name_of(path) is None ==> extension_of(path) is None,
        file_name_of(path) matches Some(f) ==> {
            &&& extension_of(path) matches Some(e) ==> {
                &&& f.len() >= e.len() + 2
                &&& f[f.len() - e.len() - 1] == '.'
                &&& f.subrange(f.len() - e.len(), f.len() as int) == e
                &&& forall|j: int| 0 <= j < e.len() ==> e[j] != '.'
            }
            &&& extension_of(path) is None ==> forall|j: int| 0 < j < f.len() ==> f[j] != '.'
        },
{
    if let Some(f) = file_name_of(path) {
        lemma_last_index_bounds(f, '.');
        let d = last_index_of(f, '.');
        if d > 0 {
            let e = f.subrange(d + 1, f.len() as int);
            assert forall|j: int| 0 <= j < e.len() implies e[j] != '.' by {
                assert(e[j] == f[d + 1 + j]);
            }
        }
    }
}

/// The MIME type recorded for a file is the table's entry for its extension,
/// whatever that extension is, and `application/octet-stream` when it has none.
pub proof fn lemma_mime_by_extension(path: Seq<char>)
    ensures
        extension_of(path) matches Some(e) ==> mime_for_path(path) == mime_for_extension(e),
        extension_of(path) is None ==> mime_for_path(path) == "application/octet-stream"@,
{
}

/// The MIME type recorded in the metadata for the file at `path`.
pub fn guess_mime_type(path: &str) -> (r: String)
    ensures
        r@ == mime_for_path(path@),
        extension_of(path@) matches Some(e) ==> r@ == mime_for_extension(e),
        extension_of(path@) is None ==> r@ == "application/octet-stream"@,
{
    match extension(path) {
        Some(e) => mime_from_extension(e.as_str()),
        None => String::from_str("application/octet-stream"),
    }
}

// ---------------------------------------------------------------------------
// What the disk says about a path
// ---------------------------------------------------------------------------

/// The outcome of looking up a path's metadata (symlinks followed).
#[derive(Debug)]
pub enum PathKind {
    /// The path does not exist; the text of the system's error.
    Missing { details: String },
    /// The lookup failed for another reason; the text of the system's error.
    Unreadable { details: String },
    File,
    Directory,
    /// Something that is neither a regular file nor a directory.
    Other,
}

/// Where `send` goes with a path.
#[derive(Debug, Clone, Copy, PartialEq, Eq, Structural)]
pub enum SendRoute {
    File,
    Folder,
}

pub open spec fn non_file_text(path: Seq<char>) -> Seq<char> {
    "expected a file, got non-file path: "@ + path
}

/// What `resolve_file_path` makes of a path: the path and its display name,
/// or the error.
pub open spec fn resolve_file_spec(path: Seq<char>, kind: PathKind) -> Result<
    (Seq<char>, Seq<char>),
    ErrorModel,
> {
    match kind {
        PathKind::Missing { .. } => Err(ErrorModel::FileNotFound { path }),
        PathKind::Unreadable { details } => Err(ErrorModel::Io { details: details@ }),
        PathKind::File => Ok(
            (
                path,
                match file_name_of(path) {
                    Some(n) => n,
                    None => "unnamed"@,
                },
            ),
        ),
        _ => Err(ErrorModel::Io { details: non_file_text(path) }),
    }
}

pub open spec fn resolve_folder_spec(path: Seq<char>, kind: PathKind) -> Result<
    Seq<char>,
    ErrorModel,
> {
    match kind {
        PathKind::Missing { .. } => Err(ErrorModel::FileNotFound { path }),
        PathKind::Unreadable { details } => Err(ErrorModel::Io { details: details@ }),
        PathKind::Directory => Ok(path),
        _ => Err(ErrorModel::NotADirectory { path }),
    }
}

pub open spec fn send_route_spec(path: Seq<char>, kind: PathKind) -> Result<SendRoute, ErrorModel> {
    match kind {
        PathKind::Missing { .. } => Err(ErrorModel::FileNotFound { path }),
        PathKind::Unreadable { details } => Err(ErrorModel::Io { details: details@ }),
        PathKind::Directory => Ok(SendRoute::Folder),
        _ => Ok(SendRoute::File),
    }
}

fn copy_string(s: &String) -> (r: String)
    ensures
        r@ == s@,
{
    String::from_str(s.as_str())
}

/// Check that `path` names a regular file and give its display name.
pub fn resolve_file_path(path: &str, kind: &PathKind) -> (r: Result<(String, String), SeyfrError>)
    ensures
        view_result(r) == resolve_file_spec(path@, *kind),
{
    match kind {
        PathKind::Missing { .. } => Err(SeyfrError::FileNotFound { path: String::from_str(path) }),
        PathKind::Unreadable { details } => Err(SeyfrError::Io { details: copy_string(details) }),
        PathKind::File => {
            let name = match file_name(path) {
                Some(n) => n,
                None => String::from_str("unnamed"),
            };
            Ok((String::from_str(path), name))
        },
        _ => {
            let mut d = String::from_str("expected a file, got non-file path: ");
            d.append(path);
            Err(SeyfrError::Io { details: d })
        },
    }
}

/// Check that `path` names a directory.
pub fn resolve_folder_path(path: &str, kind: &PathKind) -> (r: Result<String, SeyfrError>)
    ensures
        view_result(r) == resolve_folder_spec(path@, *kind),
{
    match kind {
        PathKind::Missing { .. } => Err(SeyfrError::FileNotFound { path: String::from_str(path) }),
        PathKind::Unreadable { details } => Err(SeyfrError::Io { details: copy_string(details) }),
        PathKind::Directory => Ok(String::from_str(path)),
        _ => Err(SeyfrError::NotADirectory { path: String::from_str(path) }),
    }
}

/// Decide whether `send` shares `path` as a file or as a folder.
pub fn send_route(path: &str, kind: &PathKind) -> (r: Result<SendRoute, SeyfrError>)
    ensures
        match (r, send_route_spec(path@, *kind)) {
            (Ok(a), Ok(b)) => a == b,
            (Err(e), Err(m)) => e@ == m,
            _ => false,
        },
{
    match kind {
        PathKind::Missing { .. } => Err(SeyfrError::FileNotFound { path: String::from_str(path) }),
        PathKind::Unreadable { details } => Err(SeyfrError::Io { details: copy_string(details) }),
        PathKind::Directory => Ok(SendRoute::Folder),
        _ => Ok(SendRoute::File),
    }
}

} // verus!
