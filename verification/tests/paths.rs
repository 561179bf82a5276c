use seyfr::errors::SeyfrError;
use seyfr::paths::{
    extension, file_name, guess_mime_type, resolve_file_path, resolve_folder_path, send_route, PathKind,
    SendRoute,
};

#[test]
fn resolve_file_path_accepts_regular_file() {
    let (path, name) = resolve_file_path("/tmp/t/data.txt", &PathKind::File).unwrap();
    assert_eq!(path, "/tmp/t/data.txt");
    assert_eq!(name, "data.txt");
}

#[test]
fn resolve_file_path_rejects_missing_file() {
    let missing = PathKind::Missing { details: "No such file or directory (os error 2)".to_string() };
    let result = resolve_file_path("/nonexistent/path/to/file.txt", &missing);
    assert!(matches!(result, Err(SeyfrError::FileNotFound { .. })));
}

#[test]
fn resolve_file_path_rejects_directory() {
    let result = resolve_file_path("/tmp/t", &PathKind::Directory);
    assert!(matches!(result, Err(SeyfrError::Io { .. })));
    match result {
        Err(SeyfrError::Io { details }) => {
            assert_eq!(details, "expected a file, got non-file path: /tmp/t")
        }
        _ => unreachable!(),
    }
}

#[test]
fn resolve_file_path_follows_symlink_to_file() {
    let (path, name) = resolve_file_path("/tmp/t/link.txt", &PathKind::File).unwrap();
    assert_eq!(path, "/tmp/t/link.txt");
    assert_eq!(name, "link.txt");
}

#[test]
fn resolve_file_path_rejects_broken_symlink() {
    let missing = PathKind::Missing { details: "No such file or directory (os error 2)".to_string() };
    let result = resolve_file_path("/tmp/t/broken.txt", &missing);
    assert!(matches!(result, Err(SeyfrError::FileNotFound { .. })));
}

#[test]
fn resolve_file_path_other_failure_is_io() {
    let denied = PathKind::Unreadable { details: "Permission denied (os error 13)".to_string() };
    match resolve_file_path("/root/x", &denied) {
        Err(SeyfrError::Io { details }) => assert_eq!(details, "Permission denied (os error 13)"),
        other => panic!("unexpected {:?}", other),
    }
}

#[test]
fn resolve_folder_path_accepts_directory() {
    let path = resolve_folder_path("/tmp/t", &PathKind::Directory).unwrap();
    assert_eq!(path, "/tmp/t");
}

#[test]
fn resolve_folder_path_rejects_missing() {
    let missing = PathKind::Missing { details: "gone".to_string() };
    let result = resolve_folder_path("/nonexistent/path/to/folder", &missing);
    assert!(matches!(result, Err(SeyfrError::FileNotFound { .. })));
}

#[test]
fn resolve_folder_path_rejects_file() {
    let result = resolve_folder_path("/tmp/t/data.txt", &PathKind::File);
    assert!(matches!(result, Err(SeyfrError::NotADirectory { .. })));
}

#[test]
fn resolve_folder_path_rejects_broken_symlink() {
    let missing = PathKind::Missing { details: "gone".to_string() };
    let result = resolve_folder_path("/tmp/t/broken", &missing);
    assert!(matches!(result, Err(SeyfrError::FileNotFound { .. })));
}

#[test]
fn test_send_unified_detects_file() {
    assert_eq!(send_route("/tmp/t/test.txt", &PathKind::File).unwrap(), SendRoute::File);
}

#[test]
fn test_send_unified_detects_folder() {
    assert_eq!(send_route("/tmp/t/test_folder", &PathKind::Directory).unwrap(), SendRoute::Folder);
}

#[test]
fn send_route_missing_path() {
    let missing = PathKind::Missing { details: "gone".to_string() };
    assert!(matches!(send_route("/none", &missing), Err(SeyfrError::FileNotFound { .. })));
}

#[test]
fn file_names() {
    assert_eq!(file_name("foo.txt").as_deref(), Some("foo.txt"));
    assert_eq!(file_name("/a/b/foo.txt").as_deref(), Some("foo.txt"));
    assert_eq!(file_name("foo.txt/.").as_deref(), Some("foo.txt"));
    assert_eq!(file_name("foo.txt/.//").as_deref(), Some("foo.txt"));
    assert_eq!(file_name("dir/").as_deref(), Some("dir"));
    assert_eq!(file_name("foo.txt/.."), None);
    assert_eq!(file_name("/"), None);
    assert_eq!(file_name(""), None);
    assert_eq!(file_name("."), None);
    assert_eq!(file_name("./a").as_deref(), Some("a"));
}

#[test]
fn file_names_agree_with_std() {
    for p in ["a/b", "a//b/", "./", "..", "a/../b", "/x/./y/.", "héllo/wörld", ".hidden", "a/.b/"] {
        let expected = std::path::Path::new(p).file_name().map(|s| s.to_string_lossy().into_owned());
        assert_eq!(file_name(p), expected, "path {:?}", p);
    }
}

#[test]
fn extensions_agree_with_std() {
    for p in ["a.txt", "archive.tar.gz", ".gitignore", "noext", "trailing.", "dir.d/file", "x/y.rs/", ".."] {
        let expected = std::path::Path::new(p).extension().map(|s| s.to_string_lossy().into_owned());
        assert_eq!(extension(p), expected, "path {:?}", p);
    }
}

#[test]
fn mime_types_by_extension() {
    assert_eq!(guess_mime_type("/x/readme.txt"), "text/plain");
    assert_eq!(guess_mime_type("photo.JPG"), "image/jpeg");
    assert_eq!(guess_mime_type("noext"), "application/octet-stream");
    assert_eq!(guess_mime_type(".gitignore"), "application/octet-stream");
    assert_eq!(guess_mime_type("odd."), "application/octet-stream");
    assert_eq!(guess_mime_type("data.unknownext"), "application/octet-stream");
}
