use seyfr::errors::SeyfrError;
use seyfr::paths::PathKind;
use seyfr::walker::{join_relative, should_skip_dir, EntryKind, Walker};

/// Walk a directory tree described by its entries: (parent, name, kind),
/// parents written relative to the root with `/` ("" is the root).
fn walk(root: &str, root_kind: PathKind, entries: &[(&str, &str, EntryKind)]) -> Result<Vec<String>, SeyfrError> {
    let mut w = Walker::start(root, &root_kind)?;
    while let Some(dir) = w.next_dir() {
        let d = String::from_utf8(join_relative(&dir)).unwrap();
        for (parent, name, kind) in entries {
            if *parent == d {
                w.visit(name.as_bytes().to_vec(), *kind);
            }
        }
    }
    Ok(w.finish().iter().map(|p| String::from_utf8(join_relative(p)).unwrap()).collect())
}

use EntryKind::{Directory as D, File as F, Other as O};

#[test]
fn test_flat_sorted() {
    let files = walk("/t", PathKind::Directory, &[("", "b.txt", F), ("", "a.txt", F), ("", "c.txt", F)]).unwrap();
    assert_eq!(files, vec!["a.txt", "b.txt", "c.txt"]);
}

#[test]
fn test_nested() {
    let files = walk("/t", PathKind::Directory, &[("", "sub", D), ("", "root.txt", F), ("sub", "nested.txt", F)]).unwrap();
    assert_eq!(files, vec!["root.txt", "sub/nested.txt"]);
}

#[test]
fn test_skips_hidden_dirs() {
    let files = walk("/t", PathKind::Directory, &[(".hidden", "secret.txt", F), ("", ".hidden", D), ("", "visible.txt", F)]).unwrap();
    assert_eq!(files.len(), 1);
    assert!(files.iter().any(|p| p.ends_with("visible.txt")));
    assert!(!files.iter().any(|p| p.ends_with("secret.txt")));
}

#[test]
fn test_skips_node_modules() {
    let files = walk("/t", PathKind::Directory, &[("", "node_modules", D), ("", "src.js", F), ("node_modules", "pkg.js", F)]).unwrap();
    assert_eq!(files.len(), 1);
    assert!(files.iter().any(|p| p.ends_with("src.js")));
    assert!(!files.iter().any(|p| p.ends_with("pkg.js")));
}

#[test]
fn test_empty_dir() {
    let files = walk("/t", PathKind::Directory, &[]).unwrap();
    assert!(files.is_empty());
}

#[test]
fn test_nonexistent_dir() {
    let result = walk("/t/gone", PathKind::Missing { details: "No such file or directory (os error 2)".to_string() }, &[]);
    assert!(result.is_err());
    assert!(matches!(result, Err(SeyfrError::Io { .. })));
}

#[test]
fn test_rejects_file() {
    let result = walk("/t/not_a_dir.txt", PathKind::File, &[]);
    assert!(matches!(result, Err(SeyfrError::NotADirectory { .. })));
}

#[test]
fn test_root_hidden_dir_not_skipped() {
    let files = walk("/t/.secrets", PathKind::Directory, &[("", "file.txt", F)]).unwrap();
    assert_eq!(files.len(), 1);
    assert!(files.iter().any(|p| p.ends_with("file.txt")));
}

#[test]
fn test_skips_nested_hidden_and_node_modules() {
    let files = walk(
        "/t",
        PathKind::Directory,
        &[
            ("", "src", D),
            ("src", ".git", D),
            ("src", "node_modules", D),
            ("src", "main.rs", F),
            ("src/.git", "HEAD", F),
            ("src/node_modules", "lib.js", F),
        ],
    )
    .unwrap();
    assert_eq!(files.len(), 1);
    assert!(files.iter().any(|p| p.ends_with("main.rs")));
    assert!(!files.iter().any(|p| p.ends_with("HEAD")));
    assert!(!files.iter().any(|p| p.ends_with("lib.js")));
}

#[test]
fn test_includes_hidden_files_at_root() {
    let files = walk("/t", PathKind::Directory, &[("", ".gitignore", F), ("", "readme.txt", F)]).unwrap();
    assert_eq!(files.len(), 2);
    assert!(files.iter().any(|p| p.ends_with(".gitignore")));
    assert!(files.iter().any(|p| p.ends_with("readme.txt")));
}

#[test]
fn test_skips_symlinks() {
    let files = walk("/t", PathKind::Directory, &[("", "real.txt", F), ("", "link.txt", O)]).unwrap();
    assert_eq!(files.len(), 1);
    assert!(files.iter().any(|p| p.ends_with("real.txt")));
    assert!(!files.iter().any(|p| p.ends_with("link.txt")));
}

#[test]
fn path_order_is_component_wise() {
    // "a/b" sorts before "a-b", as paths do, though '-' < '/' as bytes.
    let files = walk("/t", PathKind::Directory, &[("", "a-b", F), ("", "a", D), ("a", "b", F)]).unwrap();
    assert_eq!(files, vec!["a/b", "a-b"]);
    let mut expected = vec![std::path::PathBuf::from("a-b"), std::path::PathBuf::from("a/b")];
    expected.sort();
    assert_eq!(expected[0], std::path::PathBuf::from("a/b"));
}

#[test]
fn skip_rules() {
    assert!(should_skip_dir(b".git"));
    assert!(should_skip_dir(b"."));
    assert!(should_skip_dir(b"node_modules"));
    assert!(!should_skip_dir(b"node_module"));
    assert!(!should_skip_dir(b"src"));
    assert!(!should_skip_dir(b""));
}

#[test]
fn walker_reports_current_dir() {
    let mut w = Walker::start("/t", &PathKind::Directory).unwrap();
    let root = w.next_dir().unwrap();
    assert!(root.is_empty());
    w.visit(b"sub".to_vec(), EntryKind::Directory);
    let sub = w.next_dir().unwrap();
    assert_eq!(sub, vec![b"sub".to_vec()]);
    assert!(w.next_dir().is_none());
}
