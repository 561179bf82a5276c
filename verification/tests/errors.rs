use seyfr::errors::SeyfrError;

fn all_errors() -> Vec<SeyfrError> {
    vec![
        SeyfrError::Io { details: "disk".to_string() },
        SeyfrError::InvalidTicket { details: "bad".to_string() },
        SeyfrError::Network { details: "down".to_string() },
        SeyfrError::Store { details: "full".to_string() },
        SeyfrError::Cancelled,
        SeyfrError::FileNotFound { path: "/a".to_string() },
        SeyfrError::NotADirectory { path: "/b".to_string() },
        SeyfrError::EmptyFolder { path: "/c".to_string() },
        SeyfrError::Timeout,
        SeyfrError::Internal { details: "oops".to_string() },
        SeyfrError::PathTraversal { path: "../x".to_string(), details: "escape".to_string() },
        SeyfrError::InvalidPath { details: "nope".to_string() },
    ]
}

#[test]
fn error_codes_per_kind() {
    let codes: Vec<u16> = all_errors().iter().map(|e| e.code()).collect();
    assert_eq!(codes, vec![1001, 2001, 3001, 4001, 5001, 1002, 1003, 1004, 3002, 9001, 1005, 1006]);
}

#[test]
fn error_codes_are_distinct() {
    let codes: Vec<u16> = all_errors().iter().map(|e| e.code()).collect();
    for i in 0..codes.len() {
        for j in 0..codes.len() {
            if i != j {
                assert_ne!(codes[i], codes[j]);
            }
        }
    }
}

#[test]
fn error_messages() {
    let msgs: Vec<String> = all_errors().iter().map(|e| e.message()).collect();
    assert_eq!(
        msgs,
        vec![
            "io error: disk",
            "invalid ticket: bad",
            "network error: down",
            "store error: full",
            "transfer cancelled",
            "file not found: /a",
            "not a directory: /b",
            "empty folder: /c",
            "transfer timeout",
            "internal error: oops",
            "path traversal attempt: ../x - escape",
            "invalid path: nope",
        ]
    );
}
