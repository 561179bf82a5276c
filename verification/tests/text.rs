use seyfr::text::{classify_download_event, decimal_string, parse_progress_bytes, DownloadEvent};

#[test]
fn progress_bytes_plain() {
    assert_eq!(parse_progress_bytes("Progress(12345)"), Some(12345));
    assert_eq!(parse_progress_bytes("Progress(0)"), Some(0));
}

#[test]
fn progress_bytes_trims_whitespace() {
    assert_eq!(parse_progress_bytes("Progress( 42 )"), Some(42));
    assert_eq!(parse_progress_bytes("Progress(\t7\n)"), Some(7));
}

#[test]
fn progress_bytes_accepts_plus_sign() {
    assert_eq!(parse_progress_bytes("Progress(+9)"), Some(9));
    assert_eq!(parse_progress_bytes("Progress(+)"), None);
}

#[test]
fn progress_bytes_rejects_other_text() {
    assert_eq!(parse_progress_bytes("PartComplete { request: .. }"), None);
    assert_eq!(parse_progress_bytes("Progress(12"), None);
    assert_eq!(parse_progress_bytes("Progress()"), None);
    assert_eq!(parse_progress_bytes("Progress(-1)"), None);
    assert_eq!(parse_progress_bytes("Progress(1x)"), None);
    assert_eq!(parse_progress_bytes("progress(1)"), None);
}

#[test]
fn progress_bytes_limits() {
    assert_eq!(parse_progress_bytes("Progress(18446744073709551615)"), Some(u64::MAX));
    assert_eq!(parse_progress_bytes("Progress(18446744073709551616)"), None);
}

#[test]
fn progress_roundtrip_concrete() {
    for n in [0u64, 1, 9, 10, 99, 1024, 1_000_000, u64::MAX] {
        let e = format!("Progress({})", decimal_string(n));
        assert_eq!(parse_progress_bytes(&e), Some(n));
    }
}

#[test]
fn decimal_matches_to_string() {
    for n in [0u64, 7, 10, 12345, 4_294_967_296, u64::MAX] {
        assert_eq!(decimal_string(n), n.to_string());
    }
}

#[test]
fn classify_events() {
    assert_eq!(classify_download_event("Progress(5)"), DownloadEvent::Progress(Some(5)));
    assert_eq!(classify_download_event("Progress(?)"), DownloadEvent::Progress(None));
    assert_eq!(classify_download_event("AllDone"), DownloadEvent::Finished);
    assert_eq!(classify_download_event("PartDone"), DownloadEvent::Finished);
    assert_eq!(classify_download_event("DownloadError"), DownloadEvent::Failed);
    assert_eq!(classify_download_event("Error(timeout)"), DownloadEvent::Failed);
    assert_eq!(classify_download_event("Abort"), DownloadEvent::Failed);
    assert_eq!(classify_download_event("TryProvider { id: x }"), DownloadEvent::Other);
    assert_eq!(classify_download_event("PartComplete { request: r }"), DownloadEvent::Other);
}
