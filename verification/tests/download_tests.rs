use jepa::download::{replace_all, weights_url, DownloadMeter, PROGRESS_INTERVAL_MS};

#[test]
fn weights_url_for_a_plain_repository() {
    assert_eq!(
        weights_url("facebook/vjepa2-vitl-fpc64-256"),
        "https://huggingface.co/facebook/vjepa2-vitl-fpc64-256/resolve/main/model.safetensors"
    );
}

#[test]
fn weights_url_maps_the_legacy_prefix() {
    assert_eq!(
        weights_url("facebookresearch/jepa:vit-h"),
        "https://huggingface.co/facebookresearch/vit-h/resolve/main/model.safetensors"
    );
}

#[test]
fn replace_all_matches_std_replace() {
    for (s, p, r) in [
        ("aaaa", "aa", "b"),
        ("abcabc", "bc", "XY"),
        ("no match here", "zz", "!"),
        ("", "a", "b"),
        ("%2F%2f", "%2F", "/"),
        ("ééé", "é", "e"),
    ] {
        assert_eq!(replace_all(s, p, r), s.replace(p, r), "{s} {p} {r}");
    }
}

#[test]
fn progress_is_reported_on_interval_or_completion() {
    let mut m = DownloadMeter::new(1000, 0);
    assert!(!m.record_chunk(100, 50));
    assert!(!m.record_chunk(100, PROGRESS_INTERVAL_MS - 1));
    assert!(m.record_chunk(100, PROGRESS_INTERVAL_MS));
    assert_eq!(m.downloaded_bytes(), 300);
    // The interval restarts at the last report.
    assert!(!m.record_chunk(100, PROGRESS_INTERVAL_MS + 10));
    // Reaching the announced length always reports.
    assert!(m.record_chunk(600, PROGRESS_INTERVAL_MS + 20));
    assert_eq!(m.downloaded_bytes(), m.total_bytes());
}

#[test]
fn unknown_length_reports_on_interval_only() {
    let mut m = DownloadMeter::new(0, 1000);
    assert!(!m.record_chunk(10, 1100));
    assert!(m.record_chunk(10, 1200));
    // A clock reading earlier than the last report counts as no time passed.
    assert!(!m.record_chunk(10, 900));
}
