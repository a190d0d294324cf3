use cyber_ytdl::fetch::{eta_text, mapped_permille, speed_text, FetchError, FetchState};

#[test]
fn speed_of_five_hundred_bytes_renders_in_kb() {
    assert_eq!(speed_text(500), "0.49 KB/s");
}

#[test]
fn speed_above_one_mib_renders_in_mb() {
    assert_eq!(speed_text(2 * 1024 * 1024), "2.00 MB/s");
}

#[test]
fn speed_at_exactly_one_mib_stays_in_kb() {
    assert_eq!(speed_text(1024 * 1024), "1024.00 KB/s");
}

#[test]
fn eta_one_second() {
    assert_eq!(eta_text(1000, 500, 500), "00:01");
}

#[test]
fn eta_minutes_and_seconds() {
    // 150 bytes left at 1 B/s: 150 s = 02:30.
    assert_eq!(eta_text(200, 50, 1), "02:30");
}

#[test]
fn eta_unknown_without_content_length() {
    assert_eq!(eta_text(0, 123, 456), "--:--");
}

#[test]
fn eta_unknown_at_zero_throughput() {
    assert_eq!(eta_text(1000, 0, 0), "--:--");
}

#[test]
fn progress_maps_into_the_sub_range() {
    assert_eq!(mapped_permille(300, 800, 50, 100), 550);
    assert_eq!(mapped_permille(0, 1000, 0, 100), 0);
    assert_eq!(mapped_permille(0, 1000, 100, 100), 1000);
}

#[test]
fn progress_holds_at_base_without_content_length() {
    assert_eq!(mapped_permille(300, 800, 12345, 0), 300);
}

#[test]
fn tick_is_throttled_to_half_a_second() {
    let mut st = FetchState::begin(1000, 0, 1000, 0);
    assert!(st.on_chunk(100, 200).is_none());
    assert!(st.on_chunk(100, 499).is_none());
    let sample = st.on_chunk(300, 1000).expect("sample due after 500 ms");
    assert_eq!(st.downloaded, 500);
    // 500 bytes over 1.0 s: 500 B/s, rendered "0.49 KB/s", ETA 1 s.
    assert_eq!(sample.permille, 500);
    assert_eq!(sample.speed, "0.49 KB/s");
    assert_eq!(sample.eta, "00:01");
    // The next sample is due 500 ms after the previous one.
    assert!(st.on_chunk(100, 1400).is_none());
    assert!(st.on_chunk(100, 1500).is_some());
}

#[test]
fn fetch_error_carries_its_detail() {
    assert_eq!(FetchError::NetworkError("timed out".to_string()).detail(), "timed out");
    assert_eq!(FetchError::IoError("disk full".to_string()).detail(), "disk full");
}
