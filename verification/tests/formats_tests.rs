use cyber_ytdl::formats::{build_format_list, label_num_exec, RawFormat};

fn raw(
    id: &str,
    vcodec: Option<&str>,
    acodec: Option<&str>,
    resolution: Option<&str>,
    note: Option<&str>,
    abr: Option<i64>,
    tbr: Option<i64>,
) -> RawFormat {
    RawFormat {
        format_id: Some(id.to_string()),
        vcodec: vcodec.map(|s| s.to_string()),
        acodec: acodec.map(|s| s.to_string()),
        resolution: resolution.map(|s| s.to_string()),
        format_note: note.map(|s| s.to_string()),
        abr_kbps: abr,
        tbr_kbps: tbr,
    }
}

#[test]
fn video_labels_sort_in_descending_magnitude() {
    let input = vec![
        raw("a", Some("avc1"), Some("none"), Some("720p"), None, None, None),
        raw("b", Some("avc1"), Some("none"), Some("1080p"), None, None, None),
        raw("c", Some("avc1"), Some("none"), Some("480p"), None, None, None),
    ];
    let out = build_format_list(&input);
    let labels: Vec<&str> = out.iter().map(|f| f.resolution.as_str()).collect();
    assert_eq!(labels, vec!["1080p", "720p", "480p"]);
}

#[test]
fn duplicate_labels_keep_the_first_seen_id() {
    let input = vec![
        raw("first", Some("avc1"), None, Some("720p"), None, None, None),
        raw("second", Some("vp9"), None, Some("720p"), None, None, None),
    ];
    let out = build_format_list(&input);
    assert_eq!(out.len(), 1);
    assert_eq!(out[0].id, "first");
    assert_eq!(out[0].resolution, "720p");
}

#[test]
fn video_entries_precede_audio_entries() {
    let input = vec![
        raw("aud", Some("none"), Some("mp4a"), None, None, Some(129), None),
        raw("vid", Some("avc1"), Some("none"), Some("360p"), None, None, None),
    ];
    let out = build_format_list(&input);
    assert_eq!(out.len(), 2);
    assert_eq!(out[0].id, "vid");
    assert_eq!(out[0].ext, "mp4");
    assert_eq!(out[1].id, "aud");
    assert_eq!(out[1].ext, "mp3");
    assert_eq!(out[1].resolution, "129k");
}

#[test]
fn entries_with_no_usable_codec_are_dropped() {
    let input = vec![
        raw("x", Some("none"), Some("none"), Some("720p"), None, None, None),
        raw("y", None, None, Some("1080p"), None, None, None),
    ];
    let out = build_format_list(&input);
    assert!(out.is_empty());
}

#[test]
fn video_label_falls_back_to_note_then_unknown() {
    let input = vec![
        raw("n", Some("avc1"), None, None, Some("1080p60"), None, None),
        raw("u", Some("avc1"), None, None, None, None, None),
    ];
    let out = build_format_list(&input);
    assert_eq!(out[0].resolution, "1080p60");
    assert_eq!(out[1].resolution, "unknown");
}

#[test]
fn audio_bitrate_falls_back_to_total_bitrate_then_zero() {
    let input = vec![
        raw("t", Some("none"), Some("opus"), None, None, None, Some(64)),
        raw("z", Some("none"), Some("opus"), None, None, None, None),
    ];
    let out = build_format_list(&input);
    assert_eq!(out[0].resolution, "64k");
    assert_eq!(out[1].resolution, "0k");
}

#[test]
fn audio_entries_sort_by_descending_bitrate() {
    let input = vec![
        raw("lo", Some("none"), Some("mp4a"), None, None, Some(48), None),
        raw("hi", Some("none"), Some("mp4a"), None, None, Some(129), None),
    ];
    let out = build_format_list(&input);
    assert_eq!(out[0].resolution, "129k");
    assert_eq!(out[1].resolution, "48k");
}

#[test]
fn label_magnitude_concatenates_digits() {
    assert_eq!(label_num_exec("1080p60"), 108060);
    assert_eq!(label_num_exec("720p"), 720);
    assert_eq!(label_num_exec("audio only"), 0);
    // Digits that overflow a 32-bit signed value count as zero.
    assert_eq!(label_num_exec("99999999999"), 0);
}
