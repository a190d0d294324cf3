use cyber_ytdl::guard::TaskGuard;
use cyber_ytdl::orchestrator::{
    admit_download, build_download_args, build_probe_args, build_selector, classify_line,
    exit_outcome, mode_ext, parse_percent_permille, sample_from_capture, DownloadError,
};

#[test]
fn progress_line_yields_a_sample_and_a_log_event() {
    let line = "[download]  42.5% of 10.00MiB at 1.20MiB/s ETA 00:05";
    let (sample, log) = classify_line(line);
    let sample = sample.expect("the progress pattern matches");
    assert_eq!(sample.permille, 425);
    assert!(sample.speed.contains("1.20MiB/s"));
    assert_eq!(sample.eta, "00:05");
    assert_eq!(log, line);
}

#[test]
fn plain_line_yields_no_sample_but_still_a_log_event() {
    let line = "[Merger] Merging formats into output.mp4";
    let (sample, log) = classify_line(line);
    assert!(sample.is_none());
    assert_eq!(log, line);
}

#[test]
fn percent_without_fraction_parses() {
    let (sample, _) = classify_line("[download]   7% of 3.00MiB at 512.00KiB/s ETA 00:40");
    assert_eq!(sample.expect("matches").permille, 70);
}

#[test]
fn percent_parsing_truncates_to_tenths() {
    let s = sample_from_capture("42.55", " 1.20MiB/s ", " 00:05 ").expect("well-formed");
    assert_eq!(s.permille, 425);
    assert_eq!(s.speed, "1.20MiB/s");
    assert_eq!(s.eta, "00:05");
}

#[test]
fn percent_values_parse_in_tenths() {
    assert_eq!(parse_percent_permille("100"), Some(1000));
    assert_eq!(parse_percent_permille("0.0"), Some(0));
    assert_eq!(parse_percent_permille("3.9"), Some(39));
    assert_eq!(parse_percent_permille(""), None);
    assert_eq!(parse_percent_permille("x.5"), None);
}

#[test]
fn selector_for_each_mode_and_quality() {
    assert_eq!(build_selector("video", "best"), "bestvideo+bestaudio/best");
    assert_eq!(build_selector("video", "137"), "137+bestaudio/best");
    assert_eq!(build_selector("audio", "bestaudio"), "bestaudio/best");
    assert_eq!(build_selector("audio", "140"), "140");
}

#[test]
fn extension_follows_the_mode() {
    assert_eq!(mode_ext("video"), "mp4");
    assert_eq!(mode_ext("audio"), "mp3");
}

#[test]
fn download_arguments_for_video_mode() {
    let args = build_download_args(
        "video",
        "bestvideo+bestaudio/best",
        "/opt/tools/ffmpeg.exe",
        "/out/Clip_best.mp4",
        "https://example.invalid/v",
    );
    assert_eq!(
        args,
        vec![
            "--no-config",
            "--progress",
            "--newline",
            "--ffmpeg-location",
            "/opt/tools/ffmpeg.exe",
            "-o",
            "/out/Clip_best.mp4",
            "-f",
            "bestvideo+bestaudio/best",
            "--merge-output-format",
            "mp4",
            "https://example.invalid/v",
        ]
    );
}

#[test]
fn download_arguments_for_audio_mode() {
    let args = build_download_args("audio", "140", "ff", "out.mp3", "u");
    assert_eq!(
        args,
        vec![
            "--no-config",
            "--progress",
            "--newline",
            "--ffmpeg-location",
            "ff",
            "-o",
            "out.mp3",
            "-f",
            "140",
            "--extract-audio",
            "--audio-format",
            "mp3",
            "--audio-quality",
            "256K",
            "u",
        ]
    );
}

#[test]
fn probe_arguments_with_and_without_warnings() {
    assert_eq!(
        build_probe_args("u", true),
        vec!["--no-config", "--quiet", "--no-warnings", "--skip-download", "--dump-json", "u"]
    );
    assert_eq!(
        build_probe_args("u", false),
        vec!["--no-config", "--quiet", "--skip-download", "--dump-json", "u"]
    );
}

#[test]
fn admission_needs_a_free_slot_and_a_quality() {
    let mut g = TaskGuard::new();
    assert!(g.try_acquire());
    assert_eq!(admit_download(&mut g, "best"), Err(DownloadError::Busy));
    g.release();
    assert_eq!(admit_download(&mut g, ""), Err(DownloadError::InvalidQuality));
    assert!(!g.peek());
    assert_eq!(admit_download(&mut g, "best"), Ok(()));
    assert!(g.peek());
}

#[test]
fn exit_outcome_reports_the_captured_error() {
    assert_eq!(exit_outcome(true, ""), Ok(()));
    assert_eq!(exit_outcome(false, "ERROR: boom"), Err("ERROR: boom".to_string()));
    assert_eq!(
        exit_outcome(false, ""),
        Err("Download process failed. Possibly network or format issues.".to_string())
    );
}
