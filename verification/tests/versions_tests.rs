use cyber_ytdl::text::get_msg;
use cyber_ytdl::versions::{local_version_text, remote_version_from_body, version_or_empty};

#[test]
fn absent_binary_reports_none() {
    assert_eq!(local_version_text(false, "ignored"), "none");
}

#[test]
fn local_version_is_trimmed() {
    assert_eq!(local_version_text(true, " 2025.01.15\r\n"), "2025.01.15");
}

#[test]
fn remote_version_comes_from_the_tag_name() {
    assert_eq!(
        remote_version_from_body("{\"tag_name\":\"2025.01.15\",\"name\":\"x\"}"),
        "2025.01.15"
    );
}

#[test]
fn remote_version_defaults_to_empty() {
    assert_eq!(remote_version_from_body("{}"), "");
    assert_eq!(remote_version_from_body("not json at all"), "");
    assert_eq!(remote_version_from_body("{\"tag_name\":7}"), "");
}

#[test]
fn version_or_empty_unwraps() {
    assert_eq!(version_or_empty(Some("v1".to_string())), "v1");
    assert_eq!(version_or_empty(None), "");
}

#[test]
fn message_selection_by_language() {
    assert_eq!(get_msg("en", "nativ", "english"), "english");
    assert_eq!(get_msg("zh", "nativ", "english"), "nativ");
    assert_eq!(get_msg("", "nativ", "english"), "nativ");
}
