use cyber_ytdl::metadata::{analyze_output, build_metadata, AnalysisError};

#[test]
fn missing_extractor_is_rejected() {
    let r = analyze_output(false, "{\"title\":\"x\"}");
    assert_eq!(r.err().unwrap(), AnalysisError::MissingDependency);
}

#[test]
fn blank_output_is_rejected() {
    let r = analyze_output(true, "  \t\r\n ");
    assert_eq!(r.err().unwrap(), AnalysisError::EmptyOutput);
}

#[test]
fn unparsable_output_is_rejected() {
    let r = analyze_output(true, "this is not json");
    assert_eq!(r.err().unwrap(), AnalysisError::ParseError);
}

#[test]
fn full_document_is_normalized() {
    let doc = "{\
        \"title\":\"My Clip\",\
        \"thumbnail\":\"https://example.invalid/t.jpg\",\
        \"formats\":[\
            {\"format_id\":\"140\",\"vcodec\":\"none\",\"acodec\":\"mp4a\",\"abr\":129.4},\
            {\"format_id\":\"18\",\"vcodec\":\"avc1\",\"acodec\":\"mp4a\",\"resolution\":\"360p\"},\
            {\"format_id\":\"137\",\"vcodec\":\"avc1\",\"acodec\":\"none\",\"resolution\":\"1080p\"},\
            {\"format_id\":\"137-dup\",\"vcodec\":\"vp9\",\"acodec\":\"none\",\"resolution\":\"1080p\"}\
        ]}";
    let m = analyze_output(true, doc).expect("valid document");
    assert_eq!(m.title, "My Clip");
    assert_eq!(m.thumbnail, "https://example.invalid/t.jpg");
    let summary: Vec<(&str, &str, &str)> = m
        .formats
        .iter()
        .map(|f| (f.id.as_str(), f.ext.as_str(), f.resolution.as_str()))
        .collect();
    assert_eq!(
        summary,
        vec![
            ("137", "mp4", "1080p"),
            ("18", "mp4", "360p"),
            ("140", "mp3", "129k"),
        ]
    );
}

#[test]
fn empty_object_gets_documented_defaults() {
    let m = analyze_output(true, "{}").expect("an empty object is a valid document");
    assert_eq!(m.title, "unknown title");
    assert_eq!(m.thumbnail, "");
    assert!(m.formats.is_empty());
}

#[test]
fn fields_of_wrong_type_count_as_absent() {
    let m = analyze_output(true, "{\"title\":5,\"formats\":\"nope\"}").expect("still an object");
    assert_eq!(m.title, "unknown title");
    assert!(m.formats.is_empty());
}

#[test]
fn build_metadata_defaults_without_fields() {
    let m = build_metadata(None, None, None);
    assert_eq!(m.title, "unknown title");
    assert_eq!(m.thumbnail, "");
    assert!(m.formats.is_empty());
}
