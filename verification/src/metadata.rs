//! The metadata extractor's output, normalized.
//!
//! The embedding application invokes the extractor binary in its
//! non-downloading, structured-output mode and hands the captured
//! standard output here. This module turns it into a `VideoMetadata`:
//! empty output and undecodable output are rejected with typed errors,
//! and the format array is normalized as the `formats` module specifies.

use crate::decode::{decode_document, doc_of, DocParts};
use crate::formats::{
    audio_list, entries_of, format_entries, nodup_labels, sorted_desc, video_list,
    build_format_list, RawFormat, VideoFormat,
};
use crate::text::is_blank;
use crate::text::is_blank_exec;
use vstd::prelude::*;
use vstd::string::StringExecFns;

verus! {

/// Normalized metadata: the title, the thumbnail URL, and the format
/// list ordered as the `formats` module specifies.
#[derive(Debug)]
pub struct VideoMetadata {
    pub title: String,
    pub thumbnail: String,
    pub formats: Vec<VideoFormat>,
}

/// Why an analysis failed.
#[derive(Debug, Clone, Copy, PartialEq, Eq)]
pub enum AnalysisError {
    /// The extractor binary is absent.
    MissingDependency,
    /// The extractor produced no output.
    EmptyOutput,
    /// The output is not a valid structured document.
    ParseError,
}

/// The laws every produced metadata obeys: video entries first, then
/// audio entries; within each class descending magnitude and no repeated
/// label.
pub open spec fn metadata_wf(m: VideoMetadata, raw: Seq<RawFormat>) -> bool {
    &&& entries_of(m.formats@) == format_entries(raw)
    &&& m.formats@.len() == format_entries(raw).len()
    &&& forall|i: int| 0 <= i < video_list(raw).len() ==> m.formats@[i].ext@ == ("mp4")@
    &&& forall|i: int|
        video_list(raw).len() <= i < m.formats@.len() ==> m.formats@[i].ext@ == ("mp3")@
    &&& nodup_labels(video_list(raw))
    &&& nodup_labels(audio_list(raw))
    &&& sorted_desc(video_list(raw))
    &&& sorted_desc(audio_list(raw))
}

/// Builds metadata from decoded plain fields: absent title and thumbnail
/// fall back to documented defaults, an absent format array to the empty
/// list.
pub fn build_metadata(
    title: Option<String>,
    thumbnail: Option<String>,
    formats: Option<Vec<RawFormat>>,
) -> (m: VideoMetadata)
    ensures
        m.title@ == (match title {
            Some(t) => t@,
            None => ("unknown title")@,
        }),
        m.thumbnail@ == (match thumbnail {
            Some(t) => t@,
            None => Seq::<char>::empty(),
        }),
        metadata_wf(
            m,
            match formats {
                Some(v) => v@,
                None => Seq::<RawFormat>::empty(),
            },
        ),
{
    let raw: Vec<RawFormat> = match formats {
        Some(v) => v,
        None => Vec::new(),
    };
    let list = build_format_list(&raw);
    let t = match title {
        Some(t) => t,
        None => ("unknown title").to_owned(),
    };
    let th = match thumbnail {
        Some(t) => t,
        None => {
            let s = String::new();
            proof {
                assert(s@ =~= Seq::<char>::empty());
            }
            s
        },
    };
    VideoMetadata { title: t, thumbnail: th, formats: list }
}

/// Analyzes the extractor's captured standard output.
///
/// Fails with `MissingDependency` when the extractor binary is absent,
/// with `EmptyOutput` when the output is blank, and with `ParseError`
/// exactly when the output is not a valid structured document;
/// otherwise the produced metadata carries the decoded document's
/// title, thumbnail and normalized format list.
pub fn analyze_output(extractor_present: bool, stdout: &str) -> (r: Result<
    VideoMetadata,
    AnalysisError,
>)
    ensures
        (r matches Err(e) && e == AnalysisError::MissingDependency) <==> !extractor_present,
        (r matches Err(e) && e == AnalysisError::EmptyOutput) <==> (extractor_present && is_blank(
            stdout@,
        )),
        (r matches Err(e) && e == AnalysisError::ParseError) <==> (extractor_present && !is_blank(
            stdout@,
        ) && doc_of(stdout@) is None),
        r matches Ok(m) ==> (match doc_of(stdout@) {
            Some(d) => ({
                &&& m.title@ == (match d.title {
                    Some(t) => t@,
                    None => ("unknown title")@,
                })
                &&& m.thumbnail@ == (match d.thumbnail {
                    Some(t) => t@,
                    None => Seq::<char>::empty(),
                })
                &&& metadata_wf(
                    m,
                    match d.formats {
                        Some(v) => v@,
                        None => Seq::<RawFormat>::empty(),
                    },
                )
            }),
            None => false,
        }),
{
    if !extractor_present {
        return Err(AnalysisError::MissingDependency);
    }
    if is_blank_exec(stdout) {
        return Err(AnalysisError::EmptyOutput);
    }
    match decode_document(stdout) {
        None => Err(AnalysisError::ParseError),
        Some(doc) => {
            let ghost d = doc;
            let DocParts { title, thumbnail, formats } = doc;
            let m = build_metadata(title, thumbnail, formats);
            proof {
                assert(title == d.title && thumbnail == d.thumbnail && formats == d.formats);
            }
            Ok(m)
        },
    }
}

} // verus!
