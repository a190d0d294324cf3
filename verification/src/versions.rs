//! Version reporting for the extractor binary.
//!
//! The local version is whatever the binary printed for `--version`,
//! trimmed, with a `"none"` sentinel when the binary is absent; the
//! remote version is the `tag_name` of the release registry's latest
//! release document.

use crate::decode::{decode_release_tag, release_tag_of};
use crate::text::{trim_text, trimmed};
use vstd::prelude::*;
use vstd::string::StringExecFns;

verus! {

/// The locally installed tool's version: `"none"` when the binary is
/// absent, else its `--version` output trimmed.
pub fn local_version_text(present: bool, raw_output: &str) -> (r: String)
    ensures
        !present ==> r@ == ("none")@,
        present ==> r@ == trimmed(raw_output@),
{
    if !present {
        ("none").to_owned()
    } else {
        trim_text(raw_output).to_owned()
    }
}

/// The version named by a decoded release tag: the tag itself, or the
/// empty string when there is none.
pub fn version_or_empty(tag: Option<String>) -> (r: String)
    ensures
        r@ == (match tag {
            Some(t) => t@,
            None => Seq::<char>::empty(),
        }),
{
    match tag {
        Some(t) => t,
        None => {
            let s = String::new();
            proof {
                assert(s@ =~= Seq::<char>::empty());
            }
            s
        },
    }
}

/// The remote tool version read from the release registry's response
/// body: its `tag_name`, or the empty string when the body carries none.
pub fn remote_version_from_body(body: &str) -> (r: String)
    ensures
        r@ == (match release_tag_of(body@) {
            Some(t) => t@,
            None => Seq::<char>::empty(),
        }),
{
    version_or_empty(decode_release_tag(body))
}

} // verus!
