//! Decision logic of the download orchestrator.
//!
//! The embedding application spawns the extractor subprocess and reads
//! its two output streams; everything it decides on the way — admission
//! through the exclusivity guard, quality validation, the format
//! selector, the exact argument vector, the classification of each
//! output line, and the final outcome — is computed and verified here.

use crate::fetch::ProgressSample;
use crate::formats::{digit_val, digits_value, is_digit_c};
use crate::guard::TaskGuard;
use crate::text::{str_eq, trim_text, trimmed};
use vstd::prelude::*;
use vstd::string::StringExecFns;

verus! {

/// Why a download job was refused or failed before its subprocess ran.
#[derive(Debug, Clone, Copy, PartialEq, Eq)]
pub enum DownloadError {
    /// Another task holds the exclusivity slot.
    Busy,
    /// No quality or format was selected.
    InvalidQuality,
}

/// Admission into a download job: acquire the slot, then validate the
/// requested quality. A busy slot stays held by its current owner; an
/// empty quality releases the slot again before failing.
pub fn admit_download(guard: &mut TaskGuard, quality: &str) -> (r: Result<(), DownloadError>)
    ensures
        final(guard).is_held() == (old(guard).is_held() || quality@.len() > 0),
        old(guard).is_held() ==> (r matches Err(e) && e == DownloadError::Busy),
        !old(guard).is_held() && quality@.len() == 0 ==> (r matches Err(e) && e
            == DownloadError::InvalidQuality),
        !old(guard).is_held() && quality@.len() > 0 ==> r is Ok,
{
    if !guard.try_acquire() {
        return Err(DownloadError::Busy);
    }
    if quality.unicode_len() == 0 {
        guard.release();
        return Err(DownloadError::InvalidQuality);
    }
    Ok(())
}

/// The container extension for a mode: `mp4` for video, `mp3` otherwise.
pub open spec fn spec_mode_ext(mode: Seq<char>) -> Seq<char> {
    if mode == ("video")@ {
        ("mp4")@
    } else {
        ("mp3")@
    }
}

pub fn mode_ext(mode: &str) -> (r: &'static str)
    ensures
        r@ == spec_mode_ext(mode@),
{
    if str_eq(mode, "video") {
        "mp4"
    } else {
        "mp3"
    }
}

/// The extractor's format selector: in video mode, `best` maps to the
/// combined best-video+best-audio chain and a chosen id is paired with
/// best audio as fallback; in audio mode, `bestaudio` maps to the best
/// audio chain and a chosen id is used literally.
pub open spec fn spec_selector(mode: Seq<char>, quality: Seq<char>) -> Seq<char> {
    if mode == ("video")@ {
        if quality == ("best")@ {
            ("bestvideo+bestaudio/best")@
        } else {
            quality + ("+bestaudio/best")@
        }
    } else {
        if quality == ("bestaudio")@ {
            ("bestaudio/best")@
        } else {
            quality
        }
    }
}

pub fn build_selector(mode: &str, quality: &str) -> (r: String)
    ensures
        r@ == spec_selector(mode@, quality@),
{
    if str_eq(mode, "video") {
        if str_eq(quality, "best") {
            ("bestvideo+bestaudio/best").to_owned()
        } else {
            let mut s = quality.to_owned();
            s.append("+bestaudio/best");
            s
        }
    } else {
        if str_eq(quality, "bestaudio") {
            ("bestaudio/best").to_owned()
        } else {
            quality.to_owned()
        }
    }
}

/// The argument vector of the metadata probe (structured output, no
/// download); the analyzer's variant also suppresses warnings.
pub open spec fn spec_probe_args(url: Seq<char>, no_warnings: bool) -> Seq<Seq<char>> {
    if no_warnings {
        seq![
            ("--no-config")@,
            ("--quiet")@,
            ("--no-warnings")@,
            ("--skip-download")@,
            ("--dump-json")@,
            url,
        ]
    } else {
        seq![("--no-config")@, ("--quiet")@, ("--skip-download")@, ("--dump-json")@, url]
    }
}

pub fn build_probe_args(url: &str, no_warnings: bool) -> (r: Vec<String>)
    ensures
        r@.map_values(|s: String| s@) == spec_probe_args(url@, no_warnings),
{
    let mut v: Vec<String> = Vec::new();
    v.push(("--no-config").to_owned());
    v.push(("--quiet").to_owned());
    if no_warnings {
        v.push(("--no-warnings").to_owned());
    }
    v.push(("--skip-download").to_owned());
    v.push(("--dump-json").to_owned());
    v.push(url.to_owned());
    proof {
        assert(v@.map_values(|s: String| s@) =~= spec_probe_args(url@, no_warnings));
    }
    v
}

/// The full argument vector of the download subprocess.
pub open spec fn spec_download_args(
    mode: Seq<char>,
    selector: Seq<char>,
    ffmpeg_path: Seq<char>,
    out_path: Seq<char>,
    url: Seq<char>,
) -> Seq<Seq<char>> {
    let base = seq![
        ("--no-config")@,
        ("--progress")@,
        ("--newline")@,
        ("--ffmpeg-location")@,
        ffmpeg_path,
        ("-o")@,
        out_path,
        ("-f")@,
        selector,
    ];
    let tail = if mode == ("video")@ {
        seq![("--merge-output-format")@, ("mp4")@]
    } else {
        seq![
            ("--extract-audio")@,
            ("--audio-format")@,
            ("mp3")@,
            ("--audio-quality")@,
            ("256K")@,
        ]
    };
    base + tail + seq![url]
}

pub fn build_download_args(
    mode: &str,
    selector: &str,
    ffmpeg_path: &str,
    out_path: &str,
    url: &str,
) -> (r: Vec<String>)
    ensures
        r@.map_values(|s: String| s@) == spec_download_args(
            mode@,
            selector@,
            ffmpeg_path@,
            out_path@,
            url@,
        ),
{
    let mut v: Vec<String> = Vec::new();
    v.push(("--no-config").to_owned());
    v.push(("--progress").to_owned());
    v.push(("--newline").to_owned());
    v.push(("--ffmpeg-location").to_owned());
    v.push(ffmpeg_path.to_owned());
    v.push(("-o").to_owned());
    v.push(out_path.to_owned());
    v.push(("-f").to_owned());
    v.push(selector.to_owned());
    if str_eq(mode, "video") {
        v.push(("--merge-output-format").to_owned());
        v.push(("mp4").to_owned());
    } else {
        v.push(("--extract-audio").to_owned());
        v.push(("--audio-format").to_owned());
        v.push(("mp3").to_owned());
        v.push(("--audio-quality").to_owned());
        v.push(("256K").to_owned());
    }
    v.push(url.to_owned());
    proof {
        assert(v@.map_values(|s: String| s@) =~= spec_download_args(
            mode@,
            selector@,
            ffmpeg_path@,
            out_path@,
            url@,
        ));
    }
    v
}

/// The index of the first `.` of a string, or its length.
pub open spec fn dot_pos(s: Seq<char>) -> int
    decreases s.len(),
{
    if s.len() == 0 {
        0
    } else if s.first() == '.' {
        0
    } else {
        1 + dot_pos(s.drop_first())
    }
}

/// The percentage text of a progress line read in tenths of a percent,
/// truncated after the first fractional digit: digits, then optionally a
/// `.` and more digits. Rejected when the shape differs or the integer
/// part reaches eighteen digits' worth of value.
pub open spec fn parse_permille(s: Seq<char>) -> Option<nat> {
    let d = dot_pos(s);
    if 1 <= d && (forall|j: int| 0 <= j < d ==> is_digit_c(s[j])) && (forall|j: int|
        d < j < s.len() ==> is_digit_c(s[j])) && digits_value(s.take(d)) < 100000000000000000 {
        Some(
            digits_value(s.take(d)) * 10 + (if d + 1 < s.len() {
                digit_val(s[d + 1])
            } else {
                0
            }),
        )
    } else {
        None
    }
}

proof fn lemma_dot_pos_scan(s: Seq<char>, i: int)
    requires
        0 <= i <= s.len(),
        forall|j: int| 0 <= j < i ==> s[j] != '.',
        i == s.len() || s[i] == '.',
    ensures
        dot_pos(s) == i,
    decreases i,
{
    if i == 0 {
    } else {
        assert(s.first() != '.');
        lemma_dot_pos_scan(s.drop_first(), i - 1);
    }
}

proof fn lemma_digits_value_prefix(s: Seq<char>, i: int)
    requires
        0 <= i <= s.len(),
    ensures
        digits_value(s.take(i)) <= digits_value(s),
    decreases s.len() - i,
{
    if i < s.len() {
        assert(s.take(i + 1).drop_last() =~= s.take(i));
        assert(digits_value(s.take(i + 1)) == digits_value(s.take(i)) * 10 + digit_val(
            s.take(i + 1).last(),
        ));
        lemma_digits_value_prefix(s, i + 1);
    } else {
        assert(s.take(i) =~= s);
    }
}

/// Reads a percentage capture into tenths of a percent.
pub fn parse_percent_permille(s: &str) -> (r: Option<u64>)
    ensures
        (r is Some) == (parse_permille(s@) is Some),
        r matches Some(v) ==> Some(v as nat) == parse_permille(s@),
{
    let len = s.unicode_len();
    let mut d: usize = 0;
    while d < len && s.get_char(d) != '.'
        invariant
            len == s@.len(),
            0 <= d <= len,
            forall|j: int| 0 <= j < d ==> s@[j] != '.',
        decreases len - d,
    {
        d += 1;
    }
    proof {
        lemma_dot_pos_scan(s@, d as int);
    }
    if d == 0 {
        return None;
    }
    let mut i: usize = 0;
    let mut acc: u64 = 0;
    while i < d
        invariant
            len == s@.len(),
            0 < d <= len,
            dot_pos(s@) == d,
            0 <= i <= d,
            forall|j: int| 0 <= j < i ==> is_digit_c(s@[j]),
            acc as nat == digits_value(s@.take(i as int)),
            acc < 100000000000000000,
        decreases d - i,
    {
        let c = s.get_char(i);
        let cv = c as u32;
        if !(48 <= cv && cv <= 57) {
            assert(!is_digit_c(s@[i as int]));
            return None;
        }
        proof {
            assert(s@.take(i + 1).drop_last() =~= s@.take(i as int));
            assert(digits_value(s@.take(i + 1)) == digits_value(s@.take(i as int)) * 10
                + digit_val(s@[i as int]));
        }
        acc = acc * 10 + ((cv - 48) as u64);
        if acc >= 100000000000000000 {
            proof {
                assert(s@.take(d as int).take(i + 1) =~= s@.take(i + 1));
                lemma_digits_value_prefix(s@.take(d as int), i + 1);
            }
            return None;
        }
        i += 1;
    }
    let mut frac: u64 = 0;
    if d < len {
        if d + 1 < len {
            let c = s.get_char(d + 1);
            let cv = c as u32;
            if 48 <= cv && cv <= 57 {
                frac = (cv - 48) as u64;
            } else {
                proof {
                    assert(d + 1 < s@.len());
                    assert(!is_digit_c(s@[d as int + 1]));
                    assert(parse_permille(s@) is None);
                }
                return None;
            }
        }
        let mut j: usize = d + 1;
        while j < len
            invariant
                len == s@.len(),
                dot_pos(s@) == d,
                0 < d < len,
                d + 1 <= j <= len,
                forall|k: int| d < k < j ==> is_digit_c(s@[k]),
            decreases len - j,
        {
            let c = s.get_char(j);
            let cv = c as u32;
            if !(48 <= cv && cv <= 57) {
                assert(!is_digit_c(s@[j as int]));
                return None;
            }
            j += 1;
        }
    }
    Some(acc * 10 + frac)
}

/// What the progress pattern captures on a line: a function of the line
/// alone, named so that contracts can speak of it.
pub uninterp spec fn progress_caps(line: Seq<char>) -> Option<(String, String, String)>;

/// Relies on `regex::Regex::new` and `regex::Regex::captures` with the
/// progress-line pattern
/// `\[download\]\s+(\d+\.?\d*)%\s+of\s+.*\s+at\s+(.*)\s+ETA\s+(.*)`:
/// hands back the three captured substrings (percentage, speed, ETA) of
/// the first match, `None` when the line does not match.
#[verifier::external_body]
fn capture_progress(line: &str) -> (r: Option<(String, String, String)>)
    ensures
        r == progress_caps(line@),
{
    let re = match regex::Regex::new(r"\[download\]\s+(\d+\.?\d*)%\s+of\s+.*\s+at\s+(.*)\s+ETA\s+(.*)") {
        Ok(re) => re,
        Err(_) => return None,
    };
    let caps = re.captures(line)?;
    Some((caps[1].to_string(), caps[2].to_string(), caps[3].to_string()))
}

/// Builds a progress sample from the three captured substrings: the
/// percentage read in tenths of a percent, speed and ETA trimmed.
pub fn sample_from_capture(pct: &str, speed: &str, eta: &str) -> (r: Option<ProgressSample>)
    ensures
        (r is Some) == (parse_permille(pct@) is Some),
        r matches Some(p) ==> ({
            &&& Some(p.permille as nat) == parse_permille(pct@)
            &&& p.speed@ == trimmed(speed@)
            &&& p.eta@ == trimmed(eta@)
        }),
{
    match parse_percent_permille(pct) {
        Some(v) => Some(
            ProgressSample {
                permille: v,
                speed: trim_text(speed).to_owned(),
                eta: trim_text(eta).to_owned(),
            },
        ),
        None => None,
    }
}

/// Classifies one line of extractor output. The line itself is always
/// the log event; a line matching the progress pattern with a readable
/// percentage additionally yields a progress sample built from the
/// captured percentage, speed and ETA.
pub fn classify_line(line: &str) -> (r: (Option<ProgressSample>, String))
    ensures
        r.1@ == line@,
        (r.0 is Some) == (match progress_caps(line@) {
            Some(c) => parse_permille(c.0@) is Some,
            None => false,
        }),
        r.0 matches Some(p) ==> (match progress_caps(line@) {
            Some(c) => ({
                &&& Some(p.permille as nat) == parse_permille(c.0@)
                &&& p.speed@ == trimmed(c.1@)
                &&& p.eta@ == trimmed(c.2@)
            }),
            None => false,
        }),
{
    let sample = match capture_progress(line) {
        Some((pct, speed, eta)) => sample_from_capture(
            pct.as_str(),
            speed.as_str(),
            eta.as_str(),
        ),
        None => None,
    };
    (sample, line.to_owned())
}

/// The job's outcome from the subprocess exit: on success the job is
/// done; on failure the captured error-stream text is the reason, with a
/// generic message substituted when that capture is empty.
pub fn exit_outcome(success: bool, stderr_text: &str) -> (r: Result<(), String>)
    ensures
        (r is Ok) == success,
        r matches Err(m) ==> m@ == (if stderr_text@.len() == 0 {
            ("Download process failed. Possibly network or format issues.")@
        } else {
            stderr_text@
        }),
{
    if success {
        Ok(())
    } else if stderr_text.unicode_len() == 0 {
        Err(("Download process failed. Possibly network or format issues.").to_owned())
    } else {
        Err(stderr_text.to_owned())
    }
}

} // verus!
