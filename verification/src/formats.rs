//! Normalized format lists.
//!
//! The extractor reports a raw array of format objects. An entry whose
//! video-codec field is present and not the `"none"` sentinel is a video
//! format; an entry with no usable video codec but a usable audio codec is
//! an audio-only format; everything else is dropped. Each class is
//! deduplicated by its display label (resolution, or synthesized bitrate),
//! keeping the first-seen format id per label, and ordered by descending
//! numeric magnitude of the label. Video entries precede audio entries.

use crate::text::{int_chars, push_dec, str_eq};
use vstd::prelude::*;
use vstd::string::StringExecFns;

verus! {

/// One format offered to the user: an opaque id, a container extension,
/// and a display label (a resolution for video, a bitrate for audio).
#[derive(Debug, Clone)]
pub struct VideoFormat {
    pub id: String,
    pub ext: String,
    pub resolution: String,
}

/// One entry of the extractor's raw format array, reduced to the fields
/// this crate reads. Every field is optional: the decoder supplies `None`
/// wherever the raw object lacks the field or gives it another type.
/// Bitrates arrive already truncated to whole kbit/s.
#[derive(Debug, Clone)]
pub struct RawFormat {
    pub format_id: Option<String>,
    pub vcodec: Option<String>,
    pub acodec: Option<String>,
    pub resolution: Option<String>,
    pub format_note: Option<String>,
    pub abr_kbps: Option<i64>,
    pub tbr_kbps: Option<i64>,
}

/// A (label, id) pair: the ghost shadow of one produced format.
pub type Entry = (Seq<char>, Seq<char>);

/// Whether a codec field names a usable codec (present and not `"none"`).
pub open spec fn codec_present(o: Option<String>) -> bool {
    match o {
        Some(c) => c@ != ("none")@,
        None => false,
    }
}

pub open spec fn is_video(f: RawFormat) -> bool {
    codec_present(f.vcodec)
}

pub open spec fn is_audio_only(f: RawFormat) -> bool {
    !codec_present(f.vcodec) && codec_present(f.acodec)
}

/// The display label of a video entry: its resolution, else its format
/// note, else `"unknown"`.
pub open spec fn video_label(f: RawFormat) -> Seq<char> {
    match f.resolution {
        Some(r) => r@,
        None => match f.format_note {
            Some(n) => n@,
            None => ("unknown")@,
        },
    }
}

/// The bitrate of an audio entry in kbit/s: average bitrate, else total
/// bitrate, else zero.
pub open spec fn audio_rate(f: RawFormat) -> int {
    match f.abr_kbps {
        Some(v) => v as int,
        None => match f.tbr_kbps {
            Some(v) => v as int,
            None => 0,
        },
    }
}

/// The display label of an audio entry: `"{bitrate}k"`.
pub open spec fn audio_label(f: RawFormat) -> Seq<char> {
    int_chars(audio_rate(f)) + ("k")@
}

pub open spec fn class_label(f: RawFormat, video: bool) -> Seq<char> {
    if video {
        video_label(f)
    } else {
        audio_label(f)
    }
}

/// The format id, defaulted to the empty string.
pub open spec fn fmt_id(f: RawFormat) -> Seq<char> {
    match f.format_id {
        Some(s) => s@,
        None => Seq::empty(),
    }
}

/// The (label, id) pairs of the entries of one class, in input order.
pub open spec fn classified(s: Seq<RawFormat>, video: bool) -> Seq<Entry>
    decreases s.len(),
{
    if s.len() == 0 {
        Seq::empty()
    } else {
        let rest = classified(s.drop_last(), video);
        let f = s.last();
        if (if video {
            is_video(f)
        } else {
            is_audio_only(f)
        }) {
            rest.push((class_label(f, video), fmt_id(f)))
        } else {
            rest
        }
    }
}

/// Whether some entry carries this label.
pub open spec fn has_label(s: Seq<Entry>, l: Seq<char>) -> bool {
    exists|i: int| 0 <= i < s.len() && s[i].0 == l
}

/// First-seen deduplication by label: a later entry whose label already
/// occurred is dropped.
pub open spec fn dedup_by_label(s: Seq<Entry>) -> Seq<Entry>
    decreases s.len(),
{
    if s.len() == 0 {
        Seq::empty()
    } else {
        let rest = dedup_by_label(s.drop_last());
        if has_label(rest, s.last().0) {
            rest
        } else {
            rest.push(s.last())
        }
    }
}

/// ASCII decimal digits.
pub open spec fn is_digit_c(c: char) -> bool {
    48 <= c as u32 <= 57
}

pub open spec fn digit_val(c: char) -> nat {
    (c as u32 - 48) as nat
}

/// The value of a digit string read in base ten.
pub open spec fn digits_value(s: Seq<char>) -> nat
    decreases s.len(),
{
    if s.len() == 0 {
        0
    } else {
        digits_value(s.drop_last()) * 10 + digit_val(s.last())
    }
}

/// The digit characters of a label, in order.
pub open spec fn label_digits(l: Seq<char>) -> Seq<char> {
    l.filter(|c: char| is_digit_c(c))
}

/// The numeric magnitude of a label: its digit characters concatenated
/// and read as a number, or zero when there are no digits or the value
/// does not fit a 32-bit signed integer.
pub open spec fn label_num(l: Seq<char>) -> nat {
    let ds = label_digits(l);
    if ds.len() == 0 || digits_value(ds) > 0x7fffffff {
        0
    } else {
        digits_value(ds)
    }
}

pub open spec fn e_num(e: Entry) -> nat {
    label_num(e.0)
}

/// Descending order by numeric magnitude.
pub open spec fn sorted_desc(s: Seq<Entry>) -> bool {
    forall|i: int, j: int| 0 <= i < j < s.len() ==> e_num(s[i]) >= e_num(s[j])
}

/// No two entries share a label.
pub open spec fn nodup_labels(s: Seq<Entry>) -> bool {
    forall|i: int, j: int| 0 <= i < j < s.len() ==> s[i].0 != s[j].0
}

/// Inserts `x` before the first entry of strictly smaller magnitude.
pub open spec fn insert_sorted(s: Seq<Entry>, x: Entry) -> Seq<Entry>
    decreases s.len(),
{
    if s.len() == 0 {
        seq![x]
    } else if e_num(x) > e_num(s.first()) {
        seq![x] + s
    } else {
        seq![s.first()] + insert_sorted(s.drop_first(), x)
    }
}

/// Stable insertion sort by descending magnitude.
pub open spec fn sort_desc(s: Seq<Entry>) -> Seq<Entry>
    decreases s.len(),
{
    if s.len() == 0 {
        Seq::empty()
    } else {
        insert_sorted(sort_desc(s.drop_last()), s.last())
    }
}

/// The ghost shadow of a produced format vector.
pub open spec fn entries_of(s: Seq<VideoFormat>) -> Seq<Entry> {
    s.map_values(|v: VideoFormat| (v.resolution@, v.id@))
}

/// Deduplication leaves no two entries with the same label, and keeps
/// exactly the labels of its input.
pub proof fn lemma_dedup_nodup(s: Seq<Entry>)
    ensures
        nodup_labels(dedup_by_label(s)),
        forall|l: Seq<char>| #[trigger] has_label(dedup_by_label(s), l) <==> has_label(s, l),
    decreases s.len(),
{
    if s.len() > 0 {
        lemma_dedup_nodup(s.drop_last());
        let rest = dedup_by_label(s.drop_last());
        let d = dedup_by_label(s);
        assert forall|l: Seq<char>| #[trigger] has_label(d, l) implies has_label(s, l) by {
            if has_label(rest, l) {
                assert(has_label(s.drop_last(), l));
                let i = choose|i: int| 0 <= i < s.drop_last().len() && s.drop_last()[i].0 == l;
                assert(s[i].0 == l);
            } else {
                let i = choose|i: int| 0 <= i < d.len() && d[i].0 == l;
                assert(d[i] == s.last());
                assert(s[s.len() - 1].0 == l);
            }
        }
        assert forall|l: Seq<char>| has_label(s, l) implies #[trigger] has_label(d, l) by {
            let i = choose|i: int| 0 <= i < s.len() && s[i].0 == l;
            if i < s.len() - 1 {
                assert(s.drop_last()[i].0 == l);
                assert(has_label(s.drop_last(), l));
                assert(has_label(rest, l));
                let j = choose|j: int| 0 <= j < rest.len() && rest[j].0 == l;
                assert(d[j].0 == l);
            } else {
                if has_label(rest, s.last().0) {
                    let j = choose|j: int| 0 <= j < rest.len() && rest[j].0 == s.last().0;
                    assert(d[j].0 == l);
                } else {
                    assert(d[d.len() - 1].0 == l);
                }
            }
        }
        if !has_label(rest, s.last().0) {
            assert forall|i: int, j: int| 0 <= i < j < d.len() implies d[i].0 != d[j].0 by {
                if j < d.len() - 1 {
                    assert(rest[i].0 != rest[j].0);
                } else {
                    assert(d[i] == rest[i]);
                    if d[i].0 == s.last().0 {
                        assert(has_label(rest, s.last().0));
                    }
                }
            }
        }
    }
}

/// Inserting into a sorted run keeps it sorted, adds exactly the new
/// label, and preserves label uniqueness when the label is fresh.
pub proof fn lemma_insert_sorted(s: Seq<Entry>, x: Entry)
    requires
        sorted_desc(s),
    ensures
        insert_sorted(s, x).len() == s.len() + 1,
        sorted_desc(insert_sorted(s, x)),
        forall|l: Seq<char>| #[trigger]
            has_label(insert_sorted(s, x), l) <==> (has_label(s, l) || l == x.0),
        nodup_labels(s) && !has_label(s, x.0) ==> nodup_labels(insert_sorted(s, x)),
        forall|i: int|
            0 <= i < insert_sorted(s, x).len() ==> insert_sorted(s, x)[i] == x || s.contains(
                insert_sorted(s, x)[i],
            ),
    decreases s.len(),
{
    let out = insert_sorted(s, x);
    if s.len() == 0 {
        assert forall|l: Seq<char>| #[trigger] has_label(out, l) implies (has_label(s, l) || l
            == x.0) by {
            let i = choose|i: int| 0 <= i < out.len() && out[i].0 == l;
        }
        assert(out[0] == x);
    } else if e_num(x) > e_num(s.first()) {
        assert forall|i: int, j: int| 0 <= i < j < out.len() implies e_num(out[i]) >= e_num(
            out[j],
        ) by {
            if i == 0 {
                assert(out[j] == s[j - 1]);
                if j > 1 {
                    assert(e_num(s[0]) >= e_num(s[j - 1]));
                }
            } else {
                assert(out[i] == s[i - 1] && out[j] == s[j - 1]);
            }
        }
        assert forall|l: Seq<char>| #[trigger] has_label(out, l) implies (has_label(s, l) || l
            == x.0) by {
            let i = choose|i: int| 0 <= i < out.len() && out[i].0 == l;
            if i > 0 {
                assert(s[i - 1].0 == l);
            }
        }
        assert forall|l: Seq<char>| (has_label(s, l) || l == x.0) implies #[trigger] has_label(
            out,
            l,
        ) by {
            if has_label(s, l) {
                let i = choose|i: int| 0 <= i < s.len() && s[i].0 == l;
                assert(out[i + 1].0 == l);
            } else {
                assert(out[0].0 == l);
            }
        }
        if nodup_labels(s) && !has_label(s, x.0) {
            assert forall|i: int, j: int| 0 <= i < j < out.len() implies out[i].0 != out[j].0 by {
                if i == 0 {
                    assert(out[j] == s[j - 1]);
                    if out[0].0 == out[j].0 {
                        assert(has_label(s, x.0));
                    }
                } else {
                    assert(out[i] == s[i - 1] && out[j] == s[j - 1]);
                }
            }
        }
        assert forall|i: int| 0 <= i < out.len() implies out[i] == x || s.contains(out[i]) by {
            if i > 0 {
                assert(out[i] == s[i - 1]);
            }
        }
    } else {
        let tail = s.drop_first();
        assert(sorted_desc(tail)) by {
            assert forall|i: int, j: int| 0 <= i < j < tail.len() implies e_num(tail[i]) >= e_num(
                tail[j],
            ) by {
                assert(tail[i] == s[i + 1] && tail[j] == s[j + 1]);
            }
        }
        lemma_insert_sorted(tail, x);
        let sub = insert_sorted(tail, x);
        assert(out == seq![s.first()] + sub);
        assert(out.len() == s.len() + 1);
        assert forall|i: int, j: int| 0 <= i < j < out.len() implies e_num(out[i]) >= e_num(
            out[j],
        ) by {
            if i == 0 {
                assert(out[j] == sub[j - 1]);
                assert(sub[j - 1] == x || tail.contains(sub[j - 1]));
                if sub[j - 1] == x {
                    assert(!(e_num(x) > e_num(s.first())));
                } else {
                    let k = choose|k: int| 0 <= k < tail.len() && tail[k] == sub[j - 1];
                    assert(tail[k] == s[k + 1]);
                    assert(e_num(s[0]) >= e_num(s[k + 1]));
                }
            } else {
                assert(out[i] == sub[i - 1] && out[j] == sub[j - 1]);
            }
        }
        assert forall|l: Seq<char>| #[trigger] has_label(out, l) implies (has_label(s, l) || l
            == x.0) by {
            let i = choose|i: int| 0 <= i < out.len() && out[i].0 == l;
            if i == 0 {
                assert(s[0].0 == l);
            } else {
                assert(has_label(sub, l));
                if has_label(tail, l) {
                    let k = choose|k: int| 0 <= k < tail.len() && tail[k].0 == l;
                    assert(s[k + 1].0 == l);
                }
            }
        }
        assert forall|l: Seq<char>| (has_label(s, l) || l == x.0) implies #[trigger] has_label(
            out,
            l,
        ) by {
            if has_label(s, l) {
                let i = choose|i: int| 0 <= i < s.len() && s[i].0 == l;
                if i == 0 {
                    assert(out[0].0 == l);
                } else {
                    assert(tail[i - 1].0 == l);
                    assert(has_label(tail, l));
                    assert(has_label(sub, l));
                    let k = choose|k: int| 0 <= k < sub.len() && sub[k].0 == l;
                    assert(out[k + 1].0 == l);
                }
            } else {
                assert(has_label(sub, l));
                let k = choose|k: int| 0 <= k < sub.len() && sub[k].0 == l;
                assert(out[k + 1].0 == l);
            }
        }
        if nodup_labels(s) && !has_label(s, x.0) {
            assert(nodup_labels(tail)) by {
                assert forall|i: int, j: int| 0 <= i < j < tail.len() implies tail[i].0
                    != tail[j].0 by {
                    assert(tail[i] == s[i + 1] && tail[j] == s[j + 1]);
                }
            }
            assert(!has_label(tail, x.0)) by {
                if has_label(tail, x.0) {
                    let k = choose|k: int| 0 <= k < tail.len() && tail[k].0 == x.0;
                    assert(s[k + 1].0 == x.0);
                    assert(has_label(s, x.0));
                }
            }
            assert forall|i: int, j: int| 0 <= i < j < out.len() implies out[i].0 != out[j].0 by {
                if i == 0 {
                    assert(out[j] == sub[j - 1]);
                    if out[0].0 == sub[j - 1].0 {
                        assert(has_label(sub, s[0].0));
                        if has_label(tail, s[0].0) {
                            let k = choose|k: int| 0 <= k < tail.len() && tail[k].0 == s[0].0;
                            assert(s[k + 1].0 == s[0].0);
                        } else {
                            assert(s[0].0 == x.0);
                            assert(has_label(s, x.0));
                        }
                    }
                } else {
                    assert(out[i] == sub[i - 1] && out[j] == sub[j - 1]);
                }
            }
        }
        assert forall|i: int| 0 <= i < out.len() implies out[i] == x || s.contains(out[i]) by {
            if i == 0 {
                assert(s[0] == out[0]);
            } else {
                assert(out[i] == sub[i - 1]);
                if sub[i - 1] != x {
                    let k = choose|k: int| 0 <= k < tail.len() && tail[k] == sub[i - 1];
                    assert(s[k + 1] == out[i]);
                }
            }
        }
    }
}

/// Sorting orders by descending magnitude, keeps exactly the input's
/// labels, and preserves label uniqueness.
pub proof fn lemma_sort_desc(s: Seq<Entry>)
    ensures
        sort_desc(s).len() == s.len(),
        sorted_desc(sort_desc(s)),
        forall|l: Seq<char>| #[trigger] has_label(sort_desc(s), l) <==> has_label(s, l),
        nodup_labels(s) ==> nodup_labels(sort_desc(s)),
        forall|i: int| 0 <= i < sort_desc(s).len() ==> s.contains(sort_desc(s)[i]),
    decreases s.len(),
{
    if s.len() > 0 {
        let prefix = s.drop_last();
        lemma_sort_desc(prefix);
        let sp = sort_desc(prefix);
        lemma_insert_sorted(sp, s.last());
        let out = sort_desc(s);
        assert(out == insert_sorted(sp, s.last()));
        assert forall|l: Seq<char>| #[trigger] has_label(out, l) implies has_label(s, l) by {
            if has_label(sp, l) {
                assert(has_label(prefix, l));
                let i = choose|i: int| 0 <= i < prefix.len() && prefix[i].0 == l;
                assert(s[i].0 == l);
            } else {
                assert(l == s.last().0);
                assert(s[s.len() - 1].0 == l);
            }
        }
        assert forall|l: Seq<char>| has_label(s, l) implies #[trigger] has_label(out, l) by {
            let i = choose|i: int| 0 <= i < s.len() && s[i].0 == l;
            if i < s.len() - 1 {
                assert(prefix[i].0 == l);
                assert(has_label(prefix, l));
            }
        }
        if nodup_labels(s) {
            assert(nodup_labels(prefix)) by {
                assert forall|i: int, j: int| 0 <= i < j < prefix.len() implies prefix[i].0
                    != prefix[j].0 by {
                    assert(prefix[i] == s[i] && prefix[j] == s[j]);
                }
            }
            assert(!has_label(prefix, s.last().0)) by {
                if has_label(prefix, s.last().0) {
                    let k = choose|k: int| 0 <= k < prefix.len() && prefix[k].0 == s.last().0;
                    assert(s[k].0 == s[s.len() - 1].0);
                }
            }
        }
        assert forall|i: int| 0 <= i < out.len() implies s.contains(out[i]) by {
            if out[i] == s.last() {
                assert(s[s.len() - 1] == out[i]);
            } else {
                assert(sp.contains(out[i]));
                let k = choose|k: int| 0 <= k < sp.len() && sp[k] == out[i];
                assert(prefix.contains(sp[k]));
                let m = choose|m: int| 0 <= m < prefix.len() && prefix[m] == sp[k];
                assert(s[m] == out[i]);
            }
        }
    }
}

/// Inserting at the first index of strictly smaller magnitude is what
/// `insert_sorted` does.
proof fn lemma_insert_sorted_at(s: Seq<Entry>, x: Entry, idx: int)
    requires
        0 <= idx <= s.len(),
        forall|j: int| 0 <= j < idx ==> !(e_num(x) > e_num(s[j])),
        idx < s.len() ==> e_num(x) > e_num(s[idx]),
    ensures
        insert_sorted(s, x) == s.take(idx) + seq![x] + s.skip(idx),
    decreases idx,
{
    if idx == 0 {
        if s.len() == 0 {
            assert(insert_sorted(s, x) =~= s.take(0) + seq![x] + s.skip(0));
        } else {
            assert(e_num(x) > e_num(s.first()));
            assert(seq![x] + s =~= s.take(0) + seq![x] + s.skip(0));
        }
    } else {
        assert(!(e_num(x) > e_num(s[0])));
        let tail = s.drop_first();
        assert forall|j: int| 0 <= j < idx - 1 implies !(e_num(x) > e_num(tail[j])) by {
            assert(tail[j] == s[j + 1]);
        }
        if idx - 1 < tail.len() {
            assert(tail[idx - 1] == s[idx]);
        }
        lemma_insert_sorted_at(tail, x, idx - 1);
        assert(insert_sorted(s, x) == seq![s.first()] + (tail.take(idx - 1) + seq![x] + tail.skip(
            idx - 1,
        )));
        assert(seq![s.first()] + (tail.take(idx - 1) + seq![x] + tail.skip(idx - 1)) =~= s.take(idx)
            + seq![x] + s.skip(idx));
    }
}

/// The numeric magnitude of a label: the digit characters concatenated
/// and read as a number, zero when there is none or it overflows the
/// 32-bit signed range.
pub fn label_num_exec(l: &str) -> (n: u64)
    ensures
        n as nat == label_num(l@),
{
    broadcast use Seq::lemma_filter_push;

    let len = l.unicode_len();
    let mut i: usize = 0;
    let mut acc: u64 = 0;
    let mut seen = false;
    let mut over = false;
    while i < len
        invariant
            len == l@.len(),
            0 <= i <= len,
            seen == (label_digits(l@.take(i as int)).len() > 0),
            over ==> digits_value(label_digits(l@.take(i as int))) > 0x7fffffff,
            !over ==> acc as nat == digits_value(label_digits(l@.take(i as int))) && acc
                <= 0x7fffffff,
        decreases len - i,
    {
        let c = l.get_char(i);
        let cv = c as u32;
        proof {
            broadcast use Seq::lemma_filter_push;

            assert(l@.take(i + 1) =~= l@.take(i as int).push(l@[i as int]));
            assert(label_digits(l@.take(i + 1)) == label_digits(l@.take(i as int).push(c)));
            let ds = label_digits(l@.take(i as int));
            if is_digit_c(c) {
                assert(label_digits(l@.take(i + 1)) == ds.push(c));
                assert(ds.push(c).drop_last() =~= ds);
                assert(ds.push(c).last() == c);
                assert(digits_value(ds.push(c)) == digits_value(ds) * 10 + digit_val(c));
            } else {
                assert(label_digits(l@.take(i + 1)) == ds);
            }
        }
        if 48 <= cv && cv <= 57 {
            let d: u64 = (cv - 48) as u64;
            seen = true;
            if !over {
                acc = acc * 10 + d;
                if acc > 0x7fffffff {
                    over = true;
                }
            }
        }
        i += 1;
    }
    proof {
        assert(l@.take(len as int) =~= l@);
    }
    if !seen || over {
        0
    } else {
        acc
    }
}

/// Whether the entry belongs to the requested class.
fn is_match_exec(f: &RawFormat, video: bool) -> (r: bool)
    ensures
        r == (if video {
            is_video(*f)
        } else {
            is_audio_only(*f)
        }),
{
    let vp = match &f.vcodec {
        Some(c) => !str_eq(c.as_str(), "none"),
        None => false,
    };
    if video {
        vp
    } else {
        let ap = match &f.acodec {
            Some(c) => !str_eq(c.as_str(), "none"),
            None => false,
        };
        !vp && ap
    }
}

/// The display label of the entry within the requested class.
fn class_label_exec(f: &RawFormat, video: bool) -> (r: String)
    ensures
        r@ == class_label(*f, video),
{
    if video {
        match &f.resolution {
            Some(s) => s.as_str().to_owned(),
            None => match &f.format_note {
                Some(s) => s.as_str().to_owned(),
                None => ("unknown").to_owned(),
            },
        }
    } else {
        let rate: i64 = match f.abr_kbps {
            Some(v) => v,
            None => match f.tbr_kbps {
                Some(v) => v,
                None => 0,
            },
        };
        let mut s = String::new();
        if rate < 0 {
            s.push('-');
            let mag: u128 = (-(rate as i128)) as u128;
            proof {
                assert(mag as nat == (-(rate as int)) as nat);
            }
            push_dec(&mut s, mag);
        } else {
            push_dec(&mut s, rate as u128);
        }
        s.push('k');
        proof {
            reveal_strlit("k");
            assert(s@ =~= audio_label(*f));
        }
        s
    }
}

/// The format id, defaulted to the empty string.
fn fmt_id_exec(f: &RawFormat) -> (r: String)
    ensures
        r@ == fmt_id(*f),
{
    match &f.format_id {
        Some(s) => s.as_str().to_owned(),
        None => {
            let r = String::new();
            proof {
                assert(r@ =~= fmt_id(*f));
            }
            r
        },
    }
}

/// Whether an already-collected format carries this label.
fn has_label_exec(out: &Vec<VideoFormat>, l: &str) -> (r: bool)
    ensures
        r == has_label(entries_of(out@), l@),
{
    let mut i: usize = 0;
    while i < out.len()
        invariant
            0 <= i <= out@.len(),
            forall|j: int| 0 <= j < i ==> entries_of(out@)[j].0 != l@,
        decreases out@.len() - i,
    {
        if str_eq(out[i].resolution.as_str(), l) {
            assert(entries_of(out@)[i as int].0 == l@);
            return true;
        }
        i += 1;
    }
    false
}

/// Collects one class of formats in input order, deduplicated by label,
/// each stamped with the class's container extension.
fn collect_class(raw: &Vec<RawFormat>, video: bool) -> (out: Vec<VideoFormat>)
    ensures
        entries_of(out@) == dedup_by_label(classified(raw@, video)),
        forall|i: int|
            0 <= i < out@.len() ==> out@[i].ext@ == (if video {
                ("mp4")@
            } else {
                ("mp3")@
            }),
{
    let mut out: Vec<VideoFormat> = Vec::new();
    let mut i: usize = 0;
    proof {
        assert(entries_of(out@) =~= dedup_by_label(classified(raw@.take(0), video)));
    }
    while i < raw.len()
        invariant
            0 <= i <= raw@.len(),
            entries_of(out@) == dedup_by_label(classified(raw@.take(i as int), video)),
            forall|k: int|
                0 <= k < out@.len() ==> out@[k].ext@ == (if video {
                    ("mp4")@
                } else {
                    ("mp3")@
                }),
        decreases raw@.len() - i,
    {
        let f = &raw[i];
        let ghost prev = entries_of(out@);
        let ghost pcs = classified(raw@.take(i as int), video);
        let matched = is_match_exec(f, video);
        let ghost e = (class_label(raw@[i as int], video), fmt_id(raw@[i as int]));
        proof {
            assert(raw@.take(i + 1).drop_last() =~= raw@.take(i as int));
            assert(raw@.take(i + 1).last() == raw@[i as int]);
            if matched {
                assert(classified(raw@.take(i + 1), video) == pcs.push(e));
                assert(pcs.push(e).drop_last() =~= pcs);
                assert(pcs.push(e).last() == e);
            } else {
                assert(classified(raw@.take(i + 1), video) == pcs);
            }
        }
        if matched {
            let label = class_label_exec(f, video);
            if !has_label_exec(&out, label.as_str()) {
                let id = fmt_id_exec(f);
                let ext = if video {
                    ("mp4").to_owned()
                } else {
                    ("mp3").to_owned()
                };
                out.push(VideoFormat { id, ext, resolution: label });
                proof {
                    assert(entries_of(out@) =~= prev.push(e));
                    assert(entries_of(out@) == dedup_by_label(classified(raw@.take(i + 1), video)));
                }
            } else {
                proof {
                    assert(has_label(dedup_by_label(pcs), e.0));
                    assert(entries_of(out@) == dedup_by_label(classified(raw@.take(i + 1), video)));
                }
            }
        }
        proof {
            assert(entries_of(out@) == dedup_by_label(classified(raw@.take(i + 1), video)));
        }
        i += 1;
    }
    proof {
        assert(raw@.take(raw@.len() as int) =~= raw@);
    }
    out
}

/// Sorts the collected formats by descending numeric magnitude of the
/// label; every output element is one of the input elements.
fn sort_by_magnitude(input: Vec<VideoFormat>) -> (out: Vec<VideoFormat>)
    ensures
        entries_of(out@) == sort_desc(entries_of(input@)),
        forall|i: int| 0 <= i < out@.len() ==> input@.contains(out@[i]),
{
    let ghost orig = input@;
    let mut rest = input;
    let mut out: Vec<VideoFormat> = Vec::new();
    proof {
        assert(rest@ =~= orig.skip(0));
        assert(entries_of(orig.take(0)) =~= Seq::<Entry>::empty());
        assert(entries_of(out@) =~= sort_desc(entries_of(orig.take(0))));
    }
    while rest.len() > 0
        invariant
            rest@.len() <= orig.len(),
            rest@ == orig.skip(orig.len() - rest@.len()),
            entries_of(out@) == sort_desc(entries_of(orig.take(orig.len() - rest@.len()))),
            forall|k: int| 0 <= k < out@.len() ==> orig.contains(out@[k]),
        decreases rest@.len(),
    {
        let ghost k = orig.len() - rest@.len();
        let ghost prev_rest = rest@;
        let x = rest.remove(0);
        proof {
            assert(x == prev_rest[0]);
            assert(prev_rest[0] == orig.skip(k)[0]);
            assert(orig.skip(k)[0] == orig[k]);
            assert(rest@ =~= orig.skip(k + 1));
        }
        let xnum = label_num_exec(x.resolution.as_str());
        let ghost xe: Entry = (x.resolution@, x.id@);
        let mut idx: usize = 0;
        while idx < out.len() && label_num_exec(out[idx].resolution.as_str()) >= xnum
            invariant
                0 <= idx <= out@.len(),
                xnum as nat == e_num(xe),
                xe == (x.resolution@, x.id@),
                forall|j: int| 0 <= j < idx ==> !(e_num(xe) > e_num(entries_of(out@)[j])),
            decreases out@.len() - idx,
        {
            assert(entries_of(out@)[idx as int].0 == out@[idx as int].resolution@);
            idx += 1;
        }
        proof {
            if idx < out@.len() {
                assert(entries_of(out@)[idx as int].0 == out@[idx as int].resolution@);
            }
            lemma_insert_sorted_at(entries_of(out@), xe, idx as int);
        }
        let ghost before = entries_of(out@);
        let ghost belems = out@;
        out.insert(idx, x);
        proof {
            assert(entries_of(out@) =~= before.take(idx as int) + seq![xe] + before.skip(
                idx as int,
            ));
            let ek1 = entries_of(orig.take(k + 1));
            assert(ek1.len() == k + 1);
            assert(ek1.drop_last() =~= entries_of(orig.take(k)));
            assert(ek1.last() == xe);
            assert(sort_desc(ek1) == insert_sorted(sort_desc(entries_of(orig.take(k))), xe));
            assert(entries_of(out@) == sort_desc(entries_of(orig.take(k + 1))));
            assert forall|m: int| 0 <= m < out@.len() implies orig.contains(out@[m]) by {
                if m < idx {
                    assert(out@[m] == belems[m]);
                } else if m == idx {
                    assert(out@[m] == orig[k]);
                } else {
                    assert(out@[m] == belems[m - 1]);
                }
            }
        }
    }
    proof {
        assert(orig.take(orig.len() - rest@.len()) =~= orig);
    }
    out
}

/// The video half of the final list: classified, deduplicated, sorted.
pub open spec fn video_list(raw: Seq<RawFormat>) -> Seq<Entry> {
    sort_desc(dedup_by_label(classified(raw, true)))
}

/// The audio half of the final list.
pub open spec fn audio_list(raw: Seq<RawFormat>) -> Seq<Entry> {
    sort_desc(dedup_by_label(classified(raw, false)))
}

/// The full normalized list: all video entries, then all audio entries.
pub open spec fn format_entries(raw: Seq<RawFormat>) -> Seq<Entry> {
    video_list(raw) + audio_list(raw)
}

/// Laws of the normalized list: within each class no label repeats, and
/// magnitudes are in descending order.
pub proof fn lemma_format_list_laws(raw: Seq<RawFormat>)
    ensures
        nodup_labels(video_list(raw)),
        nodup_labels(audio_list(raw)),
        sorted_desc(video_list(raw)),
        sorted_desc(audio_list(raw)),
{
    lemma_dedup_nodup(classified(raw, true));
    lemma_sort_desc(dedup_by_label(classified(raw, true)));
    lemma_dedup_nodup(classified(raw, false));
    lemma_sort_desc(dedup_by_label(classified(raw, false)));
}

/// Builds the normalized format list from the raw format array.
pub fn build_format_list(raw: &Vec<RawFormat>) -> (out: Vec<VideoFormat>)
    ensures
        entries_of(out@) == format_entries(raw@),
        out@.len() == format_entries(raw@).len(),
        forall|i: int| 0 <= i < video_list(raw@).len() ==> out@[i].ext@ == ("mp4")@,
        forall|i: int| video_list(raw@).len() <= i < out@.len() ==> out@[i].ext@ == ("mp3")@,
        nodup_labels(video_list(raw@)),
        nodup_labels(audio_list(raw@)),
        sorted_desc(video_list(raw@)),
        sorted_desc(audio_list(raw@)),
{
    proof {
        lemma_format_list_laws(raw@);
    }
    let v = collect_class(raw, true);
    let a = collect_class(raw, false);
    let ghost ventries = entries_of(v@);
    let ghost aentries = entries_of(a@);
    let mut out = sort_by_magnitude(v);
    let mut asorted = sort_by_magnitude(a);
    let ghost vlen = out@.len();
    proof {
        lemma_sort_desc(ventries);
        lemma_sort_desc(aentries);
    }
    let ghost vpart = out@;
    let ghost apart = asorted@;
    out.append(&mut asorted);
    proof {
        assert(entries_of(out@) =~= entries_of(vpart) + entries_of(apart));
        assert forall|i: int| 0 <= i < video_list(raw@).len() implies out@[i].ext@ == ("mp4")@ by {
            assert(out@[i] == vpart[i]);
        }
        assert forall|i: int| video_list(raw@).len() <= i < out@.len() implies out@[i].ext@ == (
        "mp3")@ by {
            assert(out@[i] == apart[i - vlen]);
        }
    }
    out
}

} // verus!
