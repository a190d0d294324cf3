//! Collision-free output-name allocation.
//!
//! A destination file name is derived from a title, a quality tag and an
//! extension. Filesystem-reserved characters in the title are replaced by
//! `_`; on collision an increasing integer suffix is appended until an
//! unused name is found. The allocator is pure and deterministic given a
//! snapshot of the names already present in the target directory; the
//! embedding application takes that snapshot and creates the file while
//! the task exclusivity guard serializes all jobs.

use crate::text::{dec_chars, lemma_dec_chars_injective, lemma_dec_chars_len, push_dec, str_eq};
use vstd::prelude::*;
use vstd::relations::injective_on;
use vstd::set_lib::{lemma_int_range, lemma_len_subset, lemma_map_size, set_int_range};
use vstd::string::StringExecFns;

verus! {

/// The characters a file name may not carry.
pub open spec fn reserved_char(c: char) -> bool {
    c == '\\' || c == '/' || c == ':' || c == '*' || c == '?' || c == '"' || c == '<' || c == '>'
        || c == '|'
}

pub open spec fn sanitize_char(c: char) -> char {
    if reserved_char(c) {
        '_'
    } else {
        c
    }
}

/// The title with every filesystem-reserved character replaced by `_`.
pub open spec fn sanitized(s: Seq<char>) -> Seq<char> {
    s.map_values(|c: char| sanitize_char(c))
}

/// The stem shared by all candidate names: `{sanitizedTitle}_{quality}`.
pub open spec fn file_stem(title: Seq<char>, quality: Seq<char>) -> Seq<char> {
    sanitized(title) + seq!['_'] + quality
}

/// The `k`-th candidate name: `{stem}.{ext}` for `k == 0`, and
/// `{stem}_{k}.{ext}` for the collision suffixes `k >= 1`.
pub open spec fn candidate_name(stem: Seq<char>, ext: Seq<char>, k: nat) -> Seq<char> {
    if k == 0 {
        stem + seq!['.'] + ext
    } else {
        stem + seq!['_'] + dec_chars(k) + seq!['.'] + ext
    }
}

/// Whether `name` is already present in the directory snapshot.
pub open spec fn taken(existing: Seq<String>, name: Seq<char>) -> bool {
    exists|i: int| 0 <= i < existing.len() && existing[i]@ == name
}

/// Distinct suffix indices give distinct candidate names.
pub proof fn lemma_candidate_injective(stem: Seq<char>, ext: Seq<char>, k: nat, m: nat)
    requires
        candidate_name(stem, ext, k) == candidate_name(stem, ext, m),
    ensures
        k == m,
{
    lemma_dec_chars_len(k);
    lemma_dec_chars_len(m);
    let ck = candidate_name(stem, ext, k);
    let cm = candidate_name(stem, ext, m);
    if k == 0 && m >= 1 {
        assert(ck.len() == stem.len() + 1 + ext.len());
        assert(cm.len() == stem.len() + 2 + dec_chars(m).len() + ext.len());
    } else if k >= 1 && m == 0 {
        assert(ck.len() == stem.len() + 2 + dec_chars(k).len() + ext.len());
        assert(cm.len() == stem.len() + 1 + ext.len());
    } else if k >= 1 && m >= 1 {
        let dk = dec_chars(k);
        let dm = dec_chars(m);
        assert(ck.len() == stem.len() + 2 + dk.len() + ext.len());
        assert(cm.len() == stem.len() + 2 + dm.len() + ext.len());
        assert(dk.len() == dm.len());
        assert forall|i: int| 0 <= i < dk.len() implies dk[i] == dm[i] by {
            assert(ck[stem.len() + 1 + i] == dk[i]);
            assert(cm[stem.len() + 1 + i] == dm[i]);
        }
        assert(dk =~= dm);
        lemma_dec_chars_injective(k, m);
    }
}

/// If the first `m` candidate names are all present in the snapshot, the
/// snapshot holds at least `m` names: the candidates are pairwise distinct,
/// so each occupies its own slot.
proof fn lemma_all_taken_bound(existing: Seq<String>, stem: Seq<char>, ext: Seq<char>, m: nat)
    requires
        forall|j: nat| j < m ==> taken(existing, candidate_name(stem, ext, j)),
    ensures
        m <= existing.len(),
{
    if m > existing.len() {
        let f = |j: int|
            choose|i: int|
                0 <= i < existing.len() && existing[i]@ == candidate_name(stem, ext, j as nat);
        let x = set_int_range(0, m as int);
        lemma_int_range(0, m as int);
        assert forall|j1: int, j2: int|
            x.contains(j1) && x.contains(j2) && #[trigger] f(j1) == #[trigger] f(j2) implies j1
            == j2 by {
            assert(taken(existing, candidate_name(stem, ext, j1 as nat)));
            assert(taken(existing, candidate_name(stem, ext, j2 as nat)));
            let i1 = f(j1);
            let i2 = f(j2);
            assert(0 <= i1 < existing.len() && existing[i1]@ == candidate_name(
                stem,
                ext,
                j1 as nat,
            ));
            assert(0 <= i2 < existing.len() && existing[i2]@ == candidate_name(
                stem,
                ext,
                j2 as nat,
            ));
            lemma_candidate_injective(stem, ext, j1 as nat, j2 as nat);
        }
        assert(injective_on(f, x));
        let y = x.map(f);
        lemma_map_size(x, y, f);
        let full = set_int_range(0, existing.len() as int);
        assert forall|b: int| y.contains(b) implies full.contains(b) by {
            let j = choose|j: int| x.contains(j) && #[trigger] f(j) == b;
            assert(taken(existing, candidate_name(stem, ext, j as nat)));
            assert(0 <= f(j) < existing.len());
        }
        lemma_int_range(0, existing.len() as int);
        lemma_len_subset(y, full);
    }
}

/// The sanitized title, built character by character.
pub fn sanitize_title(title: &str) -> (r: String)
    ensures
        r@ == sanitized(title@),
{
    let len = title.unicode_len();
    let mut out = String::new();
    let mut i: usize = 0;
    while i < len
        invariant
            len == title@.len(),
            0 <= i <= len,
            out@ == sanitized(title@).take(i as int),
        decreases len - i,
    {
        let c = title.get_char(i);
        let bad = c == '\\' || c == '/' || c == ':' || c == '*' || c == '?' || c == '"' || c == '<'
            || c == '>' || c == '|';
        if bad {
            out.push('_');
        } else {
            out.push(c);
        }
        proof {
            assert(sanitized(title@)[i as int] == sanitize_char(title@[i as int]));
            assert(out@ =~= sanitized(title@).take(i + 1));
        }
        i += 1;
    }
    proof {
        assert(out@ =~= sanitized(title@));
    }
    out
}

/// The `k`-th candidate name for this title/quality/extension triple.
fn make_candidate(title: &str, quality: &str, ext: &str, k: u64) -> (r: String)
    ensures
        r@ == candidate_name(file_stem(title@, quality@), ext@, k as nat),
{
    let mut s = sanitize_title(title);
    s.push('_');
    s.append(quality);
    if k > 0 {
        s.push('_');
        push_dec(&mut s, k as u128);
    }
    s.push('.');
    s.append(ext);
    proof {
        assert(s@ =~= candidate_name(file_stem(title@, quality@), ext@, k as nat));
    }
    s
}

/// Whether `name` appears in the directory snapshot.
fn name_taken(existing: &Vec<String>, name: &str) -> (r: bool)
    ensures
        r == taken(existing@, name@),
{
    let mut i: usize = 0;
    while i < existing.len()
        invariant
            0 <= i <= existing@.len(),
            forall|j: int| 0 <= j < i ==> existing@[j]@ != name@,
        decreases existing@.len() - i,
    {
        if str_eq(existing[i].as_str(), name) {
            assert(existing@[i as int]@ == name@);
            return true;
        }
        i += 1;
    }
    false
}

/// Allocates a destination name that does not collide with any name in
/// the snapshot: the first free candidate, every earlier candidate being
/// already present.
pub fn get_unique_path(existing: &Vec<String>, title: &str, quality: &str, ext: &str) -> (r:
    String)
    ensures
        !taken(existing@, r@),
        exists|k: nat|
            r@ == candidate_name(file_stem(title@, quality@), ext@, k) && (forall|j: nat|
                j < k ==> taken(existing@, candidate_name(file_stem(title@, quality@), ext@, j))),
{
    let ghost stem = file_stem(title@, quality@);
    let n = existing.len();
    let mut k: usize = 0;
    loop
        invariant
            stem == file_stem(title@, quality@),
            n == existing@.len(),
            k <= n,
            forall|j: nat| j < k as nat ==> taken(existing@, candidate_name(stem, ext@, j)),
        decreases n - k,
    {
        let cand = make_candidate(title, quality, ext, k as u64);
        if !name_taken(existing, cand.as_str()) {
            proof {
                let kk = k as nat;
                assert(cand@ == candidate_name(stem, ext@, kk) && (forall|j: nat|
                    j < kk ==> taken(existing@, candidate_name(stem, ext@, j))));
            }
            return cand;
        }
        proof {
            assert forall|j: nat| j < k as nat + 1 implies taken(
                existing@,
                candidate_name(stem, ext@, j),
            ) by {
                if j == k as nat {
                    assert(taken(existing@, cand@));
                }
            }
            lemma_all_taken_bound(existing@, stem, ext@, k as nat + 1);
        }
        k = k + 1;
    }
}

/// Law: an allocation never returns a name that is already present; in
/// particular, allocating again after the first result has been created
/// in the directory yields a different name, and one that was also free
/// in the original snapshot.
pub proof fn lemma_reallocation_differs(
    before: Seq<String>,
    after: Seq<String>,
    first: String,
    second: Seq<char>,
)
    requires
        after == before.push(first),
        !taken(after, second),
    ensures
        second != first@,
        !taken(before, second),
{
    assert(after[before.len() as int] == first);
    assert forall|i: int| 0 <= i < before.len() implies before[i]@ != second by {
        assert(after[i] == before[i]);
    }
}

} // verus!
