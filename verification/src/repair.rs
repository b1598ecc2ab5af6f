//! The value repair filter: rewriting the known schema-violating encodings
//! of a property value in raw JSON text, before decoding.
//!
//! Three malformed shapes after the literal `"value": ` are recognized — a
//! bare numeric literal, a quoted numeric literal, and `null` — and every
//! occurrence is replaced, textually, by the canonical placeholder
//! `"value": {"group":""}`. The replacement is deliberately lossy: the
//! malformed value was never valid catalog content.

use vstd::prelude::*;
use crate::text::{match_here, matches_at};
use vstd::string::{StrSliceExecFns, StringExecFns};

verus! {

broadcast use vstd::seq::group_seq_axioms, vstd::string::group_string_axioms;

/// The literal that precedes a property value in the texts being repaired.
pub open spec fn value_prefix() -> Seq<char> {
    seq!['"', 'v', 'a', 'l', 'u', 'e', '"', ':', ' ']
}

/// The placeholder that replaces each malformed value.
pub open spec fn replacement() -> Seq<char> {
    seq![
        '"', 'v', 'a', 'l', 'u', 'e', '"', ':', ' ', '{', '"', 'g', 'r', 'o', 'u', 'p', '"', ':',
        '"', '"', '}',
    ]
}

/// A character a numeric literal may consist of: a digit or a dot.
pub open spec fn is_num_char(c: char) -> bool {
    (48 <= c as u32 && c as u32 <= 57) || c == '.'
}

/// Length of the maximal run of numeric characters starting at `i`.
pub open spec fn run_len(s: Seq<char>, i: int) -> int
    decreases s.len() - i,
{
    if 0 <= i < s.len() && is_num_char(s[i]) {
        1 + run_len(s, i + 1)
    } else {
        0
    }
}

/// A numeric run is non-negative and stays inside the text.
pub proof fn lemma_run_len_bounds(s: Seq<char>, i: int)
    requires
        0 <= i <= s.len(),
    ensures
        0 <= run_len(s, i),
        i + run_len(s, i) <= s.len(),
    decreases s.len() - i,
{
    if i < s.len() && is_num_char(s[i]) {
        lemma_run_len_bounds(s, i + 1);
    }
}

/// Length of the malformed value occurrence starting at `i`, if one starts
/// there: the prefix `"value": ` followed by a bare numeric literal, a
/// quoted numeric literal, or `null`.
pub open spec fn match_len(s: Seq<char>, i: int) -> Option<int> {
    if !matches_at(s, value_prefix(), i) {
        None
    } else {
        let j = i + 9;
        if j < s.len() && is_num_char(s[j]) {
            Some(9 + run_len(s, j))
        } else if j + 1 < s.len() && s[j] == '"' && is_num_char(s[j + 1]) {
            let r = run_len(s, j + 1);
            if j + 1 + r < s.len() && s[j + 1 + r] == '"' {
                Some(11 + r)
            } else {
                None
            }
        } else if matches_at(s, seq!['n', 'u', 'l', 'l'], j) {
            Some(13)
        } else {
            None
        }
    }
}

/// A match starts at a valid position, is at least as long as the prefix,
/// and stays inside the text.
pub proof fn lemma_match_len_bounds(s: Seq<char>, i: int)
    ensures
        match match_len(s, i) {
            Some(l) => 0 <= i && 9 <= l && i + l <= s.len(),
            None => true,
        },
{
    if match_len(s, i) is Some {
        let j = i + 9;
        if j < s.len() && is_num_char(s[j]) {
            lemma_run_len_bounds(s, j);
        } else if j + 1 < s.len() && s[j] == '"' && is_num_char(s[j + 1]) {
            lemma_run_len_bounds(s, j + 1);
        }
    }
}

/// The repaired form of the text from position `i` on: each malformed value
/// occurrence becomes the placeholder, everything else is kept.
pub open spec fn repair_spec(s: Seq<char>, i: int) -> Seq<char>
    decreases s.len() - i,
    via repair_spec_decreases
{
    if i < 0 || i >= s.len() {
        Seq::empty()
    } else {
        match match_len(s, i) {
            Some(l) => {
                if 9 <= l && i + l <= s.len() {
                    replacement() + repair_spec(s, i + l)
                } else {
                    seq![s[i]] + repair_spec(s, i + 1)
                }
            },
            None => seq![s[i]] + repair_spec(s, i + 1),
        }
    }
}

#[via_fn]
proof fn repair_spec_decreases(s: Seq<char>, i: int) {
    lemma_match_len_bounds(s, i);
}

/// A stretch with no match is kept unchanged by the repair.
pub proof fn lemma_repair_no_match_range(s: Seq<char>, a: int, b: int)
    requires
        0 <= a <= b <= s.len(),
        forall|m: int| a <= m < b ==> match_len(s, m) is None,
    ensures
        repair_spec(s, a) == s.subrange(a, b) + repair_spec(s, b),
    decreases b - a,
{
    if a < b {
        lemma_repair_no_match_range(s, a + 1, b);
        assert(seq![s[a]] + (s.subrange(a + 1, b) + repair_spec(s, b)) =~= s.subrange(a, b)
            + repair_spec(s, b));
    } else {
        assert(s.subrange(a, b) =~= Seq::<char>::empty());
    }
}

/// A text in which no malformed value occurs anywhere is left exactly as it
/// was: the repair never corrupts a record that never needed it.
pub proof fn lemma_repair_identity(s: Seq<char>)
    requires
        forall|m: int| match_len(s, m) is None,
    ensures
        repair_spec(s, 0) == s,
{
    lemma_repair_no_match_range(s, 0, s.len() as int);
    assert(s.subrange(0, s.len() as int) =~= s);
    assert(s.subrange(0, s.len() as int) + Seq::<char>::empty() =~= s);
}

/// A structured property value is never repaired: where `"value": ` is
/// followed by an opening brace, no malformed occurrence starts.
pub proof fn lemma_structured_value_untouched(s: Seq<char>, i: int)
    requires
        0 <= i,
        i + 9 < s.len(),
        s[i + 9] == '{',
    ensures
        match_len(s, i) is None,
{
}

/// Scans for the end of the numeric run starting at `j`.
fn run_end(s: &str, j: usize) -> (e: usize)
    requires
        j <= s@.len(),
    ensures
        j <= e <= s@.len(),
        e - j == run_len(s@, j as int),
{
    let n = s.unicode_len();
    let mut e: usize = j;
    while e < n
        invariant
            n == s@.len(),
            j <= e <= n,
            run_len(s@, j as int) == (e - j) + run_len(s@, e as int),
        decreases n - e,
    {
        let c = s.get_char(e);
        let u = c as u32;
        if !((48 <= u && u <= 57) || c == '.') {
            proof {
                assert(run_len(s@, e as int) == 0);
            }
            return e;
        }
        e += 1;
    }
    proof {
        assert(run_len(s@, e as int) == 0);
    }
    e
}

/// Measures the malformed value occurrence starting at `i`, if any.
fn match_at(s: &str, i: usize) -> (r: Option<usize>)
    requires
        i <= s@.len(),
    ensures
        match r {
            Some(l) => match_len(s@, i as int) == Some(l as int),
            None => match_len(s@, i as int) is None,
        },
{
    let n = s.unicode_len();
    let ghost pfx = value_prefix();
    proof {
        reveal_strlit("\"value\": ");
        assert("\"value\": "@ =~= pfx);
    }
    if n < 9 || i > n - 9 {
        return None;
    }
    if !match_here(s, "\"value\": ", i) {
        return None;
    }
    let j = i + 9;
    proof {
        lemma_run_len_bounds(s@, j as int);
    }
    if j < n {
        let c = s.get_char(j);
        let u = c as u32;
        if (48 <= u && u <= 57) || c == '.' {
            let e = run_end(s, j);
            return Some(e - i);
        }
        if c == '"' && j + 1 < n {
            let c1 = s.get_char(j + 1);
            let u1 = c1 as u32;
            if (48 <= u1 && u1 <= 57) || c1 == '.' {
                let e = run_end(s, j + 1);
                if e < n && s.get_char(e) == '"' {
                    return Some(e + 1 - i);
                }
                return None;
            }
        }
    }
    proof {
        reveal_strlit("null");
        assert("null"@ =~= seq!['n', 'u', 'l', 'l']);
    }
    if n >= 4 && j <= n - 4 && match_here(s, "null", j) {
        return Some(13);
    }
    None
}

/// Rewrites every malformed value occurrence in the text into the canonical
/// placeholder `"value": {"group":""}`, leaving everything else unchanged.
pub fn repair_values(s: &str) -> (r: String)
    ensures
        r@ == repair_spec(s@, 0),
{
    let n = s.unicode_len();
    let mut out = String::new();
    let mut seg: usize = 0;
    let mut i: usize = 0;
    while i < n
        invariant
            n == s@.len(),
            seg <= i <= n,
            repair_spec(s@, 0) == out@ + repair_spec(s@, seg as int),
            forall|m: int| seg <= m < i ==> match_len(s@, m) is None,
        decreases n - i,
    {
        match match_at(s, i) {
            Some(l) => {
                let ghost out0 = out@;
                proof {
                    lemma_match_len_bounds(s@, i as int);
                    lemma_repair_no_match_range(s@, seg as int, i as int);
                }
                let kept = s.substring_char(seg, i);
                out.append(kept);
                out.append("\"value\": {\"group\":\"\"}");
                proof {
                    reveal_strlit("\"value\": {\"group\":\"\"}");
                    assert("\"value\": {\"group\":\"\"}"@ =~= replacement());
                    assert(repair_spec(s@, i as int) == replacement() + repair_spec(
                        s@,
                        i + l,
                    ));
                    assert(out@ =~= out0 + s@.subrange(seg as int, i as int) + replacement());
                    assert(out0 + (s@.subrange(seg as int, i as int) + (replacement()
                        + repair_spec(s@, i + l))) =~= out@ + repair_spec(s@, i + l));
                }
                i = i + l;
                seg = i;
            },
            None => {
                i += 1;
            },
        }
    }
    proof {
        lemma_repair_no_match_range(s@, seg as int, n as int);
        assert(repair_spec(s@, n as int) == Seq::<char>::empty());
    }
    let tail = s.substring_char(seg, n);
    out.append(tail);
    proof {
        assert(out@ =~= repair_spec(s@, 0));
    }
    out
}

} // verus!
