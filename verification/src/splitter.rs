//! The blob splitter: partitioning raw text that holds several JSON objects
//! written back to back into standalone object texts.
//!
//! The split is a purely textual heuristic on a boundary literal. It assumes
//! the boundary never occurs inside a string value or nested structure;
//! input breaking that assumption splits incorrectly and surfaces later as a
//! decode failure of the affected chunk.

use vstd::prelude::*;
use crate::text::{match_here, matches_at};
use vstd::string::{StrSliceExecFns, StringExecFns};

verus! {

broadcast use vstd::std_specs::vec::group_vec_axioms, vstd::seq::group_seq_axioms, vstd::string::group_string_axioms;

/// The boundary literal with a newline: objects separated by `}\n{`.
pub open spec fn boundary_nl() -> Seq<char> {
    seq!['}', '\n', '{']
}

/// The fallback boundary literal without a newline: `}{`.
pub open spec fn boundary_plain() -> Seq<char> {
    seq!['}', '{']
}

/// The first position at or after `i` where `pat` occurs in `s`.
pub open spec fn find_from(s: Seq<char>, pat: Seq<char>, i: int) -> Option<int>
    decreases s.len() - i,
{
    if i < 0 || i + pat.len() > s.len() {
        None
    } else if matches_at(s, pat, i) {
        Some(i)
    } else {
        find_from(s, pat, i + 1)
    }
}

/// What `find_from` finds: the earliest occurrence at or after `i`, or a
/// guarantee that there is none.
pub proof fn lemma_find_from(s: Seq<char>, pat: Seq<char>, i: int)
    requires
        0 <= i,
    ensures
        match find_from(s, pat, i) {
            Some(j) => i <= j && matches_at(s, pat, j) && (forall|m: int|
                i <= m < j ==> !matches_at(s, pat, m)),
            None => forall|m: int| i <= m ==> !matches_at(s, pat, m),
        },
    decreases s.len() - i,
{
    if i + pat.len() > s.len() {
        assert forall|m: int| i <= m implies !matches_at(s, pat, m) by {}
    } else if matches_at(s, pat, i) {
    } else {
        lemma_find_from(s, pat, i + 1);
    }
}

/// The fragments of `s` between consecutive occurrences of `pat`, in order.
pub open spec fn split_on(s: Seq<char>, pat: Seq<char>) -> Seq<Seq<char>>
    decreases s.len(),
{
    match find_from(s, pat, 0) {
        None => seq![s],
        Some(j) => {
            if 0 <= j && j + pat.len() <= s.len() && pat.len() >= 1 {
                seq![s.take(j)] + split_on(s.skip(j + pat.len()), pat)
            } else {
                seq![s]
            }
        },
    }
}

/// One reconstructed object text: the first fragment regains its trailing
/// brace, the last its leading brace, interior fragments both; a lone
/// fragment is taken as already complete.
pub open spec fn rebuild_at(pieces: Seq<Seq<char>>, k: int) -> Seq<char> {
    if pieces.len() == 1 {
        pieces[k]
    } else if k == 0 {
        pieces[0] + seq!['}']
    } else if k == pieces.len() - 1 {
        seq!['{'] + pieces[k]
    } else {
        seq!['{'] + pieces[k] + seq!['}']
    }
}

/// All reconstructed object texts, in input order.
pub open spec fn rebuild(pieces: Seq<Seq<char>>) -> Seq<Seq<char>> {
    Seq::new(pieces.len(), |k: int| rebuild_at(pieces, k))
}

/// What splitting a catalog blob yields: fragments of the newline boundary,
/// or of the plain boundary when the first finds nothing, each reconstructed
/// into a standalone object text.
pub open spec fn split_catalog_spec(s: Seq<char>) -> Seq<Seq<char>> {
    let first = split_on(s, boundary_nl());
    let pieces = if first.len() <= 1 {
        split_on(s, boundary_plain())
    } else {
        first
    };
    rebuild(pieces)
}

/// Finds the first occurrence of `pat` at or after `from`.
fn find_pat(s: &str, pat: &str, from: usize) -> (r: Option<usize>)
    requires
        from <= s@.len(),
    ensures
        match r {
            Some(j) => from <= j && j + pat@.len() <= s@.len() && matches_at(s@, pat@, j as int)
                && (forall|m: int| from <= m < j ==> !matches_at(s@, pat@, m)),
            None => forall|m: int| from <= m ==> !matches_at(s@, pat@, m),
        },
{
    let n = s.unicode_len();
    let m = pat.unicode_len();
    if m > n || from > n - m {
        proof {
            assert forall|t: int| from <= t implies !matches_at(s@, pat@, t) by {}
        }
        return None;
    }
    let mut i: usize = from;
    while i <= n - m
        invariant
            n == s@.len(),
            m == pat@.len(),
            m <= n,
            from <= i <= n - m + 1,
            forall|t: int| from <= t < i ==> !matches_at(s@, pat@, t),
        decreases n - m - i + 1,
    {
        if match_here(s, pat, i) {
            return Some(i);
        }
        i += 1;
    }
    proof {
        assert forall|t: int| from <= t implies !matches_at(s@, pat@, t) by {}
    }
    None
}

/// `find_from` agrees with any position that matches first.
proof fn lemma_find_from_is(s: Seq<char>, pat: Seq<char>, i: int, j: int)
    requires
        0 <= i <= j,
        j + pat.len() <= s.len(),
        matches_at(s, pat, j),
        forall|m: int| i <= m < j ==> !matches_at(s, pat, m),
    ensures
        find_from(s, pat, i) == Some(j),
    decreases j - i,
{
    if i < j {
        lemma_find_from_is(s, pat, i + 1, j);
    }
}

/// `find_from` finds nothing when nothing matches.
proof fn lemma_find_from_none(s: Seq<char>, pat: Seq<char>, i: int)
    requires
        0 <= i,
        forall|m: int| i <= m ==> !matches_at(s, pat, m),
    ensures
        find_from(s, pat, i) == None::<int>,
{
    lemma_find_from(s, pat, i);
    if find_from(s, pat, i) is Some {
        let j = find_from(s, pat, i)->0;
        assert(!matches_at(s, pat, j));
    }
}

/// Occurrences in a suffix are occurrences in the whole, shifted.
proof fn lemma_matches_shift(s: Seq<char>, pat: Seq<char>, pos: int)
    requires
        0 <= pos <= s.len(),
    ensures
        forall|x: int|
            0 <= x ==> (#[trigger] matches_at(s.skip(pos), pat, x) <==> matches_at(
                s,
                pat,
                pos + x,
            )),
{
    assert forall|x: int| 0 <= x implies (#[trigger] matches_at(s.skip(pos), pat, x) <==> matches_at(
        s,
        pat,
        pos + x,
    )) by {
        if matches_at(s.skip(pos), pat, x) {
            assert forall|k: int| 0 <= k < pat.len() implies s[pos + x + k] == pat[k] by {
                assert(s.skip(pos)[x + k] == pat[k]);
            }
        }
        if matches_at(s, pat, pos + x) {
            assert forall|k: int| 0 <= k < pat.len() implies s.skip(pos)[x + k] == pat[k] by {
                assert(s[pos + x + k] == pat[k]);
            }
        }
    }
}

/// Splits `s` on the occurrences of `pat`, returning the raw fragments.
fn split_pieces(s: &str, pat: &str) -> (r: Vec<String>)
    requires
        pat@.len() >= 1,
    ensures
        r.deep_view() == split_on(s@, pat@),
        r@.len() >= 1,
{
    let n = s.unicode_len();
    let m = pat.unicode_len();
    let mut out: Vec<String> = Vec::new();
    let mut pos: usize = 0;
    proof {
        assert(out.deep_view() =~= Seq::<Seq<char>>::empty());
        assert(s@.skip(0) =~= s@);
    }
    loop
        invariant
            n == s@.len(),
            m == pat@.len(),
            m >= 1,
            pos <= n,
            split_on(s@, pat@) == out.deep_view() + split_on(s@.skip(pos as int), pat@),
        decreases n - pos,
    {
        let ghost rest = s@.skip(pos as int);
        proof {
            lemma_matches_shift(s@, pat@, pos as int);
        }
        match find_pat(s, pat, pos) {
            Some(j) => {
                proof {
                    lemma_find_from_is(rest, pat@, 0, j - pos);
                    assert(rest.take(j - pos) =~= s@.subrange(pos as int, j as int));
                    assert(rest.skip(j - pos + m) =~= s@.skip(j + m));
                }
                let ghost pre = out.deep_view();
                let piece = s.substring_char(pos, j).to_owned();
                out.push(piece);
                proof {
                    assert(out.deep_view() =~= pre.push(s@.subrange(pos as int, j as int)));
                    assert(pre + (seq![rest.take(j - pos)] + split_on(rest.skip(j - pos + m), pat@))
                        =~= out.deep_view() + split_on(s@.skip(j + m), pat@));
                }
                pos = j + m;
            },
            None => {
                proof {
                    lemma_find_from_none(rest, pat@, 0);
                    assert(rest =~= s@.subrange(pos as int, n as int));
                }
                let ghost pre = out.deep_view();
                let piece = s.substring_char(pos, n).to_owned();
                out.push(piece);
                proof {
                    assert(out.deep_view() =~= pre.push(rest));
                    assert(pre + seq![rest] =~= out.deep_view());
                }
                return out;
            },
        }
    }
}

/// Splits a catalog blob into standalone object texts: fragments of the
/// `}\n{` boundary (falling back to `}{` when it never occurs), the first
/// fragment closed with `}`, the last opened with `{`, interior fragments
/// wrapped in both, and a lone fragment returned as it stands.
pub fn split_catalog_blob(s: &str) -> (parts: Vec<String>)
    ensures
        parts.deep_view() == split_catalog_spec(s@),
        parts@.len() >= 1,
{
    let ghost bnl = boundary_nl();
    let ghost bpl = boundary_plain();
    proof {
        reveal_strlit("}\n{");
        reveal_strlit("}{");
        assert("}\n{"@ =~= bnl);
        assert("}{"@ =~= bpl);
    }
    let first = split_pieces(s, "}\n{");
    let pieces = if first.len() <= 1 {
        split_pieces(s, "}{")
    } else {
        first
    };
    let ghost pv = pieces.deep_view();
    proof {
        assert(pv.len() == pieces@.len());
        assert(split_catalog_spec(s@) == rebuild(pv));
    }
    if pieces.len() == 1 {
        proof {
            assert(rebuild(pv) =~~= pv);
        }
        return pieces;
    }
    let mut out: Vec<String> = Vec::new();
    let mut k: usize = 0;
    let last = pieces.len() - 1;
    while k < pieces.len()
        invariant
            pv == pieces.deep_view(),
            pv.len() == pieces@.len(),
            pieces@.len() >= 2,
            last == pieces@.len() - 1,
            k <= pieces@.len(),
            out@.len() == k,
            forall|t: int| 0 <= t < k ==> out.deep_view()[t] == rebuild_at(pv, t),
        decreases pieces@.len() - k,
    {
        let ghost pre = out.deep_view();
        if k == 0 {
            let mut t = pieces[k].clone();
            t.append("}");
            proof {
                reveal_strlit("}");
                assert(t@ =~= pv[0] + seq!['}']);
            }
            out.push(t);
        } else if k == last {
            let mut t = String::from_str("{");
            t.append(pieces[k].as_str());
            proof {
                reveal_strlit("{");
                assert(t@ =~= seq!['{'] + pv[k as int]);
            }
            out.push(t);
        } else {
            let mut t = String::from_str("{");
            t.append(pieces[k].as_str());
            t.append("}");
            proof {
                reveal_strlit("{");
                reveal_strlit("}");
                assert(t@ =~= seq!['{'] + pv[k as int] + seq!['}']);
            }
            out.push(t);
        }
        proof {
            assert(out.deep_view() =~= pre.push(rebuild_at(pv, k as int)));
        }
        k += 1;
    }
    proof {
        assert(out.deep_view() =~~= rebuild(pv));
    }
    out
}

/// A standalone object text as the concatenation law expects it: braced,
/// and free of the newline boundary literal.
pub open spec fn wf_object_text(o: Seq<char>) -> bool {
    &&& o.len() >= 2
    &&& o[0] == '{'
    &&& o[o.len() - 1] == '}'
    &&& forall|i: int| !matches_at(o, boundary_nl(), i)
}

/// The texts from `k` on, joined by single newlines.
pub open spec fn join_nl(objs: Seq<Seq<char>>, k: int) -> Seq<char>
    decreases objs.len() - k,
{
    if k < 0 || k >= objs.len() {
        Seq::empty()
    } else if k == objs.len() - 1 {
        objs[k]
    } else {
        objs[k] + seq!['\n'] + join_nl(objs, k + 1)
    }
}

/// Splitting `a`, a separator, and `b` finds exactly that separator first,
/// provided the boundary occurs nowhere in `a`.
proof fn lemma_split_on_sep(a: Seq<char>, b: Seq<char>)
    requires
        forall|i: int| !matches_at(a, boundary_nl(), i),
    ensures
        split_on(a + boundary_nl() + b, boundary_nl()) == seq![a] + split_on(b, boundary_nl()),
{
    let pat = boundary_nl();
    let s = a + pat + b;
    assert(matches_at(s, pat, a.len() as int)) by {
        assert forall|k: int| 0 <= k < 3 implies s[a.len() + k] == pat[k] by {
            assert(s[a.len() + k] == pat[k]);
        }
    }
    assert forall|i: int| 0 <= i < a.len() implies !matches_at(s, pat, i) by {
        if i + 3 <= a.len() {
            if matches_at(s, pat, i) {
                assert forall|k: int| 0 <= k < 3 implies a[i + k] == pat[k] by {
                    assert(s[i + k] == pat[k]);
                    assert(s[i + k] == a[i + k]);
                }
                assert(matches_at(a, pat, i));
            }
        } else if i == a.len() - 1 {
            if matches_at(s, pat, i) {
                assert(s[i + 1] == pat[1]);
                assert(s[a.len() as int] == pat[0]);
            }
        } else {
            if matches_at(s, pat, i) {
                assert(i == a.len() - 2);
                assert(s[i + 2] == pat[2]);
                assert(s[a.len() as int] == pat[0]);
            }
        }
    }
    lemma_find_from_is(s, pat, 0, a.len() as int);
    assert(s.take(a.len() as int) =~= a);
    assert(s.skip(a.len() as int + 3) =~= b);
}

/// The first character of a join is the first character of its first text.
proof fn lemma_join_first(objs: Seq<Seq<char>>, k: int)
    requires
        0 <= k < objs.len(),
        objs[k].len() >= 1,
    ensures
        join_nl(objs, k).len() >= objs[k].len(),
        join_nl(objs, k)[0] == objs[k][0],
{
}

/// Splitting the tail of a join, its leading brace stripped, yields each
/// object's interior, the last object keeping its closing brace.
proof fn lemma_split_join_tail(objs: Seq<Seq<char>>, k: int)
    requires
        0 <= k < objs.len(),
        forall|t: int| 0 <= t < objs.len() ==> wf_object_text(#[trigger] objs[t]),
    ensures
        split_on(join_nl(objs, k).skip(1), boundary_nl()) =~~= Seq::new(
            (objs.len() - k) as nat,
            |t: int|
                if k + t == objs.len() - 1 {
                    objs[k + t].skip(1)
                } else {
                    objs[k + t].subrange(1, objs[k + t].len() - 1)
                },
        ),
    decreases objs.len() - k,
{
    let pat = boundary_nl();
    assert(wf_object_text(objs[k]));
    if k == objs.len() - 1 {
        let tail = objs[k].skip(1);
        assert forall|i: int| !matches_at(tail, pat, i) by {
            if matches_at(tail, pat, i) {
                assert forall|t: int| 0 <= t < 3 implies objs[k][i + 1 + t] == pat[t] by {
                    assert(tail[i + t] == pat[t]);
                }
                assert(matches_at(objs[k], pat, i + 1));
            }
        }
        lemma_find_from_none(tail, pat, 0);
        assert(split_on(tail, pat) == seq![tail]);
    } else {
        lemma_split_join_tail(objs, k + 1);
        lemma_join_first(objs, k + 1);
        assert(wf_object_text(objs[k + 1]));
        let nk = objs[k].len() as int;
        let a = objs[k].subrange(1, nk - 1);
        let b = join_nl(objs, k + 1).skip(1);
        assert(join_nl(objs, k).skip(1) =~= a + pat + b) by {
            assert(join_nl(objs, k) == objs[k] + seq!['\n'] + join_nl(objs, k + 1));
            assert(objs[k][nk - 1] == '}');
            assert(join_nl(objs, k + 1)[0] == '{');
        }
        assert forall|i: int| !matches_at(a, pat, i) by {
            if matches_at(a, pat, i) {
                assert forall|t: int| 0 <= t < 3 implies objs[k][i + 1 + t] == pat[t] by {
                    assert(a[i + t] == pat[t]);
                }
                assert(matches_at(objs[k], pat, i + 1));
            }
        }
        lemma_split_on_sep(a, b);
        assert(split_on(join_nl(objs, k).skip(1), pat) == seq![a] + split_on(b, pat));
    }
}

/// Reconstruction undoes the stripping of the braces.
proof fn lemma_rebuild_pieces(objs: Seq<Seq<char>>, pieces: Seq<Seq<char>>)
    requires
        objs.len() >= 2,
        pieces.len() == objs.len(),
        forall|t: int| 0 <= t < objs.len() ==> wf_object_text(#[trigger] objs[t]),
        pieces[0] == objs[0].subrange(0, objs[0].len() - 1),
        forall|t: int|
            1 <= t < objs.len() - 1 ==> #[trigger] pieces[t] == objs[t].subrange(
                1,
                objs[t].len() - 1,
            ),
        pieces[objs.len() - 1] == objs[objs.len() - 1].skip(1),
    ensures
        rebuild(pieces) =~~= objs,
{
    assert forall|t: int| 0 <= t < objs.len() implies rebuild_at(pieces, t) =~= objs[t] by {
        assert(wf_object_text(objs[t]));
    }
}

/// Splitting `N` well-formed objects joined by the `}\n{` boundary yields
/// exactly `N` reconstructed texts, each equal to the object it came from.
pub proof fn lemma_split_concatenation(objs: Seq<Seq<char>>)
    requires
        objs.len() >= 2,
        forall|t: int| 0 <= t < objs.len() ==> wf_object_text(#[trigger] objs[t]),
    ensures
        split_catalog_spec(join_nl(objs, 0)) == objs,
{
    let pat = boundary_nl();
    let s = join_nl(objs, 0);
    assert(wf_object_text(objs[0]));
    lemma_join_first(objs, 1);
    assert(wf_object_text(objs[1]));
    let n0 = objs[0].len() as int;
    let a0 = objs[0].subrange(0, n0 - 1);
    let b = join_nl(objs, 1).skip(1);
    assert(s =~= a0 + pat + b) by {
        assert(s == objs[0] + seq!['\n'] + join_nl(objs, 1));
        assert(objs[0][n0 - 1] == '}');
        assert(join_nl(objs, 1)[0] == '{');
    }
    assert forall|i: int| !matches_at(a0, pat, i) by {
        if matches_at(a0, pat, i) {
            assert forall|t: int| 0 <= t < 3 implies objs[0][i + t] == pat[t] by {
                assert(a0[i + t] == pat[t]);
            }
            assert(matches_at(objs[0], pat, i));
        }
    }
    lemma_split_on_sep(a0, b);
    lemma_split_join_tail(objs, 1);
    let tail = split_on(b, pat);
    let pieces = split_on(s, pat);
    assert(pieces == seq![a0] + tail);
    assert(pieces.len() == objs.len());
    assert(pieces[0] == a0);
    assert forall|t: int|
        1 <= t < objs.len() - 1 implies #[trigger] pieces[t] == objs[t].subrange(
        1,
        objs[t].len() - 1,
    ) by {
        assert(pieces[t] == tail[t - 1]);
    }
    assert(pieces[objs.len() - 1] == tail[objs.len() - 2]);
    lemma_rebuild_pieces(objs, pieces);
    assert(split_catalog_spec(s) == rebuild(pieces));
}

/// A blob in which neither boundary literal occurs splits into exactly one
/// text: the blob itself, unchanged.
pub proof fn lemma_split_single(s: Seq<char>)
    requires
        forall|i: int| !matches_at(s, boundary_nl(), i),
        forall|i: int| !matches_at(s, boundary_plain(), i),
    ensures
        split_catalog_spec(s) == seq![s],
{
    lemma_find_from_none(s, boundary_nl(), 0);
    lemma_find_from_none(s, boundary_plain(), 0);
    assert(split_on(s, boundary_nl()) == seq![s]);
    assert(split_on(s, boundary_plain()) == seq![s]);
    assert(rebuild(seq![s]) =~~= seq![s]);
}

} // verus!
