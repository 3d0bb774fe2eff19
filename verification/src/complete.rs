//! The tab-completion engine: candidate collection, lexicographic ordering,
//! longest-common-prefix extension, and the decision between extending the
//! buffer, ringing the bell and listing all candidates.

use vstd::prelude::*;
use crate::strutil::{str_eq, str_starts_with};
use crate::tokenizer::views;

verus! {

/// Strict lexicographic order on character sequences, by code point.
pub open spec fn lex_lt(a: Seq<char>, b: Seq<char>) -> bool
    decreases a.len(),
{
    if b.len() == 0 {
        false
    } else if a.len() == 0 {
        true
    } else if a[0] != b[0] {
        a[0] < b[0]
    } else {
        lex_lt(a.drop_first(), b.drop_first())
    }
}

/// Any two sequences compare: one is smaller, or they are equal.
pub proof fn lemma_lex_connected(a: Seq<char>, b: Seq<char>)
    ensures
        lex_lt(a, b) || lex_lt(b, a) || a == b,
    decreases a.len(),
{
    if b.len() == 0 {
        if a.len() == 0 {
            assert(a =~= b);
        } else {
            assert(lex_lt(b, a));
        }
    } else if a.len() == 0 {
        assert(lex_lt(a, b));
    } else if a[0] == b[0] {
        lemma_lex_connected(a.drop_first(), b.drop_first());
        if !lex_lt(a, b) && !lex_lt(b, a) {
            assert(a.drop_first() == b.drop_first());
            assert(a =~= b) by {
                assert(forall|i: int|
                    1 <= i < a.len() ==> #[trigger] a[i] == a.drop_first()[i - 1]);
                assert(forall|i: int|
                    1 <= i < b.len() ==> #[trigger] b[i] == b.drop_first()[i - 1]);
            }
        }
    } else {
        assert(lex_lt(a, b) || lex_lt(b, a));
    }
}

pub proof fn lemma_lex_trans(a: Seq<char>, b: Seq<char>, c: Seq<char>)
    requires
        lex_lt(a, b),
        lex_lt(b, c),
    ensures
        lex_lt(a, c),
    decreases a.len() + b.len() + c.len(),
{
    if a.len() == 0 {
    } else {
        if a[0] == b[0] {
            if b[0] == c[0] {
                lemma_lex_trans(a.drop_first(), b.drop_first(), c.drop_first());
            }
        }
    }
}

/// No two elements out of order and no duplicates.
pub open spec fn strictly_sorted(cs: Seq<Seq<char>>) -> bool {
    forall|i: int, j: int| 0 <= i < j < cs.len() ==> lex_lt(#[trigger] cs[i], #[trigger] cs[j])
}

/// Lexicographic comparison of two strings.
pub fn str_lt(a: &str, b: &str) -> (r: bool)
    ensures
        r == lex_lt(a@, b@),
{
    let alen = a.unicode_len();
    let blen = b.unicode_len();
    let mut i: usize = 0;
    proof {
        assert(a@.skip(0) =~= a@);
        assert(b@.skip(0) =~= b@);
    }
    loop
        invariant
            i <= alen,
            i <= blen,
            alen == a@.len(),
            blen == b@.len(),
            lex_lt(a@, b@) == lex_lt(a@.skip(i as int), b@.skip(i as int)),
        decreases alen - i,
    {
        proof {
            if i < alen {
                assert(a@.skip(i as int)[0] == a@[i as int]);
            }
            if i < blen {
                assert(b@.skip(i as int)[0] == b@[i as int]);
            }
        }
        if i >= blen {
            return false;
        }
        if i >= alen {
            return true;
        }
        let ca = a.get_char(i);
        let cb = b.get_char(i);
        if ca != cb {
            return ca < cb;
        }
        proof {
            assert(a@.skip(i as int).drop_first() =~= a@.skip(i + 1));
            assert(b@.skip(i as int).drop_first() =~= b@.skip(i + 1));
        }
        i = i + 1;
    }
}

/// Inserts a name into a strictly sorted vector, keeping it sorted and
/// dropping the name when it is already there.
fn insert_sorted(out: &mut Vec<String>, s: String)
    requires
        strictly_sorted(views(old(out)@)),
    ensures
        strictly_sorted(views(final(out)@)),
        forall|x: Seq<char>|
            #[trigger] views(final(out)@).contains(x) <==> (views(old(out)@).contains(x) || x
                == s@),
{
    let ghost vo = views(old(out)@);
    let mut j: usize = 0;
    while j < out.len() && str_lt(out[j].as_str(), s.as_str())
        invariant
            j <= out.len(),
            out@ == old(out)@,
            vo == views(out@),
            forall|k: int| 0 <= k < j ==> lex_lt(#[trigger] vo[k], s@),
        decreases out.len() - j,
    {
        proof {
            assert(vo[j as int] == out@[j as int]@);
        }
        j = j + 1;
    }
    if j < out.len() && str_eq(out[j].as_str(), s.as_str()) {
        proof {
            assert(vo[j as int] == s@);
            assert(vo.contains(s@));
            assert(forall|x: Seq<char>|
                views(out@).contains(x) <==> (vo.contains(x) || x == s@));
        }
    } else {
        proof {
            if j < out@.len() {
                lemma_lex_connected(s@, vo[j as int]);
                assert(lex_lt(s@, vo[j as int]));
            }
            assert forall|k: int| j <= k < vo.len() implies lex_lt(s@, #[trigger] vo[k]) by {
                if k > j {
                    assert(lex_lt(vo[j as int], vo[k]));
                    lemma_lex_trans(s@, vo[j as int], vo[k]);
                }
            }
        }
        out.insert(j, s);
        proof {
            let vn = views(out@);
            assert(vn =~= vo.insert(j as int, s@));
            assert forall|i1: int, i2: int| 0 <= i1 < i2 < vn.len() implies lex_lt(
                #[trigger] vn[i1],
                #[trigger] vn[i2],
            ) by {
                if i1 < j && i2 < j {
                    assert(vn[i1] == vo[i1] && vn[i2] == vo[i2]);
                } else if i1 < j && i2 == j {
                    assert(vn[i1] == vo[i1] && vn[i2] == s@);
                } else if i1 < j && i2 > j {
                    assert(vn[i1] == vo[i1] && vn[i2] == vo[i2 - 1]);
                } else if i1 == j {
                    assert(vn[i1] == s@ && vn[i2] == vo[i2 - 1]);
                } else {
                    assert(vn[i1] == vo[i1 - 1] && vn[i2] == vo[i2 - 1]);
                }
            }
            assert forall|x: Seq<char>| vn.contains(x) implies (vo.contains(x) || x == s@) by {
                let i = choose|i: int| 0 <= i < vn.len() && vn[i] == x;
                if i < j {
                    assert(vo[i] == x);
                } else if i > j {
                    assert(vo[i - 1] == x);
                }
            }
            assert forall|x: Seq<char>| vo.contains(x) || x == s@ implies vn.contains(x) by {
                if x == s@ {
                    assert(vn[j as int] == x);
                } else {
                    let i = choose|i: int| 0 <= i < vo.len() && vo[i] == x;
                    if i < j {
                        assert(vn[i] == x);
                    } else {
                        assert(vn[i + 1] == x);
                    }
                }
            }
        }
    }
}

/// Membership in one element more of a prefix of `v`.
proof fn lemma_take_push_contains(v: Seq<Seq<char>>, i: int, x: Seq<char>)
    requires
        0 <= i < v.len(),
    ensures
        v.take(i + 1).contains(x) <==> (v.take(i).contains(x) || x == v[i]),
{
    assert(v.take(i + 1) =~= v.take(i).push(v[i]));
    if v.take(i + 1).contains(x) {
        let ix = choose|ix: int|
            0 <= ix < v.take(i + 1).len() && (#[trigger] v.take(i + 1)[ix]) == x;
        if ix < i {
            assert(v.take(i)[ix] == x);
        } else {
            assert(x == v[i]);
        }
    }
    if v.take(i).contains(x) {
        let ix = choose|ix: int| 0 <= ix < v.take(i).len() && (#[trigger] v.take(i)[ix]) == x;
        assert(v.take(i + 1)[ix] == x);
    }
    if x == v[i] {
        assert(v.take(i + 1)[i] == x);
    }
}

/// The completion candidates: every name from either pool that opens with
/// the prefix, each name once, in lexicographic order.
pub fn candidate_set(builtins: &Vec<String>, path_names: &Vec<String>, prefix: &str) -> (r: Vec<
    String,
>)
    ensures
        strictly_sorted(views(r@)),
        forall|x: Seq<char>|
            #[trigger] views(r@).contains(x) <==> ((views(builtins@).contains(x) || views(
                path_names@,
            ).contains(x)) && prefix@.is_prefix_of(x)),
{
    let mut r: Vec<String> = Vec::new();
    let ghost vb = views(builtins@);
    let ghost vp = views(path_names@);
    let mut i: usize = 0;
    proof {
        assert(vb.take(0) =~= Seq::<Seq<char>>::empty());
    }
    while i < builtins.len()
        invariant
            i <= builtins.len(),
            vb == views(builtins@),
            strictly_sorted(views(r@)),
            forall|x: Seq<char>|
                #[trigger] views(r@).contains(x) <==> (vb.take(i as int).contains(x)
                    && prefix@.is_prefix_of(x)),
        decreases builtins.len() - i,
    {
        let ghost prev = views(r@);
        proof {
            assert(vb[i as int] == builtins@[i as int]@);
        }
        if str_starts_with(builtins[i].as_str(), prefix) {
            insert_sorted(&mut r, builtins[i].clone());
            proof {
                assert forall|x: Seq<char>|
                    views(r@).contains(x) <==> (vb.take(i + 1).contains(x)
                        && prefix@.is_prefix_of(x)) by {
                    lemma_take_push_contains(vb, i as int, x);
                    assert(prev.contains(x) <==> (vb.take(i as int).contains(x)
                        && prefix@.is_prefix_of(x)));
                }
            }
        } else {
            proof {
                assert forall|x: Seq<char>|
                    views(r@).contains(x) <==> (vb.take(i + 1).contains(x)
                        && prefix@.is_prefix_of(x)) by {
                    lemma_take_push_contains(vb, i as int, x);
                    assert(prev.contains(x) <==> (vb.take(i as int).contains(x)
                        && prefix@.is_prefix_of(x)));
                }
            }
        }
        i = i + 1;
    }
    proof {
        assert(vb.take(builtins@.len() as int) =~= vb);
        assert(vp.take(0) =~= Seq::<Seq<char>>::empty());
        assert forall|x: Seq<char>|
            views(r@).contains(x) <==> ((vb.contains(x) || vp.take(0).contains(x))
                && prefix@.is_prefix_of(x)) by {
            assert(views(r@).contains(x) <==> (vb.take(builtins@.len() as int).contains(x)
                && prefix@.is_prefix_of(x)));
        }
    }
    let mut k: usize = 0;
    while k < path_names.len()
        invariant
            k <= path_names.len(),
            vb == views(builtins@),
            vp == views(path_names@),
            strictly_sorted(views(r@)),
            forall|x: Seq<char>|
                #[trigger] views(r@).contains(x) <==> ((vb.contains(x) || vp.take(
                    k as int,
                ).contains(x)) && prefix@.is_prefix_of(x)),
        decreases path_names.len() - k,
    {
        let ghost prev = views(r@);
        proof {
            assert(vp[k as int] == path_names@[k as int]@);
        }
        if str_starts_with(path_names[k].as_str(), prefix) {
            insert_sorted(&mut r, path_names[k].clone());
            proof {
                assert forall|x: Seq<char>|
                    views(r@).contains(x) <==> ((vb.contains(x) || vp.take(k + 1).contains(x))
                        && prefix@.is_prefix_of(x)) by {
                    lemma_take_push_contains(vp, k as int, x);
                    assert(prev.contains(x) <==> ((vb.contains(x) || vp.take(k as int).contains(
                        x,
                    )) && prefix@.is_prefix_of(x)));
                }
            }
        } else {
            proof {
                assert forall|x: Seq<char>|
                    views(r@).contains(x) <==> ((vb.contains(x) || vp.take(k + 1).contains(x))
                        && prefix@.is_prefix_of(x)) by {
                    lemma_take_push_contains(vp, k as int, x);
                    assert(prev.contains(x) <==> ((vb.contains(x) || vp.take(k as int).contains(
                        x,
                    )) && prefix@.is_prefix_of(x)));
                }
            }
        }
        k = k + 1;
    }
    proof {
        assert(vp.take(path_names@.len() as int) =~= vp);
        assert forall|x: Seq<char>|
            views(r@).contains(x) <==> ((vb.contains(x) || vp.contains(x))
                && prefix@.is_prefix_of(x)) by {
            assert(views(r@).contains(x) <==> ((vb.contains(x) || vp.take(
                path_names@.len() as int,
            ).contains(x)) && prefix@.is_prefix_of(x)));
        }
    }
    r
}

/// One candidate is at least `k` long and matches the first candidate on
/// its first `k` characters.
pub open spec fn agree_at(cs: Seq<Seq<char>>, i: int, k: int) -> bool {
    k <= cs[i].len() && forall|j: int| 0 <= j < k ==> (#[trigger] cs[i][j]) == cs[0][j]
}

/// All candidates agree on their first `k` characters (and are at least that
/// long).
pub open spec fn all_agree(cs: Seq<Seq<char>>, k: int) -> bool {
    forall|i: int| 0 <= i < cs.len() ==> #[trigger] agree_at(cs, i, k)
}

/// Agreement on a prefix length carries down to every shorter length.
pub proof fn lemma_agree_mono(cs: Seq<Seq<char>>, k: int, m: int)
    requires
        all_agree(cs, k),
        0 <= m <= k,
    ensures
        all_agree(cs, m),
{
    assert forall|i: int| 0 <= i < cs.len() implies #[trigger] agree_at(cs, i, m) by {
        assert(agree_at(cs, i, k));
        assert forall|j: int| 0 <= j < m implies (#[trigger] cs[i][j]) == cs[0][j] by {}
    }
}

/// Whether every candidate is longer than `k` and holds `c` at position `k`.
fn all_have_char_at(cands: &Vec<String>, k: usize, c: char) -> (r: bool)
    ensures
        r == (forall|i: int|
            0 <= i < cands@.len() ==> k < (#[trigger] views(cands@)[i]).len() && views(
                cands@,
            )[i][k as int] == c),
{
    let mut i: usize = 0;
    while i < cands.len()
        invariant
            i <= cands.len(),
            forall|i2: int|
                0 <= i2 < i ==> k < (#[trigger] views(cands@)[i2]).len() && views(
                    cands@,
                )[i2][k as int] == c,
        decreases cands.len() - i,
    {
        let s = cands[i].as_str();
        let len = s.unicode_len();
        if k >= len {
            proof {
                assert(!(k < views(cands@)[i as int].len()));
            }
            return false;
        }
        if s.get_char(k) != c {
            proof {
                assert(views(cands@)[i as int][k as int] != c);
            }
            return false;
        }
        i = i + 1;
    }
    true
}

/// The length of the longest common prefix of the candidates: they all agree
/// up to it, and on no longer length.
pub fn lcp_len(cands: &Vec<String>) -> (k: usize)
    requires
        cands@.len() > 0,
    ensures
        k <= views(cands@)[0].len(),
        all_agree(views(cands@), k as int),
        forall|j: int| j > k ==> !all_agree(views(cands@), j),
{
    let ghost cs = views(cands@);
    let len0 = cands[0].as_str().unicode_len();
    let mut k: usize = 0;
    while k < len0
        invariant
            k <= len0,
            cs == views(cands@),
            cs.len() > 0,
            len0 == cs[0].len(),
            all_agree(cs, k as int),
        decreases len0 - k,
    {
        let c = cands[0].as_str().get_char(k);
        proof {
            assert(cs[0] == cands@[0]@);
        }
        if !all_have_char_at(cands, k, c) {
            proof {
                assert(!all_agree(cs, k + 1)) by {
                    if all_agree(cs, k + 1) {
                        let iw = choose|iw: int|
                            0 <= iw < cs.len() && !(k < (#[trigger] cs[iw]).len() && cs[iw][k as int]
                                == c);
                        assert(agree_at(cs, iw, k + 1));
                        assert(cs[iw][k as int] == cs[0][k as int]);
                    }
                }
                assert forall|j: int| j > k implies !all_agree(cs, j) by {
                    if all_agree(cs, j) {
                        lemma_agree_mono(cs, j, k + 1);
                    }
                }
            }
            return k;
        }
        proof {
            assert forall|i: int| 0 <= i < cs.len() implies #[trigger] agree_at(cs, i, k + 1) by {
                assert(agree_at(cs, i, k as int));
                assert(k < cs[i].len() && cs[i][k as int] == c);
                assert forall|j: int| 0 <= j < k + 1 implies (#[trigger] cs[i][j]) == cs[0][j] by {
                    if j < k {
                    } else {
                        assert(cs[i][k as int] == c && c == cs[0][k as int]);
                    }
                }
            }
        }
        k = k + 1;
    }
    proof {
        assert(!all_agree(cs, len0 + 1)) by {
            if all_agree(cs, len0 + 1) {
                assert(agree_at(cs, 0, len0 + 1));
                assert(len0 < cs[0].len());
            }
        }
        assert forall|j: int| j > k implies !all_agree(cs, j) by {
            if all_agree(cs, j) {
                lemma_agree_mono(cs, j, len0 + 1);
            }
        }
    }
    k
}

/// What a Tab press does to the buffer.
pub enum Completion {
    /// No candidate, or nothing unambiguous to add: audible bell.
    Bell,
    /// Append `text` to the buffer and echo it.
    Extend { text: String },
    /// Print all candidates on their own line, then the prompt and buffer
    /// again.
    ListAll,
}

/// Decides one Tab press: with no candidate a bell; with exactly one, the
/// candidate's missing suffix plus a trailing space; with several, on the
/// first press the longest-common-prefix extension if it goes beyond the
/// buffer (else a bell), and from the second consecutive press on, the
/// candidate listing.
pub fn complete(buffer: &str, cands: &Vec<String>, tab_count: usize) -> (r: Completion)
    requires
        tab_count >= 1,
        forall|i: int| 0 <= i < cands@.len() ==> buffer@.is_prefix_of(#[trigger] views(cands@)[i]),
    ensures
        cands@.len() == 0 ==> r is Bell,
        cands@.len() == 1 ==> (r matches Completion::Extend { text } && text@ == views(
            cands@,
        )[0].skip(buffer@.len() as int) + " "@),
        cands@.len() > 1 && tab_count >= 2 ==> r is ListAll,
        cands@.len() > 1 && tab_count == 1 ==> match r {
            Completion::Extend { text } => {
                &&& text@.len() > 0
                &&& buffer@.len() + text@.len() <= views(cands@)[0].len()
                &&& text@ == views(cands@)[0].subrange(
                    buffer@.len() as int,
                    buffer@.len() + text@.len() as int,
                )
                &&& all_agree(views(cands@), buffer@.len() + text@.len() as int)
                &&& forall|j: int|
                    j > buffer@.len() + text@.len() ==> !all_agree(views(cands@), j)
            },
            Completion::Bell => !all_agree(views(cands@), buffer@.len() + 1 as int),
            Completion::ListAll => false,
        },
{
    let ghost cs = views(cands@);
    if cands.len() == 0 {
        return Completion::Bell;
    }
    let blen = buffer.unicode_len();
    if cands.len() == 1 {
        let s = cands[0].as_str();
        let slen = s.unicode_len();
        proof {
            assert(buffer@.is_prefix_of(cs[0]));
        }
        let suffix = s.substring_char(blen, slen);
        let mut text = String::new();
        text.append(suffix);
        text.append(" ");
        proof {
            assert(cs[0].subrange(blen as int, slen as int) =~= cs[0].skip(blen as int));
        }
        return Completion::Extend { text };
    }
    if tab_count >= 2 {
        return Completion::ListAll;
    }
    let k = lcp_len(cands);
    proof {
        assert(all_agree(cs, blen as int)) by {
            assert forall|i: int| 0 <= i < cs.len() implies #[trigger] agree_at(
                cs,
                i,
                blen as int,
            ) by {
                assert(buffer@.is_prefix_of(cs[i]));
                assert(buffer@.is_prefix_of(cs[0]));
                assert forall|j: int| 0 <= j < blen implies (#[trigger] cs[i][j]) == cs[0][j] by {
                    assert(cs[i].subrange(0, blen as int)[j] == cs[i][j]);
                    assert(cs[0].subrange(0, blen as int)[j] == cs[0][j]);
                    assert(buffer@[j] == cs[i][j]);
                    assert(buffer@[j] == cs[0][j]);
                }
            }
        }
        assert(blen <= k) by {
            if blen > k {
                assert(!all_agree(cs, blen as int));
            }
        }
    }
    if k > blen {
        let s = cands[0].as_str();
        let text = String::from_str(s.substring_char(blen, k));
        proof {
            assert(text@.len() == k - blen);
        }
        Completion::Extend { text }
    } else {
        Completion::Bell
    }
}


/// One whole Tab press: collect the candidates for the buffer from the
/// builtin names and the search-path executables, then decide what the
/// press does. Returns the candidate list (for listing) and the decision.
pub fn completion_for(
    buffer: &str,
    builtins: &Vec<String>,
    path_names: &Vec<String>,
    tab_count: usize,
) -> (r: (Vec<String>, Completion))
    requires
        tab_count >= 1,
    ensures
        strictly_sorted(views(r.0@)),
        forall|x: Seq<char>|
            #[trigger] views(r.0@).contains(x) <==> ((views(builtins@).contains(x) || views(
                path_names@,
            ).contains(x)) && buffer@.is_prefix_of(x)),
        r.0@.len() == 0 ==> r.1 is Bell,
        r.0@.len() == 1 ==> (r.1 matches Completion::Extend { text } && text@ == views(
            r.0@,
        )[0].skip(buffer@.len() as int) + " "@),
        r.0@.len() > 1 && tab_count >= 2 ==> r.1 is ListAll,
        r.0@.len() > 1 && tab_count == 1 ==> match r.1 {
            Completion::Extend { text } => {
                &&& text@.len() > 0
                &&& all_agree(views(r.0@), buffer@.len() + text@.len() as int)
                &&& forall|j: int|
                    j > buffer@.len() + text@.len() ==> !all_agree(views(r.0@), j)
            },
            Completion::Bell => !all_agree(views(r.0@), buffer@.len() + 1 as int),
            Completion::ListAll => false,
        },
{
    let cands = candidate_set(builtins, path_names, buffer);
    proof {
        assert forall|i: int|
            0 <= i < cands@.len() implies buffer@.is_prefix_of(#[trigger] views(cands@)[i]) by {
            assert(views(cands@).contains(views(cands@)[i]));
        }
    }
    let decision = complete(buffer, &cands, tab_count);
    (cands, decision)
}

} // verus!
