//! Ascending order of texts: character by character by code point, a
//! proper prefix first. On valid text this is the order of `str`'s bytes,
//! since UTF-8 preserves code-point order.

use vstd::prelude::*;
use crate::text::str_chars;

verus! {

broadcast use vstd::seq_lib::group_to_multiset_ensures;

/// `a` comes no later than `b`.
pub open spec fn text_le(a: Seq<char>, b: Seq<char>) -> bool
    decreases a.len(),
{
    if a.len() == 0 {
        true
    } else if b.len() == 0 {
        false
    } else if a[0] != b[0] {
        a[0] < b[0]
    } else {
        text_le(a.drop_first(), b.drop_first())
    }
}

pub proof fn lemma_text_le_total(a: Seq<char>, b: Seq<char>)
    ensures
        text_le(a, b) || text_le(b, a),
    decreases a.len(),
{
    if a.len() > 0 && b.len() > 0 && a[0] == b[0] {
        lemma_text_le_total(a.drop_first(), b.drop_first());
    }
}

pub proof fn lemma_text_le_refl(a: Seq<char>)
    ensures
        text_le(a, a),
    decreases a.len(),
{
    if a.len() > 0 {
        lemma_text_le_refl(a.drop_first());
    }
}

pub proof fn lemma_text_le_trans(a: Seq<char>, b: Seq<char>, c: Seq<char>)
    requires
        text_le(a, b),
        text_le(b, c),
    ensures
        text_le(a, c),
    decreases a.len(),
{
    if a.len() > 0 && b.len() > 0 && c.len() > 0 && a[0] == b[0] && b[0] == c[0] {
        lemma_text_le_trans(a.drop_first(), b.drop_first(), c.drop_first());
    }
}

/// Whether `a` comes no later than `b`.
pub fn text_le_exec(a: &[char], b: &[char]) -> (r: bool)
    ensures
        r == text_le(a@, b@),
{
    let mut i: usize = 0;
    assert(a@.skip(0) =~= a@);
    assert(b@.skip(0) =~= b@);
    while i < a.len() && i < b.len() && a[i] == b[i]
        invariant
            i <= a@.len(),
            i <= b@.len(),
            text_le(a@, b@) == text_le(a@.skip(i as int), b@.skip(i as int)),
        decreases a@.len() - i,
    {
        proof {
            let sa = a@.skip(i as int);
            let sb = b@.skip(i as int);
            assert(sa.drop_first() =~= a@.skip(i + 1));
            assert(sb.drop_first() =~= b@.skip(i + 1));
        }
        i = i + 1;
    }
    proof {
        let sa = a@.skip(i as int);
        let sb = b@.skip(i as int);
        if i < a@.len() && i < b@.len() {
            assert(sa[0] == a@[i as int] && sb[0] == b@[i as int]);
        }
    }
    if i == a.len() {
        true
    } else if i == b.len() {
        false
    } else {
        a[i] < b[i]
    }
}

/// The texts of a vector of strings.
pub open spec fn texts(v: Seq<String>) -> Seq<Seq<char>> {
    v.map_values(|s: String| s@)
}

/// The texts are in ascending order.
pub open spec fn ascending(s: Seq<Seq<char>>) -> bool {
    forall|i: int, j: int| 0 <= i < j < s.len() ==> text_le(s[i], s[j])
}

/// Sorts strings into ascending order: the result is ascending and holds
/// the same texts, each as often.
pub fn sort_texts(v: Vec<String>) -> (r: Vec<String>)
    ensures
        ascending(texts(r@)),
        texts(r@).to_multiset() == texts(v@).to_multiset(),
{
    let ghost orig = texts(v@);
    let mut src = v;
    let mut out: Vec<String> = Vec::new();
    while src.len() > 0
        invariant
            ascending(texts(out@)),
            forall|i: int, j: int| 0 <= i < out@.len() && 0 <= j < src@.len() ==> text_le(
                #[trigger] texts(out@)[i],
                #[trigger] texts(src@)[j],
            ),
            texts(out@).to_multiset().add(texts(src@).to_multiset()) == orig.to_multiset(),
        decreases src@.len(),
    {
        let mut k: usize = 0;
        let mut j: usize = 1;
        let ghost ts = texts(src@);
        proof {
            lemma_text_le_refl(ts[0]);
        }
        while j < src.len()
            invariant
                ts == texts(src@),
                k < src@.len(),
                1 <= j <= src@.len(),
                forall|t: int| 0 <= t < j ==> text_le(ts[k as int], #[trigger] ts[t]),
            decreases src@.len() - j,
        {
            let a = str_chars(src[j].as_str());
            let b = str_chars(src[k].as_str());
            proof {
                assert(ts[j as int] == src@[j as int]@);
                assert(ts[k as int] == src@[k as int]@);
            }
            if !text_le_exec(b.as_slice(), a.as_slice()) {
                proof {
                    lemma_text_le_total(ts[k as int], ts[j as int]);
                    assert forall|t: int| 0 <= t < j + 1 implies text_le(ts[j as int], #[trigger] ts[t]) by {
                        if t < j {
                            lemma_text_le_trans(ts[j as int], ts[k as int], ts[t]);
                        } else {
                            lemma_text_le_refl(ts[j as int]);
                        }
                    }
                }
                k = j;
            } else {
                proof {
                    assert forall|t: int| 0 <= t < j + 1 implies text_le(ts[k as int], #[trigger] ts[t]) by {
                    }
                }
            }
            j = j + 1;
        }
        let ghost before_out = texts(out@);
        let ghost before_src = texts(src@);
        let ghost m = before_src[k as int];

        let s = src.remove(k);
        out.push(s);
        proof {
            assert(texts(out@) =~= before_out.push(m));
            assert(texts(src@) =~= before_src.remove(k as int));
            assert forall|a: int, b: int| 0 <= a < b < texts(out@).len() implies text_le(texts(out@)[a], texts(out@)[b]) by {
                if b == before_out.len() {
                    assert(text_le(before_out[a], before_src[k as int]));
                }
            }
            assert forall|i: int, t: int| 0 <= i < out@.len() && 0 <= t < src@.len() implies text_le(
                #[trigger] texts(out@)[i],
                #[trigger] texts(src@)[t],
            ) by {
                let tt = if t < k { t } else { t + 1 };
                assert(texts(src@)[t] == before_src[tt]);
                if i < before_out.len() {
                    assert(text_le(before_out[i], before_src[tt]));
                } else {
                    assert(text_le(m, before_src[tt]));
                }
            }
            assert(before_src.to_multiset().count(m) > 0);
            assert(texts(out@).to_multiset().add(texts(src@).to_multiset()) =~= before_out.to_multiset().add(
                before_src.to_multiset(),
            ));
        }
    }
    proof {
        assert(texts(src@).to_multiset() =~= vstd::multiset::Multiset::empty());
        assert(texts(out@).to_multiset() =~= texts(out@).to_multiset().add(vstd::multiset::Multiset::empty()));
    }
    out
}

} // verus!
