//! Column-major array shapes: element counts, prefix products and the
//! facts about them that index arithmetic needs.

use vstd::prelude::*;

verus! {

/// Number of elements of an array of the given extents.
pub open spec fn prod(s: Seq<usize>) -> nat
    decreases s.len(),
{
    if s.len() == 0 {
        1
    } else {
        prod(s.drop_last()) * (s.last() as nat)
    }
}

/// Every prefix product of the extents fits in a `usize`.
pub open spec fn prefix_fits(s: Seq<usize>) -> bool {
    forall|k: int| 0 <= k <= s.len() ==> #[trigger] prod(s.take(k)) <= usize::MAX
}

/// `n` extents equal to one.
pub open spec fn ones(n: nat) -> Seq<usize> {
    Seq::new(n, |i: int| 1usize)
}

/// Extents padded with trailing ones up to `n` entries.
pub open spec fn pad_to(s: Seq<usize>, n: int) -> Seq<usize> {
    if s.len() >= n {
        s
    } else {
        s + ones((n - s.len()) as nat)
    }
}

pub proof fn lemma_prod_append(a: Seq<usize>, b: Seq<usize>)
    ensures
        prod(a + b) == prod(a) * prod(b),
    decreases b.len(),
{
    if b.len() == 0 {
        assert(a + b =~= a);
        assert(prod(a) * 1 == prod(a));
    } else {
        let b2 = b.drop_last();
        lemma_prod_append(a, b2);
        assert((a + b).drop_last() =~= a + b2);
        assert((a + b).last() == b.last());
        let pa = prod(a);
        let pb2 = prod(b2);
        let l = b.last() as nat;
        assert(prod(b) == pb2 * l);
        assert(prod(a + b) == prod(a + b2) * l);
        assert(pa * pb2 * l == pa * (pb2 * l)) by (nonlinear_arith);
    }
}

pub proof fn lemma_prod_ones(n: nat)
    ensures
        prod(ones(n)) == 1,
    decreases n,
{
    if n > 0 {
        lemma_prod_ones((n - 1) as nat);
        assert(ones(n).drop_last() =~= ones((n - 1) as nat));
        assert(ones(n).last() == 1usize);
    } else {
        assert(ones(n).len() == 0);
    }
}

pub proof fn lemma_prod_pad(s: Seq<usize>, n: int)
    ensures
        prod(pad_to(s, n)) == prod(s),
        pad_to(s, n).len() == if s.len() >= n { s.len() as int } else { n },
        forall|i: int| 0 <= i < s.len() ==> pad_to(s, n)[i] == s[i],
        forall|i: int| s.len() <= i < pad_to(s, n).len() ==> pad_to(s, n)[i] == 1,
{
    if s.len() < n {
        let m = (n - s.len()) as nat;
        lemma_prod_append(s, ones(m));
        lemma_prod_ones(m);
    }
}

/// The product splits around any entry.
pub proof fn lemma_prod_split(s: Seq<usize>, k: int)
    requires
        0 <= k < s.len(),
    ensures
        prod(s) == prod(s.take(k)) * (s[k] as nat) * prod(s.skip(k + 1)),
{
    let head = s.take(k + 1);
    let tail = s.skip(k + 1);
    assert(s =~= head + tail);
    lemma_prod_append(head, tail);
    assert(head.drop_last() =~= s.take(k));
}

/// Replacing one entry scales the product of everything else alike.
pub proof fn lemma_prod_update(s: Seq<usize>, k: int, v: usize)
    requires
        0 <= k < s.len(),
    ensures
        prod(s.update(k, v)) == prod(s.take(k)) * (v as nat) * prod(s.skip(k + 1)),
        s.update(k, v).take(k) == s.take(k),
        s.update(k, v).skip(k + 1) == s.skip(k + 1),
{
    let t = s.update(k, v);
    lemma_prod_split(t, k);
    assert(t.take(k) =~= s.take(k));
    assert(t.skip(k + 1) =~= s.skip(k + 1));
}

/// Each prefix product is the one before it times the next extent.
pub proof fn lemma_prod_take_step(s: Seq<usize>, k: int)
    requires
        0 <= k < s.len(),
    ensures
        prod(s.take(k + 1)) == prod(s.take(k)) * (s[k] as nat),
{
    assert(s.take(k + 1).drop_last() =~= s.take(k));
}

/// Copy of a list of extents.
pub fn to_vec(s: &[usize]) -> (v: Vec<usize>)
    ensures
        v@ == s@,
{
    let mut v: Vec<usize> = Vec::new();
    let mut i: usize = 0;
    while i < s.len()
        invariant
            i <= s@.len(),
            v@ == s@.take(i as int),
        decreases s@.len() - i,
    {
        v.push(s[i]);
        i = i + 1;
        assert(v@ =~= s@.take(i as int));
    }
    assert(s@.take(s@.len() as int) =~= s@);
    v
}

/// Product of the first `k` extents.
pub fn prefix_product(s: &[usize], k: usize) -> (p: usize)
    requires
        k <= s@.len(),
        prefix_fits(s@),
    ensures
        p == prod(s@.take(k as int)),
{
    let mut p: usize = 1;
    let mut i: usize = 0;
    assert(s@.take(0) =~= Seq::<usize>::empty());
    while i < k
        invariant
            i <= k <= s@.len(),
            prefix_fits(s@),
            p == prod(s@.take(i as int)),
        decreases k - i,
    {
        proof {
            lemma_prod_take_step(s@, i as int);
            assert(prod(s@.take(i + 1)) <= usize::MAX);
        }
        p = p * s[i];
        i = i + 1;
    }
    p
}

} // verus!

verus! {

/// Copy of a list of characters.
pub fn to_vec_chars(s: &[char]) -> (v: Vec<char>)
    ensures
        v@ == s@,
{
    let mut v: Vec<char> = Vec::new();
    let mut i: usize = 0;
    while i < s.len()
        invariant
            i <= s@.len(),
            v@ == s@.take(i as int),
        decreases s@.len() - i,
    {
        v.push(s[i]);
        i = i + 1;
        assert(v@ =~= s@.take(i as int));
    }
    assert(s@.take(s@.len() as int) =~= s@);
    v
}

} // verus!
