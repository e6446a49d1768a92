//! MATLAB broadcasting of array shapes: the shape two shapes broadcast to,
//! and where an element of the broadcast result comes from in an operand.

use vstd::prelude::*;
use crate::shape::{lemma_prod_append, prod};

verus! {

/// Extent `i` of a shape; one past its last extent.
pub open spec fn extent(s: Seq<usize>, i: int) -> usize {
    if 0 <= i < s.len() {
        s[i]
    } else {
        1
    }
}

/// Two extents broadcast together: they are equal or one of them is one.
pub open spec fn agree(x: usize, y: usize) -> bool {
    x == y || x == 1 || y == 1
}

/// The extent two agreeing extents broadcast to.
pub open spec fn combine(x: usize, y: usize) -> usize {
    if x == 1 {
        y
    } else {
        x
    }
}

/// The longer of two lengths.
pub open spec fn max_len(a: Seq<usize>, b: Seq<usize>) -> int {
    if a.len() >= b.len() {
        a.len() as int
    } else {
        b.len() as int
    }
}

/// The first `n` extents of `a` and `b` agree.
pub open spec fn agree_upto(a: Seq<usize>, b: Seq<usize>, n: int) -> bool {
    forall|i: int| 0 <= i < n ==> agree(#[trigger] extent(a, i), extent(b, i))
}

/// The shape `a` and `b` broadcast to, when every extent agrees.
pub open spec fn broadcast_spec(a: Seq<usize>, b: Seq<usize>) -> Seq<usize> {
    Seq::new(max_len(a, b) as nat, |i: int| combine(extent(a, i), extent(b, i)))
}

/// The shape that `a` and `b` broadcast to, or the first dimension (from
/// zero) where they disagree, with the two extents there.
pub fn broadcast_shapes(a: &[usize], b: &[usize]) -> (r: Result<Vec<usize>, (usize, usize, usize)>)
    ensures
        match r {
            Ok(s) => agree_upto(a@, b@, max_len(a@, b@)) && s@ == broadcast_spec(a@, b@),
            Err((k, x, y)) => k < max_len(a@, b@) && agree_upto(a@, b@, k as int) && x == extent(a@, k as int) && y == extent(
                b@,
                k as int,
            ) && !agree(x, y),
        },
{
    let n = if a.len() >= b.len() { a.len() } else { b.len() };
    let mut out: Vec<usize> = Vec::new();
    let mut i: usize = 0;
    while i < n
        invariant
            n == max_len(a@, b@),
            i <= n,
            agree_upto(a@, b@, i as int),
            out@ == broadcast_spec(a@, b@).take(i as int),
        decreases n - i,
    {
        let x = if i < a.len() { a[i] } else { 1 };
        let y = if i < b.len() { b[i] } else { 1 };
        if !(x == y || x == 1 || y == 1) {
            return Err((i, x, y));
        }
        out.push(if x == 1 { y } else { x });
        i = i + 1;
        assert(out@ =~= broadcast_spec(a@, b@).take(i as int));
    }
    assert(broadcast_spec(a@, b@).take(n as int) =~= broadcast_spec(a@, b@));
    Ok(out)
}

/// Every extent of `sh` is one or the matching extent of `out`, and `sh`
/// has no more extents than `out`: an operand of shape `sh` broadcasts to
/// `out`.
pub open spec fn fits(out: Seq<usize>, sh: Seq<usize>) -> bool {
    &&& sh.len() <= out.len()
    &&& forall|i: int| 0 <= i < out.len() ==> #[trigger] extent(sh, i) == out[i] || extent(sh, i) == 1
}

/// The extents after the first.
pub open spec fn tail(s: Seq<usize>) -> Seq<usize> {
    if s.len() > 0 {
        s.drop_first()
    } else {
        s
    }
}

/// The extents from `i` on (none past the end).
pub open spec fn from(s: Seq<usize>, i: int) -> Seq<usize> {
    if i < s.len() {
        s.skip(i)
    } else {
        Seq::empty()
    }
}

/// Column-major position in an operand of shape `sh` of the element at
/// column-major position `p` of the broadcast result of shape `out`: along
/// each dimension the operand's coordinate is the result's, or zero where
/// the operand's extent is one.
pub open spec fn bidx(p: nat, out: Seq<usize>, sh: Seq<usize>) -> nat
    decreases out.len(),
{
    if out.len() == 0 {
        0
    } else {
        let o = out[0] as nat;
        let e = extent(sh, 0) as nat;
        let c: nat = if o == 0 { 0 } else { p % o };
        let q: nat = if o == 0 { 0 } else { p / o };
        (if e == 1 { 0 } else { c }) + e * bidx(q, out.drop_first(), tail(sh))
    }
}

pub proof fn lemma_prod_front(s: Seq<usize>)
    requires
        s.len() > 0,
    ensures
        prod(s) == (s[0] as nat) * prod(s.drop_first()),
{
    let h = seq![s[0]];
    assert(s =~= h + s.drop_first());
    lemma_prod_append(h, s.drop_first());
    assert(h.drop_last() =~= Seq::<usize>::empty());
    assert(prod(Seq::<usize>::empty()) == 1);
    assert(prod(h) == prod(h.drop_last()) * (h.last() as nat));
    assert(prod(h) == s[0] as nat);
}

proof fn lemma_fits_tail(out: Seq<usize>, sh: Seq<usize>)
    requires
        out.len() > 0,
        fits(out, sh),
    ensures
        fits(out.drop_first(), tail(sh)),
        forall|i: int| 0 <= i < out.len() - 1 ==> #[trigger] extent(tail(sh), i) == extent(sh, i + 1),
{
    assert forall|i: int| 0 <= i < out.len() - 1 implies #[trigger] extent(tail(sh), i) == extent(sh, i + 1) by {
    }
    assert forall|i: int| 0 <= i < out.drop_first().len() implies #[trigger] extent(tail(sh), i) == out.drop_first()[i]
        || extent(tail(sh), i) == 1 by {
        assert(extent(tail(sh), i) == extent(sh, i + 1));
        assert(extent(sh, i + 1) == out[i + 1] || extent(sh, i + 1) == 1);
    }
}

/// The position lies inside the operand.
pub proof fn lemma_bidx_bound(p: nat, out: Seq<usize>, sh: Seq<usize>)
    requires
        p < prod(out),
        fits(out, sh),
    ensures
        bidx(p, out, sh) < prod(sh),
    decreases out.len(),
{
    if out.len() == 0 {
        assert(sh.len() == 0);
        assert(prod(sh) == 1);
    } else {
        lemma_prod_front(out);
        let o = out[0] as nat;
        let rest = out.drop_first();
        let pr = prod(rest);
        assert(o > 0 && pr > 0) by (nonlinear_arith)
            requires
                p < o * pr,
        ;
        let q = p / o;
        let c = p % o;
        assert(q < pr) by (nonlinear_arith)
            requires
                p < o * pr,
                o > 0,
                q == p / o,
        ;
        lemma_fits_tail(out, sh);
        lemma_bidx_bound(q, rest, tail(sh));
        let b = bidx(q, rest, tail(sh));
        let e = extent(sh, 0) as nat;
        let here: nat = if e == 1 { 0 } else { c };
        assert(bidx(p, out, sh) == here + e * b);
        if sh.len() > 0 {
            lemma_prod_front(sh);
            let pt = prod(tail(sh));
            assert(prod(sh) == e * pt);
            assert(e == o || e == 1);
            assert(here < e);
            assert(here + e * b < e * pt) by (nonlinear_arith)
                requires
                    here < e,
                    b < pt,
            ;
        } else {
            assert(e == 1);
            assert(tail(sh) == sh);
            assert(prod(sh) == 1);
        }
    }
}

/// Every extent of a nonempty array's shape is positive.
pub proof fn lemma_prod_positive(s: Seq<usize>)
    requires
        prod(s) > 0,
    ensures
        forall|i: int| 0 <= i < s.len() ==> #[trigger] s[i] > 0,
    decreases s.len(),
{
    if s.len() > 0 {
        let d = s.drop_last();
        assert(prod(s) == prod(d) * (s.last() as nat));
        assert(prod(d) > 0 && s.last() > 0) by (nonlinear_arith)
            requires
                prod(s) == prod(d) * (s.last() as nat),
                prod(s) > 0,
        ;
        lemma_prod_positive(d);
        assert forall|i: int| 0 <= i < s.len() implies #[trigger] s[i] > 0 by {
            if i < s.len() - 1 {
                assert(s[i] == d[i]);
            }
        }
    }
}

/// A shape with positive extents holds at least as many elements as its
/// tail.
proof fn lemma_prod_from(s: Seq<usize>, i: int)
    requires
        0 <= i,
        forall|k: int| 0 <= k < s.len() ==> #[trigger] s[k] > 0,
    ensures
        prod(from(s, i)) <= prod(s),
        prod(from(s, i)) >= 1,
    decreases i,
{
    if i == 0 {
        if s.len() > 0 {
            assert(from(s, 0) =~= s);
        } else {
            assert(from(s, 0) =~= s);
        }
        lemma_prod_ge_one(s);
    } else {
        lemma_prod_from(s, i - 1);
        let f = from(s, i - 1);
        if i - 1 < s.len() {
            lemma_prod_front(f);
            assert(f.drop_first() =~= from(s, i));
            assert(f[0] > 0);
            lemma_prod_ge_one(from(s, i));
            assert(prod(from(s, i)) <= prod(f)) by (nonlinear_arith)
                requires
                    prod(f) == (f[0] as nat) * prod(from(s, i)),
                    f[0] > 0,
            ;
        } else {
            assert(from(s, i) =~= Seq::<usize>::empty());
            assert(prod(Seq::<usize>::empty()) == 1);
            lemma_prod_ge_one(s);
        }
    }
}

pub proof fn lemma_prod_ge_one(s: Seq<usize>)
    requires
        forall|k: int| 0 <= k < s.len() ==> #[trigger] s[k] > 0,
    ensures
        prod(s) >= 1,
    decreases s.len(),
{
    if s.len() > 0 {
        let d = s.drop_last();
        assert forall|k: int| 0 <= k < d.len() implies #[trigger] d[k] > 0 by {
            assert(d[k] == s[k]);
        }
        lemma_prod_ge_one(d);
        assert(prod(d) * (s.last() as nat) >= 1) by (nonlinear_arith)
            requires
                prod(d) >= 1,
                s.last() >= 1,
        ;
    }
}

proof fn lemma_from_step(s: Seq<usize>, i: int)
    requires
        0 <= i,
    ensures
        tail(from(s, i)) =~= from(s, i + 1),
        extent(from(s, i), 0) == extent(s, i),
        forall|k: int| 0 <= k ==> #[trigger] extent(from(s, i), k) == extent(s, i + k),
{
    if i < s.len() {
        assert forall|k: int| 0 <= k implies #[trigger] extent(from(s, i), k) == extent(s, i + k) by {
        }
    }
}

fn bidx_from(p: usize, out: &[usize], sh: &[usize], i: usize) -> (r: usize)
    requires
        i <= out@.len(),
        p < prod(from(out@, i as int)),
        fits(from(out@, i as int), from(sh@, i as int)),
        prod(from(sh@, i as int)) <= usize::MAX,
        forall|k: int| 0 <= k < sh@.len() ==> #[trigger] sh@[k] > 0,
    ensures
        r == bidx(p as nat, from(out@, i as int), from(sh@, i as int)),
    decreases out@.len() - i,
{
    let ghost fo = from(out@, i as int);
    let ghost fs = from(sh@, i as int);
    if i == out.len() {
        assert(fo.len() == 0);
        return 0;
    }
    proof {
        lemma_prod_front(fo);
        lemma_from_step(out@, i as int);
        lemma_from_step(sh@, i as int);
        assert(fo.drop_first() =~= from(out@, i + 1));
        assert(fo[0] == out@[i as int]);
    }
    let o = out[i];
    let e = if i < sh.len() { sh[i] } else { 1 };
    proof {
        let pr = prod(from(out@, i + 1));
        assert(o > 0 && pr > 0) by (nonlinear_arith)
            requires
                p < (o as nat) * pr,
        ;
        assert(p / o < pr) by (nonlinear_arith)
            requires
                p < (o as nat) * pr,
                o > 0,
        ;
        lemma_fits_tail(fo, fs);
        assert(tail(fs) =~= from(sh@, i + 1));
        if i < sh@.len() {
            lemma_prod_front(fs);
            assert(fs[0] == e);
            lemma_prod_from(sh@, i + 1);
            assert(prod(from(sh@, i + 1)) <= prod(fs)) by (nonlinear_arith)
                requires
                    prod(fs) == (e as nat) * prod(from(sh@, i + 1)),
                    e > 0,
            ;
        } else {
            assert(from(sh@, i + 1) =~= fs);
        }
    }
    let c = p % o;
    let q = p / o;
    let rest = bidx_from(q, out, sh, i + 1);
    let here: usize = if e == 1 { 0 } else { c };
    proof {
        assert(bidx(p as nat, fo, fs) == here + e * rest);
        lemma_bidx_bound(p as nat, fo, fs);
        assert(e * rest <= here + e * rest);
    }
    here + e * rest
}

/// Column-major position, in an operand of shape `sh` holding `prod(sh)`
/// elements, of the element at position `linear` of the broadcast result of
/// shape `out`.
pub fn broadcast_index(linear: usize, out: &[usize], sh: &[usize]) -> (r: usize)
    requires
        linear < prod(out@),
        fits(out@, sh@),
        prod(sh@) <= usize::MAX,
    ensures
        r == bidx(linear as nat, out@, sh@),
        r < prod(sh@),
{
    proof {
        lemma_prod_positive(out@);
        assert forall|k: int| 0 <= k < sh@.len() implies #[trigger] sh@[k] > 0 by {
            assert(extent(sh@, k) == sh@[k]);
            assert(extent(sh@, k) == out@[k] || extent(sh@, k) == 1);
        }
        assert(from(out@, 0) =~= out@);
        assert(from(sh@, 0) =~= sh@);
        lemma_bidx_bound(linear as nat, out@, sh@);
    }
    bidx_from(linear, out, sh, 0)
}

/// Broadcasting keeps what already fit: a shape that fits `s` fits the
/// broadcast of `s` with anything.
pub proof fn lemma_fits_broadcast(s: Seq<usize>, b: Seq<usize>, x: Seq<usize>)
    requires
        fits(s, x),
        agree_upto(s, b, max_len(s, b)),
    ensures
        fits(broadcast_spec(s, b), x),
        fits(broadcast_spec(s, b), b),
        fits(broadcast_spec(s, b), s),
{
    let t = broadcast_spec(s, b);
    assert forall|i: int| 0 <= i < t.len() implies #[trigger] extent(x, i) == t[i] || extent(x, i) == 1 by {
        assert(agree(extent(s, i), extent(b, i)));
        if i < s.len() {
            assert(extent(x, i) == s[i] || extent(x, i) == 1);
        } else {
            assert(x.len() <= s.len());
        }
    }
    assert forall|i: int| 0 <= i < t.len() implies #[trigger] extent(b, i) == t[i] || extent(b, i) == 1 by {
        assert(agree(extent(s, i), extent(b, i)));
    }
    assert forall|i: int| 0 <= i < t.len() implies #[trigger] extent(s, i) == t[i] || extent(s, i) == 1 by {
        assert(agree(extent(s, i), extent(b, i)));
    }
}

} // verus!
