//! Positional digits of unsigned integers and their text.

use vstd::prelude::*;

verus! {

/// Digits of `n` in base `base`, most significant first, without leading
/// zeros (`[0]` for zero).
pub open spec fn base_digits(n: nat, base: nat) -> Seq<nat>
    recommends
        base >= 2,
    decreases n,
{
    if base < 2 || n < base {
        seq![n]
    } else {
        proof {
            assert(n / base < n) by (nonlinear_arith)
                requires
                    base >= 2,
                    n >= base,
            ;
        }
        base_digits(n / base, base).push(n % base)
    }
}

/// Value of a digit sequence read in base `base`.
pub open spec fn digits_value(ds: Seq<nat>, base: nat) -> nat
    decreases ds.len(),
{
    if ds.len() == 0 {
        0
    } else {
        digits_value(ds.drop_last(), base) * base + ds.last()
    }
}

/// Character of a digit value below ten.
pub open spec fn digit_char(d: nat) -> char {
    ((d + 48) as u8) as char
}

/// Text of a digit sequence.
pub open spec fn digits_text(ds: Seq<nat>) -> Seq<char> {
    ds.map_values(|d: nat| digit_char(d))
}

/// Decimal text of `n`.
pub open spec fn decimal_text(n: nat) -> Seq<char> {
    digits_text(base_digits(n, 10))
}

/// Binary text of `n`.
pub open spec fn binary_text(n: nat) -> Seq<char> {
    digits_text(base_digits(n, 2))
}

/// `count` copies of `c`.
pub open spec fn repeat_char(c: char, count: nat) -> Seq<char> {
    Seq::new(count, |i: int| c)
}

/// Decimal text of `n` zero-padded on the left to at least `width`
/// characters.
pub open spec fn zero_padded(n: nat, width: nat) -> Seq<char> {
    let t = decimal_text(n);
    if t.len() < width {
        repeat_char('0', (width - t.len()) as nat) + t
    } else {
        t
    }
}

/// The digits are below the base, the leading one is nonzero unless the
/// number is zero, and they read back as the number.
pub proof fn lemma_base_digits(n: nat, base: nat)
    requires
        base >= 2,
    ensures
        base_digits(n, base).len() >= 1,
        forall|i: int| 0 <= i < base_digits(n, base).len() ==> #[trigger] base_digits(n, base)[i] < base,
        n > 0 ==> base_digits(n, base)[0] > 0,
        digits_value(base_digits(n, base), base) == n,
    decreases n,
{
    if n >= base {
        assert(n / base < n) by (nonlinear_arith)
            requires
                base >= 2,
                n >= base,
        ;
        lemma_base_digits(n / base, base);
        let ds = base_digits(n, base);
        let prev = base_digits(n / base, base);
        assert(ds.drop_last() =~= prev);
        assert(forall|i: int| 0 <= i < prev.len() ==> ds[i] == prev[i]);
        assert(n / base > 0) by (nonlinear_arith)
            requires
                n >= base,
                base >= 2,
        ;
        assert(n == (n / base) * base + n % base) by (nonlinear_arith)
            requires
                base >= 2,
        ;
        assert(ds.last() == n % base);
        assert(digits_value(ds, base) == digits_value(prev, base) * base + n % base);
        assert(digits_value(prev, base) == n / base);
        assert(digits_value(ds, base) == n);
    } else {
        let ds = base_digits(n, base);
        assert(ds.drop_last() =~= Seq::<nat>::empty());
        assert(digits_value(ds.drop_last(), base) == 0);
        assert(0 * base == 0) by (nonlinear_arith);
        assert(digits_value(ds, base) == digits_value(ds.drop_last(), base) * base + n);
        assert(digits_value(ds, base) == n);
    }
}

/// Digit values of `n` in base `base`, most significant first.
pub fn to_base_digits(n: u64, base: u64) -> (r: Vec<u8>)
    requires
        2 <= base <= 10,
    ensures
        r@.len() == base_digits(n as nat, base as nat).len(),
        forall|i: int| 0 <= i < r@.len() ==> r@[i] as nat == #[trigger] base_digits(n as nat, base as nat)[i],
{
    let mut r: Vec<u8> = Vec::new();
    let mut m: u64 = n;
    let ghost mut done: Seq<nat> = Seq::empty();
    while m >= base
        invariant
            2 <= base <= 10,
            base_digits(n as nat, base as nat) =~= base_digits(m as nat, base as nat) + done,
            r@.len() == done.len(),
            forall|i: int| 0 <= i < done.len() ==> r@[i] as nat == #[trigger] done[i],
        decreases m,
    {
        let d = m % base;
        proof {
            assert(base_digits(m as nat, base as nat) == base_digits((m / base) as nat, base as nat).push(
                (m % base) as nat,
            ));
            done = seq![d as nat] + done;
        }
        r.insert(0, d as u8);
        m = m / base;
    }
    proof {
        done = seq![m as nat] + done;
    }
    r.insert(0, m as u8);
    r
}

/// Text of `n` in base `base` (at most ten).
pub fn base_text(n: u64, base: u64) -> (r: Vec<char>)
    requires
        2 <= base <= 10,
    ensures
        r@ == digits_text(base_digits(n as nat, base as nat)),
{
    let ds = to_base_digits(n, base);
    proof {
        lemma_base_digits(n as nat, base as nat);
    }
    let mut r: Vec<char> = Vec::new();
    let mut i: usize = 0;
    while i < ds.len()
        invariant
            2 <= base <= 10,
            i <= ds@.len(),
            ds@.len() == base_digits(n as nat, base as nat).len(),
            forall|k: int| 0 <= k < ds@.len() ==> ds@[k] as nat == #[trigger] base_digits(n as nat, base as nat)[k],
            forall|k: int| 0 <= k < ds@.len() ==> #[trigger] base_digits(n as nat, base as nat)[k] < base,
            r@ == digits_text(base_digits(n as nat, base as nat)).subrange(0, i as int),
        decreases ds@.len() - i,
    {
        let d = ds[i];
        assert(base_digits(n as nat, base as nat)[i as int] < base);
        let c = (d + 48) as char;
        r.push(c);
        i = i + 1;
    }
    r
}

/// `count` copies of `c`.
pub fn repeat(c: char, count: usize) -> (r: Vec<char>)
    ensures
        r@ == repeat_char(c, count as nat),
{
    let mut r: Vec<char> = Vec::new();
    let mut i: usize = 0;
    while i < count
        invariant
            i <= count,
            r@ == repeat_char(c, i as nat),
        decreases count - i,
    {
        r.push(c);
        i = i + 1;
    }
    r
}

/// Decimal text of `n` zero-padded to at least `width` characters.
pub fn zero_pad(n: u64, width: usize) -> (r: Vec<char>)
    ensures
        r@ == zero_padded(n as nat, width as nat),
{
    let t = base_text(n, 10);
    if t.len() < width {
        let mut r = repeat('0', width - t.len());
        let mut i: usize = 0;
        let ghost head = r@;
        while i < t.len()
            invariant
                i <= t@.len(),
                r@ == head + t@.subrange(0, i as int),
            decreases t@.len() - i,
        {
            r.push(t[i]);
            i = i + 1;
        }
        r
    } else {
        t
    }
}

} // verus!
