//! Power-of-two and rounding arithmetic used by the arena columns.
//!
//! A column's capacity is always an exact power of two and a multiple of
//! its bucket's alignment; write cursors advance in multiples of that
//! alignment.  The functions here define those notions and prove the small
//! facts the column code needs about them.

use vstd::arithmetic::div_mod::lemma_fundamental_div_mod;
use vstd::arithmetic::div_mod::lemma_mod_multiples_basic;
use vstd::prelude::*;

verus! {

/// True when `n` is an exact power of two.
pub open spec fn is_pow2(n: nat) -> bool
    decreases n,
{
    if n == 0 {
        false
    } else if n == 1 {
        true
    } else {
        n % 2 == 0 && is_pow2(n / 2)
    }
}

/// The smallest power of two that is at least `n` (and at least 1).
pub open spec fn next_pow2(n: nat) -> nat
    decreases n,
{
    if n <= 1 {
        1
    } else {
        2 * next_pow2((n + 1) / 2)
    }
}

/// `n` rounded up to the next multiple of `align`.
pub open spec fn round_up(n: nat, align: nat) -> nat
    recommends
        align >= 1,
{
    if n % align == 0 {
        n
    } else {
        (n + (align - n % align)) as nat
    }
}

/// `next_pow2` really is a power of two, is at least `n`, and never
/// overshoots `n` by a factor of two or more.
pub proof fn lemma_next_pow2_bounds(n: nat)
    ensures
        is_pow2(next_pow2(n)),
        next_pow2(n) >= n,
        next_pow2(n) >= 1,
        n >= 2 ==> next_pow2(n) <= 2 * (n - 1),
    decreases n,
{
    if n <= 1 {
    } else {
        let m = ((n + 1) / 2) as nat;
        lemma_next_pow2_bounds(m);
        let p = next_pow2(m);
        assert(next_pow2(n) == 2 * p);
        assert((2 * p) % 2 == 0);
        assert((2 * p) / 2 == p);
        assert(is_pow2(2 * p));
        assert(2 * m >= n);
        if m >= 2 {
            assert(p <= 2 * (m - 1));
        }
    }
}

/// Between two distinct powers of two there is at least a factor of two.
pub proof fn lemma_pow2_le_double(a: nat, b: nat)
    requires
        is_pow2(a),
        is_pow2(b),
        a < b,
    ensures
        2 * a <= b,
    decreases b,
{
    if a == 1 {
        assert(b % 2 == 0);
        assert(b >= 2);
    } else {
        assert(a % 2 == 0 && is_pow2(a / 2));
        assert(b % 2 == 0 && is_pow2(b / 2));
        lemma_pow2_le_double(a / 2, b / 2);
    }
}

/// Any power of two that is at least `n` is at least `next_pow2(n)`:
/// `next_pow2` is the least such power.
pub proof fn lemma_next_pow2_least(n: nat, p: nat)
    requires
        is_pow2(p),
        p >= n,
    ensures
        p >= next_pow2(n),
    decreases n,
{
    if n <= 1 {
        assert(p >= 1);
    } else {
        let m = ((n + 1) / 2) as nat;
        assert(p >= 2);
        assert(p % 2 == 0 && is_pow2(p / 2));
        assert(p / 2 >= m);
        lemma_next_pow2_least(m, p / 2);
    }
}

/// A smaller power of two divides a larger one.
pub proof fn lemma_pow2_divides(a: nat, b: nat)
    requires
        is_pow2(a),
        is_pow2(b),
        a <= b,
    ensures
        b % a == 0,
    decreases b,
{
    if a == b {
        assert(b % a == 0) by {
            lemma_mod_multiples_basic(1, a as int);
        }
    } else {
        assert(b % 2 == 0 && is_pow2(b / 2));
        lemma_pow2_le_double(a, b);
        lemma_pow2_divides(a, b / 2);
        let h = (b / 2) as int;
        let k = h / a as int;
        lemma_fundamental_div_mod(b as int, 2);
        assert(b == 2 * h);
        lemma_fundamental_div_mod(h, a as int);
        assert(h == k * a as int);
        assert(b == (2 * k) * a as int) by (nonlinear_arith)
            requires
                b == 2 * h,
                h == k * a as int,
        ;
        lemma_mod_multiples_basic(2 * k, a as int);
    }
}

/// Rounding up lands on a multiple of `align`, does not go below `n`, and
/// stays within one `align` of it.
pub proof fn lemma_round_up_props(n: nat, align: nat)
    requires
        align >= 1,
    ensures
        round_up(n, align) % align == 0,
        n <= round_up(n, align),
        round_up(n, align) < n + align,
{
    let q = n as int / align as int;
    let r = n as int % align as int;
    lemma_fundamental_div_mod(n as int, align as int);
    if r == 0 {
    } else {
        assert(n == align as int * q + r);
        assert(round_up(n, align) == (q + 1) * align as int) by (nonlinear_arith)
            requires
                align >= 1,
                0 < r < align,
                n == align as int * q + r,
                round_up(n, align) == n + (align - r),
        ;
        lemma_mod_multiples_basic(q + 1, align as int);
    }
}

/// If `cap` is a multiple of `align` and at least `n`, rounding `n` up to
/// `align` still fits below `cap`.
pub proof fn lemma_round_up_le(n: nat, align: nat, cap: nat)
    requires
        align >= 1,
        cap % align == 0,
        n <= cap,
    ensures
        round_up(n, align) <= cap,
{
    let q = n as int / align as int;
    let r = n as int % align as int;
    lemma_fundamental_div_mod(n as int, align as int);
    if r == 0 {
    } else {
        let k = cap as int / align as int;
        lemma_fundamental_div_mod(cap as int, align as int);
        assert(cap == align as int * k);
        assert(n == align as int * q + r);
        assert(round_up(n, align) == align as int * (q + 1)) by (nonlinear_arith)
            requires
                align >= 1,
                0 < r < align,
                n == align as int * q + r,
                round_up(n, align) == n + (align - r),
        ;
        assert(align as int * k >= align as int * q + r);
        assert(k > q) by (nonlinear_arith)
            requires
                align >= 1,
                r > 0,
                align as int * k >= align as int * q + r,
        ;
        assert(align as int * (q + 1) <= align as int * k) by (nonlinear_arith)
            requires
                align >= 1,
                q + 1 <= k,
        ;
    }
}

/// Rounding up commutes with adding a multiple of `align` in front.
pub proof fn lemma_round_up_add(base: nat, n: nat, align: nat)
    requires
        align >= 1,
        base % align == 0,
    ensures
        base + round_up(n, align) == round_up((base + n) as nat, align),
{
    let s = (base + n) as nat;
    assert(s % align == n % align) by {
        vstd::arithmetic::div_mod::lemma_add_mod_noop(base as int, n as int, align as int);
        vstd::arithmetic::div_mod::lemma_mod_twice(n as int, align as int);
        vstd::arithmetic::div_mod::lemma_mod_twice(base as int, align as int);
    }
}

/// Divisibility is transitive: a multiple of `c` is a multiple of any
/// divisor of `c`.
pub proof fn lemma_mod_trans(x: nat, c: nat, a: nat)
    requires
        a >= 1,
        c >= 1,
        x % c == 0,
        c % a == 0,
    ensures
        x % a == 0,
{
    let q = x as int / c as int;
    lemma_fundamental_div_mod(x as int, c as int);
    let p = c as int / a as int;
    lemma_fundamental_div_mod(c as int, a as int);
    assert(x == (q * p) * a as int) by (nonlinear_arith)
        requires
            x == c as int * q,
            c == a as int * p,
    ;
    lemma_mod_multiples_basic(q * p, a as int);
}

/// Two sequences that agree on a common range agree on every range inside
/// it.
pub proof fn lemma_subrange_of_equal_range<T>(
    s1: Seq<T>,
    s2: Seq<T>,
    lo: int,
    hi: int,
    i: int,
    j: int,
)
    requires
        0 <= lo <= i <= j <= hi,
        hi <= s1.len(),
        hi <= s2.len(),
        s1.subrange(lo, hi) == s2.subrange(lo, hi),
    ensures
        s1.subrange(i, j) == s2.subrange(i, j),
{
    assert forall|k: int| 0 <= k < j - i implies s1.subrange(i, j)[k] == s2.subrange(i, j)[k] by {
        assert(s1.subrange(lo, hi)[i - lo + k] == s1[i + k]);
        assert(s2.subrange(lo, hi)[i - lo + k] == s2[i + k]);
        assert(s1.subrange(i, j)[k] == s1[i + k]);
        assert(s2.subrange(i, j)[k] == s2[i + k]);
    }
    assert(s1.subrange(i, j) =~= s2.subrange(i, j));
}

/// Two sequences that agree on a common prefix agree on every range inside
/// that prefix.
pub proof fn lemma_subrange_of_equal_prefix<T>(s1: Seq<T>, s2: Seq<T>, n: int, i: int, j: int)
    requires
        0 <= i <= j <= n,
        n <= s1.len(),
        n <= s2.len(),
        s1.subrange(0, n) == s2.subrange(0, n),
    ensures
        s1.subrange(i, j) == s2.subrange(i, j),
{
    assert forall|k: int| 0 <= k < j - i implies s1.subrange(i, j)[k] == s2.subrange(i, j)[k] by {
        assert(s1.subrange(0, n)[i + k] == s1[i + k]);
        assert(s2.subrange(0, n)[i + k] == s2[i + k]);
        assert(s1.subrange(i, j)[k] == s1[i + k]);
        assert(s2.subrange(i, j)[k] == s2[i + k]);
    }
    assert(s1.subrange(i, j) =~= s2.subrange(i, j));
}

/// Compute the smallest power of two that is at least `n`.
pub fn next_pow2_exec(n: usize) -> (p: usize)
    requires
        n <= usize::MAX / 2,
    ensures
        p as nat == next_pow2(n as nat),
{
    proof {
        lemma_next_pow2_bounds(n as nat);
    }
    let mut p: usize = 1;
    while p < n
        invariant
            1 <= p,
            is_pow2(p as nat),
            p as nat <= next_pow2(n as nat),
            n <= usize::MAX / 2,
        decreases 2 * n - p,
    {
        proof {
            lemma_next_pow2_bounds(n as nat);
            if (p as nat) < next_pow2(n as nat) {
                lemma_pow2_le_double(p as nat, next_pow2(n as nat));
            }
        }
        p = p * 2;
    }
    proof {
        lemma_next_pow2_least(n as nat, p as nat);
    }
    p
}

/// Round `n` up to the next multiple of `align`.
pub fn round_up_exec(n: usize, align: usize) -> (r: usize)
    requires
        1 <= align,
        n + align <= usize::MAX,
    ensures
        r as nat == round_up(n as nat, align as nat),
{
    let rem = n % align;
    if rem == 0 {
        n
    } else {
        n + (align - rem)
    }
}

/// Decide whether `n` is an exact power of two.
pub fn is_pow2_exec(n: usize) -> (b: bool)
    ensures
        b == is_pow2(n as nat),
{
    if n == 0 {
        return false;
    }
    let mut m: usize = n;
    while m > 1 && m % 2 == 0
        invariant
            1 <= m,
            is_pow2(n as nat) == is_pow2(m as nat),
        decreases m,
    {
        m = m / 2;
    }
    m == 1
}

} // verus!
