//! Alignment arithmetic on addresses and bitmap indices.

use vstd::arithmetic::div_mod::{
    lemma_fundamental_div_mod, lemma_mod_multiples_basic, lemma_mod_multiples_vanish,
};
use vstd::arithmetic::power::lemma_pow_positive;
use vstd::arithmetic::power2::{
    is_pow2, is_pow2_equiv, lemma_pow2_adds, lemma_pow2_strictly_increases, lemma_pow2_unfold,
    pow2,
};
use vstd::prelude::*;

verus! {

/// `x` rounded down to a multiple of `a`.
pub open spec fn align_down_spec(x: int, a: int) -> int {
    x - x % a
}

/// `x` rounded up to a multiple of `a`.
pub open spec fn align_up_spec(x: int, a: int) -> int {
    if x % a == 0 {
        x
    } else {
        x - x % a + a
    }
}

proof fn lemma_mod_le(x: int, a: int)
    requires
        x >= 0,
        a > 0,
    ensures
        0 <= x % a <= x,
        x % a < a,
{
    vstd::arithmetic::div_mod::lemma_mod_bound(x, a);
    vstd::arithmetic::div_mod::lemma_mod_decreases(x as nat, a as nat);
}

/// Rounds `x` down to a multiple of `a`.
pub fn align_down(x: usize, a: usize) -> (r: usize)
    requires
        a > 0,
    ensures
        r == align_down_spec(x as int, a as int),
{
    proof {
        lemma_mod_le(x as int, a as int);
    }
    x - x % a
}

/// Rounds `x` up to a multiple of `a`; the result must fit in a `usize`.
pub fn align_up(x: usize, a: usize) -> (r: usize)
    requires
        a > 0,
        align_up_spec(x as int, a as int) <= usize::MAX,
    ensures
        r == align_up_spec(x as int, a as int),
{
    let rem = x % a;
    proof {
        lemma_mod_le(x as int, a as int);
    }
    if rem == 0 {
        x
    } else {
        x - rem + a
    }
}

/// Whether `x` is a multiple of `a`.
pub fn is_aligned(x: usize, a: usize) -> (r: bool)
    requires
        a > 0,
    ensures
        r == (x as int % a as int == 0),
{
    x % a == 0
}

/// The exponent `k` with `2^k == x`, or `None` when `x` is not a power of two.
pub fn exact_log2(x: usize) -> (r: Option<usize>)
    ensures
        r is Some <==> is_pow2(x as int),
        r matches Some(k) ==> pow2(k as nat) == x && k < 64,
{
    if x == 0 {
        proof {
            reveal(is_pow2);
        }
        return None;
    }
    let mut v: usize = x;
    let mut k: usize = 0;
    proof {
        vstd::arithmetic::power2::lemma2_to64();
    }
    while v > 1 && v % 2 == 0
        invariant
            v >= 1,
            k < 64,
            x == v * pow2(k as nat),
            is_pow2(x as int) == is_pow2(v as int),
            pow2(k as nat) <= x,
        decreases v,
    {
        proof {
            reveal(is_pow2);
            lemma_pow2_unfold((k + 1) as nat);
            assert(x == (v / 2) * pow2((k + 1) as nat)) by (nonlinear_arith)
                requires
                    x == v * pow2(k as nat),
                    pow2((k + 1) as nat) == 2 * pow2(k as nat),
                    v % 2 == 0,
            ;
            assert(pow2((k + 1) as nat) <= x) by (nonlinear_arith)
                requires
                    x == (v / 2) * pow2((k + 1) as nat),
                    v / 2 >= 1,
            ;
            if k + 1 >= 64 {
                vstd::arithmetic::power2::lemma2_to64_rest();
                if k + 1 > 64 {
                    vstd::arithmetic::power2::lemma_pow2_strictly_increases(64, (k + 1) as nat);
                }
            }
        }
        v = v / 2;
        k = k + 1;
    }
    proof {
        reveal(is_pow2);
    }
    if v == 1 {
        Some(k)
    } else {
        None
    }
}

/// Rounding down gives a multiple of `a` no more than `a - 1` below `x`.
pub proof fn lemma_align_down(x: int, a: int)
    requires
        x >= 0,
        a > 0,
    ensures
        align_down_spec(x, a) % a == 0,
        x - a < align_down_spec(x, a) <= x,
        0 <= align_down_spec(x, a),
{
    lemma_mod_le(x, a);
    lemma_fundamental_div_mod(x, a);
    lemma_mod_multiples_basic(x / a, a);
    assert(align_down_spec(x, a) == (x / a) * a) by (nonlinear_arith)
        requires
            x == a * (x / a) + x % a,
    ;
}

/// Rounding up gives a multiple of `a` no more than `a - 1` above `x`.
pub proof fn lemma_align_up(x: int, a: int)
    requires
        x >= 0,
        a > 0,
    ensures
        align_up_spec(x, a) % a == 0,
        x <= align_up_spec(x, a) < x + a,
{
    lemma_align_down(x, a);
    lemma_mod_le(x, a);
    if x % a != 0 {
        lemma_mod_multiples_vanish(1, align_down_spec(x, a), a);
    }
}

/// Of two powers of two, the smaller divides the larger.
pub proof fn lemma_pow2_divides(p: int, q: int)
    requires
        is_pow2(p),
        is_pow2(q),
        p <= q,
    ensures
        q % p == 0,
{
    is_pow2_equiv(p);
    is_pow2_equiv(q);
    let i = choose|i: nat| vstd::arithmetic::power::pow(2, i) == p;
    let j = choose|j: nat| vstd::arithmetic::power::pow(2, j) == q;
    lemma_pow_positive(2, i);
    lemma_pow_positive(2, j);
    lemma_pow_positive(2, (j - i) as nat);
    if j < i {
        lemma_pow2_strictly_increases(j, i);
    } else {
        lemma_pow2_adds(i, (j - i) as nat);
        lemma_mod_multiples_basic(pow2((j - i) as nat) as int, p);
        assert(q == pow2((j - i) as nat) * p) by (nonlinear_arith)
            requires
                pow2(i) * pow2((j - i) as nat) == pow2(j),
                pow2(i) == p,
                pow2(j) == q,
        ;
    }
}

/// The product of two powers of two is a power of two.
pub proof fn lemma_pow2_mul(p: int, k: nat)
    requires
        is_pow2(p),
    ensures
        is_pow2(p * pow2(k)),
{
    is_pow2_equiv(p);
    let i = choose|i: nat| vstd::arithmetic::power::pow(2, i) == p;
    lemma_pow_positive(2, i);
    lemma_pow_positive(2, k);
    lemma_pow_positive(2, i + k);
    lemma_pow2_adds(i, k);
    is_pow2_equiv(p * pow2(k));
    assert(vstd::arithmetic::power::pow(2, i + k) == p * pow2(k));
}

/// An address made of an `align`-aligned base and an index that is a
/// multiple of `align / page` is `align`-aligned.
pub proof fn lemma_index_alignment(base: int, idx: int, page: int, step: int, align: int)
    requires
        base >= 0,
        idx >= 0,
        page > 0,
        step > 0,
        align == page * step,
        base % align == 0,
        idx % step == 0,
    ensures
        (base + idx * page) % align == 0,
{
    assert(align > 0) by (nonlinear_arith)
        requires
            align == page * step,
            page > 0,
            step > 0,
    ;
    lemma_fundamental_div_mod(idx, step);
    lemma_fundamental_div_mod(base, align);
    assert(base + idx * page == align * (base / align + idx / step)) by (nonlinear_arith)
        requires
            idx == step * (idx / step),
            base == align * (base / align),
            align == page * step,
    ;
    lemma_mod_multiples_basic(base / align + idx / step, align);
    assert(align * (base / align + idx / step) == (base / align + idx / step) * align) by (nonlinear_arith);
}

/// The distance between two `a`-aligned values is a whole number of `p`
/// when `p` divides `a`.
pub proof fn lemma_sub_aligned(x: int, y: int, a: int, p: int)
    requires
        y <= x,
        0 <= y,
        a > 0,
        p > 0,
        x % a == 0,
        y % a == 0,
        a % p == 0,
    ensures
        (x - y) % p == 0,
        x - y == p * ((x - y) / p),
{
    lemma_fundamental_div_mod(x, a);
    lemma_fundamental_div_mod(y, a);
    lemma_fundamental_div_mod(a, p);
    let d = (x / a - y / a) * (a / p);
    assert(x - y == d * p) by (nonlinear_arith)
        requires
            x == a * (x / a),
            y == a * (y / a),
            a == p * (a / p),
            d == (x / a - y / a) * (a / p),
    ;
    lemma_mod_multiples_basic(d, p);
    lemma_fundamental_div_mod(x - y, p);
}

} // verus!
