//! Rounding to multiples, the arithmetic under every placement decision.

use vstd::arithmetic::div_mod::{
    lemma_div_is_ordered, lemma_fundamental_div_mod, lemma_mod_multiples_basic,
};
use vstd::arithmetic::power::pow;
use vstd::arithmetic::power2::{
    is_pow2, is_pow2_equiv, lemma_pow2, lemma_pow2_adds, lemma_pow2_pos,
    lemma_pow2_strictly_increases, pow2,
};
use vstd::bits::{lemma_usize_low_bits_mask_is_mod, low_bits_mask};
use vstd::layout::unsigned_int_max_values;
use vstd::prelude::*;

verus! {

/// The least multiple of `m` that is not below `x`.
pub open spec fn round_up(x: int, m: int) -> int {
    ((x + m - 1) / m) * m
}

/// `round_up` returns a multiple of `m`, at `x` or less than `m` above it.
pub proof fn lemma_round_up(x: int, m: int)
    requires
        m > 0,
    ensures
        x <= round_up(x, m) < x + m,
        round_up(x, m) % m == 0,
{
    let y = x + m - 1;
    lemma_fundamental_div_mod(y, m);
    assert(m * (y / m) == (y / m) * m) by (nonlinear_arith);
    lemma_mod_multiples_basic(y / m, m);
}

/// No multiple of `m` lies strictly between `x` and `round_up(x, m)`.
pub proof fn lemma_round_up_least(x: int, m: int, y: int)
    requires
        m > 0,
        y >= x,
        y % m == 0,
    ensures
        round_up(x, m) <= y,
{
    lemma_round_up(x, m);
    lemma_fundamental_div_mod(y, m);
    lemma_div_is_ordered(x + m - 1, y + m - 1, m);
    let q = y / m;
    assert((y + m - 1) / m == q) by (nonlinear_arith)
        requires
            m > 0,
            y == m * q,
    ;
    assert(((x + m - 1) / m) * m <= q * m) by (nonlinear_arith)
        requires
            m > 0,
            (x + m - 1) / m <= q,
    ;
    assert(q * m == m * q) by (nonlinear_arith);
}

/// A multiple of `m` plus some times another is a multiple of `m`.
pub(crate) proof fn lemma_multiple(x: int, i: int, y: int, m: int)
    requires
        m > 0,
        x % m == 0,
        y % m == 0,
    ensures
        (x + i * y) % m == 0,
{
    lemma_fundamental_div_mod(x, m);
    lemma_fundamental_div_mod(y, m);
    let (p, q) = (x / m, y / m);
    assert(x + i * y == (p + i * q) * m) by (nonlinear_arith)
        requires
            x == m * p,
            y == m * q,
    ;
    lemma_mod_multiples_basic(p + i * q, m);
}

/// A power of two is positive.
pub(crate) proof fn lemma_pow2_positive(n: usize)
    requires
        is_pow2(n as int),
    ensures
        n > 0,
{
    reveal(is_pow2);
}

/// A power of two that fits in `usize` divides `usize::MAX + 1`.
proof fn lemma_pow2_divides_word(align: usize)
    requires
        is_pow2(align as int),
    ensures
        align > 0,
        exists|n: nat| n < usize::BITS && #[trigger] pow2(n) == align,
        (usize::MAX as int + 1) % (align as int) == 0,
{
    is_pow2_equiv(align as int);
    let n = choose|i: nat| pow(2, i) == align as int;
    lemma_pow2(n);
    unsigned_int_max_values();
    let w = usize::BITS as nat;
    if n >= w {
        if n > w {
            lemma_pow2_strictly_increases(w, n);
        }
        assert(false);
    }
    lemma_pow2_pos(n);
    let d = (w - n) as nat;
    lemma_pow2_adds(n, d);
    assert(pow2(n) * pow2(d) == pow2(w));
    lemma_mod_multiples_basic(pow2(d) as int, pow2(n) as int);
    assert(pow2(d) * pow2(n) == pow2(n) * pow2(d)) by (nonlinear_arith);
}

/// Clearing the bits below a power of two rounds down to a multiple of it.
proof fn lemma_mask_rounds_down(x: usize, align: usize)
    requires
        is_pow2(align as int),
    ensures
        align > 0,
        x & !((align - 1) as usize) == (x as int / align as int) * align,
{
    lemma_pow2_divides_word(align);
    let n = choose|n: nat| n < usize::BITS && #[trigger] pow2(n) == align;
    let mask = (align - 1) as usize;
    assert(low_bits_mask(n) as usize == mask);
    lemma_usize_low_bits_mask_is_mod(x, n);
    assert(x & mask == x % align);
    assert((x & !mask) + (x & mask) == x) by (bit_vector);
    lemma_fundamental_div_mod(x as int, align as int);
    assert((align as int) * (x as int / align as int) == (x as int / align as int) * align)
        by (nonlinear_arith);
}

/// The address `addr` rounded up to `align`, or `None` where that is beyond the address space.
pub(crate) fn align_up(addr: usize, align: usize) -> (r: Option<usize>)
    requires
        is_pow2(align as int),
    ensures
        align > 0,
        match r {
            Some(up) => up == round_up(addr as int, align as int),
            None => round_up(addr as int, align as int) > usize::MAX,
        },
{
    proof {
        lemma_pow2_divides_word(align);
    }
    let mask: usize = align - 1;
    match addr.checked_add(mask) {
        None => {
            proof {
                let word = usize::MAX as int + 1;
                lemma_div_is_ordered(word, addr + align - 1, align as int);
                lemma_fundamental_div_mod(word, align as int);
                assert(((addr + align - 1) / align as int) * align >= (word / align as int) * align)
                    by (nonlinear_arith)
                    requires
                        align > 0,
                        (addr + align - 1) / align as int >= word / align as int,
                ;
                assert((align as int) * (word / align as int) == (word / align as int) * align)
                    by (nonlinear_arith);
            }
            None
        },
        Some(sum) => {
            proof {
                lemma_mask_rounds_down(sum, align);
            }
            Some(sum & !mask)
        },
    }
}

/// The least multiple of `m` not below `x`, or `None` where it does not fit in `usize`.
pub(crate) fn checked_next_multiple_of(x: usize, m: usize) -> (r: Option<usize>)
    requires
        m > 0,
    ensures
        match r {
            Some(up) => up == round_up(x as int, m as int),
            None => round_up(x as int, m as int) > usize::MAX,
        },
{
    let rem: usize = x % m;
    proof {
        lemma_round_up(x as int, m as int);
        lemma_fundamental_div_mod(x as int, m as int);
        let q = x as int / m as int;
        if rem == 0 {
            assert((x + m - 1) / m as int == q) by (nonlinear_arith)
                requires
                    m > 0,
                    x as int == m as int * q,
            ;
        } else {
            assert((x + m - 1) / m as int == q + 1) by (nonlinear_arith)
                requires
                    m > 0,
                    0 < rem < m,
                    x as int == m as int * q + rem,
            ;
            assert((q + 1) * (m as int) == m as int * q + m) by (nonlinear_arith);
        }
        assert(q * (m as int) == m as int * q) by (nonlinear_arith);
    }
    if rem == 0 {
        Some(x)
    } else {
        x.checked_add(m - rem)
    }
}

/// Whether `n` is a power of two.
pub(crate) fn is_power_of_two(n: usize) -> (b: bool)
    ensures
        b == is_pow2(n as int),
{
    proof {
        reveal(is_pow2);
    }
    let mut rest: usize = n;
    if rest == 0 {
        return false;
    }
    while rest % 2 == 0
        invariant
            rest > 0,
            is_pow2(n as int) == is_pow2(rest as int),
        decreases rest,
    {
        proof {
            reveal(is_pow2);
        }
        rest = rest / 2;
    }
    proof {
        reveal(is_pow2);
    }
    rest == 1
}

} // verus!
