//! What holds of rounded numbers: they are as near as can be, and exact where
//! that is possible.

use crate::binary;
use crate::laws;
use crate::rounding;
use vstd::arithmetic::div_mod::*;
use vstd::arithmetic::power2::*;
use vstd::prelude::*;

verus! {

/// The distance of two numbers.
pub open spec fn apart(a: int, b: int) -> int {
    if a >= b {
        a - b
    } else {
        b - a
    }
}

/// A rounded fraction is a multiple of a power of two, no farther from the
/// fraction than half of that, and the power is the least that leaves room for
/// the given number of bits.
pub proof fn rounding_goes_to_the_nearest(p: nat, n: nat, d: nat)
    requires
        d > 0,
    ensures
        exists|k: nat|
            {
                let step = #[trigger] pow2(k);
                &&& rounding::round(p, n, d) % step == 0
                &&& 2 * apart((rounding::round(p, n, d) * d) as int, n as int) <= step * d
                &&& n < pow2(p + k) * d
                &&& k > 0 ==> n >= pow2((p + k - 1) as nat) * d
            },
{
    let k = rounding::exponent(p, n, d);
    let step = pow2(k);
    lemma_pow2_pos(k);
    rounding::lemma_exponent_bounds(p, n, d);
    let b = d * step;
    assert(b > 0) by (nonlinear_arith)
        requires
            d > 0,
            step > 0,
            b == d * step,
    ;
    let m = rounding::nearest(n, b);
    let q = n / b;
    let r = n % b;
    lemma_fundamental_div_mod(n as int, b as int);
    assert(2 * apart((m * b) as int, n as int) <= b) by {
        assert(m == q || m == q + 1);
        assert((q + 1) * b == b * q + b) by (nonlinear_arith);
        assert(q * b == b * q) by (nonlinear_arith);
    }
    assert((step * m) * d == m * b) by (nonlinear_arith)
        requires
            b == d * step,
    ;
    assert(step * d == b) by (nonlinear_arith)
        requires
            b == d * step,
    ;
    assert((step * m) % step == 0) by {
        lemma_mod_multiples_basic(m as int, step as int);
        assert(step * m == m * step) by (nonlinear_arith);
    }
    assert(pow2(k) == step);
}

/// Whole numbers of up to 53 bits are exact in double precision, and those of
/// up to 24 bits in single precision.
pub proof fn small_whole_numbers_are_exact(n: u64)
    ensures
        n < 0x20_0000_0000_0000 ==> binary::double_of(n) == n,
        n < 0x100_0000 ==> binary::single_of(n) == n,
{
    lemma2_to64();
    lemma2_to64_rest();
    if n < 0x20_0000_0000_0000 {
        rounding::lemma_round_exact(53, n as nat, 0);
    }
    if n < 0x100_0000 {
        rounding::lemma_round_exact(24, n as nat, 0);
    }
    assert(n as nat * pow2(0) == n);
}

/// All of something is one, nothing of it is zero, and nothing is left of all
/// of it.
pub proof fn all_and_nothing(n: u64)
    requires
        n > 0,
    ensures
        binary::ratio(n, n) == binary::one(),
        binary::ratio(0, n) == 0,
        binary::complement(binary::ratio(n, n)) == 0,
        binary::complement(binary::ratio(0, n)) == binary::one(),
{
    let x = binary::double_of(n);
    let one = binary::one();
    laws::lemma_double_positive(n);
    laws::lemma_round_zero(1);
    laws::lemma_round_zero(x);
    lemma_pow2_pos(53);
    lemma2_to64();
    lemma2_to64_rest();
    rounding::lemma_round_exact(53, 1, 149);
    assert(1 * pow2(149) == one);
    rounding::lemma_round_cancel(53, one, 1, x);
    assert(one * x == x * one) by (nonlinear_arith);
    assert(1 * x == x);
    assert(0 * one == 0);
}

/// A quotient of whole numbers that is itself whole is exact.
pub proof fn exact_quotient_is_exact(x: nat, d: u64)
    requires
        0 < d < 0x20_0000_0000_0000,
        x * d < 0x20_0000_0000_0000,
    ensures
        binary::ratio((x * d) as u64, d) == x * binary::one(),
{
    let one = binary::one();
    small_whole_numbers_are_exact(d);
    small_whole_numbers_are_exact((x * d) as u64);
    assert(x < 0x20_0000_0000_0000) by (nonlinear_arith)
        requires
            x * d < 0x20_0000_0000_0000,
            d >= 1,
    ;
    lemma2_to64();
    lemma2_to64_rest();
    rounding::lemma_round_exact(53, x, 149);
    rounding::lemma_round_cancel(53, x * one, 1, d as nat);
    assert((x * one) * d == (x * d) * one) by (nonlinear_arith);
    assert(1 * d == d);
}

proof fn lemma_finite(m: nat)
    requires
        m < 0x100_0000,
    ensures
        rounding::round(24, m * binary::one(), 1) == m * binary::one(),
        m * binary::one() < pow2(277),
        m < pow2(277),
{
    lemma2_to64();
    lemma2_to64_rest();
    rounding::lemma_round_exact(24, m, 149);
    lemma_pow2_pos(149);
    lemma_pow2_adds(24, 149);
    lemma_pow2_strictly_increases(173, 277);
    lemma_pow2_strictly_increases(24, 277);
    assert(m * pow2(149) < pow2(24) * pow2(149)) by (nonlinear_arith)
        requires
            m < pow2(24),
            pow2(149) > 0,
    ;
}

/// All of the ticks are a hundred per cent, none of them are zero.
pub proof fn all_ticks_are_a_hundred_per_cent(n: u64)
    requires
        n > 0,
    ensures
        binary::percentage(n, n) == (binary::Num::Finite { units: 100 * binary::one() as int }),
        binary::percentage(0, n) == (binary::Num::Finite { units: 0 }),
        binary::percentage(n, 0) == (binary::Num::Finite { units: 0 }),
{
    let one = binary::one();
    let x = binary::single_of(n);
    binary::lemma_round_positive(24, n as nat, 1);
    lemma_finite(100);
    lemma_finite(1);
    lemma_finite(0);
    rounding::lemma_round_cancel(24, one, 1, x);
    assert(one * x == x * one) by (nonlinear_arith);
    assert(1 * x == x);
    assert(1 * one == one);
    assert(one * 100 == 100 * one) by (nonlinear_arith);
    small_whole_numbers_are_exact(0);
    rounding::lemma_round_cancel(24, 0, 1, x);
    assert(0 * x == 0 && 0 * one == 0);
    assert(0 * 100 == 0);
}

/// A hundredth of a hundred times something is that, as far as it is exact.
pub proof fn hundredth_undoes_a_hundredfold(k: nat)
    requires
        k < 0x100_0000,
    ensures
        binary::hundredth(binary::Num::Finite { units: 100 * k as int }) == (
        binary::Num::Finite { units: k as int }),
        binary::hundredth(binary::Num::Finite { units: -(100 * k as int) }) == (
        binary::Num::Finite { units: -(k as int) }),
{
    lemma_finite(k);
    lemma2_to64();
    rounding::lemma_round_exact(24, k, 0);
    assert(k * pow2(0) == k);
    rounding::lemma_round_cancel(24, k, 1, 100);
}

/// 2048 sectors in a second are one MiB per second.
pub proof fn sectors_make_megabytes(m: u64)
    requires
        m < 8192,
    ensures
        binary::transfer_rate((2048 * m) as u64, binary::Num::Finite { units: binary::one() as int })
            == (binary::Num::Finite { units: m * binary::one() as int }),
        binary::transfer_rate(m, binary::Num::Finite { units: 0 }) == (binary::Num::Finite {
            units: 0,
        }),
{
    let one = binary::one();
    small_whole_numbers_are_exact((2048 * m) as u64);
    lemma_finite(m as nat);
    lemma_pow2_pos(149);
    lemma2_to64();
    lemma_pow2_adds(11, 138);
    let k = (2048 * m) as nat * pow2(138);
    assert(k == m * one) by (nonlinear_arith)
        requires
            k == (2048 * m) * pow2(138),
            one == 2048 * pow2(138),
    ;
    rounding::lemma_round_cancel(24, k, 1, one);
    assert(1 * one == one);
}

/// Comparisons fit together: a number is below a threshold, or at least as
/// large, and it is above if it is at least as large and not the same. Nothing
/// compares with what is no number.
pub proof fn comparisons_fit_together(x: int, t: binary::Num, u: binary::Num)
    ensures
        !(t is Nan) ==> (binary::at_least(x, t) <==> !binary::below(x, t)),
        t is Nan ==> !binary::at_least(x, t) && !binary::below(x, t) && !binary::above(x, t),
        binary::above(x, t) ==> binary::at_least(x, t),
        binary::at_least(x, t) && !binary::above(x, t) ==> t == (binary::Num::Finite { units: x }),
        binary::at_least(x, binary::Num::Finite { units: x }),
        !binary::above(x, binary::Num::Finite { units: x }),
        binary::above(x + 1, binary::Num::Finite { units: x }),
        binary::less(binary::Num::Finite { units: x }, t) <==> binary::below(x, t),
        binary::less(t, binary::Num::Finite { units: x }) <==> binary::above(x, t),
        !binary::less(t, t),
        binary::less(t, u) ==> !binary::less(u, t),
{
}

} // verus!
