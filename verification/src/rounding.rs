//! Rounding of exact quantities to a fixed number of significant bits.
//!
//! A quantity is a fraction `n / d` of natural numbers. Rounding keeps `p`
//! significant bits, goes to the nearest representable neighbour and breaks
//! ties towards the even one; nothing finer than a whole number is kept.

use vstd::arithmetic::div_mod::*;
use vstd::arithmetic::mul::*;
use vstd::arithmetic::power2::*;
use vstd::prelude::*;

verus! {

/// The exponent of the last kept bit: the least `k` with `n / d < 2^(p + k)`.
pub open spec fn exponent(p: nat, n: nat, d: nat) -> nat
    decreases
        (if n >= pow2(p) * d {
            n - pow2(p) * d + 1
        } else {
            0
        }),
{
    if d == 0 || n < pow2(p) * d {
        0
    } else {
        proof {
            lemma_pow2_pos(p);
            lemma_mul_is_distributive_add(pow2(p) as int, d as int, d as int);
            lemma_mul_strictly_positive(pow2(p) as int, d as int);
        }
        1 + exponent(p, n, 2 * d)
    }
}

/// The whole number nearest to `n / d`, the even one of two equally near.
pub open spec fn nearest(n: nat, d: nat) -> nat {
    let q = n / d;
    let r = n % d;
    if 2 * r < d || (2 * r == d && q % 2 == 0) {
        q
    } else {
        q + 1
    }
}

/// `n / d` rounded to `p` significant bits.
pub open spec fn round(p: nat, n: nat, d: nat) -> nat {
    let scale = pow2(exponent(p, n, d));
    scale * nearest(n, d * scale)
}

/// Pins the exponent from both sides.
pub proof fn lemma_exponent_is(p: nat, n: nat, d: nat, k: nat)
    requires
        d > 0,
        n < pow2(p + k) * d,
        k > 0 ==> n >= pow2((p + k - 1) as nat) * d,
    ensures
        exponent(p, n, d) == k,
    decreases k,
{
    if k > 0 {
        lemma_pow2_unfold(p + k);
        let h = pow2((p + k - 1) as nat);
        assert(pow2(p + k) == 2 * h);
        assert((2 * h) * d == h * (2 * d)) by (nonlinear_arith);
        // n is at least 2^p * d, so the recursion takes a step
        assert(pow2(p) <= h) by {
            if k > 1 {
                lemma_pow2_strictly_increases(p, (p + k - 1) as nat);
            }
        }
        assert(pow2(p) * d <= h * d) by (nonlinear_arith)
            requires pow2(p) <= h;
        if k > 1 {
            lemma_pow2_unfold((p + k - 1) as nat);
            let g = pow2((p + k - 2) as nat);
            assert(h == 2 * g);
            assert((2 * g) * d == g * (2 * d)) by (nonlinear_arith);
        }
        lemma_exponent_is(p, n, 2 * d, (k - 1) as nat);
    }
}

/// What pins the exponent holds of it.
pub proof fn lemma_exponent_bounds(p: nat, n: nat, d: nat)
    requires
        d > 0,
    ensures
        n < pow2(p + exponent(p, n, d)) * d,
        exponent(p, n, d) > 0 ==> n >= pow2((p + exponent(p, n, d) - 1) as nat) * d,
    decreases
        (if n >= pow2(p) * d {
            n - pow2(p) * d + 1
        } else {
            0
        }),
{
    if n >= pow2(p) * d {
        lemma_pow2_pos(p);
        lemma_mul_is_distributive_add(pow2(p) as int, d as int, d as int);
        lemma_mul_strictly_positive(pow2(p) as int, d as int);
        lemma_exponent_bounds(p, n, 2 * d);
        let k = exponent(p, n, 2 * d);
        lemma_pow2_unfold(p + k + 1);
        let h = pow2(p + k);
        assert(h * (2 * d) == (2 * h) * d) by (nonlinear_arith);
        if k > 0 {
            lemma_pow2_unfold(p + k);
            let g = pow2((p + k - 1) as nat);
            assert(g * (2 * d) == (2 * g) * d) by (nonlinear_arith);
        }
    }
}

/// Scaling both sides of a fraction leaves its nearest whole number.
pub proof fn lemma_nearest_scale(n: nat, d: nat, c: nat)
    requires
        d > 0,
        c > 0,
    ensures
        nearest(n * c, d * c) == nearest(n, d),
{
    let q = n / d;
    let r = n % d;
    lemma_fundamental_div_mod(n as int, d as int);
    assert(n * c == q * (d * c) + r * c) by (nonlinear_arith)
        requires n == d * q + r;
    assert(0 <= r * c < d * c) by (nonlinear_arith)
        requires 0 <= r < d, c > 0;
    lemma_fundamental_div_mod_converse((n * c) as int, (d * c) as int, q as int, (r * c) as int);
    assert(2 * (r * c) == (2 * r) * c) by (nonlinear_arith);
    assert(2 * r < d ==> (2 * r) * c < d * c) by (nonlinear_arith)
        requires c > 0;
    assert(2 * r > d ==> (2 * r) * c > d * c) by (nonlinear_arith)
        requires c > 0;
}

/// Rounding a fraction of at least `2^p`, times a power of two, is rounding it
/// first.
pub proof fn lemma_round_scale(p: nat, n: nat, d: nat, e: nat)
    requires
        d > 0,
        n >= pow2(p) * d,
    ensures
        round(p, n * pow2(e), d) == round(p, n, d) * pow2(e),
{
    let c = pow2(e);
    let k = exponent(p, n, d);
    lemma_pow2_pos(e);
    lemma_exponent_bounds(p, n, d);
    lemma_pow2_adds(p + k, e);
    lemma_pow2_adds(k, e);
    assert(k > 0);
    lemma_pow2_adds((p + k - 1) as nat, e);
    let h = pow2(p + k);
    let g = pow2((p + k - 1) as nat);
    assert(n * c < (h * c) * d) by (nonlinear_arith)
        requires n < h * d, c > 0;
    assert(n * c >= (g * c) * d) by (nonlinear_arith)
        requires n >= g * d, c > 0;
    lemma_exponent_is(p, n * c, d, k + e);
    let s = pow2(k);
    lemma_pow2_pos(k);
    assert(d * s > 0) by (nonlinear_arith)
        requires d > 0, s > 0;
    lemma_nearest_scale(n, d * s, c);
    assert((d * s) * c == d * (s * c)) by (nonlinear_arith);
    let m = nearest(n, d * s);
    assert((s * c) * m == (s * m) * c) by (nonlinear_arith);
}

/// A whole number of at most `p` bits, times a power of two, is kept exactly.
pub proof fn lemma_round_exact(p: nat, m: nat, e: nat)
    requires
        m < pow2(p),
    ensures
        round(p, m * pow2(e), 1) == m * pow2(e),
{
    let n = m * pow2(e);
    let k = exponent(p, n, 1);
    lemma_exponent_bounds(p, n, 1);
    lemma_pow2_pos(k);
    lemma_pow2_pos(e);
    // the last kept bit is no higher than the common factor
    if k > e {
        lemma_pow2_adds(p, e);
        if p + e < p + k - 1 {
            lemma_pow2_strictly_increases(p + e, (p + k - 1) as nat);
        }
        assert(m * pow2(e) < pow2(p) * pow2(e)) by (nonlinear_arith)
            requires m < pow2(p), pow2(e) > 0;
        assert(false);
    }
    let f = (e - k) as nat;
    lemma_pow2_adds(f, k);
    let s = pow2(k);
    let w = m * pow2(f);
    assert(n == w * s) by (nonlinear_arith)
        requires n == m * (pow2(f) * s), w == m * pow2(f);
    lemma_fundamental_div_mod_converse(n as int, s as int, w as int, 0);
    assert(1 * s == s);
    assert(nearest(n, s) == w);
    assert(s * w == w * s) by (nonlinear_arith);
}

/// Scaling a whole number by a power of two and rounding commute.
pub proof fn lemma_round_scale_whole(p: nat, n: nat, e: nat)
    ensures
        round(p, n * pow2(e), 1) == round(p, n, 1) * pow2(e),
{
    if n >= pow2(p) {
        lemma_round_scale(p, n, 1, e);
    } else {
        lemma_round_exact(p, n, e);
        lemma_round_exact(p, n, 0);
        lemma_pow2(0);
        assert(pow2(0) == 1) by { lemma2_to64(); }
        assert(n * 1 == n);
    }
}

/// A larger numerator has no smaller nearest whole number.
proof fn lemma_nearest_monotone(n: nat, m: nat, d: nat)
    requires
        d > 0,
        n <= m,
    ensures
        nearest(n, d) <= nearest(m, d),
{
    lemma_fundamental_div_mod(n as int, d as int);
    lemma_fundamental_div_mod(m as int, d as int);
    lemma_div_is_ordered(n as int, m as int, d as int);
}

/// A larger numerator does not round to less.
pub proof fn lemma_round_monotone(p: nat, n: nat, m: nat, d: nat)
    requires
        p >= 1,
        d > 0,
        n <= m,
    ensures
        round(p, n, d) <= round(p, m, d),
{
    let k = exponent(p, n, d);
    let l = exponent(p, m, d);
    lemma_exponent_bounds(p, n, d);
    lemma_exponent_bounds(p, m, d);
    lemma_pow2_pos(k);
    lemma_pow2_pos(l);
    let s = pow2(k);
    let t = pow2(l);
    assert(d * s > 0) by (nonlinear_arith)
        requires
            d > 0,
            s > 0,
    ;
    assert(d * t > 0) by (nonlinear_arith)
        requires
            d > 0,
            t > 0,
    ;
    if k > l {
        // then n would be larger than m
        let a = pow2((p + k - 1) as nat);
        let b = pow2(p + l);
        if p + l < p + k - 1 {
            lemma_pow2_strictly_increases(p + l, (p + k - 1) as nat);
        }
        assert(a * d >= b * d) by (nonlinear_arith)
            requires
                a >= b,
                d > 0,
        ;
    } else if k == l {
        lemma_nearest_monotone(n, m, d * s);
        lemma_mul_inequality(
            nearest(n, d * s) as int,
            nearest(m, d * s) as int,
            s as int,
        );
        lemma_mul_is_commutative(s as int, nearest(n, d * s) as int);
        lemma_mul_is_commutative(s as int, nearest(m, d * s) as int);
    } else {
        // one rounds to at most 2^(p + k), the other to at least 2^(p + l - 1)
        let a = pow2(p);
        let b = pow2((p - 1) as nat);
        lemma_pow2_adds(p, k);
        lemma_pow2_adds((p - 1) as nat, l);
        if p + k < p + l - 1 {
            lemma_pow2_strictly_increases(p + k, (p + l - 1) as nat);
        }
        let x = nearest(n, d * s);
        let y = nearest(m, d * t);
        assert(n < a * (d * s)) by (nonlinear_arith)
            requires
                n < (a * s) * d,
        ;
        assert(m >= b * (d * t)) by (nonlinear_arith)
            requires
                m >= (b * t) * d,
        ;
        lemma_multiply_divide_lt(n as int, (d * s) as int, a as int);
        assert(x <= a);
        lemma_multiply_divide_ge(m, d * t, b);
        assert(y >= b);
        assert(s * x <= s * a) by (nonlinear_arith)
            requires
                x <= a,
                s > 0,
        ;
        assert(t * y >= t * b) by (nonlinear_arith)
            requires
                y >= b,
                t > 0,
        ;
        assert(s * a == a * s) by (nonlinear_arith);
        assert(t * b == b * t) by (nonlinear_arith);
    }
}

/// What is at least `b * d` holds `d` at least `b` times.
proof fn lemma_multiply_divide_ge(m: nat, d: nat, b: nat)
    requires
        d > 0,
        m >= b * d,
    ensures
        m / d >= b,
{
    lemma_div_multiples_vanish(b as int, d as int);
    lemma_mul_is_commutative(b as int, d as int);
    lemma_div_is_ordered((b * d) as int, m as int, d as int);
}

/// A common factor of a fraction does not change how it rounds.
pub proof fn lemma_round_cancel(p: nat, n: nat, d: nat, c: nat)
    requires
        d > 0,
        c > 0,
    ensures
        round(p, n * c, d * c) == round(p, n, d),
{
    let k = exponent(p, n, d);
    lemma_exponent_bounds(p, n, d);
    let h = pow2(p + k);
    assert(d * c > 0) by (nonlinear_arith)
        requires d > 0, c > 0;
    assert(n * c < h * (d * c)) by (nonlinear_arith)
        requires n < h * d, c > 0;
    if k > 0 {
        let g = pow2((p + k - 1) as nat);
        assert(n * c >= g * (d * c)) by (nonlinear_arith)
            requires n >= g * d, c > 0;
    }
    lemma_exponent_is(p, n * c, d * c, k);
    let s = pow2(k);
    lemma_pow2_pos(k);
    assert(d * s > 0) by (nonlinear_arith)
        requires d > 0, s > 0;
    lemma_nearest_scale(n, d * s, c);
    assert((d * s) * c == (d * c) * s) by (nonlinear_arith);
}

/// How the nearest multiple of `2^k` is told from the whole part `q` and the
/// fraction `r / b` behind it.
proof fn lemma_nearest_parts(q: nat, r: nat, b: nat, k: nat)
    requires
        r < b,
    ensures
        ({
            let s = pow2(k);
            let m = q / s;
            let low = q % s;
            let twice = if k == 0 { 2 * r - b } else if low != pow2((k - 1) as nat) {
                low - pow2((k - 1) as nat)
            } else {
                r as int
            };
            nearest(q * b + r, b * s) == if twice < 0 || (twice == 0 && m % 2 == 0) {
                m
            } else {
                m + 1
            }
        }),
{
    let s = pow2(k);
    lemma_pow2_pos(k);
    let m = q / s;
    let low = q % s;
    lemma_fundamental_div_mod(q as int, s as int);
    let n = q * b + r;
    let d = b * s;
    let rem = low * b + r;
    assert(d > 0) by (nonlinear_arith)
        requires b > 0, s > 0, d == b * s;
    assert(n == m * d + rem) by (nonlinear_arith)
        requires n == q * b + r, q == s * m + low, d == b * s, rem == low * b + r;
    assert(0 <= rem < d) by (nonlinear_arith)
        requires 0 <= low < s, 0 <= r < b, rem == low * b + r, d == b * s;
    lemma_fundamental_div_mod_converse(n as int, d as int, m as int, rem as int);
    if k == 0 {
        assert(pow2(0) == 1) by { lemma2_to64(); }
        assert(rem == r) by (nonlinear_arith)
            requires low == 0, rem == low * b + r;
        assert(d == b) by (nonlinear_arith)
            requires d == b * 1;
    } else {
        lemma_pow2_unfold(k);
        let h = pow2((k - 1) as nat);
        assert(d == 2 * (h * b)) by (nonlinear_arith)
            requires d == b * (2 * h);
        if low > h {
            assert(low * b >= h * b + b) by (nonlinear_arith)
                requires low >= h + 1;
        } else if low < h {
            assert(low * b + b <= h * b) by (nonlinear_arith)
                requires low + 1 <= h;
        }
    }
}

/// A natural number `mantissa * 2^exponent`.
#[derive(Clone, Copy)]
pub struct Magnitude {
    pub mantissa: u64,
    pub exponent: u32,
}

impl View for Magnitude {
    type V = nat;

    open spec fn view(&self) -> nat {
        self.mantissa as nat * pow2(self.exponent as nat)
    }
}

/// The number of bits of `n`.
pub fn bit_length(n: u128) -> (l: u32)
    ensures
        l <= 128,
        n < pow2(l as nat),
        l == 0 <==> n == 0,
        l > 0 ==> n >= pow2((l - 1) as nat),
{
    let mut m: u128 = n;
    let mut l: u32 = 0;
    proof {
        lemma2_to64();
        assert(pow2(128) == 0x1_0000_0000_0000_0000 * 0x1_0000_0000_0000_0000) by {
            lemma_pow2_adds(64, 64);
        }
    }
    while m > 0
        invariant
            l <= 128,
            m * pow2(l as nat) <= n,
            n < (m + 1) * pow2(l as nat),
            l == 0 ==> m == n,
            l > 0 ==> n > 0,
            l > 0 ==> n >= pow2((l - 1) as nat),
            pow2(128) == 0x1_0000_0000_0000_0000 * 0x1_0000_0000_0000_0000,
        decreases m,
    {
        let half: u128 = m / 2;
        let ghost w = pow2(l as nat);
        proof {
            lemma_pow2_pos(l as nat);
            lemma_pow2_unfold((l + 1) as nat);
            assert(m * w >= w) by (nonlinear_arith)
                requires m >= 1, w >= 0;
            if l >= 128 {
                assert(false);
            }
            assert(half * (2 * w) <= m * w) by (nonlinear_arith)
                requires 2 * half <= m, w >= 0;
            assert((m + 1) * w <= (half + 1) * (2 * w)) by (nonlinear_arith)
                requires m + 1 <= 2 * (half + 1), w >= 0;
        }
        m = half;
        l = l + 1;
    }
    proof {
        assert(1 * pow2(l as nat) == pow2(l as nat));
        if l == 0 {
            assert(pow2(0) == 1) by { lemma2_to64(); }
        }
    }
    l
}

/// `2^k`.
pub fn power_of_two(k: u32) -> (w: u128)
    requires
        k <= 127,
    ensures
        w == pow2(k as nat),
{
    let mut w: u128 = 1;
    let mut i: u32 = 0;
    proof {
        lemma2_to64();
        assert(pow2(127) == 0x8000_0000_0000_0000 * 0x1_0000_0000_0000_0000) by {
            lemma_pow2_unfold(64);
            lemma_pow2_adds(63, 64);
        }
    }
    while i < k
        invariant
            i <= k <= 127,
            w == pow2(i as nat),
            pow2(127) == 0x8000_0000_0000_0000 * 0x1_0000_0000_0000_0000,
        decreases k - i,
    {
        proof {
            lemma_pow2_unfold((i + 1) as nat);
            if i + 1 < 127 {
                lemma_pow2_strictly_increases((i + 1) as nat, 127);
            }
        }
        w = w * 2;
        i = i + 1;
    }
    w
}

/// The numerator of `(q + r / b) * 2^z`.
pub open spec fn scaled_numerator(q: nat, r: nat, b: nat, z: int) -> nat {
    if z >= 0 {
        (q * b + r) * pow2(z as nat)
    } else {
        q * b + r
    }
}

/// The denominator of `(q + r / b) * 2^z`.
pub open spec fn scaled_denominator(b: nat, z: int) -> nat {
    if z >= 0 {
        b
    } else {
        b * pow2((-z) as nat)
    }
}

proof fn lemma_round_parts(p: nat, q: nat, r: nat, b: nat, z: int, l: nat, k: nat)
    requires
        p >= 1,
        r < b,
        q >= pow2(p) || r == 0,
        q < pow2(l),
        l > 0 ==> q >= pow2((l - 1) as nat),
        k >= 0,
        k + z >= 0,
        k + p >= l,
        k == 0 || k == l - p || k == -z,
        k == 0 ==> l <= p,
    ensures
        round(p, scaled_numerator(q, r, b, z), scaled_denominator(b, z)) == nearest(
            q * b + r,
            b * pow2(k),
        ) * pow2((k + z) as nat),
{
    let n = q * b + r;
    let s = pow2(k);
    lemma_pow2_pos(k);
    // n / b is below 2^(p + k)
    if p + k > l {
        lemma_pow2_strictly_increases(l, p + k);
    }
    let h = pow2(p + k);
    assert(n < h * b) by (nonlinear_arith)
        requires n == q * b + r, q + 1 <= h, r < b;
    if z >= 0 {
        if k > 0 {
            assert(k == l - p);
            let g = pow2((p + k - 1) as nat);
            assert(n >= g * b) by (nonlinear_arith)
                requires n >= q * b, q >= g;
            lemma_exponent_is(p, n, b, k);
            if k > 1 {
                lemma_pow2_strictly_increases(p, (p + k - 1) as nat);
            }
            assert(n >= pow2(p) * b) by (nonlinear_arith)
                requires n >= g * b, g >= pow2(p);
            lemma_round_scale(p, n, b, z as nat);
            lemma_pow2_adds(k, z as nat);
            let m = nearest(n, b * s);
            let c = pow2(z as nat);
            assert((s * m) * c == m * (s * c)) by (nonlinear_arith);
        } else {
            assert(pow2(0) == 1) by { lemma2_to64(); }
            if l < p {
                lemma_pow2_strictly_increases(l, p);
            }
            assert(r == 0);
            let c = pow2(z as nat);
            lemma_round_exact(p, q, z as nat);
            lemma_round_cancel(p, q * c, 1, b);
            assert((q * c) * b == (q * b + 0) * c) by (nonlinear_arith);
            assert(1 * b == b);
            lemma_fundamental_div_mod_converse(n as int, b as int, q as int, 0);
            assert(b * 1 == b);
            assert(nearest(n, b) == q);
        }
    } else {
        let t = (-z) as nat;
        let d = b * pow2(t);
        lemma_pow2_pos(t);
        assert(d > 0) by (nonlinear_arith)
            requires b > 0, pow2(t) > 0, d == b * pow2(t);
        let e = (k + z) as nat;
        lemma_pow2_adds(p + e, t);
        assert(p + e + t == p + k);
        let x = pow2(p + e);
        let y = pow2(t);
        assert(h == x * y);
        assert(n < x * d) by (nonlinear_arith)
            requires n < (x * y) * b, d == b * y;
        if e > 0 {
            assert(k == l - p);
            let g = pow2((p + k - 1) as nat);
            lemma_pow2_adds((p + e - 1) as nat, t);
            let w = pow2((p + e - 1) as nat);
            assert(p + e - 1 + t == p + k - 1);
            assert(n >= w * d) by (nonlinear_arith)
                requires n >= q * b, q >= w * y, d == b * y;
        }
        lemma_exponent_is(p, n, d, e);
        lemma_pow2_adds(t, e);
        assert(t + e == k);
        assert((b * y) * pow2(e) == b * (y * pow2(e))) by (nonlinear_arith);
        let m = nearest(n, b * s);
        assert(pow2(e) * m == m * pow2(e)) by (nonlinear_arith);
    }
}

/// `(q + r / b) * 2^z` rounded to `p` significant bits, nothing finer than a
/// whole number being kept.
pub fn round_parts(p: u32, q: u128, r: u128, b: u128, z: i32) -> (m: Magnitude)
    requires
        1 <= p <= 53,
        r < b,
        b <= 0x1_0000_0000_0000_0000,
        q < pow2(127),
        q >= pow2(p as nat) || r == 0,
        -1000 <= z <= 1000,
    ensures
        m@ == round(
            p as nat,
            scaled_numerator(q as nat, r as nat, b as nat, z as int),
            scaled_denominator(b as nat, z as int),
        ),
        m.mantissa <= pow2(p as nat),
        forall|l: nat|
            #![trigger pow2(l)]
            q < pow2(l) && l >= p ==> m.exponent <= l - p + (if z >= 0 {
                z as int
            } else {
                0
            }),
        m.exponent > 0 && z <= 0 ==> m.mantissa >= pow2((p - 1) as nat),
        q >= pow2(p as nat) && z >= 0 ==> m.mantissa >= pow2((p - 1) as nat),
{
    let l: u32 = bit_length(q);
    let mut k: u32 = if l > p { l - p } else { 0 };
    if z < 0 && (k as i32) < -z {
        k = (-z) as u32;
    }
    proof {
        if l > 127 {
            if l > 128 {
                lemma_pow2_strictly_increases(127, (l - 1) as nat);
            }
            assert(false);
        }
        if q >= pow2(p as nat) && l <= p {
            if l < p {
                lemma_pow2_strictly_increases(l as nat, p as nat);
            }
            assert(false);
        }
        lemma_round_parts(p as nat, q as nat, r as nat, b as nat, z as int, l as nat, k as nat);
        lemma_nearest_parts(q as nat, r as nat, b as nat, k as nat);
        lemma_pow2_pos(k as nat);
    }
    if k > l {
        proof {
            // less than half of the last kept bit
            lemma_pow2_pos((k - 1) as nat);
            lemma_pow2_unfold(k as nat);
            if l < k - 1 {
                lemma_pow2_strictly_increases(l as nat, (k - 1) as nat);
            }
            lemma_small_mod(q as nat, pow2(k as nat));
            lemma_fundamental_div_mod(q as int, pow2(k as nat) as int);
            lemma_basic_div(q as int, pow2(k as nat) as int);
            lemma_pow2_pos(p as nat);
            assert(0 * pow2(0) == 0);
            assert(0 * pow2((k + z) as nat) == 0);
        }
        return Magnitude { mantissa: 0, exponent: 0 };
    }
    let w: u128 = power_of_two(k);
    let whole: u128 = q / w;
    let low: u128 = q % w;
    proof {
        lemma_pow2_adds(p as nat, k as nat);
        if l < p + k {
            lemma_pow2_strictly_increases(l as nat, (p + k) as nat);
        }
        lemma_fundamental_div_mod(q as int, w as int);
        assert(whole < pow2(p as nat)) by (nonlinear_arith)
            requires
                q < pow2(p as nat) * w,
                q == w * whole + low,
                low >= 0,
                w > 0;
        lemma_pow2_bound53(p as nat);
    }
    let up: bool = if k == 0 {
        2 * r > b || (2 * r == b && whole % 2 == 1)
    } else {
        let h: u128 = power_of_two(k - 1);
        low > h || (low == h && (r > 0 || whole % 2 == 1))
    };
    proof {
        // a bit above the last kept one is set whenever bits were dropped
        if k as int == l - p && k > 0 {
            lemma_pow2_adds((p - 1) as nat, k as nat);
            let g = pow2((p - 1) as nat);
            assert(whole >= g) by (nonlinear_arith)
                requires
                    q >= g * w,
                    q == w * whole + low,
                    low < w,
                    w > 0;
        }
    }
    proof {
        assert forall|j: nat| #![trigger pow2(j)] q < pow2(j) && j >= p implies k + z <= j - p
            + (if z >= 0 {
            z as int
        } else {
            0
        }) by {
            if j < l - 1 {
                lemma_pow2_strictly_increases(j, (l - 1) as nat);
            }
        }
    }
    let mantissa: u64 = if up { whole as u64 + 1 } else { whole as u64 };
    Magnitude { mantissa, exponent: (k as i32 + z) as u32 }
}

/// At most 53 bits fit in a machine word with room to spare.
proof fn lemma_pow2_bound53(p: nat)
    requires
        p <= 53,
    ensures
        pow2(p) <= 0x20_0000_0000_0000,
{
    lemma2_to64_rest();
    if p < 53 {
        lemma_pow2_strictly_increases(p, 53);
    }
}

} // verus!
