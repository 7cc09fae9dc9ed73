//! Binary floating-point numbers of single and double precision.
//!
//! Every value that occurs here is a whole number of *units* of `2^-149`, the
//! spacing of the smallest single-precision numbers, so a value is modelled by
//! an integer count of units. Arithmetic is IEEE 754: the exact result, rounded
//! to 24 bits (single) or 53 bits (double), ties to even.

use crate::rounding;
use crate::rounding::{bit_length, power_of_two, round_parts, Magnitude};
use vstd::arithmetic::div_mod::*;
use vstd::arithmetic::mul::*;
use vstd::arithmetic::power2::*;
use vstd::prelude::*;

verus! {

/// The units in the number one.
pub open spec fn one() -> nat {
    pow2(149)
}

/// The value of a single-precision number, finite ones counted in units.
pub enum Num {
    Nan,
    Infinite { negative: bool },
    Finite { units: int },
}

/// `magnitude` with a sign.
pub open spec fn signed(negative: bool, magnitude: nat) -> int {
    if negative {
        -magnitude
    } else {
        magnitude as int
    }
}

/// What a single-precision bit pattern stands for.
pub open spec fn decode(bits: u32) -> Num {
    let negative = bits >= 0x8000_0000;
    let e = (bits / 0x80_0000) % 256;
    let f = bits % 0x80_0000;
    if e == 255 {
        if f == 0 {
            Num::Infinite { negative }
        } else {
            Num::Nan
        }
    } else if e == 0 {
        Num::Finite { units: signed(negative, f as nat) }
    } else {
        Num::Finite { units: signed(negative, (0x80_0000 + f) as nat * pow2((e - 1) as nat)) }
    }
}

/// `x >= t`, for a finite `x` in units.
pub open spec fn at_least(x: int, t: Num) -> bool {
    match t {
        Num::Nan => false,
        Num::Infinite { negative } => negative,
        Num::Finite { units } => x >= units,
    }
}

/// `x > t`, for a finite `x` in units.
pub open spec fn above(x: int, t: Num) -> bool {
    match t {
        Num::Nan => false,
        Num::Infinite { negative } => negative,
        Num::Finite { units } => x > units,
    }
}

/// `x < t`, for a finite `x` in units.
pub open spec fn below(x: int, t: Num) -> bool {
    match t {
        Num::Nan => false,
        Num::Infinite { negative } => !negative,
        Num::Finite { units } => x < units,
    }
}

/// `a < b`; a comparison with a NaN is false.
pub open spec fn less(a: Num, b: Num) -> bool {
    match a {
        Num::Nan => false,
        Num::Infinite { negative } => negative && b !is Nan && b != (Num::Infinite {
            negative: true,
        }),
        Num::Finite { units } => below(units, b),
    }
}

/// The double-precision number nearest to the whole number `n`.
pub open spec fn double_of(n: u64) -> nat {
    rounding::round(53, n as nat, 1)
}

/// The double-precision quotient of two whole numbers, in units.
pub open spec fn ratio(n: u64, d: u64) -> nat {
    rounding::round(53, double_of(n) * one(), double_of(d))
}

/// One minus the double `x`, in double precision, in units.
pub open spec fn complement(x: nat) -> int {
    if x <= one() {
        rounding::round(53, (one() - x) as nat, 1) as int
    } else {
        -(rounding::round(53, (x - one()) as nat, 1) as int)
    }
}

/// `n * f` in double precision, cut down to a whole number and held to the
/// range of a `u64`; not-a-number becomes zero.
pub open spec fn scaled(n: u64, f: Num) -> u64 {
    match f {
        Num::Nan => 0,
        Num::Infinite { negative } => if negative || n == 0 {
            0
        } else {
            u64::MAX
        },
        Num::Finite { units } => if units <= 0 {
            0
        } else {
            let whole = rounding::round(53, double_of(n) * units as nat, 1) / one();
            if whole > u64::MAX {
                u64::MAX
            } else {
                whole as u64
            }
        },
    }
}

/// The single-precision number nearest to `n / d`.
pub open spec fn single_ratio(n: u64, d: u64) -> Num {
    Num::Finite { units: rounding::round(24, n as nat * one(), d as nat) as int }
}

/// The single-precision number of `units` rounded units, which is infinite
/// from `2^128` on.
pub open spec fn in_range(negative: bool, units: nat) -> Num {
    if units >= pow2(277) {
        Num::Infinite { negative }
    } else {
        Num::Finite { units: signed(negative, units) }
    }
}

/// A fraction of at least one unit does not round to zero.
pub proof fn lemma_round_positive(p: nat, n: nat, d: nat)
    requires
        p >= 1,
        d > 0,
        n >= d,
    ensures
        rounding::round(p, n, d) > 0,
{
    let k = rounding::exponent(p, n, d);
    rounding::lemma_exponent_bounds(p, n, d);
    lemma_pow2_pos(k);
    let s = pow2(k);
    let m = rounding::nearest(n, d * s);
    assert(d * s > 0) by (nonlinear_arith)
        requires d > 0, s > 0;
    if k > 0 {
        let g = pow2((p + k - 1) as nat);
        if p > 1 {
            lemma_pow2_strictly_increases(k, (p + k - 1) as nat);
        }
        assert(n >= d * s) by (nonlinear_arith)
            requires n >= g * d, g >= s, d > 0;
    } else {
        assert(pow2(0) == 1) by { lemma2_to64(); }
        assert(d * s == d) by (nonlinear_arith)
            requires s == 1;
    }
    lemma_div_non_zero(n as int, (d * s) as int);
    assert(s * m > 0) by (nonlinear_arith)
        requires s > 0, m > 0;
}

/// `n` with 53 significant bits.
fn widen(n: u64) -> (m: Magnitude)
    ensures
        m@ == double_of(n),
        m.mantissa <= 0x20_0000_0000_0000,
        m.exponent <= 11,
        n > 0 ==> m.mantissa > 0,
{
    proof {
        lemma_u128_range();
        assert((n as nat * 1 + 0) * pow2(0) == n) by { lemma2_to64(); }
        lemma2_to64_rest();
    }
    let m = round_parts(53, n as u128, 0, 1, 0);
    proof {
        if n > 0 {
            lemma_round_positive(53, n as nat, 1);
            assert(0 * pow2(m.exponent as nat) == 0);
        }
    }
    m
}

proof fn lemma_u128_range()
    ensures
        pow2(64) == 0x1_0000_0000_0000_0000,
        pow2(63) == 0x8000_0000_0000_0000,
        pow2(126) == 0x4000_0000_0000_0000 * 0x1_0000_0000_0000_0000,
        pow2(127) == 0x8000_0000_0000_0000 * 0x1_0000_0000_0000_0000,
{
    lemma2_to64();
    lemma_pow2_unfold(64);
    lemma_pow2_unfold(63);
    lemma_pow2_adds(62, 64);
    lemma_pow2_adds(63, 64);
}

/// The quotient of two numbers, in units, with `p` significant bits.
fn divide(p: u32, a: Magnitude, b: Magnitude) -> (m: Magnitude)
    requires
        1 <= p <= 53,
        a.exponent <= 400,
        b.exponent <= 400,
        b.mantissa > 0,
    ensures
        m@ == rounding::round(p as nat, a@ * one(), b@),
        m.mantissa <= pow2(p as nat),
        m.exponent <= 213 - p + a.exponent,
        m.exponent > 0 ==> m.mantissa >= pow2((p - 1) as nat),
{
    let ghost am = a.mantissa as nat;
    let ghost bm = b.mantissa as nat;
    let ghost ea = a.exponent as nat;
    let ghost eb = b.exponent as nat;
    proof {
        lemma_pow2_pos(ea);
        lemma_pow2_pos(eb);
        lemma_u128_range();
    }
    if a.mantissa == 0 {
        proof {
            assert(a@ * one() == 0) by (nonlinear_arith)
                requires a@ == 0 * pow2(ea);
            assert(b@ > 0) by (nonlinear_arith)
                requires b@ == bm * pow2(eb), bm > 0, pow2(eb) > 0;
            lemma_pow2_pos(p as nat);
            rounding::lemma_round_exact(p as nat, 0, 0);
            rounding::lemma_round_cancel(p as nat, 0, 1, b@);
            assert(0 * b@ == 0);
            assert(1 * b@ == b@);
            assert(0 * pow2(0) == 0);
        }
        return Magnitude { mantissa: 0, exponent: 0 };
    }
    let l: u32 = bit_length(a.mantissa as u128);
    proof {
        if l > 64 {
            if l > 65 {
                lemma_pow2_strictly_increases(64, (l - 1) as nat);
            }
            assert(false);
        }
    }
    let s: u32 = 127 - l;
    let w: u128 = power_of_two(s);
    proof {
        lemma_pow2_pos(s as nat);
        lemma_pow2_adds(l as nat, s as nat);
        lemma_pow2_adds((l - 1) as nat, s as nat);
        assert(am * w < pow2(l as nat) * w) by (nonlinear_arith)
            requires am < pow2(l as nat), w > 0;
        assert(am * w >= pow2((l - 1) as nat) * w) by (nonlinear_arith)
            requires am >= pow2((l - 1) as nat), w > 0;
    }
    let n: u128 = a.mantissa as u128 * w;
    let q: u128 = n / (b.mantissa as u128);
    let r: u128 = n % (b.mantissa as u128);
    let z: i32 = a.exponent as i32 + 149 - b.exponent as i32 - s as i32;
    proof {
        lemma_fundamental_div_mod(n as int, bm as int);
        lemma2_to64_rest();
        assert(q >= pow2(61)) by (nonlinear_arith)
            requires
                n == bm * q + r,
                r < bm,
                bm < 0x1_0000_0000_0000_0000,
                n >= 0x4000_0000_0000_0000 * 0x1_0000_0000_0000_0000,
                pow2(61) == 0x2000_0000_0000_0000;
        assert(q <= n) by (nonlinear_arith)
            requires n == bm * q + r, bm >= 1, r >= 0, q >= 0;
        if p < 53 {
            lemma_pow2_strictly_increases(p as nat, 53);
        }
        lemma_pow2_strictly_increases(53, 61);
    }
    let m = round_parts(p, q, r, b.mantissa as u128, z);
    proof {
        assert(q as nat * bm + r == n) by (nonlinear_arith)
            requires n == bm * q + r;
        let t = (ea + 149 - s) as nat;
        lemma_pow2_adds(ea, 149);
        lemma_pow2_adds(s as nat, t);
        // a@ * one() == n * 2^t
        assert(a@ * one() == n * pow2(t)) by (nonlinear_arith)
            requires
                a@ == am * pow2(ea),
                pow2(ea) * one() == pow2(s as nat) * pow2(t),
                n == am * pow2(s as nat);
        if z >= 0 {
            lemma_pow2_adds(z as nat, eb);
            rounding::lemma_round_cancel(p as nat, n as nat * pow2(z as nat), bm, pow2(eb));
            assert((n as nat * pow2(z as nat)) * pow2(eb) == n * pow2(t)) by (nonlinear_arith)
                requires pow2(t) == pow2(z as nat) * pow2(eb);
        } else {
            let c = pow2(t);
            lemma_pow2_pos(t);
            let d = bm * pow2((-z) as nat);
            lemma_pow2_pos((-z) as nat);
            assert(d > 0) by (nonlinear_arith)
                requires bm > 0, pow2((-z) as nat) > 0, d == bm * pow2((-z) as nat);
            lemma_pow2_adds((-z) as nat, t);
            rounding::lemma_round_cancel(p as nat, n as nat, d, c);
            assert(d * c == b@) by (nonlinear_arith)
                requires
                    d == bm * pow2((-z) as nat),
                    b@ == bm * pow2(eb),
                    pow2((-z) as nat) * c == pow2(eb);
        }
    }
    m
}

/// `a * c`, with `p` significant bits.
fn multiply(p: u32, a: Magnitude, c: u64) -> (m: Magnitude)
    requires
        1 <= p <= 53,
        a.mantissa <= 0x20_0000_0000_0000,
        a.exponent <= 800,
    ensures
        m@ == rounding::round(p as nat, a@ * c as nat, 1),
        m.mantissa <= pow2(p as nat),
        m.exponent <= 117 - p + a.exponent,
        c <= 1000 && p == 53 ==> m.exponent <= 10 + a.exponent,
{
    proof {
        assert(a.mantissa * c < 0x20_0000_0000_0000 * 0x1_0000_0000_0000_0000) by (nonlinear_arith)
            requires a.mantissa <= 0x20_0000_0000_0000, c < 0x1_0000_0000_0000_0000;
        lemma_u128_range();
        lemma2_to64_rest();
        lemma_pow2_adds(53, 64);
    }
    let q: u128 = a.mantissa as u128 * c as u128;
    proof {
        assert((q as nat * 1 + 0) * pow2(a.exponent as nat) == a@ * c as nat) by (nonlinear_arith)
            requires q == a.mantissa * c, a@ == a.mantissa as nat * pow2(a.exponent as nat);
    }
    proof {
        if c <= 1000 {
            lemma_pow2_adds(53, 10);
            assert(a.mantissa * c <= 0x20_0000_0000_0000 * 1000) by (nonlinear_arith)
                requires a.mantissa <= 0x20_0000_0000_0000, c <= 1000;
        }
    }
    round_parts(p, q, 0, 1, a.exponent as i32)
}

/// Whether `a` is the smaller number.
pub fn smaller(a: Magnitude, b: Magnitude) -> (r: bool)
    requires
        a.exponent <= 1000,
        b.exponent <= 1000,
    ensures
        r == (a@ < b@),
{
    let ghost am = a.mantissa as nat;
    let ghost bm = b.mantissa as nat;
    let ghost ea = a.exponent as nat;
    let ghost eb = b.exponent as nat;
    proof {
        lemma_pow2_pos(ea);
        lemma_pow2_pos(eb);
        lemma_u128_range();
        assert(am == 0 <==> a@ == 0) by (nonlinear_arith)
            requires a@ == am * pow2(ea), pow2(ea) > 0;
        assert(bm == 0 <==> b@ == 0) by (nonlinear_arith)
            requires b@ == bm * pow2(eb), pow2(eb) > 0;
    }
    if a.mantissa == 0 {
        return b.mantissa > 0;
    }
    if b.mantissa == 0 {
        return false;
    }
    if a.exponent >= b.exponent {
        let d: u32 = a.exponent - b.exponent;
        let ghost w = pow2(d as nat);
        proof {
            lemma_pow2_adds(d as nat, eb);
            lemma_order(am * w, bm, pow2(eb));
            assert(a@ == (am * w) * pow2(eb)) by (nonlinear_arith)
                requires a@ == am * (w * pow2(eb));
        }
        if d >= 64 {
            proof {
                if d > 64 {
                    lemma_pow2_strictly_increases(64, d as nat);
                }
                assert(am * w >= w) by (nonlinear_arith)
                    requires am >= 1, w >= 0;
            }
            return false;
        }
        proof {
            if d < 63 {
                lemma_pow2_strictly_increases(d as nat, 63);
            }
            assert(am * w <= 0x1_0000_0000_0000_0000 * 0x8000_0000_0000_0000) by (nonlinear_arith)
                requires am <= 0x1_0000_0000_0000_0000, w <= 0x8000_0000_0000_0000;
        }
        a.mantissa as u128 * power_of_two(d) < b.mantissa as u128
    } else {
        let d: u32 = b.exponent - a.exponent;
        let ghost w = pow2(d as nat);
        proof {
            lemma_pow2_adds(d as nat, ea);
            lemma_order(am, bm * w, pow2(ea));
            assert(b@ == (bm * w) * pow2(ea)) by (nonlinear_arith)
                requires b@ == bm * (w * pow2(ea));
        }
        if d >= 64 {
            proof {
                if d > 64 {
                    lemma_pow2_strictly_increases(64, d as nat);
                }
                assert(bm * w >= w) by (nonlinear_arith)
                    requires bm >= 1, w >= 0;
            }
            return true;
        }
        proof {
            if d < 63 {
                lemma_pow2_strictly_increases(d as nat, 63);
            }
            assert(bm * w <= 0x1_0000_0000_0000_0000 * 0x8000_0000_0000_0000) by (nonlinear_arith)
                requires bm <= 0x1_0000_0000_0000_0000, w <= 0x8000_0000_0000_0000;
        }
        (a.mantissa as u128) < b.mantissa as u128 * power_of_two(d)
    }
}

proof fn lemma_order(x: nat, y: nat, c: nat)
    requires
        c > 0,
    ensures
        x < y <==> x * c < y * c,
{
    assert(x < y ==> x * c < y * c) by (nonlinear_arith)
        requires c > 0;
    assert(x >= y ==> x * c >= y * c) by (nonlinear_arith)
        requires c > 0;
}

/// The whole part of a number of units, held to the range of a `u64`.
fn whole_part(a: Magnitude) -> (n: u64)
    requires
        a.exponent <= 2000,
    ensures
        n == (if a@ / one() > u64::MAX {
            u64::MAX as nat
        } else {
            a@ / one()
        }),
{
    let ghost am = a.mantissa as nat;
    let ghost ea = a.exponent as nat;
    proof {
        lemma_pow2_pos(149);
        lemma_u128_range();
    }
    if a.exponent >= 149 {
        let d: u32 = a.exponent - 149;
        let ghost w = pow2(d as nat);
        proof {
            lemma_pow2_pos(d as nat);
            lemma_pow2_adds(d as nat, 149);
            assert(a@ == (am * w) * one()) by (nonlinear_arith)
                requires a@ == am * (w * one());
            lemma_div_by_multiple((am * w) as int, one() as int);
        }
        if a.mantissa == 0 {
            proof {
                assert(am * w == 0) by (nonlinear_arith)
                    requires am == 0;
            }
            return 0;
        }
        if d >= 64 {
            proof {
                if d > 64 {
                    lemma_pow2_strictly_increases(64, d as nat);
                }
                assert(am * w >= w) by (nonlinear_arith)
                    requires am >= 1, w >= 0;
            }
            return u64::MAX;
        }
        proof {
            if d < 63 {
                lemma_pow2_strictly_increases(d as nat, 63);
            }
            assert(am * w <= 0x1_0000_0000_0000_0000 * 0x8000_0000_0000_0000) by (nonlinear_arith)
                requires am <= 0x1_0000_0000_0000_0000, w <= 0x8000_0000_0000_0000;
        }
        let x: u128 = a.mantissa as u128 * power_of_two(d);
        if x > u64::MAX as u128 {
            u64::MAX
        } else {
            x as u64
        }
    } else {
        let d: u32 = 149 - a.exponent;
        let ghost w = pow2(d as nat);
        proof {
            lemma_pow2_pos(d as nat);
            lemma_pow2_pos(ea);
            lemma_pow2_adds(d as nat, ea);
            let c = pow2(ea);
            assert(one() == w * c);
            lemma_div_cancel(am, w, c);
            assert(a@ / one() == am / w);
            lemma_div_is_ordered_by_denominator(am as int, 1, w as int);
            lemma_div_basics(am as int);
        }
        if d >= 64 {
            proof {
                if d > 64 {
                    lemma_pow2_strictly_increases(64, d as nat);
                }
                lemma_basic_div(am as int, w as int);
            }
            return 0;
        }
        (a.mantissa as u128 / power_of_two(d)) as u64
    }
}

/// A common factor cancels from a division.
proof fn lemma_div_cancel(a: nat, w: nat, c: nat)
    requires
        w > 0,
        c > 0,
    ensures
        (a * c) / (w * c) == a / w,
{
    let q = a / w;
    let r = a % w;
    lemma_fundamental_div_mod(a as int, w as int);
    assert(a * c == q * (w * c) + r * c) by (nonlinear_arith)
        requires a == w * q + r;
    assert(0 <= r * c < w * c) by (nonlinear_arith)
        requires 0 <= r < w, c > 0;
    lemma_fundamental_div_mod_converse((a * c) as int, (w * c) as int, q as int, (r * c) as int);
}

/// The whole number nearest to `c` times a number of units.
fn nearest_multiple(a: Magnitude, c: u64) -> (n: u128)
    requires
        a.mantissa <= 0x20_0000_0000_0000,
        a.exponent <= 149 + 40,
        1 <= c <= 1000,
    ensures
        n == rounding::nearest(a@ * c as nat, one()),
{
    let ghost am = a.mantissa as nat;
    let ghost ea = a.exponent as nat;
    proof {
        lemma_pow2_pos(149);
        lemma_pow2_pos(ea);
        lemma_u128_range();
        lemma2_to64_rest();
        assert(am * c <= 0x20_0000_0000_0000 * 1000) by (nonlinear_arith)
            requires am <= 0x20_0000_0000_0000, c <= 1000;
    }
    let x: u128 = a.mantissa as u128 * c as u128;
    let ghost xn = x as nat;
    assert(a@ * c as nat == xn * pow2(ea)) by (nonlinear_arith)
        requires a@ == am * pow2(ea), xn == am * c;
    if a.exponent >= 149 {
        let d: u32 = a.exponent - 149;
        let ghost w = pow2(d as nat);
        proof {
            lemma_pow2_adds(d as nat, 149);
            if d < 40 {
                lemma_pow2_strictly_increases(d as nat, 40);
            }
            assert(xn * w <= (0x20_0000_0000_0000 * 1000) * 0x100_0000_0000) by (nonlinear_arith)
                requires xn <= 0x20_0000_0000_0000 * 1000, w <= 0x100_0000_0000;
            assert(xn * pow2(ea) == (xn * w) * one()) by (nonlinear_arith)
                requires pow2(ea) == w * one();
            lemma_fundamental_div_mod_converse(
                ((xn * w) * one()) as int,
                one() as int,
                (xn * w) as int,
                0,
            );
        }
        x * power_of_two(d)
    } else {
        let d: u32 = 149 - a.exponent;
        let ghost w = pow2(d as nat);
        proof {
            lemma_pow2_pos(d as nat);
            lemma_pow2_adds(d as nat, ea);
            rounding::lemma_nearest_scale(xn, w, pow2(ea));
        }
        if d >= 100 {
            proof {
                lemma_pow2_adds(63, 36);
                lemma_pow2_unfold(100);
                if d > 100 {
                    lemma_pow2_strictly_increases(100, d as nat);
                }
                lemma_basic_div(xn as int, w as int);
                lemma_small_mod(xn, w);
            }
            return 0;
        }
        proof {
            if d < 127 {
                lemma_pow2_strictly_increases(d as nat, 127);
            }
        }
        let p: u128 = power_of_two(d);
        let q: u128 = x / p;
        let r: u128 = x % p;
        proof {
            lemma_div_is_ordered_by_denominator(xn as int, 1, w as int);
            lemma_div_basics(xn as int);
            lemma_mod_bound(xn as int, w as int);
            if d < 100 {
                lemma_pow2_unfold(127);
                lemma_pow2_strictly_increases(d as nat, 126);
            }
        }
        if 2 * r < p || (2 * r == p && q % 2 == 0) {
            q
        } else {
            q + 1
        }
    }
}

/// A finite double-precision number.
#[derive(Clone, Copy)]
pub struct Double {
    pub negative: bool,
    pub magnitude: Magnitude,
}

impl View for Double {
    type V = int;

    open spec fn view(&self) -> int {
        signed(self.negative, self.magnitude@)
    }
}

impl Double {
    /// The bounds that every number made by this module keeps.
    pub open spec fn wf(&self) -> bool {
        &&& self.magnitude.mantissa <= 0x20_0000_0000_0000
        &&& self.magnitude.exponent <= 180
    }

    /// Zero.
    pub fn zero() -> (r: Double)
        ensures
            r@ == 0,
            r.magnitude@ == 0,
            r.wf(),
            !r.negative,
            r.magnitude.exponent == 0,
    {
        proof {
            assert(0 * pow2(0) == 0);
        }
        Double { negative: false, magnitude: Magnitude { mantissa: 0, exponent: 0 } }
    }

    /// One.
    pub fn one() -> (r: Double)
        ensures
            r@ == one(),
            r.wf(),
    {
        proof {
            assert(1 * pow2(149) == pow2(149));
        }
        Double { negative: false, magnitude: Magnitude { mantissa: 1, exponent: 149 } }
    }

    /// The quotient of two whole numbers.
    pub fn ratio(n: u64, d: u64) -> (r: Double)
        requires
            d > 0,
        ensures
            r@ == ratio(n, d),
            r.wf(),
            !r.negative,
            r.magnitude.exponent <= 171,
    {
        let m = divide(53, widen(n), widen(d));
        proof {
            lemma2_to64_rest();
        }
        Double { negative: false, magnitude: m }
    }

    /// One minus this number.
    pub fn complement(self) -> (r: Double)
        requires
            self.wf(),
            !self.negative,
            self.magnitude.exponent <= 171,
        ensures
            r@ == complement(self@ as nat),
            r.magnitude.mantissa <= 0x20_0000_0000_0000,
            r.magnitude.exponent <= 175,
            r.negative == (r@ < 0),
    {
        proof {
            if self@ > one() {
                lemma_round_positive(53, (self@ - one()) as nat, 1);
            }
        }
        let a = self.magnitude;
        let ghost am = a.mantissa as nat;
        let ghost ea = a.exponent as nat;
        proof {
            lemma_pow2_pos(149);
            lemma_pow2_pos(ea);
            lemma_u128_range();
            lemma2_to64_rest();
        }
        if a.exponent < 23 {
            proof {
                lemma_pow2_adds(53, 22);
                if ea < 22 {
                    lemma_pow2_strictly_increases(ea, 22);
                }
                assert(a@ <= pow2(75)) by (nonlinear_arith)
                    requires
                        a@ == am * pow2(ea),
                        am <= pow2(53),
                        pow2(ea) <= pow2(22),
                        pow2(75) == pow2(53) * pow2(22);
                lemma_near_one(a@);
                assert(1 * pow2(149) == pow2(149));
            }
            return Double { negative: false, magnitude: Magnitude { mantissa: 1, exponent: 149 } };
        }
        if a.exponent <= 149 {
            let d: u32 = 149 - a.exponent;
            let w: u128 = power_of_two(d);
            proof {
                lemma_pow2_adds(d as nat, ea);
                if d < 126 {
                    lemma_pow2_strictly_increases(d as nat, 126);
                }
                lemma_order(am, w as nat, pow2(ea));
                lemma_order(w as nat, am, pow2(ea));
            }
            if a.mantissa as u128 <= w {
                let q: u128 = w - a.mantissa as u128;
                proof {
                    assert((q as nat * 1 + 0) * pow2(ea) == one() - a@) by (nonlinear_arith)
                        requires
                            q == w - am,
                            one() == w * pow2(ea),
                            a@ == am * pow2(ea);
                }
                let m = round_parts(53, q, 0, 1, a.exponent as i32);
                proof {
                    let l: nat = if d + 1 >= 53 { (d + 1) as nat } else { 53 };
                    lemma_pow2_strictly_increases(d as nat, l);
                    assert(q < pow2(l));
                }
                Double { negative: false, magnitude: m }
            } else {
                let q: u128 = a.mantissa as u128 - w;
                proof {
                    assert((q as nat * 1 + 0) * pow2(ea) == a@ - one()) by (nonlinear_arith)
                        requires
                            q == am - w,
                            one() == w * pow2(ea),
                            a@ == am * pow2(ea);
                    lemma_pow2_adds(0, 53);
                    assert(q < pow2(53));
                }
                let m = round_parts(53, q, 0, 1, a.exponent as i32);
                Double { negative: true, magnitude: m }
            }
        } else {
            let d: u32 = a.exponent - 149;
            let ghost w = pow2(d as nat);
            proof {
                lemma_pow2_adds(d as nat, 149);
                if d < 22 {
                    lemma_pow2_strictly_increases(d as nat, 22);
                }
                assert(am * w <= pow2(53) * pow2(22)) by (nonlinear_arith)
                    requires am <= pow2(53), w <= pow2(22);
                lemma_pow2_adds(53, 22);
                lemma_pow2_strictly_increases(75, 126);
                assert(a@ == (am * w) * one()) by (nonlinear_arith)
                    requires a@ == am * (w * one());
            }
            if a.mantissa == 0 {
                proof {
                    assert(a@ == 0) by (nonlinear_arith)
                        requires a@ == am * pow2(ea), am == 0;
                    lemma_near_one(0);
                    assert(1 * pow2(149) == pow2(149));
                }
                return Double {
                    negative: false,
                    magnitude: Magnitude { mantissa: 1, exponent: 149 },
                };
            }
            let x: u128 = a.mantissa as u128 * power_of_two(d);
            proof {
                lemma_pow2_unfold(d as nat);
                lemma_pow2_pos((d - 1) as nat);
                assert(x >= 2) by (nonlinear_arith)
                    requires x == am * w, am >= 1, w >= 2;
                lemma_order(1, x as nat, one());
                assert(((x - 1) as nat * 1 + 0) * pow2(149) == a@ - one()) by (nonlinear_arith)
                    requires a@ == x * one(), one() == pow2(149), x >= 1;
            }
            let m = round_parts(53, x - 1, 0, 1, 149);
            Double { negative: true, magnitude: m }
        }
    }
}

/// What is far below the last bit of one does not change it.
proof fn lemma_near_one(x: nat)
    requires
        x <= pow2(75),
    ensures
        complement(x) == one(),
        x < one(),
{
    let n = (one() - x) as nat;
    lemma_pow2_strictly_increases(75, 95);
    lemma_pow2_strictly_increases(95, 149);
    lemma2_to64();
    lemma_pow2_adds(53, 96);
    lemma_pow2_unfold(96);
    lemma_pow2_pos(96);
    lemma_pow2_pos(53);
    let s = pow2(96);
    if x == 0 {
        lemma2_to64_rest();
        rounding::lemma_round_exact(53, 1, 149);
        assert(1 * pow2(149) == pow2(149));
    } else {
        lemma_pow2_unfold(149);
        lemma_pow2_strictly_increases(75, 148);
        assert(53 + 96 == 149);
        assert(pow2(149) * 1 == pow2(149));
        assert(pow2(148) * 1 == pow2(148));
        rounding::lemma_exponent_is(53, n, 1, 96);
        let q = (pow2(53) - 1) as nat;
        let r = (s - x) as nat;
        assert(n == q * s + r) by (nonlinear_arith)
            requires n == pow2(53) * s - x, q == pow2(53) - 1, r == s - x;
        lemma_fundamental_div_mod_converse(n as int, s as int, q as int, r as int);
        assert(1 * s == s);
        assert(rounding::nearest(n, s) == pow2(53));
        assert(s * pow2(53) == pow2(53) * s) by (nonlinear_arith);
    }
}

/// A single-precision number, held as its bit pattern.
#[derive(Clone, Copy, Debug)]
pub struct Single {
    pub bits: u32,
}

impl View for Single {
    type V = Num;

    open spec fn view(&self) -> Num {
        decode(self.bits)
    }
}

impl Single {
    /// The number with the given bit pattern.
    pub fn from_bits(bits: u32) -> (r: Single)
        ensures
            r.bits == bits,
            r@ == decode(bits),
    {
        Single { bits }
    }

    /// The bit pattern of the number.
    pub fn to_bits(self) -> (bits: u32)
        ensures
            bits == self.bits,
            decode(bits) == self@,
    {
        self.bits
    }

    /// Whether the sign bit is set.
    fn is_negative(self) -> (r: bool)
        ensures
            self@ matches Num::Infinite { negative } ==> r == negative,
            self@ matches Num::Finite { units } ==> (r ==> units <= 0) && (!r ==> units >= 0),
            r == (self.bits >= 0x8000_0000),
    {
        proof {
            let e = (self.bits / 0x80_0000) % 256;
            if 0 < e < 255 {
                lemma_pow2_pos((e - 1) as nat);
                assert((0x80_0000 + self.bits % 0x80_0000) as nat * pow2((e - 1) as nat) >= 0)
                    by (nonlinear_arith);
            }
        }
        self.bits >= 0x8000_0000
    }

    fn is_nan(self) -> (r: bool)
        ensures
            r == (self@ is Nan),
    {
        (self.bits / 0x80_0000) % 256 == 255 && self.bits % 0x80_0000 != 0
    }

    fn is_infinite(self) -> (r: bool)
        ensures
            r == (self@ is Infinite),
    {
        (self.bits / 0x80_0000) % 256 == 255 && self.bits % 0x80_0000 == 0
    }

    /// A finite number without its sign.
    fn magnitude(self) -> (m: Magnitude)
        requires
            self@ is Finite,
        ensures
            self@ == (Num::Finite { units: signed(self.bits >= 0x8000_0000, m@) }),
            m.mantissa < 0x100_0000,
            m.exponent <= 253,
            m.exponent > 0 ==> m.mantissa >= 0x80_0000,
    {
        let e: u32 = (self.bits / 0x80_0000) % 256;
        let f: u32 = self.bits % 0x80_0000;
        if e == 0 {
            proof {
                assert(f as nat * pow2(0) == f) by { lemma2_to64(); }
            }
            Magnitude { mantissa: f as u64, exponent: 0 }
        } else {
            Magnitude { mantissa: (0x80_0000 + f) as u64, exponent: e - 1 }
        }
    }

    /// Packs a rounded magnitude; what is too large becomes infinite.
    fn pack(negative: bool, m: Magnitude) -> (r: Single)
        requires
            m.mantissa <= 0x100_0000,
            m.exponent <= 1000,
        ensures
            r@ == in_range(negative, m@),
    {
        let sign: u32 = if negative { 0x8000_0000 } else { 0 };
        let ghost w = pow2(m.exponent as nat);
        proof {
            lemma_pow2_pos(m.exponent as nat);
            lemma2_to64();
            lemma_pow2_pos(277);
        }
        if m.mantissa == 0 {
            proof {
                assert(m@ == 0) by (nonlinear_arith)
                    requires m@ == m.mantissa as nat * w, m.mantissa == 0;
            }
            return Single { bits: sign };
        }
        let mut mantissa: u32 = m.mantissa as u32;
        let mut exponent: u32 = m.exponent;
        if mantissa == 0x100_0000 {
            proof {
                lemma_pow2_unfold((exponent + 1) as nat);
                assert(0x80_0000 * (2 * w) == 0x100_0000 * w) by (nonlinear_arith);
            }
            mantissa = 0x80_0000;
            exponent = exponent + 1;
        }
        while mantissa < 0x80_0000 && exponent > 0
            invariant
                0 < mantissa < 0x100_0000,
                exponent <= 1001,
                m@ == mantissa as nat * pow2(exponent as nat),
            decreases exponent,
        {
            proof {
                lemma_pow2_unfold(exponent as nat);
                let y = pow2((exponent - 1) as nat);
                assert(mantissa as nat * (2 * y) == (2 * mantissa) as nat * y) by (nonlinear_arith);
            }
            mantissa = 2 * mantissa;
            exponent = exponent - 1;
        }
        let ghost x = pow2(exponent as nat);
        proof {
            lemma_pow2_pos(exponent as nat);
            lemma_pow2_adds(23, exponent as nat);
            lemma_pow2_adds(24, exponent as nat);
            assert(pow2(23) == 0x80_0000 && pow2(24) == 0x100_0000);
        }
        if exponent > 253 {
            proof {
                assert(mantissa as nat * x >= pow2(23) * x) by (nonlinear_arith)
                    requires mantissa >= pow2(23), x > 0;
                if exponent > 254 {
                    lemma_pow2_strictly_increases(277, (23 + exponent) as nat);
                }
            }
            return Single { bits: sign + 0x7F80_0000 };
        }
        proof {
            assert(mantissa as nat * x < pow2(24) * x) by (nonlinear_arith)
                requires mantissa < pow2(24), x > 0;
            if exponent < 253 {
                lemma_pow2_strictly_increases((24 + exponent) as nat, 277);
            }
        }
        if mantissa < 0x80_0000 {
            proof {
                assert(mantissa as nat * pow2(0) == mantissa);
            }
            Single { bits: sign + mantissa }
        } else {
            Single { bits: sign + (exponent + 1) * 0x80_0000 + (mantissa - 0x80_0000) }
        }
    }

    /// The number nearest to `n / d`.
    pub fn ratio(n: u64, d: u64) -> (r: Single)
        requires
            d > 0,
        ensures
            r@ == single_ratio(n, d),
    {
        let a = Magnitude { mantissa: n, exponent: 0 };
        let b = Magnitude { mantissa: d, exponent: 0 };
        proof {
            lemma2_to64();
            assert(n as nat * pow2(0) == n);
            assert(d as nat * pow2(0) == d);
        }
        let m = divide(24, a, b);
        proof {
            lemma_single_bound(m);
        }
        Single::pack(false, m)
    }

    /// Whether this number is the smaller one.
    pub fn less(self, other: Single) -> (r: bool)
        ensures
            r == less(self@, other@),
    {
        if self.is_nan() || other.is_nan() {
            return false;
        }
        if self.is_infinite() {
            return self.is_negative() && !(other.is_infinite() && other.is_negative());
        }
        if other.is_infinite() {
            return !other.is_negative();
        }
        let x = Double { negative: self.is_negative(), magnitude: self.magnitude() };
        let y = Double { negative: other.is_negative(), magnitude: other.magnitude() };
        x.smaller(y)
    }
}

proof fn lemma_single_bound(m: Magnitude)
    requires
        m.mantissa <= 0x100_0000,
        m.exponent <= 240,
    ensures
        m@ < pow2(277),
{
    lemma_pow2_pos(m.exponent as nat);
    lemma2_to64();
    lemma_pow2_adds(24, m.exponent as nat);
    assert(m@ <= 0x100_0000 * pow2(m.exponent as nat)) by (nonlinear_arith)
        requires m@ == m.mantissa as nat * pow2(m.exponent as nat), m.mantissa <= 0x100_0000;
    lemma_pow2_strictly_increases((24 + m.exponent) as nat, 277);
}

impl Double {
    /// Whether this number is the smaller one.
    pub fn smaller(self, other: Double) -> (r: bool)
        requires
            self.magnitude.exponent <= 1000,
            other.magnitude.exponent <= 1000,
        ensures
            r == (self@ < other@),
    {
        if self.negative {
            if other.negative {
                smaller(other.magnitude, self.magnitude)
            } else {
                // only zero against zero is not smaller
                self.magnitude.is_positive() || other.magnitude.is_positive()
            }
        } else {
            if other.negative {
                false
            } else {
                smaller(self.magnitude, other.magnitude)
            }
        }
    }

    /// Whether this number is greater than or equal to `t`.
    pub fn at_least(self, t: Single) -> (r: bool)
        requires
            self.wf(),
        ensures
            r == at_least(self@, t@),
    {
        if t.is_nan() {
            return false;
        }
        if t.is_infinite() {
            return t.is_negative();
        }
        !self.smaller(Double { negative: t.is_negative(), magnitude: t.magnitude() })
    }

    /// Whether this number is greater than `t`.
    pub fn above(self, t: Single) -> (r: bool)
        requires
            self.wf(),
        ensures
            r == above(self@, t@),
    {
        if t.is_nan() {
            return false;
        }
        if t.is_infinite() {
            return t.is_negative();
        }
        Double { negative: t.is_negative(), magnitude: t.magnitude() }.smaller(self)
    }

    /// Whether this number is less than `t`.
    pub fn below(self, t: Single) -> (r: bool)
        requires
            self.wf(),
        ensures
            r == below(self@, t@),
    {
        if t.is_nan() {
            return false;
        }
        if t.is_infinite() {
            return !t.is_negative();
        }
        self.smaller(Double { negative: t.is_negative(), magnitude: t.magnitude() })
    }
}

impl Magnitude {
    /// Whether the number is not zero.
    pub fn is_positive(self) -> (r: bool)
        ensures
            r == (self@ > 0),
    {
        proof {
            lemma_pow2_pos(self.exponent as nat);
            assert(self.mantissa > 0 <==> self.mantissa as nat * pow2(self.exponent as nat) > 0)
                by (nonlinear_arith)
                requires pow2(self.exponent as nat) > 0;
        }
        self.mantissa > 0
    }
}

/// `n * f` in double precision, as a whole number.
pub fn scale(n: u64, f: Single) -> (r: u64)
    ensures
        r == scaled(n, f@),
{
    if f.is_nan() {
        return 0;
    }
    if f.is_infinite() {
        return if f.is_negative() || n == 0 {
            0
        } else {
            u64::MAX
        };
    }
    let m = f.magnitude();
    if f.is_negative() || !m.is_positive() {
        return 0;
    }
    let a = widen(n);
    let ghost w = pow2(a.exponent as nat);
    proof {
        lemma_pow2_adds(a.exponent as nat, m.exponent as nat);
    }
    let b = Magnitude { mantissa: a.mantissa, exponent: a.exponent + m.exponent };
    let x = multiply(53, b, m.mantissa);
    proof {
        assert(b@ * m.mantissa as nat == a@ * m@) by (nonlinear_arith)
            requires
                b@ == a.mantissa as nat * (w * pow2(m.exponent as nat)),
                a@ == a.mantissa as nat * w,
                m@ == m.mantissa as nat * pow2(m.exponent as nat);
    }
    whole_part(x)
}

/// The single-precision number nearest to the whole number `n`.
pub open spec fn single_of(n: u64) -> nat {
    rounding::round(24, n as nat, 1)
}

/// A single-precision number divided by one hundred.
pub open spec fn hundredth(a: Num) -> Num {
    match a {
        Num::Finite { units } => if units < 0 {
            in_range(true, rounding::round(24, (-units) as nat, 100))
        } else {
            in_range(false, rounding::round(24, units as nat, 100))
        },
        _ => a,
    }
}

/// `part / total * 100` in single precision, zero where `total` is zero.
pub open spec fn percentage(part: u64, total: u64) -> Num {
    if total > 0 {
        let quotient = rounding::round(24, single_of(part) * one(), single_of(total));
        in_range(false, rounding::round(24, quotient * 100, 1))
    } else {
        Num::Finite { units: 0 }
    }
}

/// The rate, in MiB per second, at which `sectors` of 512 bytes went by in
/// `elapsed` seconds, in single precision; zero where no time has passed.
pub open spec fn transfer_rate(sectors: u64, elapsed: Num) -> Num {
    match elapsed {
        Num::Finite { units } if units > 0 => in_range(
            false,
            // 2048 sectors are one MiB
            rounding::round(24, (single_of(sectors) * pow2(138)) * one(), units as nat),
        ),
        _ => Num::Finite { units: 0 },
    }
}

/// `n` with 24 significant bits.
fn narrow(n: u64) -> (m: Magnitude)
    ensures
        m@ == single_of(n),
        m.mantissa <= 0x100_0000,
        m.exponent <= 40,
        n > 0 ==> m.mantissa > 0,
{
    proof {
        lemma_u128_range();
        assert((n as nat * 1 + 0) * pow2(0) == n) by { lemma2_to64(); }
        lemma2_to64();
    }
    let m = round_parts(24, n as u128, 0, 1, 0);
    proof {
        if n > 0 {
            lemma_round_positive(24, n as nat, 1);
            assert(0 * pow2(m.exponent as nat) == 0);
        }
    }
    m
}

impl Single {
    /// Zero.
    pub fn zero() -> (r: Single)
        ensures
            r@ == (Num::Finite { units: 0 }),
    {
        Single { bits: 0 }
    }

    /// This number divided by one hundred.
    pub fn hundredth(self) -> (r: Single)
        ensures
            r@ == hundredth(self@),
    {
        if self.is_nan() || self.is_infinite() {
            return self;
        }
        let m = self.magnitude();
        let d = Magnitude { mantissa: 100, exponent: 149 };
        proof {
            lemma2_to64();
            lemma_pow2_pos(149);
        }
        let q = divide(24, m, d);
        proof {
            rounding::lemma_round_cancel(24, m@, 100, one());
            if m@ == 0 {
                lemma_pow2_pos(24);
                rounding::lemma_round_exact(24, 0, 0);
                rounding::lemma_round_cancel(24, 0, 1, 100);
                assert(0 * pow2(0) == 0);
                lemma_pow2_pos(277);
            }
        }
        Single::pack(self.is_negative(), q)
    }

    /// `part / total * 100`, zero where `total` is zero.
    pub fn percentage(part: u64, total: u64) -> (r: Single)
        ensures
            r@ == percentage(part, total),
    {
        if total == 0 {
            return Single::zero();
        }
        proof {
            lemma2_to64();
        }
        let q = divide(24, narrow(part), narrow(total));
        let m = multiply(24, q, 100);
        Single::pack(false, m)
    }

    /// The rate, in MiB per second, at which `sectors` of 512 bytes went by in
    /// this number of seconds.
    pub fn transfer_rate(sectors: u64, elapsed: Single) -> (r: Single)
        ensures
            r@ == transfer_rate(sectors, elapsed@),
    {
        if elapsed.is_nan() || elapsed.is_infinite() || elapsed.is_negative() {
            return Single::zero();
        }
        let e = elapsed.magnitude();
        if !e.is_positive() {
            return Single::zero();
        }
        let n = narrow(sectors);
        let a = Magnitude { mantissa: n.mantissa, exponent: n.exponent + 138 };
        proof {
            lemma2_to64();
            lemma_pow2_adds(n.exponent as nat, 138);
            assert(a@ == n@ * pow2(138)) by (nonlinear_arith)
                requires
                    a@ == n.mantissa as nat * (pow2(n.exponent as nat) * pow2(138)),
                    n@ == n.mantissa as nat * pow2(n.exponent as nat);
        }
        Single::pack(false, divide(24, a, e))
    }
}

impl Double {
    /// One hundred times this number.
    pub fn hundredfold(self) -> (r: Double)
        requires
            self.magnitude.mantissa <= 0x20_0000_0000_0000,
            self.magnitude.exponent <= 175,
        ensures
            r@ == signed(self.negative, rounding::round(53, self.magnitude@ * 100, 1)),
            r.negative == self.negative,
            r.magnitude@ == rounding::round(53, self.magnitude@ * 100, 1),
            self.magnitude@ > 0 ==> r.magnitude@ > 0,
            r.magnitude.mantissa <= 0x20_0000_0000_0000,
            r.magnitude.exponent <= 185,
    {
        proof {
            lemma2_to64_rest();
            if self.magnitude@ > 0 {
                lemma_round_positive(53, self.magnitude@ * 100, 1);
            }
        }
        Double { negative: self.negative, magnitude: multiply(53, self.magnitude, 100) }
    }

    /// The whole number nearest to `c` times the size of this number.
    pub fn steps(self, c: u64) -> (n: u128)
        requires
            self.magnitude.mantissa <= 0x20_0000_0000_0000,
            self.magnitude.exponent <= 185,
            1 <= c <= 1000,
        ensures
            n == rounding::nearest(self.magnitude@ * c as nat, one()),
    {
        nearest_multiple(self.magnitude, c)
    }
}

} // verus!
