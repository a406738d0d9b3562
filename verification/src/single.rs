//! IEEE 754 single-precision numbers, held as their 32-bit patterns.
//!
//! Loudness and audio samples arrive as single-precision numbers. The library works on their
//! patterns with integer arithmetic, and says what a pattern stands for by counting in units of
//! 2^-149, the smallest positive single: every finite single is a whole number of units.
use vstd::arithmetic::div_mod::{lemma_fundamental_div_mod, lemma_fundamental_div_mod_converse};
use vstd::arithmetic::power2::{
    lemma2_to64, lemma_pow2_adds, lemma_pow2_pos, lemma_pow2_strictly_increases,
    lemma_pow2_unfold, pow2,
};
use vstd::prelude::*;

verus! {

/// The pattern of 0.0.
pub const ZERO: u32 = 0;

/// The pattern of 1.0.
pub const ONE: u32 = 0x3f80_0000;

/// The pattern of -1.0.
pub const MINUS_ONE: u32 = 0xbf80_0000;

/// Whether the sign bit is set.
pub open spec fn negative(bits: u32) -> bool {
    bits >= 0x8000_0000
}

/// The pattern without its sign bit.
pub open spec fn magnitude(bits: u32) -> nat {
    (bits % 0x8000_0000) as nat
}

/// Whether the pattern is not a number.
pub open spec fn is_nan(bits: u32) -> bool {
    magnitude(bits) > 0x7f80_0000
}

/// The 24-bit significand that a magnitude encodes.
pub open spec fn significand_of(m: nat) -> nat {
    if m < 0x80_0000 {
        m
    } else {
        0x80_0000 + m % 0x80_0000
    }
}

/// The power of two, in units, by which a magnitude scales its significand.
pub open spec fn scale_of(m: nat) -> nat {
    if m < 0x80_0000 {
        0
    } else {
        (m / 0x80_0000 - 1) as nat
    }
}

/// The units that a magnitude stands for. An infinity counts as the first value beyond the finite
/// range, which orders it correctly.
pub open spec fn units_of(m: nat) -> nat {
    significand_of(m) * pow2(scale_of(m))
}

/// The absolute value of a pattern, in units.
pub open spec fn units(bits: u32) -> nat {
    units_of(magnitude(bits))
}

/// The value of a pattern, in units.
pub open spec fn value(bits: u32) -> int {
    if negative(bits) {
        -(units(bits) as int)
    } else {
        units(bits) as int
    }
}

/// The number 1, in units.
pub open spec fn one() -> nat {
    pow2(149)
}

/// `a` if it lies between `lo` and `hi`, else the bound it lies beyond; not a number stays as it
/// is.
pub open spec fn clamped(a: u32, lo: u32, hi: u32) -> u32 {
    if is_nan(a) {
        a
    } else if value(a) < value(lo) {
        lo
    } else if value(a) > value(hi) {
        hi
    } else {
        a
    }
}

/// The whole number nearest to `n / d`, the even one of two equally near.
pub open spec fn nearest(n: nat, d: nat) -> nat {
    let q = n / d;
    let r = n % d;
    if 2 * r < d {
        q
    } else if 2 * r > d {
        q + 1
    } else {
        q + q % 2
    }
}

/// How many low bits `n` has beyond the 24 that a significand holds.
pub open spec fn excess(n: nat) -> nat
    decreases n,
{
    if n < 0x100_0000 {
        0
    } else {
        1 + excess(n / 2)
    }
}

/// The single nearest to `n / d` units, in units: ties go to the even significand.
pub open spec fn rounded(n: nat, d: nat) -> nat {
    let k = excess(n / d);
    nearest(n, d * pow2(k)) * pow2(k)
}

/// One step up in magnitude adds the weight of the lowest significand bit.
proof fn lemma_units_step(m: nat)
    ensures
        units_of(m + 1) == units_of(m) + pow2(scale_of(m)),
        units_of(m + 1) > units_of(m),
{
    let p = pow2(scale_of(m));
    lemma_pow2_pos(scale_of(m));
    if m + 1 < 0x80_0000 || (m >= 0x80_0000 && m % 0x80_0000 + 1 < 0x80_0000) {
        assert(scale_of(m + 1) == scale_of(m));
        assert(significand_of(m + 1) == significand_of(m) + 1);
        assert((significand_of(m) + 1) * p == significand_of(m) * p + p) by (nonlinear_arith);
    } else if m + 1 == 0x80_0000 {
        assert(scale_of(m + 1) == 0);
        assert(0x80_0000 * p == 0x7f_ffff * p + p) by (nonlinear_arith);
    } else {
        assert(scale_of(m + 1) == scale_of(m) + 1);
        assert(significand_of(m + 1) == 0x80_0000);
        assert(significand_of(m) == 0xff_ffff);
        lemma_pow2_unfold(scale_of(m + 1));
        assert(0x80_0000 * (2 * p) == 0xff_ffff * p + p) by (nonlinear_arith);
    }
}

/// A greater magnitude stands for more units.
pub proof fn lemma_units_increase(a: nat, b: nat)
    requires
        a < b,
    ensures
        units_of(a) < units_of(b),
    decreases b - a,
{
    lemma_units_step((b - 1) as nat);
    if a < b - 1 {
        lemma_units_increase(a, (b - 1) as nat);
    }
}

pub proof fn lemma_units_of_bounds()
    ensures
        units(ZERO) == 0,
        units(ONE) == one(),
        units(MINUS_ONE) == one(),
        value(MINUS_ONE) == -(one() as int),
{
    lemma_pow2_pos(0);
    assert(pow2(23) == 0x80_0000) by {
        lemma2_to64();
    }
    lemma_pow2_adds(23, 126);
    assert(significand_of(magnitude(ZERO)) == 0);
    assert(0 * pow2(0) == 0);
    assert(magnitude(MINUS_ONE) == 0x3f80_0000);
    assert(scale_of(0x3f80_0000) == 126);
    assert(significand_of(0x3f80_0000) == 0x80_0000);
}

/// Whether `a` is less than `b`; never, if one of them is not a number.
pub(crate) fn less(a: u32, b: u32) -> (r: bool)
    ensures
        r == (!is_nan(a) && !is_nan(b) && value(a) < value(b)),
{
    let ma: u32 = a % 0x8000_0000;
    let mb: u32 = b % 0x8000_0000;
    proof {
        lemma_units_of_bounds();
        if ma < mb {
            lemma_units_increase(ma as nat, mb as nat);
        }
        if mb < ma {
            lemma_units_increase(mb as nat, ma as nat);
        }
        if 0 < ma {
            lemma_units_increase(0, ma as nat);
        }
        if 0 < mb {
            lemma_units_increase(0, mb as nat);
        }
    }
    if ma > 0x7f80_0000 || mb > 0x7f80_0000 {
        false
    } else if a >= 0x8000_0000 {
        if b >= 0x8000_0000 {
            mb < ma
        } else {
            ma > 0 || mb > 0
        }
    } else {
        if b >= 0x8000_0000 {
            false
        } else {
            ma < mb
        }
    }
}

/// Limits `a` to the range from `lo` to `hi`.
pub(crate) fn clamp(a: u32, lo: u32, hi: u32) -> (r: u32)
    requires
        !is_nan(lo),
        !is_nan(hi),
        value(lo) <= value(hi),
    ensures
        r == clamped(a, lo, hi),
{
    if less(a, lo) {
        lo
    } else if less(hi, a) {
        hi
    } else {
        a
    }
}

/// `excess` brings a number down to 24 bits, and no further than it must.
pub proof fn lemma_excess_bounds(n: nat)
    ensures
        n < 0x100_0000 * pow2(excess(n)),
        excess(n) > 0 ==> n >= 0x80_0000 * pow2(excess(n)),
        excess(n) == 0 <==> n < 0x100_0000,
    decreases n,
{
    lemma2_to64();
    if n >= 0x100_0000 {
        lemma_excess_bounds(n / 2);
        let k = excess(n / 2);
        let p = pow2(k);
        lemma_pow2_unfold(k + 1);
        assert(pow2(k + 1) == 2 * p);
        assert(n < 0x100_0000 * (2 * p)) by (nonlinear_arith)
            requires
                n / 2 < 0x100_0000 * p,
        ;
        if k > 0 {
            assert(n >= 0x80_0000 * (2 * p)) by (nonlinear_arith)
                requires
                    n / 2 >= 0x80_0000 * p,
            ;
        } else {
            assert(p == 1);
        }
    }
}

/// The bounds of `lemma_excess_bounds` determine `excess`.
pub proof fn lemma_excess_is(n: nat, k: nat)
    requires
        n < 0x100_0000 * pow2(k),
        k > 0 ==> n >= 0x80_0000 * pow2(k),
    ensures
        excess(n) == k,
{
    lemma_excess_bounds(n);
    let e = excess(n);
    lemma_pow2_pos(k);
    lemma_pow2_pos(e);
    if e < k {
        lemma_pow2_unfold(k);
        if e < k - 1 {
            lemma_pow2_strictly_increases(e, (k - 1) as nat);
        }
        assert(pow2(k) == 2 * pow2((k - 1) as nat));
        assert(pow2(e) <= pow2((k - 1) as nat));
        assert(false);
    }
    if k < e {
        lemma_pow2_unfold(e);
        if k < e - 1 {
            lemma_pow2_strictly_increases(k, (e - 1) as nat);
        }
        assert(pow2(e) == 2 * pow2((e - 1) as nat));
        assert(pow2(k) <= pow2((e - 1) as nat));
        assert(false);
    }
}

/// `nearest` is determined by the quotient.
pub proof fn lemma_nearest_scales(n: nat, d: nat, c: nat)
    requires
        d > 0,
        c > 0,
    ensures
        nearest(n * c, d * c) == nearest(n, d),
{
    let q = n / d;
    let r = n % d;
    lemma_fundamental_div_mod(n as int, d as int);
    assert(n * c == q * (d * c) + r * c) by (nonlinear_arith)
        requires
            n == d * q + r,
    ;
    assert(0 <= r * c < d * c) by (nonlinear_arith)
        requires
            0 <= r < d,
            c > 0,
    ;
    lemma_fundamental_div_mod_converse((n * c) as int, (d * c) as int, q as int, (r * c) as int);
    assert(2 * r < d ==> 2 * (r * c) < d * c) by (nonlinear_arith)
        requires
            c > 0,
    ;
    assert(2 * r > d ==> 2 * (r * c) > d * c) by (nonlinear_arith)
        requires
            c > 0,
    ;
    assert(2 * r == d ==> 2 * (r * c) == d * c) by (nonlinear_arith);
}

/// `nearest` is off by at most half.
pub proof fn lemma_nearest_close(n: nat, d: nat)
    requires
        d > 0,
    ensures
        2 * (nearest(n, d) * d) <= 2 * n + d,
        2 * n <= 2 * (nearest(n, d) * d) + d,
{
    let q = n / d;
    let r = n % d;
    lemma_fundamental_div_mod(n as int, d as int);
    assert(n == q * d + r) by (nonlinear_arith)
        requires
            n == d * q + r,
    ;
    assert((q + 1) * d == q * d + d) by (nonlinear_arith);
}

/// What is already whole stays as it is.
pub proof fn lemma_nearest_exact(q: nat, d: nat)
    requires
        d > 0,
    ensures
        nearest(q * d, d) == q,
{
    lemma_fundamental_div_mod_converse((q * d) as int, d as int, q as int, 0);
}

/// A significand scaled by a power of two: rounding affects the significand alone.
pub proof fn lemma_rounded_scales(p: nat, s: nat)
    ensures
        rounded(p * pow2(s), 1) == nearest(p, pow2(excess(p))) * pow2(excess(p) + s),
{
    let n = p * pow2(s);
    let k = excess(p);
    lemma_excess_bounds(p);
    lemma_pow2_pos(s);
    lemma_pow2_pos(k);
    lemma_pow2_adds(k, s);
    assert(n / 1 == n);
    if k == 0 {
        lemma2_to64();
        lemma_nearest_exact(p, 1);
        lemma_excess_bounds(n);
        let e = excess(n);
        lemma_pow2_pos(e);
        if e > s {
            lemma_pow2_unfold(e);
            if s < e - 1 {
                lemma_pow2_strictly_increases(s, (e - 1) as nat);
            }
            assert(pow2(e) >= 2 * pow2(s));
            assert(p * pow2(s) < 0x100_0000 * pow2(s)) by (nonlinear_arith)
                requires
                    p < 0x100_0000,
                    pow2(s) > 0,
            ;
            assert(false);
        }
        lemma_pow2_adds(e, (s - e) as nat);
        let c = p * pow2((s - e) as nat);
        assert(n == c * pow2(e)) by (nonlinear_arith)
            requires
                n == p * pow2(s),
                pow2(s) == pow2(e) * pow2((s - e) as nat),
                c == p * pow2((s - e) as nat),
        ;
        lemma_nearest_exact(c, pow2(e));
    } else {
        assert(n < 0x100_0000 * pow2(k + s)) by (nonlinear_arith)
            requires
                n == p * pow2(s),
                p < 0x100_0000 * pow2(k),
                pow2(k + s) == pow2(k) * pow2(s),
                pow2(s) > 0,
        ;
        assert(n >= 0x80_0000 * pow2(k + s)) by (nonlinear_arith)
            requires
                n == p * pow2(s),
                p >= 0x80_0000 * pow2(k),
                pow2(k + s) == pow2(k) * pow2(s),
                pow2(s) > 0,
        ;
        lemma_excess_is(n, k + s);
        lemma_nearest_scales(p, pow2(k), pow2(s));
    }
}

/// Rounding to a single changes a number by at most one part in 2^24.
pub proof fn lemma_rounded_close(n: nat, d: nat)
    requires
        d > 0,
        d == 1 || n >= 0x80_0000 * d,
    ensures
        0x100_0000 * (rounded(n, d) * d) <= 0x100_0001 * n,
        0x100_0000 * (rounded(n, d) * d) >= 0xff_ffff * n,
{
    let k = excess(n / d);
    let p = pow2(k);
    lemma_excess_bounds(n / d);
    lemma_pow2_pos(k);
    assert(d * p > 0) by (nonlinear_arith)
        requires
            d > 0,
            p > 0,
    ;
    let q = nearest(n, d * p);
    lemma_nearest_close(n, d * p);
    assert(q * (d * p) == rounded(n, d) * d) by (nonlinear_arith)
        requires
            rounded(n, d) == q * p,
    ;
    lemma_fundamental_div_mod(n as int, d as int);
    let w = n / d;
    if k > 0 {
        assert(n >= 0x80_0000 * (d * p)) by (nonlinear_arith)
            requires
                w >= 0x80_0000 * p,
                n == d * w + n % d,
                n % d >= 0,
                d > 0,
        ;
    } else {
        lemma2_to64();
        assert(d * p == d) by (nonlinear_arith)
            requires
                p == 1,
        ;
        if d == 1 {
            lemma_nearest_exact(n, 1);
        }
    }
}

/// How far `x` is from `n / d`, times `d`.
pub open spec fn off_by(x: nat, n: nat, d: nat) -> int {
    if x * d >= n {
        x * d - n
    } else {
        n - x * d
    }
}

/// No whole number is nearer than the nearest.
proof fn lemma_nearest_is_nearest(n: nat, d: nat, j: nat)
    requires
        d > 0,
    ensures
        off_by(nearest(n, d), n, d) <= off_by(j, n, d),
{
    let q = n / d;
    let r = n % d;
    lemma_fundamental_div_mod(n as int, d as int);
    assert(n == q * d + r) by (nonlinear_arith)
        requires
            n == d * q + r,
    ;
    assert((q + 1) * d == q * d + d) by (nonlinear_arith);
    if j <= q {
        assert(j * d <= q * d) by (nonlinear_arith)
            requires
                j <= q,
        ;
    } else {
        assert(j * d >= (q + 1) * d) by (nonlinear_arith)
            requires
                j >= q + 1,
        ;
    }
}

/// A significand of at most 24 bits, scaled, is a single: its pattern follows from both.
pub proof fn lemma_pattern(q: nat, k: nat)
    requires
        q <= 0x100_0000,
        k > 0 ==> q >= 0x80_0000,
    ensures
        units_of(k * 0x80_0000 + q) == q * pow2(k),
{
    let m = k * 0x80_0000 + q;
    lemma2_to64();
    if q < 0x80_0000 {
        assert(m == q);
    } else if q < 0x100_0000 {
        assert(m / 0x80_0000 == k + 1);
        assert(m % 0x80_0000 == q - 0x80_0000);
    } else {
        let f = pow2(k);
        assert(m / 0x80_0000 == k + 2);
        assert(m % 0x80_0000 == 0);
        lemma_pow2_unfold(k + 1);
        assert(0x80_0000 * (2 * f) == 0x100_0000 * f) by (nonlinear_arith);
    }
}

/// A single of at least 2^23 * 2^k units is a multiple of 2^k units.
proof fn lemma_coarse(m: nat, k: nat) -> (j: nat)
    requires
        units_of(m) >= 0x80_0000 * pow2(k),
    ensures
        units_of(m) == j * pow2(k),
{
    let s = scale_of(m);
    let g = significand_of(m);
    lemma_pow2_pos(k);
    lemma_pow2_pos(s);
    if s < k {
        lemma_pow2_unfold(k);
        if s < k - 1 {
            lemma_pow2_strictly_increases(s, (k - 1) as nat);
        }
        assert(g * pow2(s) < 0x80_0000 * pow2(k)) by (nonlinear_arith)
            requires
                g < 0x100_0000,
                2 * pow2(s) <= pow2(k),
                pow2(s) > 0,
        ;
        assert(false);
    }
    lemma_pow2_adds(k, (s - k) as nat);
    let j = g * pow2((s - k) as nat);
    assert(g * pow2(s) == j * pow2(k)) by (nonlinear_arith)
        requires
            pow2(s) == pow2(k) * pow2((s - k) as nat),
            j == g * pow2((s - k) as nat),
    ;
    j
}

/// Rounding gives a single, and no single is nearer.
pub proof fn law_rounded_is_the_nearest_single(n: nat, d: nat, m: nat)
    requires
        d > 0,
    ensures
        off_by(rounded(n, d), n, d) <= off_by(units_of(m), n, d),
        exists|r: nat| #[trigger] units_of(r) == rounded(n, d),
{
    let w = n / d;
    let k = excess(w);
    let p = pow2(k);
    let e = d * p;
    let x = units_of(m);
    lemma_pow2_pos(k);
    lemma_excess_bounds(w);
    lemma_fundamental_div_mod(n as int, d as int);
    assert(e > 0) by (nonlinear_arith)
        requires
            d > 0,
            p > 0,
            e == d * p,
    ;
    let q = nearest(n, e);
    assert(rounded(n, d) * d == q * e) by (nonlinear_arith)
        requires
            rounded(n, d) == q * p,
            e == d * p,
    ;
    assert(d * w + d <= 0x100_0000 * e) by (nonlinear_arith)
        requires
            w + 1 <= 0x100_0000 * p,
            e == d * p,
    ;
    lemma_nearest_close(n, e);
    assert(q <= 0x100_0000) by (nonlinear_arith)
        requires
            2 * (q * e) <= 2 * n + e,
            n < 0x100_0000 * e,
            e > 0,
    ;
    if k > 0 {
        assert(n >= 0x80_0000 * e) by (nonlinear_arith)
            requires
                w >= 0x80_0000 * p,
                n == d * w + n % d,
                n % d >= 0,
                e == d * p,
        ;
        assert(q >= 0x80_0000) by (nonlinear_arith)
            requires
                2 * n <= 2 * (q * e) + e,
                n >= 0x80_0000 * e,
                e > 0,
        ;
        if x >= 0x80_0000 * p {
            let j = lemma_coarse(m, k);
            assert(x * d == j * e) by (nonlinear_arith)
                requires
                    x == j * p,
                    e == d * p,
            ;
            lemma_nearest_is_nearest(n, e, j);
        } else {
            lemma_nearest_is_nearest(n, e, 0x80_0000);
            assert(x * d <= 0x80_0000 * e) by (nonlinear_arith)
                requires
                    x < 0x80_0000 * p,
                    e == d * p,
            ;
        }
    } else {
        lemma2_to64();
        assert(e == d) by (nonlinear_arith)
            requires
                e == d * p,
                p == 1,
        ;
        lemma_nearest_is_nearest(n, e, x);
    }
    lemma_pattern(q, k);
    assert(units_of(k * 0x80_0000 + q) == rounded(n, d));
}

/// A greater number has no smaller nearest whole number.
proof fn lemma_nearest_keeps_order(a: nat, b: nat, d: nat)
    requires
        a <= b,
        d > 0,
    ensures
        nearest(a, d) <= nearest(b, d),
{
    let p = a / d;
    let q = b / d;
    lemma_fundamental_div_mod(a as int, d as int);
    lemma_fundamental_div_mod(b as int, d as int);
    assert(p <= q) by (nonlinear_arith)
        requires
            a == d * p + a % d,
            b == d * q + b % d,
            a <= b,
            0 <= a % d,
            b % d < d,
            d > 0,
    ;
}

/// A greater number has no smaller nearest single.
pub proof fn lemma_rounded_keeps_order(a: nat, b: nat)
    requires
        a <= b,
    ensures
        rounded(a, 1) <= rounded(b, 1),
{
    let j = excess(a);
    let k = excess(b);
    let p = pow2(j);
    let r = pow2(k);
    lemma_excess_bounds(a);
    lemma_excess_bounds(b);
    lemma_pow2_pos(j);
    lemma_pow2_pos(k);
    assert(a / 1 == a && b / 1 == b);
    let x = nearest(a, p);
    let y = nearest(b, r);
    assert(rounded(a, 1) == x * p);
    assert(rounded(b, 1) == y * r);
    if j == k {
        lemma_nearest_keeps_order(a, b, p);
        assert(x * p <= y * p) by (nonlinear_arith)
            requires
                x <= y,
        ;
    } else if j > k {
        lemma_pow2_unfold(j);
        if k < j - 1 {
            lemma_pow2_strictly_increases(k, (j - 1) as nat);
        }
        assert(false);
    } else {
        lemma_pow2_unfold(k);
        if j < k - 1 {
            lemma_pow2_strictly_increases(j, (k - 1) as nat);
        }
        lemma_nearest_close(a, p);
        lemma_nearest_close(b, r);
        assert(x <= 0x100_0000) by (nonlinear_arith)
            requires
                2 * (x * p) <= 2 * a + p,
                a < 0x100_0000 * p,
                p > 0,
        ;
        assert(y >= 0x80_0000) by (nonlinear_arith)
            requires
                2 * b <= 2 * (y * r) + r,
                b >= 0x80_0000 * r,
                r > 0,
        ;
        assert(x * p <= y * r) by (nonlinear_arith)
            requires
                x <= 0x100_0000,
                y >= 0x80_0000,
                r >= 2 * p,
                p > 0,
        ;
    }
}

/// A common factor does not change a quotient.
pub proof fn lemma_quotient_scales(n: nat, d: nat, c: nat)
    requires
        d > 0,
        c > 0,
    ensures
        (n * c) / (d * c) == n / d,
{
    lemma_fundamental_div_mod(n as int, d as int);
    let q = n / d;
    let r = n % d;
    assert(n * c == q * (d * c) + r * c) by (nonlinear_arith)
        requires
            n == d * q + r,
    ;
    assert(0 <= r * c < d * c) by (nonlinear_arith)
        requires
            0 <= r < d,
            c > 0,
    ;
    lemma_fundamental_div_mod_converse((n * c) as int, (d * c) as int, q as int, (r * c) as int);
}

/// The whole number nearest to `n / d`, the even one of two equally near.
pub(crate) fn divide_to_nearest(n: u64, d: u64) -> (q: u64)
    requires
        0 < d <= 0x4000_0000_0000_0000,
        n <= 0x4000_0000_0000_0000,
    ensures
        q as nat == nearest(n as nat, d as nat),
{
    let q: u64 = n / d;
    let r: u64 = n % d;
    assert(q <= n) by (nonlinear_arith)
        requires
            q == n / d,
            d > 0,
    ;
    if 2 * r < d {
        q
    } else if 2 * r > d {
        q + 1
    } else {
        q + q % 2
    }
}

/// Splits a pattern into its significand and the power of two that scales it.
pub(crate) fn split(bits: u32) -> (r: (u64, u64))
    ensures
        r.0 as nat == significand_of(magnitude(bits)),
        r.1 as nat == scale_of(magnitude(bits)),
        r.0 < 0x100_0000,
        r.1 < 255,
        units(bits) == r.0 as nat * pow2(r.1 as nat),
{
    let m: u32 = bits % 0x8000_0000;
    if m < 0x80_0000 {
        (m as u64, 0)
    } else {
        ((0x80_0000 + m % 0x80_0000) as u64, (m / 0x80_0000 - 1) as u64)
    }
}

/// A single at most 1 in absolute value, times a small whole number, rounded to a single. The
/// result `(q, e)` stands for `q * 2^e` units; the sign is left out.
pub(crate) fn product(bits: u32, c: u64) -> (r: (u64, u64))
    requires
        magnitude(bits) <= ONE,
        0 < c < 0x8000,
    ensures
        r.0 as nat * pow2(r.1 as nat) == rounded(c as nat * units(bits), 1),
        r.0 <= 0x100_0000,
        r.1 <= 141,
{
    let (significand, scale): (u64, u64) = split(bits);
    assert(scale <= 126);
    assert(significand * c <= 0xff_ffff * 0x7fff) by (nonlinear_arith)
        requires
            significand <= 0xff_ffff,
            c <= 0x7fff,
    ;
    let p: u64 = significand * c;
    let mut top: u64 = p;
    let mut d: u64 = 1;
    let mut k: u64 = 0;
    proof {
        lemma2_to64();
    }
    while top >= 0x100_0000
        invariant
            d as nat == pow2(k as nat),
            excess(p as nat) == k + excess(top as nat),
            top * d <= p,
            p <= 0xff_ffff * 0x7fff,
            k <= 64,
            d > 0,
        decreases top,
    {
        proof {
            lemma_pow2_unfold((k + 1) as nat);
            assert(d <= p) by (nonlinear_arith)
                requires
                    top * d <= p,
                    top >= 1,
            ;
            assert((top / 2) * (2 * d) <= p) by (nonlinear_arith)
                requires
                    top * d <= p,
            ;
            lemma_excess_bounds(p as nat);
            if k >= 16 {
                if k > 16 {
                    lemma_pow2_strictly_increases(16, k as nat);
                }
                lemma2_to64();
                assert(top * d >= 0x100_0000 * 0x1_0000) by (nonlinear_arith)
                    requires
                        top >= 0x100_0000,
                        d >= 0x1_0000,
                ;
                assert(false);
            }
        }
        top = top / 2;
        d = 2 * d;
        k = k + 1;
    }
    proof {
        lemma_excess_bounds(p as nat);
        lemma2_to64();
        if k >= 16 {
            if k > 16 {
                lemma_pow2_strictly_increases(16, k as nat);
            }
            assert(false);
        }
        lemma_rounded_scales(p as nat, scale as nat);
        assert(c * units(bits) == p * pow2(scale as nat)) by (nonlinear_arith)
            requires
                units(bits) == significand as nat * pow2(scale as nat),
                p == significand * c,
        ;
        lemma_nearest_close(p as nat, d as nat);
        let q = nearest(p as nat, d as nat);
        assert(q <= 0x100_0000) by (nonlinear_arith)
            requires
                2 * (q * d) <= 2 * p + d,
                p < 0x100_0000 * d,
                d > 0,
        ;
    }
    let q: u64 = divide_to_nearest(p, d);
    (q, k + scale)
}

/// What a magnitude stands for: small ones count units, and every step of the exponent doubles.
pub proof fn law_every_exponent_step_doubles(m: nat)
    ensures
        m < 0x100_0000 ==> units_of(m) == m,
        m >= 0x80_0000 ==> units_of(m + 0x80_0000) == 2 * units_of(m),
{
    lemma2_to64();
    if m < 0x100_0000 {
        assert(significand_of(m) * 1 == m);
    }
    if m >= 0x80_0000 {
        let s = scale_of(m);
        lemma_pow2_unfold(s + 1);
        assert(significand_of(m) * (2 * pow2(s)) == 2 * (significand_of(m) * pow2(s)))
            by (nonlinear_arith);
    }
}

/// No whole number is nearer to a quotient than its nearest, and of two equally near ones it is the
/// even one.
pub proof fn law_nearest_is_the_nearest(n: nat, d: nat, j: nat)
    requires
        d > 0,
    ensures
        off_by(nearest(n, d), n, d) <= off_by(j, n, d),
        off_by(j, n, d) == off_by(nearest(n, d), n, d) && j != nearest(n, d) ==> nearest(n, d) % 2 == 0,
{
    lemma_nearest_is_nearest(n, d, j);
    let q = n / d;
    let r = n % d;
    lemma_fundamental_div_mod(n as int, d as int);
    assert(n == q * d + r) by (nonlinear_arith)
        requires
            n == d * q + r,
    ;
    assert((q + 1) * d == q * d + d) by (nonlinear_arith);
    if j < q {
        assert(j * d + d <= q * d) by (nonlinear_arith)
            requires
                j + 1 <= q,
        ;
    }
    if j > q + 1 {
        assert(j * d >= q * d + d + d) by (nonlinear_arith)
            requires
                j >= q + 2,
        ;
    }
}

/// Half way between two neighbouring singles, the even one of them is taken.
pub proof fn law_ties_go_to_the_even_single(n: nat, d: nat, m: nat)
    requires
        d > 0,
        2 * n == (units_of(m) + units_of(m + 1)) * d,
    ensures
        rounded(n, d) == units_of(m + m % 2),
{
    let s = scale_of(m);
    let g = significand_of(m);
    let p = pow2(s);
    lemma_pow2_pos(s);
    lemma_units_step(m);
    lemma2_to64();
    let e = d * p;
    assert(e > 0) by (nonlinear_arith)
        requires
            e == d * p,
            d > 0,
            p > 0,
    ;
    assert(2 * n == 2 * (g * e) + e) by (nonlinear_arith)
        requires
            2 * n == (g * p + g * p + p) * d,
            e == d * p,
    ;
    let r = (n - g * e) as nat;
    assert(2 * r == e);
    lemma_fundamental_div_mod_converse(n as int, e as int, g as int, r as int);
    let w = n / d;
    lemma_fundamental_div_mod(n as int, d as int);
    assert(w >= g * p) by (nonlinear_arith)
        requires
            n >= g * e,
            e == d * p,
            n == d * w + n % d,
            0 <= n % d < d,
    ;
    let top = (g + 1) * p;
    assert(n < d * top) by (nonlinear_arith)
        requires
            2 * n == 2 * (g * e) + e,
            e == d * p,
            e > 0,
            top == (g + 1) * p,
    ;
    assert(w < top) by (nonlinear_arith)
        requires
            n < d * top,
            n == d * w + n % d,
            0 <= n % d < d,
    ;
    assert((g + 1) * p <= 0x100_0000 * p) by (nonlinear_arith)
        requires
            g + 1 <= 0x100_0000,
    ;
    if s > 0 {
        assert(g * p >= 0x80_0000 * p) by (nonlinear_arith)
            requires
                g >= 0x80_0000,
        ;
    }
    lemma_excess_is(w, s);
    assert(nearest(n, e) == g + g % 2);
    assert(g % 2 == m % 2);
    assert((g + 1) * p == g * p + p) by (nonlinear_arith);
}

/// Limiting gives the nearest number within the bounds; what lies within them stays as it is, and
/// so does what is not a number.
pub proof fn law_limiting_gives_the_nearest_within(a: u32, lo: u32, hi: u32, x: u32)
    requires
        value(lo) <= value(x) <= value(hi),
    ensures
        is_nan(a) ==> clamped(a, lo, hi) == a,
        value(lo) <= value(a) <= value(hi) ==> clamped(a, lo, hi) == a,
        !is_nan(a) ==> {
            &&& value(lo) <= value(clamped(a, lo, hi)) <= value(hi)
            &&& value(a) <= value(lo) ==> value(clamped(a, lo, hi)) == value(lo)
            &&& value(a) >= value(hi) ==> value(clamped(a, lo, hi)) == value(hi)
            &&& value(a) <= value(x) ==> value(clamped(a, lo, hi)) <= value(x)
            &&& value(a) >= value(x) ==> value(clamped(a, lo, hi)) >= value(x)
        },
{
}

/// A single that is nearer to a quotient than every other, or as near as the nearest other and even,
/// is what the quotient is rounded to.
pub proof fn law_the_nearest_single_is_taken(n: nat, d: nat, m: nat)
    requires
        d > 0,
        forall|j: nat|
            j != m ==> {
                let near = off_by(units_of(m), n, d);
                let other = off_by(#[trigger] units_of(j), n, d);
                near < other || near == other && m % 2 == 0
            },
    ensures
        rounded(n, d) == units_of(m),
{
    law_rounded_is_the_nearest_single(n, d, m);
    let r = choose|r: nat| #[trigger] units_of(r) == rounded(n, d);
    if r != m {
        let (low, high) = if r < m {
            (r, m)
        } else {
            (m, r)
        };
        let x = units_of(low);
        let y = units_of(high);
        assert(off_by(x, n, d) == off_by(y, n, d));
        lemma_units_increase(low, high);
        assert(x * d < y * d) by (nonlinear_arith)
            requires
                x < y,
                d > 0,
        ;
        assert(2 * n == x * d + y * d);
        if low + 1 < high {
            let z = units_of(low + 1);
            lemma_units_increase(low, low + 1);
            lemma_units_increase(low + 1, high);
            assert(x * d < z * d < y * d) by (nonlinear_arith)
                requires
                    x < z < y,
                    d > 0,
            ;
            assert(off_by(z, n, d) < off_by(x, n, d));
            assert(false);
        }
        assert(2 * n == (x + y) * d) by (nonlinear_arith)
            requires
                2 * n == x * d + y * d,
        ;
        law_ties_go_to_the_even_single(n, d, low);
    }
}

/// How a pattern is laid out: the sign in the highest bit, then eight bits of exponent, then the
/// fraction. It is not a number if the exponent is all ones and the fraction is not zero. The sign
/// does not change how far a number is from zero, and 1.0 is one.
pub proof fn law_patterns_have_their_layout(bits: u32)
    ensures
        negative(bits) <==> bits / 0x8000_0000 == 1,
        is_nan(bits) <==> bits / 0x80_0000 % 0x100 == 0xff && bits % 0x80_0000 != 0,
        units(bits) == units_of((bits % 0x8000_0000) as nat),
        value(bits) == if bits / 0x8000_0000 == 1 {
            -units(bits)
        } else {
            units(bits) as int
        },
        units(0x3f80_0000) == one(),
{
    lemma_units_of_bounds();
}

} // verus!
