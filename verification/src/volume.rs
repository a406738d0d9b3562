//! Loudness: the settings slider, the speaker's volume and the text that keeps it.
use vstd::arithmetic::div_mod::{
    lemma_fundamental_div_mod, lemma_fundamental_div_mod_converse,
};
use vstd::arithmetic::power2::{
    lemma2_to64, lemma2_to64_rest, lemma_pow2_adds, lemma_pow2_pos, lemma_pow2_strictly_increases,
    lemma_pow2_unfold, pow2,
};
use vstd::prelude::*;

use crate::decimal;
use crate::single;
use crate::single::{clamp, divide_to_nearest, product, split, ONE, ZERO};

verus! {

/// A volume: 0 is silent, 1 is full. It is a single-precision number, held as its pattern.
#[derive(Clone, Copy, Debug, PartialEq, Eq, Structural)]
pub struct Volume {
    pub bits: u32,
}

/// The pattern of the volume of the first connection, a quarter: kept low, so that it does not
/// blast.
pub const DEFAULT_VOLUME: u32 = 0x3e80_0000;

/// A volume limited to the range from 0 to 1.
pub open spec fn limited(v: Volume) -> Volume {
    Volume { bits: single::clamped(v.bits, ZERO, ONE) }
}

/// The slider position for a volume, in percent: the product with 100 in single precision, rounded
/// to the nearest whole number.
pub open spec fn position(v: Volume) -> int {
    let bits = limited(v).bits;
    if single::is_nan(bits) {
        0
    } else {
        let percent = single::rounded(100 * single::units(bits), 1);
        ((2 * percent + single::one()) / (2 * single::one())) as int
    }
}

/// The nearest position that the slider has.
pub open spec fn on_slider(pos: int) -> nat {
    if pos < 0 {
        0
    } else if pos > 100 {
        100
    } else {
        pos as nat
    }
}

/// The volume for a slider position, in units: the single nearest to that many hundredths.
pub open spec fn slider_units(pos: int) -> nat {
    single::rounded(on_slider(pos) * single::one(), 100)
}

/// The volume that a kept pattern gives at start.
pub open spec fn loaded(bits: u32) -> Volume {
    if single::is_nan(bits) {
        Volume { bits: DEFAULT_VOLUME }
    } else {
        limited(Volume { bits })
    }
}

/// A limited volume stays within the unit range.
proof fn lemma_limited(v: Volume)
    requires
        !single::is_nan(v.bits),
    ensures
        !single::is_nan(limited(v).bits),
        single::magnitude(limited(v).bits) <= ONE,
        single::units(limited(v).bits) <= single::one(),
{
    single::lemma_units_of_bounds();
    let m = single::magnitude(v.bits);
    if m > ONE {
        single::lemma_units_increase(ONE as nat, m);
    }
    let l = single::magnitude(limited(v).bits);
    if l < ONE {
        single::lemma_units_increase(l, ONE as nat);
    }
}

/// A volume within the range is left as it is.
proof fn lemma_within(v: Volume)
    requires
        !single::negative(v.bits),
        single::magnitude(v.bits) <= ONE,
    ensures
        limited(v) == v,
{
    single::lemma_units_of_bounds();
    let m = single::magnitude(v.bits);
    if m < ONE {
        single::lemma_units_increase(m, ONE as nat);
    }
}

/// Where the settings slider stands for a volume.
pub fn slider_position(v: Volume) -> (pos: i32)
    ensures
        pos == position(v),
        0 <= pos <= 100,
{
    proof {
        single::lemma_units_of_bounds();
        lemma_pow2_pos(149);
    }
    if v.bits % 0x8000_0000 > 0x7f80_0000 {
        return 0;
    }
    proof {
        lemma_limited(v);
    }
    let bits: u32 = clamp(v.bits, ZERO, ONE);
    let (q, e): (u64, u64) = product(bits, 100);
    let shift: u64 = 149 - e;
    let ghost d = pow2(shift as nat);
    let ghost percent = single::rounded(100 * single::units(bits), 1);
    proof {
        lemma_pow2_pos(shift as nat);
        lemma_pow2_pos(e as nat);
        lemma_pow2_adds(shift as nat, e as nat);
        let f = pow2(e as nat);
        assert((2 * q + d) * f == 2 * percent + single::one()) by (nonlinear_arith)
            requires
                q * f == percent,
                d * f == single::one(),
        ;
        assert((2 * d) * f == 2 * single::one()) by (nonlinear_arith)
            requires
                d * f == single::one(),
        ;
        single::lemma_quotient_scales((2 * q + d) as nat, 2 * d, f);
        single::lemma_rounded_close(100 * single::units(bits), 1);
        assert((2 * percent + single::one()) / (2 * single::one()) <= 100) by (nonlinear_arith)
            requires
                single::one() > 0,
                0x100_0000 * percent <= 0x100_0001 * (100 * single::units(bits)),
                single::units(bits) <= single::one(),
        ;
    }
    if shift >= 26 {
        proof {
            if shift > 26 {
                lemma_pow2_strictly_increases(26, shift as nat);
            }
            lemma2_to64();
            lemma_fundamental_div_mod_converse(2 * q + d, 2 * d as int, 0, 2 * q + d);
        }
        0
    } else {
        proof {
            if shift < 26 {
                lemma_pow2_strictly_increases(shift as nat, 26);
            }
            lemma2_to64();
            vstd::bits::lemma_u64_shl_is_mul(1, shift);
        }
        let unit: u64 = 1u64 << shift;
        ((2 * q + unit) / (2 * unit)) as i32
    }
}

/// The volume for a position of the settings slider.
pub fn from_slider(pos: i32) -> (v: Volume)
    ensures
        !single::negative(v.bits),
        single::units(v.bits) == slider_units(pos as int),
        single::magnitude(v.bits) <= ONE,
{
    let p: u64 = if pos < 0 {
        0
    } else if pos > 100 {
        100
    } else {
        pos as u64
    };
    proof {
        single::lemma_units_of_bounds();
        lemma2_to64();
        lemma_pow2_pos(149);
    }
    if p == 0 {
        proof {
            lemma_fundamental_div_mod_converse(0, 100, 0, 0);
            assert(0 * single::one() == 0);
            single::lemma_nearest_exact(0, 100);
        }
        return Volume { bits: 0 };
    }
    let mut n: u64 = p;
    let mut j: u64 = 0;
    while n < 100 * 0x80_0000
        invariant
            1 <= p <= 100,
            n == p * pow2(j as nat),
            n < 100 * 0x100_0000,
            j <= 30,
        decreases 30 - j,
    {
        proof {
            lemma_pow2_pos(j as nat);
            lemma_pow2_unfold((j + 1) as nat);
            assert(n >= pow2(j as nat)) by (nonlinear_arith)
                requires
                    n == p * pow2(j as nat),
                    p >= 1,
            ;
            assert(2 * n == p * (2 * pow2(j as nat))) by (nonlinear_arith)
                requires
                    n == p * pow2(j as nat),
            ;
            if j >= 30 {
                lemma2_to64();
            }
        }
        n = 2 * n;
        j = j + 1;
    }
    let q: u64 = divide_to_nearest(n, 100);
    proof {
        if j < 23 {
            lemma_pow2_strictly_increases(j as nat, 23);
            lemma2_to64();
            assert(n < 100 * 0x80_0000) by (nonlinear_arith)
                requires
                    n == p * pow2(j as nat),
                    p <= 100,
                    pow2(j as nat) < 0x80_0000,
            ;
        }
    }
    let k: u64 = 149 - j;
    proof {
        let f = pow2(k as nat);
        lemma_pow2_pos(k as nat);
        lemma_pow2_adds(j as nat, k as nat);
        assert(p * single::one() == n * f) by (nonlinear_arith)
            requires
                n == p * pow2(j as nat),
                single::one() == pow2(j as nat) * f,
        ;
        let whole = ((n * f) / 100) as nat;
        lemma_fundamental_div_mod((n * f) as int, 100);
        assert(n * f >= 100 * (0x80_0000 * f)) by (nonlinear_arith)
            requires
                n >= 100 * 0x80_0000,
        ;
        assert(n * f < 100 * (0x100_0000 * f)) by (nonlinear_arith)
            requires
                n < 100 * 0x100_0000,
                f > 0,
        ;
        single::lemma_excess_is(whole, k as nat);
        single::lemma_nearest_scales(n as nat, 100, f);
        assert(slider_units(pos as int) == q * f);
        single::lemma_nearest_close(n as nat, 100);
        assert(0x80_0000 <= q <= 0x100_0000);
        if j == 23 {
            lemma2_to64();
            assert(n == p * 0x80_0000);
            assert(p == 100);
            assert(q == 0x80_0000);
        }
        single::lemma_pattern(q as nat, k as nat);
    }
    Volume { bits: (k * 0x80_0000 + q) as u32 }
}

/// The volume in thousandths, rounded to the nearest whole number, the even one of two equally
/// near.
pub open spec fn thousandths(v: Volume) -> nat {
    single::nearest(1000 * single::units(v.bits), single::one())
}

/// The text that keeps a volume across restarts: the limited volume to three decimals.
pub open spec fn volume_text(v: Volume) -> Seq<u8> {
    let kept = limited(v);
    if single::is_nan(kept.bits) {
        // NaN
        seq![0x4eu8, 0x61u8, 0x4eu8]
    } else {
        let sign = if single::negative(kept.bits) {
            seq![0x2du8]
        } else {
            Seq::<u8>::empty()
        };
        let k = thousandths(kept);
        sign + seq![
            decimal::last_digit(k / 1000),
            0x2eu8,
            decimal::last_digit(k / 100),
            decimal::last_digit(k / 10),
            decimal::last_digit(k),
        ]
    }
}

/// The volume to use at start: the kept one, limited to the range from 0 to 1, or the default if
/// none was kept or what was kept is not a number. The kept text is read by the caller, who passes
/// the pattern of what it holds.
pub fn load_volume(kept: Option<u32>) -> (v: Volume)
    ensures
        kept is None ==> v.bits == DEFAULT_VOLUME,
        kept is None ==> v.bits == 0x3e80_0000,
        kept matches Some(bits) ==> v == loaded(bits),
        !single::is_nan(v.bits),
        0 <= single::value(v.bits) <= single::one(),
{
    proof {
        single::lemma_units_of_bounds();
        single::lemma_units_increase(DEFAULT_VOLUME as nat, ONE as nat);
    }
    match kept {
        None => Volume { bits: DEFAULT_VOLUME },
        Some(bits) => {
            if bits % 0x8000_0000 > 0x7f80_0000 {
                Volume { bits: DEFAULT_VOLUME }
            } else {
                proof {
                    lemma_limited(Volume { bits });
                }
                Volume { bits: clamp(bits, ZERO, ONE) }
            }
        },
    }
}

/// The thousandths of a volume within the unit range.
fn to_thousandths(v: Volume) -> (k: u64)
    requires
        single::magnitude(v.bits) <= ONE,
    ensures
        k as nat == thousandths(v),
{
    let (significand, scale): (u64, u64) = split(v.bits);
    let n: u64 = significand * 1000;
    let shift: u64 = 149 - scale;
    let ghost f = pow2(scale as nat);
    let ghost d = pow2(shift as nat);
    proof {
        lemma_pow2_pos(scale as nat);
        lemma_pow2_pos(shift as nat);
        lemma_pow2_adds(shift as nat, scale as nat);
        assert(1000 * single::units(v.bits) == n * f) by (nonlinear_arith)
            requires
                single::units(v.bits) == significand as nat * f,
                n == significand * 1000,
        ;
        single::lemma_nearest_scales(n as nat, d, f);
    }
    if shift >= 36 {
        proof {
            if shift > 36 {
                lemma_pow2_strictly_increases(36, shift as nat);
            }
            lemma2_to64_rest();
            lemma_fundamental_div_mod_converse(n as int, d as int, 0, n as int);
        }
        0
    } else {
        proof {
            if shift < 36 {
                lemma_pow2_strictly_increases(shift as nat, 36);
            }
            lemma2_to64_rest();
            vstd::bits::lemma_u64_shl_is_mul(1, shift);
        }
        divide_to_nearest(n, 1u64 << shift)
    }
}

/// The text that keeps a volume across restarts.
pub fn save_volume(v: Volume) -> (text: Vec<u8>)
    ensures
        text@ == volume_text(v),
{
    let mut text: Vec<u8> = Vec::new();
    proof {
        single::lemma_units_of_bounds();
    }
    if v.bits % 0x8000_0000 > 0x7f80_0000 {
        text.push(0x4e);
        text.push(0x61);
        text.push(0x4e);
        assert(text@ == volume_text(v));
        return text;
    }
    proof {
        lemma_limited(v);
    }
    let kept: Volume = Volume { bits: clamp(v.bits, ZERO, ONE) };
    let k: u64 = to_thousandths(kept);
    if kept.bits >= 0x8000_0000 {
        text.push(0x2d);
    }
    text.push((0x30 + k / 1000 % 10) as u8);
    text.push(0x2e);
    text.push((0x30 + k / 100 % 10) as u8);
    text.push((0x30 + k / 10 % 10) as u8);
    text.push((0x30 + k % 10) as u8);
    assert(text@ == volume_text(v));
    text
}

/// Limiting a volume that is already limited changes nothing.
pub proof fn law_limiting_is_idempotent(v: Volume)
    ensures
        limited(limited(v)) == limited(v),
{
    single::lemma_units_of_bounds();
}

/// Nothing rounds to nothing.
proof fn lemma_rounded_zero(d: nat)
    requires
        d > 0,
    ensures
        single::rounded(0, d) == 0,
{
    lemma2_to64();
    lemma_fundamental_div_mod_converse(0, d as int, 0, 0);
    let k = single::excess(0nat / d);
    assert(k == 0);
    assert(d * pow2(k) == d) by (nonlinear_arith)
        requires
            pow2(k) == 1,
    ;
    single::lemma_nearest_exact(0, d);
    assert(single::nearest(0, d) == 0);
    assert(0 * pow2(k) == 0);
}

/// The facts behind a slider setting: it lies within one part in 2^24 of its hundredths.
proof fn lemma_slider_units(pos: int)
    requires
        0 <= pos <= 100,
    ensures
        0x100_0000 * (100 * slider_units(pos)) <= 0x100_0001 * (pos * single::one()),
        0x100_0000 * (100 * slider_units(pos)) >= 0xff_ffff * (pos * single::one()),
        pos * single::one() <= 100 * single::one(),
{
    let n = (pos * single::one()) as nat;
    lemma2_to64();
    lemma_pow2_pos(149);
    lemma_pow2_strictly_increases(30, 149);
    assert(n <= 100 * single::one()) by (nonlinear_arith)
        requires
            n == pos * single::one(),
            pos <= 100,
    ;
    if pos == 0 {
        assert(n == 0);
        assert(on_slider(pos) * single::one() == 0);
        lemma_rounded_zero(100);
    } else {
        assert(n >= single::one()) by (nonlinear_arith)
            requires
                n == pos * single::one(),
                pos >= 1,
        ;
        single::lemma_rounded_close(n, 100);
    }
}

/// A slider position survives the way into a volume and back: the slider opens where it was left.
pub proof fn law_slider_position_survives(v: Volume, pos: int)
    requires
        0 <= pos <= 100,
        !single::negative(v.bits),
        single::units(v.bits) == slider_units(pos),
        single::magnitude(v.bits) <= ONE,
    ensures
        position(v) == pos,
{
    let one = single::one();
    let u = single::units(v.bits);
    let a = pos * one;
    let percent = single::rounded(100 * u, 1);
    single::lemma_units_of_bounds();
    lemma_slider_units(pos);
    lemma_pow2_pos(149);
    lemma2_to64();
    lemma_pow2_strictly_increases(30, 149);
    single::lemma_rounded_close(100 * u, 1);
    lemma_within(v);
    assert(2 * percent + one == pos * (2 * one) + (2 * percent + one - 2 * a)) by (nonlinear_arith)
        requires
            a == pos * one,
    ;
    lemma_fundamental_div_mod_converse(
        (2 * percent + one) as int,
        (2 * one) as int,
        pos,
        2 * percent + one - 2 * a,
    );
}

/// A slider setting survives being kept: the kept text has its hundredths, the single nearest to
/// the number in the text is the setting itself, and loading that single gives the setting back.
pub proof fn law_slider_setting_is_kept(v: Volume, pos: int)
    requires
        0 <= pos <= 100,
        !single::negative(v.bits),
        single::units(v.bits) == slider_units(pos),
        single::magnitude(v.bits) <= ONE,
    ensures
        thousandths(limited(v)) == 10 * pos,
        single::rounded(thousandths(limited(v)) * single::one(), 1000) == single::units(v.bits),
        forall|bits: u32|
            !single::negative(bits) && #[trigger] single::units(bits) == single::rounded(
                thousandths(limited(v)) * single::one(),
                1000,
            ) ==> loaded(bits) == v,
{
    let one = single::one();
    let u = single::units(v.bits);
    single::lemma_units_of_bounds();
    lemma_slider_units(pos);
    lemma_pow2_pos(149);
    lemma_within(v);
    let k = (10 * pos) as nat;
    let n = 1000 * u;
    // `n` is within half of `k * one`.
    assert(k * one == 10 * (pos * one)) by (nonlinear_arith)
        requires
            k == 10 * pos,
    ;
    if n >= k * one {
        lemma_fundamental_div_mod_converse(n as int, one as int, k as int, n - k * one);
    } else {
        assert((k - 1) * one == k * one - one) by (nonlinear_arith);
        lemma_fundamental_div_mod_converse(n as int, one as int, k - 1, n - (k - 1) * one);
    }
    let w = (pos * one) as nat;
    assert(w * 10 == k * one);
    single::lemma_quotient_scales(w, 100, 10);
    let e = single::excess(w / 100);
    lemma_pow2_pos(e);
    single::lemma_nearest_scales(w, 100 * pow2(e), 10);
    assert(1000 * pow2(e) == (100 * pow2(e)) * 10);
    assert forall|bits: u32|
        !single::negative(bits) && #[trigger] single::units(bits) == single::units(
            v.bits,
        ) implies loaded(bits) == v by {
        let a = single::magnitude(bits);
        let b = single::magnitude(v.bits);
        if a < b {
            single::lemma_units_increase(a, b);
        }
        if b < a {
            single::lemma_units_increase(b, a);
        }
    }
}

/// Any volume survives being kept up to the three decimals of the text: if the single read back is
/// the nearest to the number in the text, the volume at start is within 0.000501 of the limited
/// one.
pub proof fn law_any_volume_is_nearly_kept(v: Volume, bits: u32)
    requires
        !single::is_nan(v.bits),
        !single::is_nan(bits),
        single::negative(bits) == single::negative(limited(v).bits),
        single::units(bits) == single::rounded(thousandths(limited(v)) * single::one(), 1000),
    ensures
        1_000_000 * (single::value(loaded(bits).bits) - single::value(limited(v).bits)) <= 501
            * single::one(),
        1_000_000 * (single::value(limited(v).bits) - single::value(loaded(bits).bits)) <= 501
            * single::one(),
{
    let one = single::one();
    let kept = limited(v);
    let u = single::units(kept.bits);
    let k = thousandths(kept);
    let r = single::units(bits);
    single::lemma_units_of_bounds();
    lemma_limited(v);
    lemma_pow2_pos(149);
    lemma2_to64_rest();
    lemma_pow2_strictly_increases(40, 149);
    single::lemma_nearest_close(1000 * u, one);
    assert(k <= 1000) by (nonlinear_arith)
        requires
            2 * (k * one) <= 2 * (1000 * u) + one,
            u <= one,
            one > 0,
    ;
    assert(k * one <= 1000 * one) by (nonlinear_arith)
        requires
            k <= 1000,
    ;
    if k == 0 {
        assert(0 * one == 0);
        lemma_rounded_zero(1000);
    } else {
        assert(k * one >= one) by (nonlinear_arith)
            requires
                k >= 1,
        ;
        single::lemma_rounded_close(k * one, 1000);
    }
}

/// A volume within the range from 0 to 1 is left as it is; one below becomes 0, one above 1; what is
/// not a number stays so.
pub proof fn law_volumes_are_limited(v: Volume)
    ensures
        single::is_nan(v.bits) ==> limited(v) == v,
        0 <= single::value(v.bits) <= single::one() ==> limited(v) == v,
        !single::is_nan(v.bits) && single::value(v.bits) < 0 ==> limited(v).bits == 0,
        !single::is_nan(v.bits) && single::value(v.bits) > single::one() ==> limited(v).bits
            == 0x3f80_0000,
{
    single::lemma_units_of_bounds();
    lemma_pow2_pos(149);
}

/// The volume at start is the kept one within the range; beyond it, the bound; a quarter where what
/// was kept is not a number.
pub proof fn law_start_volume_is_the_kept_one(bits: u32)
    ensures
        single::is_nan(bits) ==> 4 * single::value(loaded(bits).bits) == single::one(),
        !single::is_nan(bits) && 0 <= single::value(bits) <= single::one() ==> loaded(bits).bits
            == bits,
        !single::is_nan(bits) && single::value(bits) < 0 ==> loaded(bits).bits == 0,
        !single::is_nan(bits) && single::value(bits) > single::one() ==> loaded(bits).bits
            == 0x3f80_0000,
        4 * single::value(DEFAULT_VOLUME) == single::one(),
{
    law_volumes_are_limited(Volume { bits });
    lemma2_to64();
    lemma_pow2_adds(23, 126);
    lemma_pow2_adds(2, 124);
    assert(single::scale_of(0x3e80_0000) == 124);
    assert(single::significand_of(0x3e80_0000) == 0x80_0000);
    assert(4 * (0x80_0000 * pow2(124)) == 0x80_0000 * (4 * pow2(124))) by (nonlinear_arith);
}

/// The slider stands at the whole percentage nearest to the volume, up to the rounding of the
/// product with 100; beyond the range it stands at the end, and for what is not a number at 0.
pub proof fn law_slider_stands_at_the_nearest_percentage(v: Volume)
    ensures
        single::is_nan(v.bits) ==> position(v) == 0,
        !single::is_nan(v.bits) ==> {
            let percent = 100 * single::units(limited(v).bits);
            let here = position(v) * single::one();
            &&& 0 <= position(v) <= 100
            &&& 0x100_0000 * (2 * here - single::one()) <= 2 * (0x100_0001 * percent)
            &&& 0x100_0000 * (2 * here + single::one()) >= 2 * (0xff_ffff * percent)
        },
        !single::is_nan(v.bits) && single::value(v.bits) <= 0 ==> position(v) == 0,
        !single::is_nan(v.bits) && single::value(v.bits) >= single::one() ==> position(v) == 100,
{
    let one = single::one();
    single::lemma_units_of_bounds();
    lemma_pow2_pos(149);
    if !single::is_nan(v.bits) {
        lemma_limited(v);
        let u = single::units(limited(v).bits);
        let percent = single::rounded(100 * u, 1);
        single::lemma_rounded_close(100 * u, 1);
        let pos = (2 * percent + one) / (2 * one);
        lemma_fundamental_div_mod((2 * percent + one) as int, (2 * one) as int);
        let here = pos * one;
        assert(2 * here <= 2 * percent + one < 2 * here + 2 * one) by (nonlinear_arith)
            requires
                2 * percent + one == (2 * one) * pos + (2 * percent + one) % (2 * one),
                0 <= (2 * percent + one) % (2 * one) < 2 * one,
                here == pos * one,
        ;
        assert(pos <= 100) by (nonlinear_arith)
            requires
                0x100_0000 * percent <= 0x100_0001 * (100 * u),
                u <= one,
                2 * here <= 2 * percent + one,
                here == pos * one,
                one > 0,
        ;
        if single::value(v.bits) <= 0 {
            assert(u == 0);
            lemma_fundamental_div_mod_converse(one as int, (2 * one) as int, 0, one as int);
        }
        if single::value(v.bits) >= one {
            assert(u == one);
            assert(pos >= 100) by (nonlinear_arith)
                requires
                    0x100_0000 * percent >= 0xff_ffff * (100 * one),
                    2 * percent + one < 2 * here + 2 * one,
                    here == pos * one,
                    one > 0,
            ;
        }
    }
}

/// Where the slider stands, exactly: the single that comes nearest to 100 times the volume, the even
/// one of two that are equally near, is rounded to the nearest whole number, halves up.
pub proof fn law_percentage_is_the_nearest_single(v: Volume, m: nat)
    requires
        !single::is_nan(v.bits),
        forall|j: nat|
            j != m ==> {
                let n = 100 * single::units(limited(v).bits);
                let near = single::off_by(single::units_of(m), n, 1);
                let other = single::off_by(#[trigger] single::units_of(j), n, 1);
                near < other || near == other && m % 2 == 0
            },
    ensures
        2 * (position(v) * single::one()) <= 2 * single::units_of(m) + single::one(),
        2 * single::units_of(m) < 2 * (position(v) * single::one()) + single::one(),
{
    let one = single::one();
    lemma_pow2_pos(149);
    single::lemma_units_of_bounds();
    lemma_limited(v);
    single::law_the_nearest_single_is_taken(100 * single::units(limited(v).bits), 1, m);
    let percent = single::units_of(m);
    let pos = (2 * percent + one) / (2 * one);
    lemma_fundamental_div_mod((2 * percent + one) as int, (2 * one) as int);
    assert(2 * (pos * one) <= 2 * percent + one < 2 * (pos * one) + 2 * one) by (nonlinear_arith)
        requires
            2 * percent + one == (2 * one) * pos + (2 * percent + one) % (2 * one),
            0 <= (2 * percent + one) % (2 * one) < 2 * one,
    ;
}

/// A slider setting is the single that comes nearest to its hundredths, the even one of two that are
/// equally near; positions beyond the slider count as its ends.
pub proof fn law_slider_setting_is_the_nearest_single(pos: int, m: nat)
    requires
        0 <= pos <= 100,
        forall|j: nat|
            j != m ==> {
                let n = (pos * single::one()) as nat;
                let near = single::off_by(single::units_of(m), n, 100);
                let other = single::off_by(#[trigger] single::units_of(j), n, 100);
                near < other || near == other && m % 2 == 0
            },
    ensures
        slider_units(pos) == single::units_of(m),
{
    assert(pos * single::one() >= 0) by (nonlinear_arith)
        requires
            pos >= 0,
    ;
    single::law_the_nearest_single_is_taken((pos * single::one()) as nat, 100, m);
}

/// The ends of the slider are silence and full volume, also for positions beyond them; in between,
/// a setting is off its hundredths by at most one part in 2^24.
pub proof fn law_slider_settings_are_hundredths(pos: int)
    ensures
        pos <= 0 ==> slider_units(pos) == 0,
        pos >= 100 ==> slider_units(pos) == single::one(),
        0 <= pos <= 100 ==> {
            &&& 0x100_0000 * (100 * slider_units(pos)) <= 0x100_0001 * (pos * single::one())
            &&& 0x100_0000 * (100 * slider_units(pos)) >= 0xff_ffff * (pos * single::one())
        },
{
    let one = single::one();
    if 0 <= pos <= 100 {
        lemma_slider_units(pos);
    }
    if pos <= 0 {
        assert(0 * one == 0);
        lemma_rounded_zero(100);
    }
    if pos >= 100 {
        single::lemma_units_of_bounds();
        let m: nat = 0x3f80_0000;
        assert(single::magnitude(ONE) == m);
        assert forall|j: nat| j != m implies single::off_by(single::units_of(m), 100 * one, 100)
            < single::off_by(#[trigger] single::units_of(j), 100 * one, 100) by {
            if j < m {
                single::lemma_units_increase(j, m);
            } else {
                single::lemma_units_increase(m, j);
            }
        }
        single::law_the_nearest_single_is_taken(100 * one, 100, m);
    }
}

/// Half way between two counts of thousandths, the even one is taken.
proof fn lemma_even_thousandths(u: nat, k: nat)
    requires
        k == single::nearest(1000 * u, single::one()),
    ensures
        2 * (k * single::one()) == 2 * (1000 * u) + single::one() ==> k % 2 == 0,
        2 * (1000 * u) == 2 * (k * single::one()) + single::one() ==> k % 2 == 0,
{
    let one = single::one();
    lemma_pow2_pos(149);
    assert((k + 1) * one == k * one + one) by (nonlinear_arith);
    single::law_nearest_is_the_nearest(1000 * u, one, k + 1);
    if k > 0 {
        assert((k - 1) * one == k * one - one) by (nonlinear_arith);
        single::law_nearest_is_the_nearest(1000 * u, one, (k - 1) as nat);
    }
}

/// The four digits of a number up to 1000.
proof fn lemma_digits_of_thousandths(k: nat)
    requires
        k <= 1000,
    ensures
        k == 1000 * (decimal::last_digit(k / 1000) - 0x30) + 100 * (decimal::last_digit(k / 100)
            - 0x30) + 10 * (decimal::last_digit(k / 10) - 0x30) + (decimal::last_digit(k) - 0x30),
        0x30 <= decimal::last_digit(k / 1000) <= 0x31,
        0x30 <= decimal::last_digit(k / 100) <= 0x39,
        0x30 <= decimal::last_digit(k / 10) <= 0x39,
        0x30 <= decimal::last_digit(k) <= 0x39,
{
}

/// The kept text of a volume is its sign if it has one, a digit, a point and three digits, which
/// count the thousandths nearest to the limited volume, the even ones of two equally near; of what
/// is not a number, it says so.
pub proof fn law_kept_text_counts_thousandths(v: Volume)
    ensures
        single::is_nan(v.bits) ==> volume_text(v) == seq![0x4eu8, 0x61u8, 0x4eu8],
        !single::is_nan(v.bits) ==> {
            let t = volume_text(v);
            let s = if single::negative(limited(v).bits) {
                1int
            } else {
                0
            };
            let k = 1000 * (t[s] - 0x30) + 100 * (t[s + 2] - 0x30) + 10 * (t[s + 3] - 0x30) + (t[s
                + 4] - 0x30);
            let u = single::units(limited(v).bits);
            &&& t.len() == s + 5
            &&& s == 1 ==> t[0] == 0x2d
            &&& t[s + 1] == 0x2e
            &&& 0x30 <= t[s] <= 0x31 && 0x30 <= t[s + 2] <= 0x39
            &&& 0x30 <= t[s + 3] <= 0x39 && 0x30 <= t[s + 4] <= 0x39
            &&& k == thousandths(limited(v))
            &&& 2 * (k * single::one()) <= 2 * (1000 * u) + single::one()
            &&& 2 * (1000 * u) <= 2 * (k * single::one()) + single::one()
            &&& {
                ||| 2 * (k * single::one()) == 2 * (1000 * u) + single::one()
                ||| 2 * (1000 * u) == 2 * (k * single::one()) + single::one()
            } ==> k % 2 == 0
        },
{
    let one = single::one();
    lemma_pow2_pos(149);
    if !single::is_nan(v.bits) {
        lemma_limited(v);
        let u = single::units(limited(v).bits);
        let k = thousandths(limited(v));
        single::lemma_nearest_close(1000 * u, one);
        assert(k <= 1000) by (nonlinear_arith)
            requires
                2 * (k * one) <= 2 * (1000 * u) + one,
                u <= one,
                one > 0,
        ;
        lemma_even_thousandths(u, k);
        lemma_digits_of_thousandths(k);
        let text = volume_text(v);
        let sign = if single::negative(limited(v).bits) {
            1int
        } else {
            0
        };
        assert(text[sign] == decimal::last_digit(k / 1000));
        assert(text[sign + 1] == 0x2e);
        assert(text[sign + 2] == decimal::last_digit(k / 100));
        assert(text[sign + 3] == decimal::last_digit(k / 10));
        assert(text[sign + 4] == decimal::last_digit(k));
    }
}

} // verus!
