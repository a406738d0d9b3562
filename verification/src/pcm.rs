//! Captured audio: from the byte queue of the loopback device to 16-bit frames for the speaker.
use std::collections::VecDeque;

use vstd::arithmetic::div_mod::{
    lemma_div_is_ordered, lemma_fundamental_div_mod, lemma_fundamental_div_mod_converse,
};
use vstd::arithmetic::power2::{
    lemma2_to64, lemma_pow2_adds, lemma_pow2_pos, lemma_pow2_strictly_increases, pow2,
};
use vstd::prelude::*;

use crate::single;
use crate::single::{clamp, product, MINUS_ONE, ONE};

verus! {

/// Samples per second and channel, in capture and in the stream.
pub const RATE: u32 = 44_100;

/// Channels, in capture and in the stream.
pub const CHANNELS: u8 = 2;

/// Bits per captured sample: a single-precision number.
pub const SAMPLE_BITS: usize = 32;

/// Bytes that hold one captured sample of every channel.
pub const BYTES_PER_FRAME: usize = 8;

/// Samples in the silence that is sent while nothing plays: 50 ms of every channel.
pub const SILENCE_SAMPLES: usize = 4_410;

/// Milliseconds to wait for the capture device before looking again.
pub const CAPTURE_WAIT_MS: u32 = 50;

/// Frames that the live stream buffers.
pub const LIVE_BUFFER: usize = 32;

/// Interleaved 16-bit samples and the layout they have.
pub struct PcmFrame {
    pub samples: Vec<i16>,
    pub channels: u8,
    pub sample_rate: u32,
}

/// The 16-bit sample for a single-precision one: limited to the range from -1 to 1, multiplied by
/// 32767 in single precision, its fraction dropped. Not a number gives silence.
pub open spec fn pcm_sample(bits: u32) -> int {
    if single::is_nan(bits) {
        0
    } else {
        let limited = single::clamped(bits, MINUS_ONE, ONE);
        let loudness = single::rounded(
            32767 * single::units(limited),
            1,
        ) / single::one();
        if single::negative(limited) {
            -(loudness as int)
        } else {
            loudness as int
        }
    }
}

/// A magnitude within the unit range is at most that of 1.
proof fn lemma_limited(bits: u32)
    requires
        !single::is_nan(bits),
    ensures
        ({
            let limited = single::clamped(bits, MINUS_ONE, ONE);
            &&& single::magnitude(limited) <= ONE
            &&& !single::is_nan(limited)
        }),
{
    single::lemma_units_of_bounds();
    let m = single::magnitude(bits);
    if m > ONE {
        single::lemma_units_increase(ONE as nat, m);
    }
}

/// A sample within the unit range is at most 32767 loud.
proof fn lemma_loudness(bits: u32)
    requires
        single::magnitude(bits) <= ONE,
    ensures
        single::rounded(32767 * single::units(bits), 1) / single::one()
            <= 32767,
{
    let one = single::one();
    let n = 32767 * single::units(bits);
    let r = single::rounded(n, 1);
    single::lemma_units_of_bounds();
    let m = single::magnitude(bits);
    if m < ONE {
        single::lemma_units_increase(m, ONE as nat);
    }
    lemma_pow2_pos(149);
    single::lemma_rounded_close(n, 1);
    assert(r / one <= 32767) by (nonlinear_arith)
        requires
            one > 0,
            n <= 32767 * one,
            0x100_0000 * r <= 0x100_0001 * n,
    ;
}

/// Converts one captured sample.
pub fn to_pcm(bits: u32) -> (r: i16)
    ensures
        r as int == pcm_sample(bits),
        -32767 <= r <= 32767,
{
    if bits % 0x8000_0000 > 0x7f80_0000 {
        return 0;
    }
    proof {
        single::lemma_units_of_bounds();
        lemma_limited(bits);
        lemma_pow2_pos(149);
    }
    let limited: u32 = clamp(bits, MINUS_ONE, ONE);
    let (q, e): (u64, u64) = product(limited, 32767);
    let shift: u64 = 149 - e;
    proof {
        lemma_pow2_pos(shift as nat);
        lemma_pow2_pos(e as nat);
        lemma_pow2_adds(shift as nat, e as nat);
        single::lemma_quotient_scales(q as nat, pow2(shift as nat), pow2(e as nat));
    }
    let loudness: u64 = if shift >= 25 {
        proof {
            if shift > 25 {
                lemma_pow2_strictly_increases(25, shift as nat);
            }
            lemma2_to64();
            lemma_fundamental_div_mod_converse(q as int, pow2(shift as nat) as int, 0, q as int);
        }
        0
    } else {
        proof {
            vstd::bits::lemma_u64_shr_is_div(q, shift);
        }
        q >> shift
    };
    proof {
        lemma_loudness(limited);
    }
    if limited >= 0x8000_0000 {
        -(loudness as i16)
    } else {
        loudness as i16
    }
}

/// How loud a sample within the unit range becomes.
spec fn loudness(bits: u32) -> nat {
    single::rounded(32767 * single::units(bits), 1) / single::one()
}

/// More units are no less loud.
proof fn lemma_loudness_keeps_order(a: u32, b: u32)
    requires
        single::units(a) <= single::units(b),
    ensures
        loudness(a) <= loudness(b),
{
    lemma_pow2_pos(149);
    single::lemma_rounded_keeps_order(32767 * single::units(a), 32767 * single::units(b));
    lemma_div_is_ordered(
        single::rounded(32767 * single::units(a), 1) as int,
        single::rounded(32767 * single::units(b), 1) as int,
        single::one() as int,
    );
}

/// Conversion keeps the order of samples.
pub proof fn law_conversion_keeps_order(a: u32, b: u32)
    requires
        !single::is_nan(a),
        !single::is_nan(b),
        single::value(a) <= single::value(b),
    ensures
        pcm_sample(a) <= pcm_sample(b),
{
    single::lemma_units_of_bounds();
    let x = single::clamped(a, MINUS_ONE, ONE);
    let y = single::clamped(b, MINUS_ONE, ONE);
    assert(single::value(x) <= single::value(y));
    // The two zeros are equal and both silent.
    lemma_pow2_pos(149);
    single::lemma_rounded_close(0, 1);
    lemma_fundamental_div_mod_converse(0, single::one() as int, 0, 0);
    if single::units(x) <= single::units(y) {
        lemma_loudness_keeps_order(x, y);
    }
    if single::units(y) <= single::units(x) {
        lemma_loudness_keeps_order(y, x);
    }
}

/// Conversion treats both signs alike.
pub proof fn law_conversion_is_symmetric(a: u32, b: u32)
    requires
        !single::is_nan(a),
        single::magnitude(a) == single::magnitude(b),
        single::negative(a) != single::negative(b),
    ensures
        pcm_sample(a) == -pcm_sample(b),
{
    single::lemma_units_of_bounds();
    lemma_pow2_pos(149);
}

/// The pattern that four bytes hold, least significant first.
pub open spec fn pattern_at(bytes: Seq<u8>, at: int) -> u32 {
    (bytes[at] + 0x100 * bytes[at + 1] + 0x1_0000 * bytes[at + 2] + 0x100_0000 * bytes[at
        + 3]) as u32
}

/// The samples of the whole frames at the front of captured bytes.
pub open spec fn pcm_samples(bytes: Seq<u8>) -> Seq<i16> {
    Seq::new(
        bytes.len() / 8 * 2,
        |i: int| pcm_sample(pattern_at(bytes, 4 * i)) as i16,
    )
}

/// The bytes behind the last whole frame.
pub open spec fn leftover(bytes: Seq<u8>) -> Seq<u8> {
    bytes.skip((bytes.len() / 8 * 8) as int)
}

/// A converted sample fits into 16 bits.
proof fn lemma_range(bits: u32)
    ensures
        -32767 <= pcm_sample(bits) <= 32767,
{
    lemma_pow2_pos(149);
    if !single::is_nan(bits) {
        lemma_limited(bits);
        lemma_loudness(single::clamped(bits, MINUS_ONE, ONE));
    }
}

/// A sample within the unit range is left as it is.
proof fn lemma_within(bits: u32)
    requires
        single::units(bits) <= single::one(),
        !single::is_nan(bits),
    ensures
        single::clamped(bits, MINUS_ONE, ONE) == bits,
{
    single::lemma_units_of_bounds();
}

/// The four bytes of a pattern, least significant first, hold that pattern.
proof fn lemma_pattern_of_bytes(bytes: Seq<u8>, at: int, bits: u32)
    requires
        bytes[at] == bits % 0x100,
        bytes[at + 1] == bits / 0x100 % 0x100,
        bytes[at + 2] == bits / 0x1_0000 % 0x100,
        bytes[at + 3] == bits / 0x100_0000,
    ensures
        pattern_at(bytes, at) == bits,
{
}

/// Every sample, of either channel, is the conversion of the number that its own four bytes hold,
/// least significant first. There are two for every eight bytes.
pub proof fn law_each_sample_comes_from_its_own_bytes(bytes: Seq<u8>, i: int, bits: u32)
    requires
        0 <= i < 2 * (bytes.len() / 8),
        bytes[4 * i] == bits % 0x100,
        bytes[4 * i + 1] == bits / 0x100 % 0x100,
        bytes[4 * i + 2] == bits / 0x1_0000 % 0x100,
        bytes[4 * i + 3] == bits / 0x100_0000,
    ensures
        pcm_samples(bytes).len() == 2 * (bytes.len() / 8),
        pcm_samples(bytes)[i] == pcm_sample(bits),
{
    lemma_pattern_of_bytes(bytes, 4 * i, bits);
    lemma_range(bits);
}

/// Swapping the channels of what is captured swaps them in what is sent.
pub proof fn law_swapped_channels_stay_swapped(bytes: Seq<u8>, swapped: Seq<u8>, i: int)
    requires
        swapped.len() == bytes.len(),
        forall|k: int|
            0 <= k < 8 * (bytes.len() / 8) ==> #[trigger] swapped[k] == bytes[if k % 8 < 4 {
                k + 4
            } else {
                k - 4
            }],
        0 <= i < 2 * (bytes.len() / 8),
    ensures
        pcm_samples(swapped)[i] == pcm_samples(bytes)[if i % 2 == 0 {
            i + 1
        } else {
            i - 1
        }],
{
    let j = if i % 2 == 0 {
        i + 1
    } else {
        i - 1
    };
    assert(swapped[4 * i] == bytes[4 * j]);
    assert(swapped[4 * i + 1] == bytes[4 * j + 1]);
    assert(swapped[4 * i + 2] == bytes[4 * j + 2]);
    assert(swapped[4 * i + 3] == bytes[4 * j + 3]);
}

/// Negating everything that is captured, by the sign bit of every sample, negates everything that
/// is sent.
pub proof fn law_negated_samples_stay_negated(bytes: Seq<u8>, negated: Seq<u8>, i: int)
    requires
        negated.len() == bytes.len(),
        forall|k: int|
            0 <= k < bytes.len() ==> #[trigger] negated[k] == if k % 4 == 3 {
                (bytes[k] + 0x80) % 0x100
            } else {
                bytes[k] as int
            },
        0 <= i < 2 * (bytes.len() / 8),
    ensures
        pcm_samples(negated)[i] == -pcm_samples(bytes)[i],
{
    let a = pattern_at(bytes, 4 * i);
    let b = pattern_at(negated, 4 * i);
    assert(negated[4 * i] == bytes[4 * i]);
    assert(negated[4 * i + 1] == bytes[4 * i + 1]);
    assert(negated[4 * i + 2] == bytes[4 * i + 2]);
    assert(negated[4 * i + 3] == (bytes[4 * i + 3] + 0x80) % 0x100);
    assert(single::magnitude(a) == single::magnitude(b));
    assert(single::negative(a) != single::negative(b));
    lemma_range(a);
    lemma_range(b);
    if !single::is_nan(a) {
        law_conversion_is_symmetric(a, b);
    }
}

/// Beyond the unit range a sample is as loud as can be, and what is not a number is silent.
pub proof fn law_loud_samples_are_cut_off(bits: u32)
    ensures
        single::is_nan(bits) ==> pcm_sample(bits) == 0,
        !single::is_nan(bits) && single::value(bits) >= single::one() ==> pcm_sample(bits) == 32767,
        !single::is_nan(bits) && single::value(bits) <= -single::one() ==> pcm_sample(bits) == -32767,
{
    let one = single::one();
    single::lemma_units_of_bounds();
    lemma_pow2_pos(149);
    lemma2_to64();
    if !single::is_nan(bits) && single::units(bits) >= one {
        let limited = single::clamped(bits, MINUS_ONE, ONE);
        assert(single::units(limited) == one);
        lemma_pow2_adds(15, 134);
        single::lemma_rounded_scales(32767, 149);
        single::lemma_excess_is(32767, 0);
        single::lemma_nearest_exact(32767, 1);
        assert(single::rounded(32767 * one, 1) == 32767 * one);
        lemma_fundamental_div_mod_converse((32767 * one) as int, one as int, 32767, 0);
    }
}

/// Within the unit range a sample becomes 32767 times as large, its fraction dropped; the product
/// is off by at most one part in 2^24.
pub proof fn law_samples_become_32767_times_as_large(bits: u32)
    requires
        single::units(bits) <= single::one(),
        !single::is_nan(bits),
    ensures
        single::value(bits) >= 0 ==> pcm_sample(bits) >= 0,
        single::value(bits) <= 0 ==> pcm_sample(bits) <= 0,
        ({
            let loud = if pcm_sample(bits) < 0 {
                -pcm_sample(bits)
            } else {
                pcm_sample(bits)
            };
            &&& 0x100_0000 * (loud * single::one()) <= 0x100_0001 * (32767 * single::units(bits))
            &&& 0x100_0000 * ((loud + 1) * single::one()) > 0xff_ffff * (32767 * single::units(bits))
        }),
{
    let one = single::one();
    let n = 32767 * single::units(bits);
    let r = single::rounded(n, 1);
    lemma_within(bits);
    lemma_pow2_pos(149);
    single::lemma_rounded_close(n, 1);
    lemma_fundamental_div_mod(r as int, one as int);
    let loud = r / one;
    assert(loud * one <= r < (loud + 1) * one) by (nonlinear_arith)
        requires
            r == one * loud + r % one,
            0 <= r % one < one,
    ;
    if single::units(bits) == 0 {
        assert(r == 0);
        lemma_fundamental_div_mod_converse(0, one as int, 0, 0);
    }
}

/// Within the unit range, a sample is the single that comes nearest to 32767 times what was
/// captured, the even one of two that are equally near, its fraction dropped.
pub proof fn law_product_is_the_nearest_single(bits: u32, m: nat)
    requires
        single::units(bits) <= single::one(),
        !single::is_nan(bits),
        forall|j: nat|
            j != m ==> {
                let n = 32767 * single::units(bits);
                let near = single::off_by(single::units_of(m), n, 1);
                let other = single::off_by(#[trigger] single::units_of(j), n, 1);
                near < other || near == other && m % 2 == 0
            },
    ensures
        pcm_sample(bits) == if single::negative(bits) {
            -(single::units_of(m) / single::one())
        } else {
            (single::units_of(m) / single::one()) as int
        },
{
    lemma_within(bits);
    single::law_the_nearest_single_is_taken(32767 * single::units(bits), 1, m);
}

/// The bytes that stay in the queue are the last ones, fewer than a frame.
pub proof fn law_less_than_a_frame_is_left(bytes: Seq<u8>)
    ensures
        leftover(bytes).len() < 8,
        exists|taken: Seq<u8>| #[trigger] (taken + leftover(bytes)) == bytes && taken.len() % 8 == 0,
{
    let taken = bytes.take((bytes.len() / 8 * 8) as int);
    assert(taken + leftover(bytes) == bytes);
}

/// The silence is all zeros and lasts a twentieth of a second.
pub proof fn law_silence_lasts_fifty_milliseconds()
    ensures
        silence() == Seq::new(4410, |i: int| 0i16),
        20 * silence().len() == RATE * CHANNELS,
{
}

/// Fifty milliseconds of silence.
pub open spec fn silence() -> Seq<i16> {
    Seq::new(SILENCE_SAMPLES as nat, |i: int| 0i16)
}

/// A frame that was delivered in two pieces is converted as if it had come in one.
pub proof fn law_pieces_join(first: Seq<u8>, second: Seq<u8>)
    ensures
        pcm_samples(first + second) == pcm_samples(first) + pcm_samples(leftover(first) + second),
        leftover(first + second) == leftover(leftover(first) + second),
{
    let whole = first + second;
    let rest = leftover(first) + second;
    let k = (first.len() / 8 * 8) as int;
    assert(rest == whole.skip(k));
    assert(whole.len() / 8 == first.len() / 8 + rest.len() / 8);
    assert forall|i: int| 0 <= i < pcm_samples(whole).len() implies pcm_samples(whole)[i] == (
    pcm_samples(first) + pcm_samples(rest))[i] by {
        if i < pcm_samples(first).len() {
            assert(pattern_at(whole, 4 * i) == pattern_at(first, 4 * i));
        } else {
            let j = i - pcm_samples(first).len();
            assert(pattern_at(whole, 4 * i) == pattern_at(rest, 4 * j));
        }
    }
    assert(pcm_samples(whole) =~= pcm_samples(first) + pcm_samples(rest));
}

/// Takes one byte from the front of the queue.
fn take_byte(queue: &mut VecDeque<u8>) -> (b: u8)
    requires
        old(queue)@.len() > 0,
    ensures
        b == old(queue)@[0],
        final(queue)@ == old(queue)@.skip(1),
{
    let front: Option<u8> = queue.pop_front();
    assert(old(queue)@.skip(1) == old(queue)@.subrange(1, old(queue)@.len() as int));
    front.unwrap()
}

/// Takes the whole frames from the queue of captured bytes and converts them. While the queue
/// holds none, silence takes their place, so that the speaker's buffer never starves.
pub fn next_frame(queue: &mut VecDeque<u8>) -> (r: PcmFrame)
    ensures
        final(queue)@ == leftover(old(queue)@),
        old(queue)@.len() >= BYTES_PER_FRAME ==> r.samples@ == pcm_samples(old(queue)@),
        old(queue)@.len() < BYTES_PER_FRAME ==> r.samples@ == silence(),
        r.samples@.len() > 0,
        r.samples@.len() == if old(queue)@.len() < 8 {
            4410
        } else {
            2 * (old(queue)@.len() / 8)
        },
        forall|i: int|
            0 <= i < r.samples@.len() ==> #[trigger] r.samples@[i] == if old(queue)@.len() < 8 {
                0
            } else {
                pcm_sample(pattern_at(old(queue)@, 4 * i))
            },
        final(queue)@.len() == old(queue)@.len() % 8,
        final(queue)@ == old(queue)@.skip(old(queue)@.len() - old(queue)@.len() % 8),
        r.channels == CHANNELS,
        r.sample_rate == RATE,
        r.channels == 2,
        r.sample_rate == 44_100,
{
    let ghost bytes = queue@;
    let n_frames: usize = queue.len() / BYTES_PER_FRAME;
    let mut samples: Vec<i16> = Vec::new();
    if n_frames > 0 {
        let n_samples: usize = n_frames * 2;
        let mut j: usize = 0;
        assert(queue@ == bytes.skip(0));
        while j < n_samples
            invariant
                j <= n_samples,
                n_samples == bytes.len() / 8 * 2,
                queue@ == bytes.skip(4 * j),
                samples@ == pcm_samples(bytes).take(j as int),
            decreases n_samples - j,
        {
            let b0: u8 = take_byte(queue);
            let b1: u8 = take_byte(queue);
            let b2: u8 = take_byte(queue);
            let b3: u8 = take_byte(queue);
            let bits: u32 = b0 as u32 + 0x100 * (b1 as u32) + 0x1_0000 * (b2 as u32) + 0x100_0000 * (
            b3 as u32);
            assert(bits == pattern_at(bytes, 4 * j));
            samples.push(to_pcm(bits));
            assert(queue@ == bytes.skip(4 * (j + 1)));
            assert(pcm_samples(bytes).take(j + 1) == pcm_samples(bytes).take(j as int).push(
                pcm_samples(bytes)[j as int],
            ));
            j = j + 1;
        }
        assert(pcm_samples(bytes).take(n_samples as int) == pcm_samples(bytes));
        assert forall|i: int| 0 <= i < samples@.len() implies #[trigger] samples@[i] == pcm_sample(
            pattern_at(bytes, 4 * i),
        ) by {
            lemma_range(pattern_at(bytes, 4 * i));
        }
    } else {
        let mut j: usize = 0;
        while j < SILENCE_SAMPLES
            invariant
                j <= SILENCE_SAMPLES,
                samples@ == silence().take(j as int),
            decreases SILENCE_SAMPLES - j,
        {
            samples.push(0);
            assert(silence().take(j + 1) == silence().take(j as int).push(0i16));
            j = j + 1;
        }
        assert(silence().take(SILENCE_SAMPLES as int) == silence());
        assert(bytes.skip(0) == bytes);
    }
    PcmFrame { samples, channels: CHANNELS, sample_rate: RATE }
}

} // verus!
