use homepod_cast::pcm::{next_frame, to_pcm, CHANNELS, RATE};
use std::collections::VecDeque;

fn by_hardware(bits: u32) -> i16 {
    (f32::from_bits(bits).clamp(-1.0, 1.0) * 32767.0) as i16
}

#[test]
fn conversion_agrees_with_single_precision_arithmetic() {
    let mut bits: u32 = 0;
    for _ in 0..2_000_000 {
        assert_eq!(to_pcm(bits), by_hardware(bits), "bits {bits:#x}");
        bits = bits.wrapping_mul(1_664_525).wrapping_add(1_013_904_223);
    }
    for bits in 0x3800_0000u32..0x3800_0000 + 500_000 {
        assert_eq!(to_pcm(bits), by_hardware(bits));
    }
    for bits in 0xbf80_0000u32 - 500_000..0xbf80_0000 + 1_000 {
        assert_eq!(to_pcm(bits), by_hardware(bits));
    }
}

#[test]
fn conversion_of_marked_values() {
    assert_eq!(to_pcm(1.0f32.to_bits()), 32767);
    assert_eq!(to_pcm((-1.0f32).to_bits()), -32767);
    assert_eq!(to_pcm(0.5f32.to_bits()), 16383);
    assert_eq!(to_pcm((-0.5f32).to_bits()), -16383);
    assert_eq!(to_pcm(0.0f32.to_bits()), 0);
    assert_eq!(to_pcm((-0.0f32).to_bits()), 0);
    assert_eq!(to_pcm(2.5f32.to_bits()), 32767);
    assert_eq!(to_pcm(f32::INFINITY.to_bits()), 32767);
    assert_eq!(to_pcm(f32::NEG_INFINITY.to_bits()), -32767);
    assert_eq!(to_pcm(f32::NAN.to_bits()), 0);
    assert_eq!(to_pcm(f32::MIN_POSITIVE.to_bits()), 0);
}

fn captured(samples: &[f32]) -> VecDeque<u8> {
    let mut queue = VecDeque::new();
    for s in samples {
        for b in s.to_le_bytes() {
            queue.push_back(b);
        }
    }
    queue
}

#[test]
fn whole_frames_are_taken_and_the_rest_stays() {
    let mut queue = captured(&[1.0, -1.0, 0.5, 0.25, 0.75]);
    let frame = next_frame(&mut queue);
    assert_eq!(frame.samples, vec![32767, -32767, 16383, 8191]);
    assert_eq!(frame.channels, CHANNELS);
    assert_eq!(frame.sample_rate, RATE);
    assert_eq!(queue, captured(&[0.75]));
}

#[test]
fn silence_is_sent_while_nothing_plays() {
    let mut queue = captured(&[0.75]);
    let frame = next_frame(&mut queue);
    assert_eq!(frame.samples, vec![0i16; 4410]);
    assert_eq!(frame.channels, 2);
    assert_eq!(frame.sample_rate, 44_100);
    assert_eq!(queue, captured(&[0.75]));
    let mut empty = VecDeque::new();
    assert_eq!(next_frame(&mut empty).samples.len(), 4410);
}

#[test]
fn a_frame_in_two_pieces_is_joined() {
    let all = [0.1f32, -0.2, 0.3, -0.4, 0.5, -0.6];
    let whole = next_frame(&mut captured(&all)).samples;
    let bytes: Vec<u8> = captured(&all).into_iter().collect();
    for cut in 8..bytes.len() - 7 {
        let mut queue: VecDeque<u8> = bytes[..cut].iter().copied().collect();
        let mut joined = next_frame(&mut queue).samples;
        queue.extend(bytes[cut..].iter().copied());
        joined.extend(next_frame(&mut queue).samples);
        assert_eq!(joined, whole, "cut at {cut}");
    }
}

#[test]
fn conversion_keeps_order_and_treats_signs_alike() {
    let mut last = to_pcm((-1.5f32).to_bits());
    let mut x = -1.5f32;
    while x < 1.5 {
        let y = to_pcm(x.to_bits());
        assert!(last <= y);
        assert_eq!(to_pcm((-x).to_bits()), -y);
        last = y;
        x += 0.000_31;
    }
}
