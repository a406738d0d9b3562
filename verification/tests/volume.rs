use homepod_cast::volume::{
    from_slider, load_volume, save_volume, slider_position, Volume, DEFAULT_VOLUME,
};

fn patterns() -> Vec<u32> {
    let mut v: Vec<u32> = vec![
        0,
        1,
        0x8000_0000,
        0x8000_0001,
        0x3f80_0000,
        0x3f80_0001,
        0x3f7f_ffff,
        0xbf80_0000,
        0x7f80_0000,
        0xff80_0000,
        0x7fc0_0000,
        0xffc0_0000,
        0x007f_ffff,
        0x0080_0000,
    ];
    let mut bits: u32 = 12345;
    for _ in 0..300_000 {
        bits = bits.wrapping_mul(1_664_525).wrapping_add(1_013_904_223);
        v.push(bits);
        v.push(0x3000_0000 + bits % 0x0fa0_0000);
    }
    for n in 0..=16_000u32 {
        v.push((n as f32 / 16_000.0).to_bits());
        v.push((n as f32 / 16_384.0).to_bits());
    }
    v
}

#[test]
fn kept_text_has_three_decimals() {
    for bits in patterns() {
        let expected = format!("{:.3}", f32::from_bits(bits).clamp(0.0, 1.0));
        assert_eq!(save_volume(Volume { bits }), expected.as_bytes(), "bits {bits:#x}");
    }
    assert_eq!(save_volume(Volume { bits: 0.25f32.to_bits() }), b"0.250");
    assert_eq!(save_volume(Volume { bits: 0.0625f32.to_bits() }), b"0.062");
    assert_eq!(save_volume(Volume { bits: 7.0f32.to_bits() }), b"1.000");
    assert_eq!(save_volume(Volume { bits: (-0.0f32).to_bits() }), b"-0.000");
    assert_eq!(save_volume(Volume { bits: f32::NAN.to_bits() }), b"NaN");
}

#[test]
fn loading_limits_the_kept_volume() {
    for bits in patterns() {
        let v = f32::from_bits(bits);
        let loaded = f32::from_bits(load_volume(Some(bits)).bits);
        assert!((0.0..=1.0).contains(&loaded));
        if v.is_nan() {
            assert_eq!(loaded, 0.25);
        } else {
            assert_eq!(loaded.to_bits(), v.clamp(0.0, 1.0).to_bits(), "bits {bits:#x}");
        }
    }
}

#[test]
fn without_a_kept_volume_a_quarter_is_used() {
    assert_eq!(load_volume(None).bits, 0.25f32.to_bits());
    assert_eq!(DEFAULT_VOLUME, 0.25f32.to_bits());
    assert_eq!(slider_position(load_volume(None)), 25);
}

#[test]
fn slider_gives_hundredths() {
    for pos in -1_000..=1_000i32 {
        let expected = (pos as f32 / 100.0).clamp(0.0, 1.0);
        assert_eq!(from_slider(pos).bits, expected.to_bits(), "position {pos}");
    }
    assert_eq!(from_slider(i32::MIN).bits, 0);
    assert_eq!(from_slider(i32::MAX).bits, 1.0f32.to_bits());
}

#[test]
fn slider_stands_at_the_nearest_percent() {
    for bits in patterns() {
        let v = f32::from_bits(bits);
        let expected = (v.clamp(0.0, 1.0) * 100.0).round() as i32;
        assert_eq!(slider_position(Volume { bits }), expected, "bits {bits:#x}");
    }
}

#[test]
fn slider_setting_survives_keeping_and_loading() {
    for pos in 0..=100i32 {
        let set = from_slider(pos);
        assert_eq!(slider_position(set), pos);
        let text = String::from_utf8(save_volume(set)).unwrap();
        let kept = text.trim().parse::<f32>().ok();
        let loaded = load_volume(kept.map(|v| v.to_bits()));
        assert_eq!(loaded, set);
        assert_eq!(slider_position(loaded), pos);
    }
}

#[test]
fn loading_twice_changes_nothing() {
    for bits in patterns() {
        let once = load_volume(Some(bits));
        assert_eq!(load_volume(Some(once.bits)), once);
    }
}

#[test]
fn a_kept_text_that_is_no_number_gives_the_default() {
    let kept = "NaN".parse::<f32>().ok().map(|v| v.to_bits());
    assert!(kept.is_some());
    assert_eq!(load_volume(kept), load_volume(None));
}

#[test]
fn any_volume_survives_to_three_decimals() {
    for bits in patterns() {
        let v = f32::from_bits(bits);
        if v.is_nan() {
            continue;
        }
        let text = String::from_utf8(save_volume(Volume { bits })).unwrap();
        let kept = text.parse::<f32>().unwrap().to_bits();
        let loaded = f32::from_bits(load_volume(Some(kept)).bits) as f64;
        assert!((loaded - v.clamp(0.0, 1.0) as f64).abs() <= 0.000_501, "bits {bits:#x}");
    }
}
