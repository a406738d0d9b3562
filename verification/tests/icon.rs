use homepod_cast::icon::{
    icon_picture, icon_rgba, made_or_refused, make_icon, Complaint, Refusal, ICON_SIZE,
};
use tray_icon::Icon;

fn painted(filled: bool, x: u32, y: u32) -> bool {
    let c = (ICON_SIZE as f32 - 1.0) / 2.0;
    let dx = x as f32 - c;
    let dy = y as f32 - c;
    let d2 = dx * dx + dy * dy;
    d2 <= 14.0 * 14.0 && (filled || d2 >= 9.0 * 9.0)
}

#[test]
fn icon_is_a_teal_disc_or_ring() {
    for filled in [false, true] {
        let rgba = icon_rgba(filled);
        assert_eq!(rgba.len(), 32 * 32 * 4);
        for y in 0..32 {
            for x in 0..32 {
                let at = ((y * 32 + x) * 4) as usize;
                let expected: [u8; 4] =
                    if painted(filled, x, y) { [0x1e, 0xb0, 0xa6, 0xff] } else { [0; 4] };
                assert_eq!(rgba[at..at + 4], expected, "{filled} {x} {y}");
            }
        }
    }
}

#[test]
fn ring_has_a_hole_that_the_disc_fills() {
    let at = (16 * 32 + 16) * 4;
    assert_eq!(icon_rgba(true)[at + 3], 0xff);
    assert_eq!(icon_rgba(false)[at + 3], 0);
    assert_eq!(icon_rgba(true)[0], 0);
}

#[test]
fn the_tray_takes_the_icons() {
    let disc = make_icon(true).unwrap();
    let ring = make_icon(false).unwrap();
    let disc = format!("{disc:?}");
    let ring = format!("{ring:?}");
    assert!(disc != ring);
    assert!(disc.contains("width: 32"));
    assert!(disc.contains("255, 30, 176, 166"));
}

#[test]
fn the_answer_decides_between_icon_and_refusal() {
    let icon = Icon::from_rgba(vec![1, 2, 3, 4], 1, 1).unwrap();
    let expected = format!("{icon:?}");
    let made = made_or_refused(Ok(icon)).unwrap();
    assert_eq!(format!("{made:?}"), expected);
    let bytes = Complaint::ByteCount { byte_count: 3 };
    let pixels =
        Complaint::PixelCount { width: 32, height: 16, width_x_height: 512, pixel_count: 1024 };
    for (complaint, refusal) in [
        (bytes, Refusal::Picture),
        (pixels, Refusal::Picture),
        (Complaint::System, Refusal::System),
    ] {
        match made_or_refused(Err(complaint)) {
            Ok(_) => panic!("made"),
            Err(e) => assert_eq!(e, refusal),
        }
    }
}

#[test]
fn the_picture_fills_its_rectangle() {
    for filled in [false, true] {
        let p = icon_picture(filled);
        assert_eq!((p.width, p.height), (32, 32));
        assert_eq!(p.rgba, icon_rgba(filled));
        let icon = Icon::from_rgba(p.rgba, p.width, p.height).unwrap();
        assert_eq!(format!("{icon:?}"), format!("{:?}", make_icon(filled).unwrap()));
    }
}
