//! The tray icon: a teal disc while streaming, a hollow ring while stopped.
use tray_icon::{BadIcon, Icon};
use vstd::prelude::*;

verus! {

/// Width and height of the icon in pixels.
pub const ICON_SIZE: u32 = 32;

/// Four times the square of a pixel's distance from the icon's centre. The centre lies between
/// pixels; counting in half pixels keeps the distance whole.
pub open spec fn distance(x: int, y: int) -> int {
    (2 * x - 31) * (2 * x - 31) + (2 * y - 31) * (2 * y - 31)
}

/// Whether a pixel is painted: within the radius of 14 pixels, and for the ring not within that of
/// 9.
pub open spec fn painted(filled: bool, x: int, y: int) -> bool {
    distance(x, y) <= 28 * 28 && (filled || distance(x, y) >= 18 * 18)
}

/// Red, green, blue and opacity of the icon's teal.
pub open spec fn teal() -> Seq<u8> {
    seq![0x1e, 0xb0, 0xa6, 0xff]
}

/// The icon's bytes: four for each pixel, row by row; what is not painted is transparent.
pub open spec fn icon_image(filled: bool) -> Seq<u8> {
    Seq::new(
        4096,
        |i: int|
            if painted(filled, i / 4 % 32, i / 4 / 32) {
                teal()[i % 4]
            } else {
                0
            },
    )
}

/// Draws the icon.
pub fn icon_rgba(filled: bool) -> (rgba: Vec<u8>)
    ensures
        rgba@ == icon_image(filled),
        rgba@.len() == 4 * ICON_SIZE * ICON_SIZE,
        rgba@.len() == 4096,
{
    let mut rgba: Vec<u8> = Vec::new();
    let mut p: u32 = 0;
    while p < 1024
        invariant
            p <= 1024,
            rgba@ == icon_image(filled).take(4 * p),
        decreases 1024 - p,
    {
        let x: u32 = p % 32;
        let y: u32 = p / 32;
        let dx: i32 = 2 * (x as i32) - 31;
        let dy: i32 = 2 * (y as i32) - 31;
        assert(0 <= dx * dx <= 961) by (nonlinear_arith)
            requires
                -31 <= dx <= 31,
        ;
        assert(0 <= dy * dy <= 961) by (nonlinear_arith)
            requires
                -31 <= dy <= 31,
        ;
        let d: i32 = dx * dx + dy * dy;
        let inside: bool = if filled {
            d <= 784
        } else {
            d <= 784 && d >= 324
        };
        assert(inside == painted(filled, x as int, y as int));
        if inside {
            rgba.push(0x1e);
            rgba.push(0xb0);
            rgba.push(0xa6);
            rgba.push(0xff);
        } else {
            rgba.push(0);
            rgba.push(0);
            rgba.push(0);
            rgba.push(0);
        }
        assert(rgba@ =~= icon_image(filled).take(4 * (p + 1)));
        p = p + 1;
    }
    assert(icon_image(filled).take(4096) =~= icon_image(filled));
    rgba
}

/// An icon of the tray.
#[verifier::external_type_specification]
#[verifier::external_body]
pub struct ExIcon(Icon);

/// The bytes that an icon was made from, four for each pixel, row by row.
pub uninterp spec fn icon_pixels(icon: Icon) -> Seq<u8>;

/// The width, in pixels, that an icon was made with.
pub uninterp spec fn icon_width(icon: Icon) -> u32;

/// What can be wrong with an icon: the kinds of `tray_icon::BadIcon`.
#[derive(Clone, Copy, Debug, PartialEq, Eq, Structural)]
pub enum Complaint {
    /// The bytes do not make up whole pixels.
    ByteCount { byte_count: usize },
    /// The pixels do not fill the rectangle.
    PixelCount { width: u32, height: u32, width_x_height: usize, pixel_count: usize },
    /// The system failed to make the icon.
    System,
}

/// The only complaint that so many bytes for a rectangle can give rise to: the system is to blame
/// exactly if the bytes fill the rectangle.
pub open spec fn complaint_about(bytes: nat, width: u32, height: u32) -> Complaint {
    if bytes % 4 != 0 {
        Complaint::ByteCount { byte_count: bytes as usize }
    } else if bytes != 4 * (width * height) {
        Complaint::PixelCount {
            width,
            height,
            width_x_height: (width * height) as usize,
            pixel_count: (bytes / 4) as usize,
        }
    } else {
        Complaint::System
    }
}

/// Calls `tray_icon::Icon::from_rgba`. An icon that it makes has the given pixels and width, and
/// the bytes fill the rectangle. If it makes none, it complains of the bytes where they do not make
/// up whole pixels, of the pixels where they do not fill the rectangle, and otherwise of the
/// system. When the system fails is not said.
#[verifier::external_body]
fn icon_from_rgba(rgba: Vec<u8>, width: u32, height: u32) -> (r: Result<Icon, Complaint>)
    requires
        width * height <= u32::MAX,
    ensures
        r matches Ok(icon) ==> icon_pixels(icon) == rgba@ && icon_width(icon) == width,
        r is Ok ==> rgba@.len() == 4 * (width * height),
        r matches Err(c) ==> c == complaint_about(rgba@.len(), width, height),
{
    match Icon::from_rgba(rgba, width, height) {
        Ok(icon) => Ok(icon),
        Err(BadIcon::ByteCountNotDivisibleBy4 { byte_count }) => {
            Err(Complaint::ByteCount { byte_count })
        },
        Err(BadIcon::DimensionsVsPixelCount { width, height, width_x_height, pixel_count }) => {
            Err(Complaint::PixelCount { width, height, width_x_height, pixel_count })
        },
        Err(BadIcon::OsError(_)) => Err(Complaint::System),
    }
}

/// Why there is no icon.
#[derive(Clone, Copy, Debug, PartialEq, Eq, Structural)]
pub enum Refusal {
    /// The picture does not fill its rectangle.
    Picture,
    /// The system failed to make the icon.
    System,
}

/// What becomes of the answer to a picture: the icon, or why there is none.
pub fn made_or_refused(answer: Result<Icon, Complaint>) -> (r: Result<Icon, Refusal>)
    ensures
        answer matches Ok(icon) ==> r == Ok::<Icon, Refusal>(icon),
        answer matches Err(c) ==> r == Err::<Icon, Refusal>(
            if c is System {
                Refusal::System
            } else {
                Refusal::Picture
            },
        ),
{
    match answer {
        Ok(icon) => Ok(icon),
        Err(Complaint::ByteCount { .. }) => Err(Refusal::Picture),
        Err(Complaint::PixelCount { .. }) => Err(Refusal::Picture),
        Err(Complaint::System) => Err(Refusal::System),
    }
}

/// A picture to make an icon of.
pub struct Picture {
    pub rgba: Vec<u8>,
    pub width: u32,
    pub height: u32,
}

/// The picture of the tray icon: all that is handed to the system.
pub fn icon_picture(filled: bool) -> (p: Picture)
    ensures
        p.rgba@ == icon_image(filled),
        p.width == ICON_SIZE,
        p.height == ICON_SIZE,
        p.width == 32,
        p.height == 32,
{
    Picture { rgba: icon_rgba(filled), width: ICON_SIZE, height: ICON_SIZE }
}

/// Makes the tray icon: a disc for a running stream, a ring for none. Only the system can refuse.
pub fn make_icon(filled: bool) -> (r: Result<Icon, Refusal>)
    ensures
        r matches Ok(icon) ==> icon_pixels(icon) == icon_image(filled) && icon_width(icon)
            == ICON_SIZE && icon_width(icon) == 32,
        r matches Err(e) ==> e == Refusal::System,
{
    let p: Picture = icon_picture(filled);
    made_or_refused(icon_from_rgba(p.rgba, p.width, p.height))
}

/// The icon shows its state at a glance: the disc and the ring agree outside the ring's hole, and
/// differ on every pixel within it.
pub proof fn law_disc_and_ring_differ_in_the_hole(i: int)
    requires
        0 <= i < 4096,
    ensures
        icon_image(true)[i] != icon_image(false)[i] <==> distance(i / 4 % 32, i / 4 / 32) < 18 * 18,
{
}

/// The byte of a pixel, by column, row and colour: the teal of the picture within 14 pixels of the
/// centre, and for the ring not within 9, else transparent.
pub proof fn law_pixels_are_teal_within_the_radius(filled: bool, x: int, y: int, c: int)
    requires
        0 <= x < 32,
        0 <= y < 32,
        0 <= c < 4,
    ensures
        ({
            let d = (2 * x - 31) * (2 * x - 31) + (2 * y - 31) * (2 * y - 31);
            icon_image(filled)[4 * (32 * y + x) + c] == if d <= 784 && (filled || d >= 324) {
                if c == 0 {
                    0x1eint
                } else if c == 1 {
                    0xb0
                } else if c == 2 {
                    0xa6
                } else {
                    0xff
                }
            } else {
                0
            }
        }),
{
    let i = 4 * (32 * y + x) + c;
    assert(i / 4 == 32 * y + x && i % 4 == c);
    assert((32 * y + x) % 32 == x && (32 * y + x) / 32 == y);
}

/// The icon looks the same from all four sides: mirrored in either direction, and turned.
pub proof fn law_icon_is_symmetric(filled: bool, x: int, y: int, c: int)
    requires
        0 <= x < 32,
        0 <= y < 32,
        0 <= c < 4,
    ensures
        icon_image(filled)[4 * (32 * y + x) + c] == icon_image(filled)[4 * (32 * y + (31 - x)) + c],
        icon_image(filled)[4 * (32 * y + x) + c] == icon_image(filled)[4 * (32 * (31 - y) + x) + c],
        icon_image(filled)[4 * (32 * y + x) + c] == icon_image(filled)[4 * (32 * x + y) + c],
{
    law_pixels_are_teal_within_the_radius(filled, x, y, c);
    law_pixels_are_teal_within_the_radius(filled, 31 - x, y, c);
    law_pixels_are_teal_within_the_radius(filled, x, 31 - y, c);
    law_pixels_are_teal_within_the_radius(filled, y, x, c);
    assert((2 * (31 - x) - 31) * (2 * (31 - x) - 31) == (2 * x - 31) * (2 * x - 31))
        by (nonlinear_arith);
    assert((2 * (31 - y) - 31) * (2 * (31 - y) - 31) == (2 * y - 31) * (2 * y - 31))
        by (nonlinear_arith);
}

} // verus!
