//! The program's icon.

use vstd::prelude::*;

verus! {

pub const ICON_SIZE: u32 = 64;

/// The red, green, blue and alpha values of a pixel.
pub open spec fn pixel_at(pixels: Seq<u8>, x: int, y: int) -> (u8, u8, u8, u8) {
    let at = (y * 64 + x) * 4;
    (pixels[at], pixels[at + 1], pixels[at + 2], pixels[at + 3])
}

pub open spec fn on_icon(x: int, y: int) -> bool {
    0 <= x < 64 && 0 <= y < 64
}

/// How far a line of pixels is inside the band of ten at either side, where corners are round.
pub open spec fn corner_distance(at: int) -> int {
    if at < 10 {
        10 - at
    } else if at >= 54 {
        at - 53
    } else {
        0
    }
}

pub open spec fn in_body(x: int, y: int) -> bool {
    corner_distance(x) * corner_distance(x) + corner_distance(y) * corner_distance(y) <= 100
}

pub open spec fn in_rect(x: int, y: int, left: int, top: int, right: int, bottom: int) -> bool {
    left <= x < right && top <= y < bottom
}

/// The colour of the icon at a pixel: signal lines on two dark screens in two light plugs with a
/// coloured link, on a dark body with round corners.
pub open spec fn icon_color(x: int, y: int) -> (u8, u8, u8, u8) {
    if in_rect(x, y, 16, 25, 21, 27) || in_rect(x, y, 43, 25, 48, 27) || in_rect(
        x,
        y,
        16,
        31,
        21,
        33,
    ) || in_rect(x, y, 43, 31, 48, 33) || in_rect(x, y, 16, 37, 21, 39) || in_rect(
        x,
        y,
        43,
        37,
        48,
        39,
    ) {
        (75, 198, 225, 255)
    } else if in_rect(x, y, 14, 24, 23, 40) || in_rect(x, y, 41, 24, 50, 40) {
        (31, 41, 51, 255)
    } else if in_rect(x, y, 27, 29, 37, 35) {
        (21, 184, 166, 255)
    } else if in_rect(x, y, 10, 20, 27, 44) || in_rect(x, y, 37, 20, 54, 44) {
        (242, 246, 248, 255)
    } else if in_body(x, y) {
        (31, 41, 51, 255)
    } else {
        (0, 0, 0, 0)
    }
}

fn set_pixel(pixels: &mut Vec<u8>, x: u32, y: u32, color: (u8, u8, u8, u8))
    requires
        old(pixels)@.len() == 16_384,
        on_icon(x as int, y as int),
    ensures
        final(pixels)@.len() == 16_384,
        forall|px: int, py: int|
            #![trigger pixel_at(final(pixels)@, px, py)]
            on_icon(px, py) ==> pixel_at(final(pixels)@, px, py) == if px == x && py == y {
                color
            } else {
                pixel_at(old(pixels)@, px, py)
            },
{
    let index: usize = ((y * ICON_SIZE + x) * 4) as usize;
    pixels.set(index, color.0);
    pixels.set(index + 1, color.1);
    pixels.set(index + 2, color.2);
    pixels.set(index + 3, color.3);
}

fn fill_rect(
    pixels: &mut Vec<u8>,
    left: u32,
    top: u32,
    right: u32,
    bottom: u32,
    color: (u8, u8, u8, u8),
)
    requires
        old(pixels)@.len() == 16_384,
        left <= right <= 64,
        top <= bottom <= 64,
    ensures
        final(pixels)@.len() == 16_384,
        forall|px: int, py: int|
            #![trigger pixel_at(final(pixels)@, px, py)]
            on_icon(px, py) ==> pixel_at(final(pixels)@, px, py) == if in_rect(
                px,
                py,
                left as int,
                top as int,
                right as int,
                bottom as int,
            ) {
                color
            } else {
                pixel_at(old(pixels)@, px, py)
            },
{
    let ghost before = pixels@;
    let mut y: u32 = top;
    while y < bottom
        invariant
            top <= y <= bottom <= 64,
            left <= right <= 64,
            pixels@.len() == 16_384,
            forall|px: int, py: int|
                #![trigger pixel_at(pixels@, px, py)]
                on_icon(px, py) ==> pixel_at(pixels@, px, py) == if in_rect(
                    px,
                    py,
                    left as int,
                    top as int,
                    right as int,
                    y as int,
                ) {
                    color
                } else {
                    pixel_at(before, px, py)
                },
        decreases bottom - y,
    {
        let mut x: u32 = left;
        while x < right
            invariant
                left <= x <= right <= 64,
                top <= y < bottom <= 64,
                pixels@.len() == 16_384,
                forall|px: int, py: int|
                    #![trigger pixel_at(pixels@, px, py)]
                    on_icon(px, py) ==> pixel_at(pixels@, px, py) == if in_rect(
                        px,
                        py,
                        left as int,
                        top as int,
                        right as int,
                        y as int,
                    ) || in_rect(px, py, left as int, y as int, x as int, y + 1) {
                        color
                    } else {
                        pixel_at(before, px, py)
                    },
            decreases right - x,
        {
            set_pixel(pixels, x, y, color);
            x += 1;
        }
        y += 1;
    }
}

fn distance_to_corner(at: u32) -> (distance: u32)
    requires
        at < 64,
    ensures
        distance == corner_distance(at as int),
        distance <= 10,
{
    if at < 10 {
        10 - at
    } else if at >= ICON_SIZE - 10 {
        at - (ICON_SIZE - 11)
    } else {
        0
    }
}

/// The body of the icon, with nothing on it.
fn icon_body() -> (pixels: Vec<u8>)
    ensures
        pixels@.len() == 16_384,
        forall|x: int, y: int|
            #![trigger pixel_at(pixels@, x, y)]
            on_icon(x, y) ==> pixel_at(pixels@, x, y) == if in_body(x, y) {
                (31u8, 41u8, 51u8, 255u8)
            } else {
                (0u8, 0u8, 0u8, 0u8)
            },
{
    let mut pixels: Vec<u8> = vec![0; 16_384];
    let mut y: u32 = 0;
    while y < ICON_SIZE
        invariant
            y <= 64,
            pixels@.len() == 16_384,
            forall|px: int, py: int|
                #![trigger pixel_at(pixels@, px, py)]
                on_icon(px, py) ==> pixel_at(pixels@, px, py) == if py < y && in_body(px, py) {
                    (31u8, 41u8, 51u8, 255u8)
                } else {
                    (0u8, 0u8, 0u8, 0u8)
                },
        decreases 64 - y,
    {
        let corner_y: u32 = distance_to_corner(y);
        let mut x: u32 = 0;
        while x < ICON_SIZE
            invariant
                x <= 64,
                y < 64,
                corner_y == corner_distance(y as int),
                corner_y <= 10,
                pixels@.len() == 16_384,
                forall|px: int, py: int|
                    #![trigger pixel_at(pixels@, px, py)]
                    on_icon(px, py) ==> pixel_at(pixels@, px, py) == if (py < y || py == y && px
                        < x) && in_body(px, py) {
                        (31u8, 41u8, 51u8, 255u8)
                    } else {
                        (0u8, 0u8, 0u8, 0u8)
                    },
            decreases 64 - x,
        {
            let corner_x: u32 = distance_to_corner(x);
            assert(corner_x * corner_x <= 100 && corner_y * corner_y <= 100) by (nonlinear_arith)
                requires
                    corner_x <= 10,
                    corner_y <= 10,
            ;
            if corner_x * corner_x + corner_y * corner_y <= 100 {
                set_pixel(&mut pixels, x, y, (31, 41, 51, 255));
            }
            x += 1;
        }
        y += 1;
    }
    pixels
}

/// The pixels of the icon, row by row, four bytes each.
pub fn escom_icon_rgba() -> (pixels: Vec<u8>)
    ensures
        pixels@.len() == 16_384,
        forall|x: int, y: int|
            #![trigger pixel_at(pixels@, x, y)]
            on_icon(x, y) ==> pixel_at(pixels@, x, y) == icon_color(x, y),
{
    let mut pixels = icon_body();
    fill_rect(&mut pixels, 10, 20, 27, 44, (242, 246, 248, 255));
    fill_rect(&mut pixels, 37, 20, 54, 44, (242, 246, 248, 255));
    fill_rect(&mut pixels, 27, 29, 37, 35, (21, 184, 166, 255));
    fill_rect(&mut pixels, 14, 24, 23, 40, (31, 41, 51, 255));
    fill_rect(&mut pixels, 41, 24, 50, 40, (31, 41, 51, 255));
    fill_rect(&mut pixels, 16, 25, 21, 27, (75, 198, 225, 255));
    fill_rect(&mut pixels, 43, 25, 48, 27, (75, 198, 225, 255));
    fill_rect(&mut pixels, 16, 31, 21, 33, (75, 198, 225, 255));
    fill_rect(&mut pixels, 43, 31, 48, 33, (75, 198, 225, 255));
    fill_rect(&mut pixels, 16, 37, 21, 39, (75, 198, 225, 255));
    fill_rect(&mut pixels, 43, 37, 48, 39, (75, 198, 225, 255));
    pixels
}

/// The headers of an icon file with one picture of this size: the directory, its entry, and the
/// bitmap's header, which counts the picture and its mask as one.
pub open spec fn ico_header() -> Seq<u8> {
    seq![0u8, 0, 1, 0, 1, 0] + seq![64u8, 64, 0, 0, 1, 0, 32, 0, 0x28, 0x42, 0, 0, 22, 0, 0, 0]
        + seq![40u8, 0, 0, 0, 64, 0, 0, 0, 128, 0, 0, 0, 1, 0, 32, 0, 0, 0, 0, 0] + seq![
        0u8,
        0x40,
        0,
        0,
        0,
        0,
        0,
        0,
        0,
        0,
        0,
        0,
        0,
        0,
        0,
        0,
        0,
        0,
        0,
        0,
    ]
}

/// The channel of the picture at a byte of the bitmap, which goes from the last row up and has
/// blue first.
pub open spec fn ico_source(at: int) -> int {
    let pixel = at / 4;
    let channel = at % 4;
    ((63 - pixel / 64) * 64 + pixel % 64) * 4 + if channel < 3 {
        2 - channel
    } else {
        3
    }
}

/// The content of an icon file.
pub open spec fn ico_file(rgba: Seq<u8>) -> Seq<u8> {
    ico_header() + Seq::new(16_384, |i: int| rgba[ico_source(i)]) + Seq::new(512, |i: int| 0u8)
}

pub fn encode_ico(rgba: &Vec<u8>) -> (output: Vec<u8>)
    requires
        rgba@.len() >= 16_384,
    ensures
        output@ == ico_file(rgba@),
{
    let mut output: Vec<u8> = vec![
        0,
        0,
        1,
        0,
        1,
        0,
        64,
        64,
        0,
        0,
        1,
        0,
        32,
        0,
        0x28,
        0x42,
        0,
        0,
        22,
        0,
        0,
        0,
        40,
        0,
        0,
        0,
        64,
        0,
        0,
        0,
        128,
        0,
        0,
        0,
        1,
        0,
        32,
        0,
        0,
        0,
        0,
        0,
        0,
        0x40,
        0,
        0,
        0,
        0,
        0,
        0,
        0,
        0,
        0,
        0,
        0,
        0,
        0,
        0,
        0,
        0,
        0,
        0,
    ];
    let ghost header = output@;
    assert(header =~= ico_header());
    let ghost mut body: Seq<u8> = Seq::empty();
    assert(output@ =~= header + body);
    let mut row: u32 = ICON_SIZE;
    while row > 0
        invariant
            row <= 64,
            rgba@.len() >= 16_384,
            body.len() == (64 - row) * 256,
            forall|i: int| 0 <= i < body.len() ==> #[trigger] body[i] == rgba@[ico_source(i)],
            output@ == header + body,
        decreases row,
    {
        let y: u32 = row - 1;
        let mut x: u32 = 0;
        while x < ICON_SIZE
            invariant
                x <= 64,
                y == row - 1,
                1 <= row <= 64,
                rgba@.len() >= 16_384,
                body.len() == (63 - y) * 256 + x * 4,
                forall|i: int| 0 <= i < body.len() ==> #[trigger] body[i] == rgba@[ico_source(i)],
                output@ == header + body,
            decreases 64 - x,
        {
            let index: usize = ((y * ICON_SIZE + x) * 4) as usize;
            let ghost before = body;
            output.push(rgba[index + 2]);
            output.push(rgba[index + 1]);
            output.push(rgba[index]);
            output.push(rgba[index + 3]);
            proof {
                let n = before.len() as int;
                body = before.push(rgba@[index + 2]).push(rgba@[index + 1]).push(
                    rgba@[index as int],
                ).push(rgba@[index + 3]);
                assert(output@ =~= header + body);
                assert(n / 4 == (63 - y) * 64 + x);
                assert(n % 4 == 0);
                assert(ico_source(n) == index + 2);
                assert(ico_source(n + 1) == index + 1);
                assert(ico_source(n + 2) == index);
                assert(ico_source(n + 3) == index + 3);
                assert forall|i: int| 0 <= i < body.len() implies #[trigger] body[i]
                    == rgba@[ico_source(i)] by {
                    if i < n {
                        assert(body[i] == before[i]);
                    }
                }
            }
            x += 1;
        }
        row -= 1;
    }
    assert(body =~= Seq::new(16_384, |i: int| rgba@[ico_source(i)]));
    let mut masked: u32 = 0;
    while masked < 512
        invariant
            masked <= 512,
            output@ == header + body + Seq::new(masked as nat, |i: int| 0u8),
        decreases 512 - masked,
    {
        let ghost before = output@;
        output.push(0);
        assert(output@ =~= header + body + Seq::new((masked + 1) as nat, |i: int| 0u8));
        masked += 1;
    }
    output
}

/// The icon is the same on the left and on the right, and its corners are empty.
pub proof fn the_icon_is_symmetric(x: int, y: int)
    requires
        on_icon(x, y),
    ensures
        icon_color(x, y) == icon_color(63 - x, y),
        (x == 0 || x == 63) && (y == 0 || y == 63) ==> icon_color(x, y) == (0u8, 0u8, 0u8, 0u8),
        20 <= x < 44 && 10 <= y < 20 ==> icon_color(x, y) == (31u8, 41u8, 51u8, 255u8),
        27 <= x < 37 && 29 <= y < 35 ==> icon_color(x, y) == (21u8, 184u8, 166u8, 255u8),
{
    assert(corner_distance(x) == corner_distance(63 - x));
    assert(10 * 10 + 10 * 10 > 100);
    assert(20 <= x < 44 && 10 <= y < 20 ==> corner_distance(x) == 0 && corner_distance(y) == 0);
}

/// An icon file holds the pixels from the lowest line up, and of each pixel blue, green, red and
/// the opacity; behind them is a mask that hides nothing.
pub proof fn icon_files_hold_the_pixels(rgba: Seq<u8>, x: int, y: int)
    requires
        on_icon(x, y),
        rgba.len() >= 16_384,
    ensures
        ({
            let at = 62 + ((63 - y) * 64 + x) * 4;
            let file = ico_file(rgba);
            let (red, green, blue, alpha) = pixel_at(rgba, x, y);
            &&& file.len() == 62 + 64 * 64 * 4 + 512
            &&& file[at] == blue
            &&& file[at + 1] == green
            &&& file[at + 2] == red
            &&& file[at + 3] == alpha
            &&& forall|i: int| 62 + 64 * 64 * 4 <= i < file.len() ==> #[trigger] file[i] == 0
        }),
{
    let header = ico_header();
    assert(header.len() == 62);
    let pixel = (63 - y) * 64 + x;
    assert(0 <= pixel < 4096);
    assert(pixel / 64 == 63 - y && pixel % 64 == x) by (nonlinear_arith)
        requires
            pixel == (63 - y) * 64 + x,
            0 <= x < 64,
            0 <= y < 64,
    ;
    let start = pixel * 4;
    assert(start / 4 == pixel && start % 4 == 0);
    assert((start + 1) / 4 == pixel && (start + 1) % 4 == 1);
    assert((start + 2) / 4 == pixel && (start + 2) % 4 == 2);
    assert((start + 3) / 4 == pixel && (start + 3) % 4 == 3);
}

} // verus!
