//! The picture of a key shown in the system tray.

use vstd::prelude::*;

verus! {

/// Width and height of the tray icon, in pixels.
pub const TRAY_ICON_SIZE: u32 = 32;

/// The colour (red, green, blue, alpha) of the tray icon at column `x`, row
/// `y`: a dark outline, two amber dots on a green key, transparent outside.
pub open spec fn tray_pixel(x: int, y: int) -> Seq<u8> {
    let border = x == 5 || x == 26 || y == 8 || y == 23;
    let key_body = 6 <= x <= 25 && 9 <= y <= 22;
    let dot = (x - 12) * (x - 12) + (y - 15) * (y - 15) < 7 || (x - 20) * (x - 20) + (y - 15) * (
    y - 15) < 7;
    if border {
        seq![29u8, 45u8, 54u8, 255u8]
    } else if dot {
        seq![255u8, 193u8, 84u8, 255u8]
    } else if key_body {
        seq![80u8, 173u8, 132u8, 255u8]
    } else {
        seq![0u8, 0u8, 0u8, 0u8]
    }
}

/// Byte `i` of the tray icon's pixels, stored row by row, four bytes a pixel.
pub open spec fn tray_byte(i: int) -> u8 {
    tray_pixel((i / 4) % 32, (i / 4) / 32)[i % 4]
}

/// The colour of one pixel of the tray icon.
fn pixel_color(x: i32, y: i32) -> (res: [u8; 4])
    requires
        0 <= x < 32,
        0 <= y < 32,
    ensures
        res@ == tray_pixel(x as int, y as int),
{
    let border = x == 5 || x == 26 || y == 8 || y == 23;
    let key_body = 6 <= x && x <= 25 && 9 <= y && y <= 22;
    assert(0 <= (x - 12) * (x - 12) <= 400 && 0 <= (y - 15) * (y - 15) <= 400 && 0 <= (x - 20)
        * (x - 20) <= 400) by (nonlinear_arith)
        requires
            0 <= x < 32,
            0 <= y < 32,
    ;
    let dot = (x - 12) * (x - 12) + (y - 15) * (y - 15) < 7 || (x - 20) * (x - 20) + (y - 15) * (y
        - 15) < 7;
    let res: [u8; 4] = if border {
        [29, 45, 54, 255]
    } else if dot {
        [255, 193, 84, 255]
    } else if key_body {
        [80, 173, 132, 255]
    } else {
        [0, 0, 0, 0]
    };
    assert(res@ =~= tray_pixel(x as int, y as int));
    res
}

/// Position `4 * (32 * y + x) + k` holds byte `k` of pixel `(x, y)`.
proof fn lemma_byte_position(x: int, y: int, k: int)
    requires
        0 <= x < 32,
        0 <= y < 32,
        0 <= k < 4,
    ensures
        ((4 * (32 * y + x) + k) / 4) % 32 == x,
        ((4 * (32 * y + x) + k) / 4) / 32 == y,
        (4 * (32 * y + x) + k) % 4 == k,
{
    assert((4 * (32 * y + x) + k) / 4 == 32 * y + x) by (nonlinear_arith)
        requires
            0 <= x < 32,
            0 <= y < 32,
            0 <= k < 4,
    ;
    assert((4 * (32 * y + x) + k) % 4 == k) by (nonlinear_arith)
        requires
            0 <= x < 32,
            0 <= y < 32,
            0 <= k < 4,
    ;
    assert((32 * y + x) % 32 == x && (32 * y + x) / 32 == y) by (nonlinear_arith)
        requires
            0 <= x < 32,
            0 <= y < 32,
    ;
}

/// Where byte `k` of pixel `(x, y)` is stored: rows one after another, four
/// bytes a pixel.
pub open spec fn pixel_byte_index(x: int, y: int, k: int) -> int {
    4 * (32 * y + x) + k
}

/// What `d * d` is for small and large `d`.
proof fn lemma_square(d: int)
    ensures
        (d >= 3 || d <= -3) ==> d * d >= 9,
        (d == 2 || d == -2) ==> d * d == 4,
        (-1 <= d && d <= 1) ==> 0 <= d * d <= 1,
{
    if d >= 3 {
        assert(d * d >= 9) by (nonlinear_arith)
            requires
                d >= 3,
        ;
    } else if d <= -3 {
        assert(d * d >= 9) by (nonlinear_arith)
            requires
                d <= -3,
        ;
    } else if d == 2 || d == -2 {
        assert(d * d == 4) by (nonlinear_arith)
            requires
                d == 2 || d == -2,
        ;
    } else if -1 <= d && d <= 1 {
        assert(0 <= d * d <= 1) by (nonlinear_arith)
            requires
                -1 <= d <= 1,
        ;
    }
}

/// The picture on the tray icon, pixel by pixel: dark lines (29, 45, 54)
/// along columns 5 and 26 and rows 8 and 23; off those lines, two amber
/// dots (255, 193, 84), each the 5 by 5 square without its corners around
/// (12, 15) and (20, 15); a green key (80, 173, 132) filling columns 6..=25
/// of rows 9..=22 elsewhere; all opaque; transparent everywhere else.
pub proof fn lemma_tray_icon_picture(x: int, y: int, k: int)
    requires
        0 <= x < 32,
        0 <= y < 32,
        0 <= k < 4,
    ensures
        tray_byte(pixel_byte_index(x, y, k)) == (if x == 5 || x == 26 || y == 8 || y == 23 {
            seq![29u8, 45u8, 54u8, 255u8]
        } else if (10 <= x <= 14 && 13 <= y <= 17 && !((x == 10 || x == 14) && (y == 13 || y
            == 17))) || (18 <= x <= 22 && 13 <= y <= 17 && !((x == 18 || x == 22) && (y == 13
            || y == 17))) {
            seq![255u8, 193u8, 84u8, 255u8]
        } else if 6 <= x <= 25 && 9 <= y <= 22 {
            seq![80u8, 173u8, 132u8, 255u8]
        } else {
            seq![0u8, 0u8, 0u8, 0u8]
        })[k],
{
    lemma_byte_position(x, y, k);
    lemma_square(x - 12);
    lemma_square(x - 20);
    lemma_square(y - 15);
}

/// The pixels of the tray icon, 32 by 32, row by row, four bytes (red,
/// green, blue, alpha) a pixel.
pub fn tray_icon_rgba() -> (res: Vec<u8>)
    ensures
        res@.len() == 4 * 32 * 32,
        forall|i: int| 0 <= i < res@.len() ==> #[trigger] res@[i] == tray_byte(i),
        forall|x: int, y: int, k: int|
            0 <= x < 32 && 0 <= y < 32 && 0 <= k < 4 ==> #[trigger] res@[pixel_byte_index(x, y, k)]
                == (if x == 5 || x == 26 || y == 8 || y == 23 {
                seq![29u8, 45u8, 54u8, 255u8]
            } else if (10 <= x <= 14 && 13 <= y <= 17 && !((x == 10 || x == 14) && (y == 13 || y
                == 17))) || (18 <= x <= 22 && 13 <= y <= 17 && !((x == 18 || x == 22) && (y
                == 13 || y == 17))) {
                seq![255u8, 193u8, 84u8, 255u8]
            } else if 6 <= x <= 25 && 9 <= y <= 22 {
                seq![80u8, 173u8, 132u8, 255u8]
            } else {
                seq![0u8, 0u8, 0u8, 0u8]
            })[k],
{
    let mut rgba: Vec<u8> = Vec::with_capacity(4 * 32 * 32);
    let mut y: i32 = 0;
    while y < 32
        invariant
            0 <= y <= 32,
            rgba@.len() == 4 * 32 * y,
            forall|i: int| 0 <= i < rgba@.len() ==> #[trigger] rgba@[i] == tray_byte(i),
        decreases 32 - y,
    {
        let mut x: i32 = 0;
        assert(4 * 32 * y == 4 * (32 * y + 0)) by (nonlinear_arith);
        while x < 32
            invariant
                0 <= y < 32,
                0 <= x <= 32,
                rgba@.len() == 4 * (32 * y + x),
                forall|i: int| 0 <= i < rgba@.len() ==> #[trigger] rgba@[i] == tray_byte(i),
            decreases 32 - x,
        {
            let pixel = pixel_color(x, y);
            let mut k: usize = 0;
            while k < 4
                invariant
                    0 <= y < 32,
                    0 <= x < 32,
                    0 <= k <= 4,
                    pixel@ == tray_pixel(x as int, y as int),
                    rgba@.len() == 4 * (32 * y + x) + k,
                    forall|i: int| 0 <= i < rgba@.len() ==> #[trigger] rgba@[i] == tray_byte(i),
                decreases 4 - k,
            {
                proof {
                    lemma_byte_position(x as int, y as int, k as int);
                }
                rgba.push(pixel[k]);
                k = k + 1;
            }
            x = x + 1;
        }
        assert(4 * (32 * y + 32) == 4 * 32 * (y + 1)) by (nonlinear_arith);
        y = y + 1;
    }
    assert forall|x: int, y: int, k: int|
        0 <= x < 32 && 0 <= y < 32 && 0 <= k < 4 implies #[trigger] rgba@[pixel_byte_index(
        x,
        y,
        k,
    )] == (if x == 5 || x == 26 || y == 8 || y == 23 {
        seq![29u8, 45u8, 54u8, 255u8]
    } else if (10 <= x <= 14 && 13 <= y <= 17 && !((x == 10 || x == 14) && (y == 13 || y == 17)))
        || (18 <= x <= 22 && 13 <= y <= 17 && !((x == 18 || x == 22) && (y == 13 || y == 17))) {
        seq![255u8, 193u8, 84u8, 255u8]
    } else if 6 <= x <= 25 && 9 <= y <= 22 {
        seq![80u8, 173u8, 132u8, 255u8]
    } else {
        seq![0u8, 0u8, 0u8, 0u8]
    })[k] by {
        lemma_tray_icon_picture(x, y, k);
        assert(0 <= pixel_byte_index(x, y, k) < 4 * 32 * 32) by (nonlinear_arith)
            requires
                0 <= x < 32,
                0 <= y < 32,
                0 <= k < 4,
        ;
    }
    rgba
}

} // verus!
