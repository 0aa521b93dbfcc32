//! The generated colour square.
//!
//! The square generator paints a fixed-size canvas in one base colour and
//! marks two figures on it: on the outer border rows and columns the green
//! channel is inverted, and on either diagonal the blue channel is
//! inverted.  A pixel on both figures gets both inversions.  The red
//! channel is the base red everywhere.
//!
//! [`square_bytes`] is the whole image as a mathematical sequence of bytes
//! in row-major red-green-blue order, and [`render_square`] is proved to
//! produce exactly that sequence; writing it to a file as an image is the
//! business of the binary around the library.

use vstd::prelude::*;

use vstd::arithmetic::div_mod::lemma_fundamental_div_mod_converse;

verus! {

/// Width and height of the generated square, in pixels.
pub const SQUARE_SIZE: u32 = 100;

/// The pixel lies on the outer border of the canvas.
pub open spec fn on_border(x: int, y: int) -> bool {
    x == 0 || x == SQUARE_SIZE - 1 || y == 0 || y == SQUARE_SIZE - 1
}

/// The pixel lies on one of the two diagonals.
pub open spec fn on_diagonal(x: int, y: int) -> bool {
    x == y || x + y == SQUARE_SIZE - 1
}

/// The green channel at a pixel: inverted on the border, the base green
/// elsewhere.
pub open spec fn square_green_at(green: u8, x: int, y: int) -> u8 {
    if on_border(x, y) {
        (255 - green) as u8
    } else {
        green
    }
}

/// The blue channel at a pixel: inverted on a diagonal, the base blue
/// elsewhere.
pub open spec fn square_blue_at(blue: u8, x: int, y: int) -> u8 {
    if on_diagonal(x, y) {
        (255 - blue) as u8
    } else {
        blue
    }
}

/// Byte `i` of the image in row-major red-green-blue order: three bytes per
/// pixel, pixels ordered row by row.
pub open spec fn square_byte_at(red: u8, green: u8, blue: u8, i: int) -> u8 {
    let pix = i / 3;
    let ch = i % 3;
    let x = pix % (SQUARE_SIZE as int);
    let y = pix / (SQUARE_SIZE as int);
    if ch == 0 {
        red
    } else if ch == 1 {
        square_green_at(green, x, y)
    } else {
        square_blue_at(blue, x, y)
    }
}

/// The whole generated image as a byte sequence.
pub open spec fn square_bytes(red: u8, green: u8, blue: u8) -> Seq<u8> {
    Seq::new((3 * SQUARE_SIZE * SQUARE_SIZE) as nat, |i: int| square_byte_at(red, green, blue, i))
}

/// Row-major indexing: the three bytes of pixel `(x, y)` stand at offset
/// `3 * (SQUARE_SIZE * y + x)`.
proof fn lemma_square_index(x: int, y: int)
    requires
        0 <= x < SQUARE_SIZE,
        0 <= y < SQUARE_SIZE,
    ensures
        (3 * (SQUARE_SIZE * y + x)) / 3 == SQUARE_SIZE * y + x,
        (3 * (SQUARE_SIZE * y + x)) % 3 == 0,
        (3 * (SQUARE_SIZE * y + x) + 1) / 3 == SQUARE_SIZE * y + x,
        (3 * (SQUARE_SIZE * y + x) + 1) % 3 == 1,
        (3 * (SQUARE_SIZE * y + x) + 2) / 3 == SQUARE_SIZE * y + x,
        (3 * (SQUARE_SIZE * y + x) + 2) % 3 == 2,
        (SQUARE_SIZE * y + x) / (SQUARE_SIZE as int) == y,
        (SQUARE_SIZE * y + x) % (SQUARE_SIZE as int) == x,
{
    let pix = SQUARE_SIZE * y + x;
    lemma_fundamental_div_mod_converse(3 * pix, 3, pix, 0);
    lemma_fundamental_div_mod_converse(3 * pix + 1, 3, pix, 1);
    lemma_fundamental_div_mod_converse(3 * pix + 2, 3, pix, 2);
    lemma_fundamental_div_mod_converse(pix, SQUARE_SIZE as int, y, x);
}

/// What [`square_bytes`] holds at pixel `(x, y)`: base red, the green of
/// [`square_green_at`] and the blue of [`square_blue_at`].
pub proof fn lemma_square_pixel_lookup(red: u8, green: u8, blue: u8, x: int, y: int)
    requires
        0 <= x < SQUARE_SIZE,
        0 <= y < SQUARE_SIZE,
    ensures
        square_bytes(red, green, blue)[3 * (SQUARE_SIZE * y + x)] == red,
        square_bytes(red, green, blue)[3 * (SQUARE_SIZE * y + x) + 1] == square_green_at(
            green,
            x,
            y,
        ),
        square_bytes(red, green, blue)[3 * (SQUARE_SIZE * y + x) + 2] == square_blue_at(
            blue,
            x,
            y,
        ),
{
    lemma_square_index(x, y);
}

/// The three channels of pixel `(x, y)` of the generated square with base
/// colour `(red, green, blue)`.
pub fn square_pixel(red: u8, green: u8, blue: u8, x: u32, y: u32) -> (rgb: (u8, u8, u8))
    requires
        x < SQUARE_SIZE,
        y < SQUARE_SIZE,
    ensures
        rgb.0 == red,
        rgb.1 == square_green_at(green, x as int, y as int),
        rgb.2 == square_blue_at(blue, x as int, y as int),
{
    let new_green = if x == 0 || x == SQUARE_SIZE - 1 || y == 0 || y == SQUARE_SIZE - 1 {
        255 - green
    } else {
        green
    };
    let new_blue = if x == y || x + y == SQUARE_SIZE - 1 {
        255 - blue
    } else {
        blue
    };
    (red, new_green, new_blue)
}

/// Renders the whole square: exactly the bytes of [`square_bytes`], pixel
/// by pixel in row-major order, three bytes per pixel.
pub fn render_square(red: u8, green: u8, blue: u8) -> (buf: Vec<u8>)
    ensures
        buf@ == square_bytes(red, green, blue),
{
    let ghost sb = square_bytes(red, green, blue);
    let mut buf: Vec<u8> = Vec::new();
    let mut y: u32 = 0;
    proof {
        assert(sb.take(0) =~= buf@);
    }
    while y < SQUARE_SIZE
        invariant
            y <= SQUARE_SIZE,
            sb == square_bytes(red, green, blue),
            buf@ == sb.take(300 * y as int),
        decreases SQUARE_SIZE - y,
    {
        let mut x: u32 = 0;
        while x < SQUARE_SIZE
            invariant
                x <= SQUARE_SIZE,
                y < SQUARE_SIZE,
                sb == square_bytes(red, green, blue),
                buf@ == sb.take(300 * y as int + 3 * x as int),
            decreases SQUARE_SIZE - x,
        {
            let (r, g, b) = square_pixel(red, green, blue, x, y);
            let ghost k = 300 * y as int + 3 * x as int;
            proof {
                lemma_square_index(x as int, y as int);
                assert(k == 3 * (SQUARE_SIZE * y as int + x as int));
                assert(sb[k] == r);
                assert(sb[k + 1] == g);
                assert(sb[k + 2] == b);
            }
            buf.push(r);
            proof {
                assert(buf@ =~= sb.take(k + 1));
            }
            buf.push(g);
            proof {
                assert(buf@ =~= sb.take(k + 2));
            }
            buf.push(b);
            proof {
                assert(buf@ =~= sb.take(k + 3));
            }
            x += 1;
        }
        y += 1;
    }
    proof {
        assert(sb.take(30000) =~= sb);
    }
    buf
}

} // verus!
