//! Conversions of raw BGGR Bayer camera frames: to a flipped RGBA form at
//! half resolution, back to raw layout, and the half-turn flip.
use vstd::prelude::*;

verus! {

/// Width of a raw camera frame, in pixels.
pub const WIDTH: usize = 2448;
/// Height of a raw camera frame, in pixels.
pub const HEIGHT: usize = 2048;

/// Byte `ch` of the RGBA pixel `(x, y)` of a frame that `raw2rgba_flip`
/// made from the raw BGGR frame `src`: the 2x2 cell at
/// `(WIDTH - 2x - 2, HEIGHT - 2y - 2)` gives R, G1, B and `G2 - G1 + 0x80`.
pub open spec fn rgba_flip_byte(src: Seq<u8>, x: int, y: int, ch: int) -> u8 {
    let p = (HEIGHT - 2 * y - 1) * WIDTH + (WIDTH - 2 * x - 1);
    if ch == 0 {
        src[p - 1 - WIDTH]
    } else if ch == 1 {
        src[p - 1]
    } else if ch == 2 {
        src[p]
    } else {
        ((src[p - WIDTH] as int - src[p - 1] as int + 0x80) % 256) as u8
    }
}

/// Flips frame and converts from raw Bayer to RGBA fromat
pub fn raw2rgba_flip(src: &[u8], dst: &mut [u8])
    requires
        src@.len() == WIDTH * HEIGHT,
        old(dst)@.len() == WIDTH * HEIGHT,
    ensures
        final(dst)@.len() == WIDTH * HEIGHT,
        forall|y: int, x: int, ch: int|
            0 <= y < HEIGHT / 2 && 0 <= x < WIDTH / 2 && 0 <= ch < 4 ==> #[trigger] final(dst)@[4 * (
            y * (WIDTH / 2) + x) + ch] == rgba_flip_byte(src@, x, y, ch),
{
    let mut y: usize = 0;
    while y < HEIGHT / 2
        invariant
            y <= HEIGHT / 2,
            src@.len() == WIDTH * HEIGHT,
            dst@.len() == WIDTH * HEIGHT,
            WIDTH == 2448 && HEIGHT == 2048,
            forall|yy: int, x: int, ch: int|
                0 <= yy < y && 0 <= x < WIDTH / 2 && 0 <= ch < 4 ==> #[trigger] dst@[4 * (yy * (
                WIDTH / 2) + x) + ch] == rgba_flip_byte(src@, x, yy, ch),
        decreases HEIGHT / 2 - y,
    {
        let mut x: usize = 0;
        while x < WIDTH / 2
            invariant
                y < HEIGHT / 2,
                x <= WIDTH / 2,
                src@.len() == WIDTH * HEIGHT,
                dst@.len() == WIDTH * HEIGHT,
                WIDTH == 2448 && HEIGHT == 2048,
                forall|yy: int, xx: int, ch: int|
                    0 <= yy < HEIGHT / 2 && 0 <= xx < WIDTH / 2 && 0 <= ch < 4 && (yy < y || (yy
                        == y && xx < x)) ==> #[trigger] dst@[4 * (yy * (WIDTH / 2) + xx) + ch]
                        == rgba_flip_byte(src@, xx, yy, ch),
            decreases WIDTH / 2 - x,
        {
            let rgba_pos = 4 * (y * (WIDTH / 2) + x);
            let raw_pos = (HEIGHT - 2 * y - 1) * WIDTH + (WIDTH - 2 * x - 1);
            let b = src[raw_pos];
            let g1 = src[raw_pos - 1];
            let g2 = src[raw_pos - WIDTH];
            let r = src[raw_pos - 1 - WIDTH];
            dst[rgba_pos] = r;
            dst[rgba_pos + 1] = g1;
            dst[rgba_pos + 2] = b;
            dst[rgba_pos + 3] = g2.wrapping_sub(g1).wrapping_add(0x80);
            proof {
                assert(dst@[rgba_pos + 3] == rgba_flip_byte(src@, x as int, y as int, 3));
            }
            x += 1;
        }
        y += 1;
    }
}

/// Byte `i` of the raw BGGR frame that `rgba2raw` makes from the RGBA frame
/// `src`, for `i` in the 2x2 cell of pixel `(x, y)`: B, G1 on the first row,
/// `delta + G1 - 0x80`, R on the second.
pub open spec fn raw_cell_byte(src: Seq<u8>, x: int, y: int, dy: int, dx: int) -> u8 {
    let p = 4 * (y * (WIDTH / 2) + x);
    if dy == 0 && dx == 0 {
        src[p + 2]
    } else if dy == 0 {
        src[p + 1]
    } else if dx == 0 {
        ((src[p + 3] as int + src[p + 1] as int - 0x80) % 256) as u8
    } else {
        src[p]
    }
}

/// Converts frame from RGBA to raw Bayer fromat (but does no perform flipping!)
pub fn rgba2raw(src: &[u8], dst: &mut [u8])
    requires
        src@.len() == WIDTH * HEIGHT,
        old(dst)@.len() == WIDTH * HEIGHT,
    ensures
        final(dst)@.len() == WIDTH * HEIGHT,
        forall|y: int, x: int, dy: int, dx: int|
            0 <= y < HEIGHT / 2 && 0 <= x < WIDTH / 2 && 0 <= dy < 2 && 0 <= dx < 2
                ==> #[trigger] final(dst)@[(2 * y + dy) * WIDTH + 2 * x + dx] == raw_cell_byte(
                src@,
                x,
                y,
                dy,
                dx,
            ),
{
    let mut y: usize = 0;
    while y < HEIGHT / 2
        invariant
            y <= HEIGHT / 2,
            src@.len() == WIDTH * HEIGHT,
            dst@.len() == WIDTH * HEIGHT,
            WIDTH == 2448 && HEIGHT == 2048,
            forall|yy: int, x: int, dy: int, dx: int|
                0 <= yy < y && 0 <= x < WIDTH / 2 && 0 <= dy < 2 && 0 <= dx < 2
                    ==> #[trigger] dst@[(2 * yy + dy) * WIDTH + 2 * x + dx] == raw_cell_byte(
                    src@,
                    x,
                    yy,
                    dy,
                    dx,
                ),
        decreases HEIGHT / 2 - y,
    {
        let mut x: usize = 0;
        while x < WIDTH / 2
            invariant
                y < HEIGHT / 2,
                x <= WIDTH / 2,
                src@.len() == WIDTH * HEIGHT,
                dst@.len() == WIDTH * HEIGHT,
                WIDTH == 2448 && HEIGHT == 2048,
                forall|yy: int, xx: int, dy: int, dx: int|
                    0 <= yy < HEIGHT / 2 && 0 <= xx < WIDTH / 2 && 0 <= dy < 2 && 0 <= dx < 2 && (yy
                        < y || (yy == y && xx < x)) ==> #[trigger] dst@[(2 * yy + dy) * WIDTH + 2
                        * xx + dx] == raw_cell_byte(src@, xx, yy, dy, dx),
            decreases WIDTH / 2 - x,
        {
            let rgba_pos = 4 * (y * (WIDTH / 2) + x);
            let raw_pos = 2 * y * WIDTH + 2 * x;
            let r = src[rgba_pos];
            let g1 = src[rgba_pos + 1];
            let b = src[rgba_pos + 2];
            let delta = src[rgba_pos + 3];
            let g2 = delta.wrapping_add(g1).wrapping_sub(0x80);
            dst[raw_pos] = b;
            dst[raw_pos + 1] = g1;
            dst[raw_pos + WIDTH] = g2;
            dst[raw_pos + WIDTH + 1] = r;
            proof {
                assert(dst@[raw_pos + WIDTH] == raw_cell_byte(src@, x as int, y as int, 1, 0));
            }
            x += 1;
        }
        y += 1;
    }
}

/// Performs in-place horizontal flip of raw Bayer image
///
/// The frame is turned by half a turn: byte `i` trades places with byte
/// `WIDTH * HEIGHT - 1 - i`.
pub fn raw_flip(buf: &mut [u8])
    requires
        old(buf)@.len() == WIDTH * HEIGHT,
    ensures
        final(buf)@ == old(buf)@.reverse(),
{
    let n: usize = WIDTH * HEIGHT;
    let mut y: usize = 0;
    while y < HEIGHT / 2
        invariant
            y <= HEIGHT / 2,
            n == WIDTH * HEIGHT,
            WIDTH == 2448 && HEIGHT == 2048,
            buf@.len() == n,
            forall|i: int| 0 <= i < y * WIDTH ==> #[trigger] buf@[i] == old(buf)@[n - 1 - i],
            forall|i: int| n - y * WIDTH <= i < n ==> #[trigger] buf@[i] == old(buf)@[n - 1 - i],
            forall|i: int| y * WIDTH <= i < n - y * WIDTH ==> #[trigger] buf@[i] == old(buf)@[i],
        decreases HEIGHT / 2 - y,
    {
        let mut x: usize = 0;
        while x < WIDTH
            invariant
                y < HEIGHT / 2,
                x <= WIDTH,
                n == WIDTH * HEIGHT,
                WIDTH == 2448 && HEIGHT == 2048,
                buf@.len() == n,
                forall|i: int| 0 <= i < y * WIDTH + x ==> #[trigger] buf@[i] == old(buf)@[n - 1 - i],
                forall|i: int| n - (y * WIDTH + x) <= i < n ==> #[trigger] buf@[i] == old(buf)@[n - 1 - i],
                forall|i: int| y * WIDTH + x <= i < n - (y * WIDTH + x) ==> #[trigger] buf@[i] == old(buf)@[i],
            decreases WIDTH - x,
        {
            let pos1 = y * WIDTH + x;
            let pos2 = (HEIGHT - y - 1) * WIDTH + (WIDTH - x - 1);
            proof {
                assert(pos2 == n - 1 - pos1);
            }
            let t = buf[pos1];
            let u = buf[pos2];
            buf[pos1] = u;
            buf[pos2] = t;
            x += 1;
        }
        y += 1;
    }
    proof {
        assert(buf@ =~= old(buf)@.reverse());
    }
}

} // verus!
