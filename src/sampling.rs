//! Extraction of 8x8 sample blocks from pixel buffers, with the RGB to
//! YCbCr transform.
use vstd::prelude::*;

verus! {

/// Luma of an RGB triple, truncated: 0.299 R + 0.587 G + 0.114 B.
pub open spec fn luma(r: int, g: int, b: int) -> int {
    (299 * r + 587 * g + 114 * b) / 1000
}

/// Blue-difference chroma, truncated: -0.1687 R - 0.3313 G + 0.5 B + 128.
pub open spec fn chroma_blue(r: int, g: int, b: int) -> int {
    (-1687 * r - 3313 * g + 5000 * b + 1280000) / 10000
}

/// Red-difference chroma, truncated: 0.5 R - 0.4187 G - 0.0813 B + 128.
pub open spec fn chroma_red(r: int, g: int, b: int) -> int {
    (5000 * r - 4187 * g - 813 * b + 1280000) / 10000
}

/// The byte at `index`, or the buffer's last byte where `index` is past its end.
pub open spec fn value_at_spec(s: Seq<u8>, index: int) -> u8 {
    if index < s.len() {
        s[index]
    } else {
        s[s.len() - 1]
    }
}

/// Offset of the first byte of sample `i` (row-major in the 8x8 block) of
/// the block at `(x0, y0)`, in an image `width` pixels wide of `bpp` bytes each.
pub open spec fn sample_offset(x0: int, y0: int, width: int, bpp: int, i: int) -> int {
    (y0 + i / 8) * bpp * width + x0 * bpp + (i % 8) * bpp
}

/// One channel of the block at `(x0, y0)`: byte `channel` of each pixel.
pub open spec fn block_channel(
    s: Seq<u8>,
    x0: int,
    y0: int,
    width: int,
    bpp: int,
    channel: int,
) -> Seq<u8> {
    Seq::new(64, |i: int| value_at_spec(s, sample_offset(x0, y0, width, bpp, i) + channel))
}

/// Component `comp` (0: Y, 1: Cb, 2: Cr) of the block at `(x0, y0)` of an RGB(A) image.
pub open spec fn block_ycbcr(
    s: Seq<u8>,
    x0: int,
    y0: int,
    width: int,
    bpp: int,
    comp: int,
) -> Seq<u8> {
    Seq::new(
        64,
        |i: int|
            {
                let o = sample_offset(x0, y0, width, bpp, i);
                let r = value_at_spec(s, o) as int;
                let g = value_at_spec(s, o + 1) as int;
                let b = value_at_spec(s, o + 2) as int;
                (if comp == 0 {
                    luma(r, g, b)
                } else if comp == 1 {
                    chroma_blue(r, g, b)
                } else {
                    chroma_red(r, g, b)
                }) as u8
            },
    )
}

/// Converts an RGB triple to Y, Cb, Cr.
pub fn rgb_to_ycbcr(r: u8, g: u8, b: u8) -> (res: (u8, u8, u8))
    ensures
        res.0 as int == luma(r as int, g as int, b as int),
        res.1 as int == chroma_blue(r as int, g as int, b as int),
        res.2 as int == chroma_red(r as int, g as int, b as int),
{
    let r = r as u32;
    let g = g as u32;
    let b = b as u32;
    let y = (299 * r + 587 * g + 114 * b) / 1000;
    let cb = (5000 * b + 1280000 - 1687 * r - 3313 * g) / 10000;
    let cr = (5000 * r + 1280000 - 4187 * g - 813 * b) / 10000;
    (y as u8, cb as u8, cr as u8)
}

/// The byte at `index`, or the last byte where `index` is past the end.
pub fn value_at(s: &[u8], index: u64) -> (r: u8)
    requires
        s@.len() > 0,
    ensures
        r == value_at_spec(s@, index as int),
{
    if index < s.len() as u64 {
        s[index as usize]
    } else {
        s[s.len() - 1]
    }
}

/// Extracts the Y, Cb and Cr blocks at `(x0, y0)` from an RGB(A) image.
pub fn copy_blocks_ycbcr(
    source: &[u8],
    x0: u64,
    y0: u64,
    width: u64,
    bpp: u64,
    yb: &mut [u8; 64],
    cbb: &mut [u8; 64],
    crb: &mut [u8; 64],
)
    requires
        source@.len() > 0,
        x0 <= 0x1_0000,
        y0 <= 0x1_0000,
        width <= 0x1_0000,
        bpp <= 4,
    ensures
        final(yb)@ == block_ycbcr(source@, x0 as int, y0 as int, width as int, bpp as int, 0),
        final(cbb)@ == block_ycbcr(source@, x0 as int, y0 as int, width as int, bpp as int, 1),
        final(crb)@ == block_ycbcr(source@, x0 as int, y0 as int, width as int, bpp as int, 2),
{
    let ghost sy = block_ycbcr(source@, x0 as int, y0 as int, width as int, bpp as int, 0);
    let ghost scb = block_ycbcr(source@, x0 as int, y0 as int, width as int, bpp as int, 1);
    let ghost scr = block_ycbcr(source@, x0 as int, y0 as int, width as int, bpp as int, 2);
    let mut i: usize = 0;
    while i < 64
        invariant
            i <= 64,
            source@.len() > 0,
            x0 <= 0x1_0000,
            y0 <= 0x1_0000,
            width <= 0x1_0000,
            bpp <= 4,
            sy == block_ycbcr(source@, x0 as int, y0 as int, width as int, bpp as int, 0),
            scb == block_ycbcr(source@, x0 as int, y0 as int, width as int, bpp as int, 1),
            scr == block_ycbcr(source@, x0 as int, y0 as int, width as int, bpp as int, 2),
            forall|j: int| 0 <= j < i ==> #[trigger] yb@[j] == sy[j],
            forall|j: int| 0 <= j < i ==> #[trigger] cbb@[j] == scb[j],
            forall|j: int| 0 <= j < i ==> #[trigger] crb@[j] == scr[j],
        decreases 64 - i,
    {
        let yy = (i / 8) as u64;
        let xx = (i % 8) as u64;
        proof {
            assert((y0 + yy) * bpp <= 0x1_0010 * 4) by (nonlinear_arith)
                requires
                    y0 + yy <= 0x1_0010,
                    bpp <= 4,
            ;
            assert((y0 + yy) * bpp * width <= 0x1_0010 * 4 * 0x1_0000) by (nonlinear_arith)
                requires
                    (y0 + yy) * bpp <= 0x1_0010 * 4,
                    width <= 0x1_0000,
            ;
            assert(x0 * bpp <= 0x1_0000 * 4) by (nonlinear_arith)
                requires
                    x0 <= 0x1_0000,
                    bpp <= 4,
            ;
            assert(xx * bpp <= 7 * 4) by (nonlinear_arith)
                requires
                    xx <= 7,
                    bpp <= 4,
            ;
        }
        let o: u64 = (y0 + yy) * bpp * width + x0 * bpp + xx * bpp;
        let r = value_at(source, o);
        let g = value_at(source, o + 1);
        let b = value_at(source, o + 2);
        let (yc, cb, cr) = rgb_to_ycbcr(r, g, b);
        proof {
            assert(o as int == sample_offset(x0 as int, y0 as int, width as int, bpp as int, i as int));
        }
        yb[i] = yc;
        cbb[i] = cb;
        crb[i] = cr;
        i += 1;
    }
    proof {
        assert(yb@ =~= sy);
        assert(cbb@ =~= scb);
        assert(crb@ =~= scr);
    }
}

/// Extracts the gray block at `(x0, y0)` from a gray(+alpha) image.
pub fn copy_blocks_gray(
    source: &[u8],
    x0: u64,
    y0: u64,
    width: u64,
    bpp: u64,
    gb: &mut [u8; 64],
)
    requires
        source@.len() > 0,
        x0 <= 0x1_0000,
        y0 <= 0x1_0000,
        width <= 0x1_0000,
        bpp <= 4,
    ensures
        final(gb)@ == block_channel(source@, x0 as int, y0 as int, width as int, bpp as int, 0),
{
    let ghost sg = block_channel(source@, x0 as int, y0 as int, width as int, bpp as int, 0);
    let mut i: usize = 0;
    while i < 64
        invariant
            i <= 64,
            source@.len() > 0,
            x0 <= 0x1_0000,
            y0 <= 0x1_0000,
            width <= 0x1_0000,
            bpp <= 4,
            sg == block_channel(source@, x0 as int, y0 as int, width as int, bpp as int, 0),
            forall|j: int| 0 <= j < i ==> #[trigger] gb@[j] == sg[j],
        decreases 64 - i,
    {
        let yy = (i / 8) as u64;
        let xx = (i % 8) as u64;
        proof {
            assert((y0 + yy) * bpp <= 0x1_0010 * 4) by (nonlinear_arith)
                requires
                    y0 + yy <= 0x1_0010,
                    bpp <= 4,
            ;
            assert((y0 + yy) * bpp * width <= 0x1_0010 * 4 * 0x1_0000) by (nonlinear_arith)
                requires
                    (y0 + yy) * bpp <= 0x1_0010 * 4,
                    width <= 0x1_0000,
            ;
            assert(x0 * bpp <= 0x1_0000 * 4) by (nonlinear_arith)
                requires
                    x0 <= 0x1_0000,
                    bpp <= 4,
            ;
            assert(xx * bpp <= 7 * 4) by (nonlinear_arith)
                requires
                    xx <= 7,
                    bpp <= 4,
            ;
        }
        let o: u64 = (y0 + yy) * bpp * width + x0 * bpp + xx * bpp;
        proof {
            assert(o as int == sample_offset(x0 as int, y0 as int, width as int, bpp as int, i as int));
        }
        gb[i] = value_at(source, o);
        i += 1;
    }
    proof {
        assert(gb@ =~= sg);
    }
}

} // verus!
