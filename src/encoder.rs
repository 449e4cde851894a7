//! The baseline JPEG encoder: header segments, the block scan in raster
//! order with one DC predictor per component, padding and EOI.
use vstd::prelude::*;
use crate::bitstream::{BitWriter, bits_msb, emits, entropy_bytes, segment_bytes, lemma_emits_trans};
use crate::entropy::{EncodeError, block_code, block_in_range};
use crate::huffman::{build_huff_lut, lut_of};
use crate::quantize::{build_quant_tables, quant_tables, quantize, quantize_spec};
use crate::sampling::{block_channel, block_ycbcr, copy_blocks_gray, copy_blocks_ycbcr};
use crate::segments::{
    Component, build_frame_header, build_huffman_segment, build_jfif_header,
    build_quantization_segment, build_scan_header, frame_payload, huffman_payload, jfif_payload,
    quantization_payload, scan_payload,
};
use crate::tables::{
    chroma_ac_counts, chroma_ac_values, chroma_dc_counts, chroma_dc_values, luma_ac_counts,
    luma_ac_values, luma_dc_counts, luma_dc_values, std_chroma_ac_counts, std_chroma_ac_values,
    std_chroma_dc_counts, std_chroma_dc_values, std_luma_ac_counts, std_luma_ac_values,
    std_luma_dc_counts, std_luma_dc_values,
};
use crate::transform::{fdct, fdct_spec};

verus! {

/// Start of image.
pub const SOI: u8 = 0xD8;
/// End of image.
pub const EOI: u8 = 0xD9;
/// JFIF application segment.
pub const APP0: u8 = 0xE0;
/// Baseline frame header.
pub const SOF0: u8 = 0xC0;
/// Quantization tables.
pub const DQT: u8 = 0xDB;
/// Huffman tables.
pub const DHT: u8 = 0xC4;
/// Start of scan.
pub const SOS: u8 = 0xDA;

/// The layout of the pixels of an image.
#[derive(Clone, Copy, PartialEq, Eq, Debug)]
pub enum Color {
    RGB,
    RGBA,
    Gray,
    GrayA,
}

pub open spec fn bytes_per_pixel(c: Color) -> nat {
    match c {
        Color::RGB => 3,
        Color::RGBA => 4,
        Color::Gray => 1,
        Color::GrayA => 2,
    }
}

pub open spec fn num_components(c: Color) -> nat {
    match c {
        Color::RGB | Color::RGBA => 3,
        Color::Gray | Color::GrayA => 1,
    }
}

/// Y, Cb and Cr: Y uses table set 0, the chroma components table set 1.
pub open spec fn std_components() -> Seq<Component> {
    seq![
        Component { id: 1, h: 1, v: 1, tq: 0, dc_table: 0, ac_table: 0 },
        Component { id: 2, h: 1, v: 1, tq: 1, dc_table: 1, ac_table: 1 },
        Component { id: 3, h: 1, v: 1, tq: 1, dc_table: 1, ac_table: 1 },
    ]
}

pub open spec fn luma_dc_lut() -> Seq<(u8, u16)> {
    lut_of(std_luma_dc_counts(), std_luma_dc_values())
}

pub open spec fn luma_ac_lut() -> Seq<(u8, u16)> {
    lut_of(std_luma_ac_counts(), std_luma_ac_values())
}

pub open spec fn chroma_dc_lut() -> Seq<(u8, u16)> {
    lut_of(std_chroma_dc_counts(), std_chroma_dc_values())
}

pub open spec fn chroma_ac_lut() -> Seq<(u8, u16)> {
    lut_of(std_chroma_ac_counts(), std_chroma_ac_values())
}

/// Number of block columns of an image `width` pixels wide.
pub open spec fn blocks_across(width: nat) -> nat {
    (width + 7) / 8
}

/// Number of block rows of an image `height` pixels high.
pub open spec fn blocks_down(height: nat) -> nat {
    (height + 7) / 8
}

/// A block of samples transformed and quantized by a 64-entry table.
pub open spec fn quantized_block(samples: Seq<u8>, qtable: Seq<u8>) -> Seq<i32> {
    Seq::new(64, |i: int| quantize_spec(fdct_spec(samples)[i], qtable[i]) as i32)
}

/// The quantized block of component `comp` at block position `n` (raster order).
pub open spec fn block_at(
    img: Seq<u8>,
    width: nat,
    ncomp: nat,
    bpp: nat,
    qt: Seq<u8>,
    n: nat,
    comp: int,
) -> Seq<i32> {
    let bw = blocks_across(width);
    let x0 = 8 * (n % bw) as int;
    let y0 = 8 * (n / bw) as int;
    if ncomp == 1 {
        quantized_block(block_channel(img, x0, y0, width as int, bpp as int, 0), qt.subrange(0, 64))
    } else {
        quantized_block(
            block_ycbcr(img, x0, y0, width as int, bpp as int, comp),
            if comp == 0 {
                qt.subrange(0, 64)
            } else {
                qt.subrange(64, 128)
            },
        )
    }
}

/// Codes the blocks of block position `n` after the state `st`: the bits so
/// far and the DC predictors of Y, Cb, Cr.
pub open spec fn scan_step(
    img: Seq<u8>,
    width: nat,
    ncomp: nat,
    bpp: nat,
    qt: Seq<u8>,
    n: nat,
    st: (Seq<bool>, Seq<int>),
) -> Option<(Seq<bool>, Seq<int>)> {
    let b0 = block_at(img, width, ncomp, bpp, qt, n, 0);
    match block_code(b0, st.1[0], luma_dc_lut(), luma_ac_lut()) {
        None => None,
        Some(c0) => if ncomp == 1 {
            Some((st.0 + c0, st.1.update(0, b0[0] as int)))
        } else {
            let b1 = block_at(img, width, ncomp, bpp, qt, n, 1);
            match block_code(b1, st.1[1], chroma_dc_lut(), chroma_ac_lut()) {
                None => None,
                Some(c1) => {
                    let b2 = block_at(img, width, ncomp, bpp, qt, n, 2);
                    match block_code(b2, st.1[2], chroma_dc_lut(), chroma_ac_lut()) {
                        None => None,
                        Some(c2) => Some(
                            (st.0 + c0 + c1 + c2, seq![b0[0] as int, b1[0] as int, b2[0] as int]),
                        ),
                    }
                },
            }
        },
    }
}

/// The scan after the first `n` block positions; none where a symbol has no code.
pub open spec fn scan_state(
    img: Seq<u8>,
    width: nat,
    ncomp: nat,
    bpp: nat,
    qt: Seq<u8>,
    n: nat,
) -> Option<(Seq<bool>, Seq<int>)>
    decreases n,
{
    if n == 0 {
        Some((Seq::empty(), seq![0int, 0, 0]))
    } else {
        match scan_state(img, width, ncomp, bpp, qt, (n - 1) as nat) {
            None => None,
            Some(st) => scan_step(img, width, ncomp, bpp, qt, (n - 1) as nat, st),
        }
    }
}

/// The entropy-coded bits of a whole image.
pub open spec fn scan_bits(
    img: Seq<u8>,
    width: nat,
    height: nat,
    ncomp: nat,
    bpp: nat,
    qt: Seq<u8>,
) -> Option<Seq<bool>> {
    match scan_state(img, width, ncomp, bpp, qt, blocks_across(width) * blocks_down(height)) {
        Some(st) => Some(st.0),
        None => None,
    }
}

/// The marker segments before the scan data, in order.
pub open spec fn header_segments(c: Color, width: u16, height: u16, qt: Seq<u8>) -> Seq<
    (u8, Option<Seq<u8>>),
> {
    let n = num_components(c);
    let cs = std_components().take(n as int);
    seq![
        (SOI, None),
        (APP0, Some(jfif_payload())),
        (SOF0, Some(frame_payload(8, width, height, cs))),
        (DQT, Some(quantization_payload(0, qt.subrange(0, 64)))),
    ] + (if n == 3 {
        seq![(DQT, Some(quantization_payload(1, qt.subrange(64, 128))))]
    } else {
        Seq::empty()
    }) + seq![
        (DHT, Some(huffman_payload(0, 0, std_luma_dc_counts(), std_luma_dc_values()))),
        (DHT, Some(huffman_payload(1, 0, std_luma_ac_counts(), std_luma_ac_values()))),
    ] + (if n == 3 {
        seq![
            (DHT, Some(huffman_payload(0, 1, std_chroma_dc_counts(), std_chroma_dc_values()))),
            (DHT, Some(huffman_payload(1, 1, std_chroma_ac_counts(), std_chroma_ac_values()))),
        ]
    } else {
        Seq::empty()
    }) + seq![(SOS, Some(scan_payload(cs)))]
}

/// The bytes of a list of marker segments.
pub open spec fn segments_bytes(segs: Seq<(u8, Option<Seq<u8>>)>) -> Seq<u8>
    decreases segs.len(),
{
    if segs.len() == 0 {
        Seq::empty()
    } else {
        segments_bytes(segs.drop_last()) + segment_bytes(segs.last().0, segs.last().1)
    }
}

/// A whole JPEG stream: headers, the scan bits padded with seven 1-bits
/// (whole bytes only, 0xFF stuffed), and EOI.
pub open spec fn jpeg_stream(c: Color, width: u16, height: u16, qt: Seq<u8>, bits: Seq<bool>) -> Seq<
    u8,
> {
    let all = bits + bits_msb(0x7F, 7);
    segments_bytes(header_segments(c, width, height, qt)) + entropy_bytes(
        all.take(8 * (all.len() as int / 8)),
    ) + segment_bytes(EOI, None)
}

} // verus!

verus! {

/// The representation of a JPEG encoder
pub struct JpegEncoder<'a> {
    writer: BitWriter<'a>,
    components: Vec<Component>,
    tables: Vec<u8>,
    luma_dctable: Vec<(u8, u16)>,
    luma_actable: Vec<(u8, u16)>,
    chroma_dctable: Vec<(u8, u16)>,
    chroma_actable: Vec<(u8, u16)>,
}

/// Where a scan fails, every longer scan fails.
pub proof fn lemma_scan_none(
    img: Seq<u8>,
    width: nat,
    ncomp: nat,
    bpp: nat,
    qt: Seq<u8>,
    n: nat,
    m: nat,
)
    requires
        n <= m,
        scan_state(img, width, ncomp, bpp, qt, n) is None,
    ensures
        scan_state(img, width, ncomp, bpp, qt, m) is None,
    decreases m - n,
{
    if n < m {
        lemma_scan_none(img, width, ncomp, bpp, qt, n, (m - 1) as nat);
    }
}

proof fn lemma_std_counts()
    ensures
        sum_counts_is(std_luma_dc_counts(), std_luma_dc_values()),
        sum_counts_is(std_luma_ac_counts(), std_luma_ac_values()),
        sum_counts_is(std_chroma_dc_counts(), std_chroma_dc_values()),
        sum_counts_is(std_chroma_ac_counts(), std_chroma_ac_values()),
{
    assert(crate::huffman::sum_counts(std_luma_dc_counts()) == 12);
    assert(crate::huffman::sum_counts(std_luma_ac_counts()) == 162);
    assert(crate::huffman::sum_counts(std_chroma_dc_counts()) == 12);
    assert(crate::huffman::sum_counts(std_chroma_ac_counts()) == 162);
}

/// The counts of a table specification add up to its number of values.
pub open spec fn sum_counts_is(counts: Seq<u8>, values: Seq<u8>) -> bool {
    counts.len() == 16 && crate::huffman::sum_counts(counts) == values.len() && values.len() <= 256
}

/// Quantizes a transformed block against the 64 table entries at `offset`.
fn quantize_block(raw: &[i32; 64], tables: &Vec<u8>, offset: usize) -> (r: [i32; 64])
    requires
        offset + 64 <= tables@.len(),
        forall|i: int| 0 <= i < tables@.len() ==> 1 <= #[trigger] tables@[i],
        forall|i: int| 0 <= i < 64 ==> -8192 <= #[trigger] raw@[i] <= 8192,
    ensures
        forall|i: int| 0 <= i < 64 ==> #[trigger] r@[i] as int == quantize_spec(
            raw@[i] as int,
            tables@[offset + i],
        ),
        block_in_range(r@),
        forall|i: int| 0 <= i < 64 ==> -1024 <= #[trigger] r@[i] <= 1024,
{
    let mut q: [i32; 64] = [0i32; 64];
    let tl = tables.len();
    let mut i: usize = 0;
    while i < 64
        invariant
            i <= 64,
            tl == tables@.len(),
            offset + 64 <= tables@.len(),
            forall|j: int| 0 <= j < tables@.len() ==> 1 <= #[trigger] tables@[j],
            forall|j: int| 0 <= j < 64 ==> -8192 <= #[trigger] raw@[j] <= 8192,
            forall|j: int| 0 <= j < i ==> #[trigger] q@[j] as int == quantize_spec(
                raw@[j] as int,
                tables@[offset + j],
            ),
            forall|j: int| 0 <= j < 64 ==> -1024 <= #[trigger] q@[j] <= 1024,
        decreases 64 - i,
    {
        q[i] = quantize(raw[i], tables[offset + i]);
        i += 1;
    }
    q
}

impl<'a> JpegEncoder<'a> {
    pub closed spec fn wf(&self) -> bool {
        &&& self.writer.wf()
        &&& self.components@ == std_components()
        &&& self.tables@.len() == 128
        &&& forall|i: int| 0 <= i < 128 ==> 1 <= #[trigger] self.tables@[i]
        &&& self.luma_dctable@ == luma_dc_lut()
        &&& self.luma_actable@ == luma_ac_lut()
        &&& self.chroma_dctable@ == chroma_dc_lut()
        &&& self.chroma_actable@ == chroma_ac_lut()
        &&& self.luma_dctable@.len() == 256
        &&& self.luma_actable@.len() == 256
        &&& self.chroma_dctable@.len() == 256
        &&& self.chroma_actable@.len() == 256
    }

    /// The quantization tables, luma then chroma, in natural order.
    pub closed spec fn qtables(&self) -> Seq<u8> {
        self.tables@
    }

    /// The bytes of the output so far.
    pub closed spec fn out(&self) -> Seq<u8> {
        self.writer.out()
    }

    /// Create a new encoder that writes its output to ```w```
    pub fn new(w: &'a mut Vec<u8>) -> (r: JpegEncoder<'a>)
        ensures
            r.wf(),
            r.qtables() == quant_tables(75),
            r.out() == old(w)@,
    {
        JpegEncoder::new_with_quality(w, 75)
    }

    /// Create a new encoder that writes its output to ```w```, and has
    /// the quality parameter ```quality``` with a value in the range 1-100
    /// where 1 is the worst and 100 is the best.
    pub fn new_with_quality(w: &'a mut Vec<u8>, quality: u8) -> (r: JpegEncoder<'a>)
        ensures
            r.wf(),
            r.qtables() == quant_tables(quality),
            r.out() == old(w)@,
    {
        proof {
            lemma_std_counts();
        }
        let ld = build_huff_lut(luma_dc_counts().as_slice(), luma_dc_values().as_slice());
        let la = build_huff_lut(luma_ac_counts().as_slice(), luma_ac_values().as_slice());
        let cd = build_huff_lut(chroma_dc_counts().as_slice(), chroma_dc_values().as_slice());
        let ca = build_huff_lut(chroma_ac_counts().as_slice(), chroma_ac_values().as_slice());
        let components = vec![
            Component { id: 1, h: 1, v: 1, tq: 0, dc_table: 0, ac_table: 0 },
            Component { id: 2, h: 1, v: 1, tq: 1, dc_table: 1, ac_table: 1 },
            Component { id: 3, h: 1, v: 1, tq: 1, dc_table: 1, ac_table: 1 },
        ];
        proof {
            assert(components@ =~= std_components());
        }
        let tables = build_quant_tables(quality);
        JpegEncoder {
            writer: BitWriter::new(w),
            components,
            tables,
            luma_dctable: ld,
            luma_actable: la,
            chroma_dctable: cd,
            chroma_actable: ca,
        }
    }

    /// Origin of block `n` of the raster: `(8 * (n % bw), 8 * (n / bw))`.
    fn block_origin(n: u64, bw: u64, bh: u64, width: u64, height: u64) -> (r: (u64, u64))
        requires
            bw == (width + 7) / 8,
            bh == (height + 7) / 8,
            width <= 0xFFFF,
            height <= 0xFFFF,
            n < bw * bh,
        ensures
            r.0 == 8 * (n % bw),
            r.1 == 8 * (n / bw),
            r.0 <= 0x1_0000,
            r.1 <= 0x1_0000,
    {
        proof {
            assert(bw > 0) by (nonlinear_arith)
                requires
                    n < bw * bh,
            ;
            vstd::arithmetic::div_mod::lemma_fundamental_div_mod(n as int, bw as int);
            assert(n / bw < bh) by (nonlinear_arith)
                requires
                    n < bw * bh,
                    n == bw * (n / bw) + n % bw,
                    n % bw >= 0,
                    bw > 0,
            ;
        }
        ((n % bw) * 8, (n / bw) * 8)
    }

    /// Samples, transforms, quantizes and codes one gray block.
    fn write_gray_block(
        &mut self,
        image: &[u8],
        width: u64,
        bpp: u64,
        x0: u64,
        y0: u64,
        prev: i32,
    ) -> (r: Result<i32, EncodeError>)
        requires
            old(self).wf(),
            image@.len() > 0,
            x0 <= 0x1_0000,
            y0 <= 0x1_0000,
            width <= 0xFFFF,
            bpp <= 4,
            -1024 <= prev <= 1024,
        ensures
            final(self).wf(),
            final(self).tables@ == old(self).tables@,
            ({
                let blk = quantized_block(
                    block_channel(image@, x0 as int, y0 as int, width as int, bpp as int, 0),
                    old(self).tables@.subrange(0, 64),
                );
                match block_code(blk, prev as int, luma_dc_lut(), luma_ac_lut()) {
                    Some(b) => r == Ok::<i32, EncodeError>(blk[0]) && -1024 <= blk[0] <= 1024
                        && emits(
                        old(self).writer.out(),
                        old(self).writer.pending(),
                        final(self).writer.out(),
                        final(self).writer.pending(),
                        b,
                    ),
                    None => r is Err,
                }
            }),
    {
        let mut yblock = [0u8; 64];
        copy_blocks_gray(image, x0, y0, width, bpp, &mut yblock);
        let dct_yblock = fdct(&yblock);
        let q = quantize_block(&dct_yblock, &self.tables, 0);
        proof {
            assert(q@ =~= quantized_block(yblock@, self.tables@.subrange(0, 64)));
            assert(-1024 <= q@[0] <= 1024);
        }
        self.writer.write_block(&q, prev, self.luma_dctable.as_slice(), self.luma_actable.as_slice())
    }

    fn encode_gray(&mut self, image: &[u8], width: u64, height: u64, bpp: u64) -> (r: Result<
        (),
        EncodeError,
    >)
        requires
            old(self).wf(),
            width <= 0xFFFF,
            height <= 0xFFFF,
            bpp == 1 || bpp == 2,
            image@.len() >= width * height * bpp,
        ensures
            final(self).wf(),
            final(self).tables@ == old(self).tables@,
            match scan_bits(image@, width as nat, height as nat, 1, bpp as nat, old(self).tables@) {
                Some(b) => r is Ok && emits(
                    old(self).writer.out(),
                    old(self).writer.pending(),
                    final(self).writer.out(),
                    final(self).writer.pending(),
                    b,
                ),
                None => r is Err,
            },
    {
        let ghost img = image@;
        let ghost qt = self.tables@;
        let ghost o0 = self.writer.out();
        let ghost p0 = self.writer.pending();
        let bw = (width + 7) / 8;
        let bh = (height + 7) / 8;
        proof {
            assert(bw * bh <= 8192 * 8192) by (nonlinear_arith)
                requires
                    bw <= 8192,
                    bh <= 8192,
            ;
        }
        let nblocks = bw * bh;
        proof {
            if nblocks > 0 {
                assert(width >= 1 && height >= 1) by (nonlinear_arith)
                    requires
                        nblocks == bw * bh,
                        nblocks > 0,
                        bw == (width + 7) / 8,
                        bh == (height + 7) / 8,
                ;
                assert(width * height * bpp >= 1) by (nonlinear_arith)
                    requires
                        width >= 1,
                        height >= 1,
                        bpp >= 1,
                ;
            }
        }
        let mut y_dcprev: i32 = 0;
        let mut n: u64 = 0;
        proof {
            self.writer.lemma_pending_short();
            crate::bitstream::lemma_emits_empty(o0, p0);
        }
        while n < nblocks
            invariant
                self.wf(),
                self.tables@ == qt,
                qt == old(self).tables@,
                o0 == old(self).writer.out(),
                p0 == old(self).writer.pending(),
                img == image@,
                width <= 0xFFFF,
                height <= 0xFFFF,
                bpp == 1 || bpp == 2,
                nblocks > 0 ==> image@.len() > 0,
                bw == (width + 7) / 8,
                bh == (height + 7) / 8,
                nblocks == bw * bh,
                n <= nblocks,
                -1024 <= y_dcprev <= 1024,
                match scan_state(img, width as nat, 1, bpp as nat, qt, n as nat) {
                    Some(st) => emits(o0, p0, self.writer.out(), self.writer.pending(), st.0)
                        && st.1.len() == 3 && st.1[0] == y_dcprev as int,
                    None => false,
                },
            decreases nblocks - n,
        {
            let ghost st = scan_state(img, width as nat, 1, bpp as nat, qt, n as nat).unwrap();
            let (x0, y0) = JpegEncoder::block_origin(n, bw, bh, width, height);
            let ghost o1 = self.writer.out();
            let ghost p1 = self.writer.pending();
            let ghost b0 = block_at(img, width as nat, 1, bpp as nat, qt, n as nat, 0);
            proof {
                assert(blocks_across(width as nat) == bw);
                assert(b0 == quantized_block(
                    block_channel(img, x0 as int, y0 as int, width as int, bpp as int, 0),
                    qt.subrange(0, 64),
                ));
                assert(scan_state(img, width as nat, 1, bpp as nat, qt, (n + 1) as nat) == scan_step(
                    img,
                    width as nat,
                    1,
                    bpp as nat,
                    qt,
                    n as nat,
                    st,
                ));
            }
            match self.write_gray_block(image, width, bpp, x0, y0, y_dcprev) {
                Ok(dc) => {
                    proof {
                        let c0 = block_code(b0, st.1[0], luma_dc_lut(), luma_ac_lut()).unwrap();
                        lemma_emits_trans(
                            o0,
                            p0,
                            o1,
                            p1,
                            self.writer.out(),
                            self.writer.pending(),
                            st.0,
                            c0,
                        );
                    }
                    y_dcprev = dc;
                },
                Err(e) => {
                    proof {
                        lemma_scan_none(
                            img,
                            width as nat,
                            1,
                            bpp as nat,
                            qt,
                            (n + 1) as nat,
                            (bw * bh) as nat,
                        );
                        assert(blocks_across(width as nat) * blocks_down(height as nat) == bw * bh);
                    }
                    return Err(e);
                },
            }
            n += 1;
        }
        proof {
            assert(blocks_across(width as nat) * blocks_down(height as nat) == bw * bh);
        }
        Ok(())
    }

    /// Samples, transforms, quantizes and codes the Y, Cb and Cr blocks at one position.
    #[verifier::rlimit(30)]
    fn write_rgb_blocks(
        &mut self,
        image: &[u8],
        width: u64,
        bpp: u64,
        x0: u64,
        y0: u64,
        prev: (i32, i32, i32),
    ) -> (r: Result<(i32, i32, i32), EncodeError>)
        requires
            old(self).wf(),
            image@.len() > 0,
            x0 <= 0x1_0000,
            y0 <= 0x1_0000,
            width <= 0xFFFF,
            bpp <= 4,
            -1024 <= prev.0 <= 1024,
            -1024 <= prev.1 <= 1024,
            -1024 <= prev.2 <= 1024,
        ensures
            final(self).wf(),
            final(self).tables@ == old(self).tables@,
            ({
                let qt = old(self).tables@;
                let b0 = quantized_block(
                    block_ycbcr(image@, x0 as int, y0 as int, width as int, bpp as int, 0),
                    qt.subrange(0, 64),
                );
                let b1 = quantized_block(
                    block_ycbcr(image@, x0 as int, y0 as int, width as int, bpp as int, 1),
                    qt.subrange(64, 128),
                );
                let b2 = quantized_block(
                    block_ycbcr(image@, x0 as int, y0 as int, width as int, bpp as int, 2),
                    qt.subrange(64, 128),
                );
                match block_code(b0, prev.0 as int, luma_dc_lut(), luma_ac_lut()) {
                    None => r is Err,
                    Some(c0) => match block_code(b1, prev.1 as int, chroma_dc_lut(), chroma_ac_lut()) {
                        None => r is Err,
                        Some(c1) => match block_code(
                            b2,
                            prev.2 as int,
                            chroma_dc_lut(),
                            chroma_ac_lut(),
                        ) {
                            None => r is Err,
                            Some(c2) => r == Ok::<(i32, i32, i32), EncodeError>((b0[0], b1[0], b2[0]))
                                && -1024 <= b0[0] <= 1024 && -1024 <= b1[0] <= 1024 && -1024 <= b2[0]
                                <= 1024 && emits(
                                old(self).writer.out(),
                                old(self).writer.pending(),
                                final(self).writer.out(),
                                final(self).writer.pending(),
                                c0 + c1 + c2,
                            ),
                        },
                    },
                }
            }),
    {
        let mut yblock = [0u8; 64];
        let mut cb_block = [0u8; 64];
        let mut cr_block = [0u8; 64];
        copy_blocks_ycbcr(image, x0, y0, width, bpp, &mut yblock, &mut cb_block, &mut cr_block);
        let dct_yblock = fdct(&yblock);
        let dct_cb_block = fdct(&cb_block);
        let dct_cr_block = fdct(&cr_block);
        let qy = quantize_block(&dct_yblock, &self.tables, 0);
        let qcb = quantize_block(&dct_cb_block, &self.tables, 64);
        let qcr = quantize_block(&dct_cr_block, &self.tables, 64);
        proof {
            assert(qy@ =~= quantized_block(yblock@, self.tables@.subrange(0, 64)));
            assert(qcb@ =~= quantized_block(cb_block@, self.tables@.subrange(64, 128)));
            assert(qcr@ =~= quantized_block(cr_block@, self.tables@.subrange(64, 128)));
            assert(-1024 <= qy@[0] <= 1024);
            assert(-1024 <= qcb@[0] <= 1024);
            assert(-1024 <= qcr@[0] <= 1024);
        }
        let ghost o0 = self.writer.out();
        let ghost p0 = self.writer.pending();
        let y_dc = match self.writer.write_block(
            &qy,
            prev.0,
            self.luma_dctable.as_slice(),
            self.luma_actable.as_slice(),
        ) {
            Ok(dc) => dc,
            Err(e) => {
                return Err(e);
            },
        };
        let ghost o1 = self.writer.out();
        let ghost p1 = self.writer.pending();
        let cb_dc = match self.writer.write_block(
            &qcb,
            prev.1,
            self.chroma_dctable.as_slice(),
            self.chroma_actable.as_slice(),
        ) {
            Ok(dc) => dc,
            Err(e) => {
                return Err(e);
            },
        };
        let ghost o2 = self.writer.out();
        let ghost p2 = self.writer.pending();
        let cr_dc = match self.writer.write_block(
            &qcr,
            prev.2,
            self.chroma_dctable.as_slice(),
            self.chroma_actable.as_slice(),
        ) {
            Ok(dc) => dc,
            Err(e) => {
                return Err(e);
            },
        };
        proof {
            let c0 = block_code(qy@, prev.0 as int, luma_dc_lut(), luma_ac_lut()).unwrap();
            let c1 = block_code(qcb@, prev.1 as int, chroma_dc_lut(), chroma_ac_lut()).unwrap();
            let c2 = block_code(qcr@, prev.2 as int, chroma_dc_lut(), chroma_ac_lut()).unwrap();
            lemma_emits_trans(o0, p0, o1, p1, o2, p2, c0, c1);
            lemma_emits_trans(o0, p0, o2, p2, self.writer.out(), self.writer.pending(), c0 + c1, c2);
        }
        Ok((y_dc, cb_dc, cr_dc))
    }

    fn encode_rgb(&mut self, image: &[u8], width: u64, height: u64, bpp: u64) -> (r: Result<
        (),
        EncodeError,
    >)
        requires
            old(self).wf(),
            width <= 0xFFFF,
            height <= 0xFFFF,
            bpp == 3 || bpp == 4,
            image@.len() >= width * height * bpp,
        ensures
            final(self).wf(),
            final(self).tables@ == old(self).tables@,
            match scan_bits(image@, width as nat, height as nat, 3, bpp as nat, old(self).tables@) {
                Some(b) => r is Ok && emits(
                    old(self).writer.out(),
                    old(self).writer.pending(),
                    final(self).writer.out(),
                    final(self).writer.pending(),
                    b,
                ),
                None => r is Err,
            },
    {
        let ghost img = image@;
        let ghost qt = self.tables@;
        let ghost o0 = self.writer.out();
        let ghost p0 = self.writer.pending();
        let bw = (width + 7) / 8;
        let bh = (height + 7) / 8;
        proof {
            assert(bw * bh <= 8192 * 8192) by (nonlinear_arith)
                requires
                    bw <= 8192,
                    bh <= 8192,
            ;
        }
        let nblocks = bw * bh;
        proof {
            if nblocks > 0 {
                assert(width >= 1 && height >= 1) by (nonlinear_arith)
                    requires
                        nblocks == bw * bh,
                        nblocks > 0,
                        bw == (width + 7) / 8,
                        bh == (height + 7) / 8,
                ;
                assert(width * height * bpp >= 1) by (nonlinear_arith)
                    requires
                        width >= 1,
                        height >= 1,
                        bpp >= 1,
                ;
            }
        }
        let mut preds: (i32, i32, i32) = (0, 0, 0);
        let mut n: u64 = 0;
        proof {
            self.writer.lemma_pending_short();
            crate::bitstream::lemma_emits_empty(o0, p0);
        }
        while n < nblocks
            invariant
                self.wf(),
                self.tables@ == qt,
                qt == old(self).tables@,
                o0 == old(self).writer.out(),
                p0 == old(self).writer.pending(),
                img == image@,
                width <= 0xFFFF,
                height <= 0xFFFF,
                bpp == 3 || bpp == 4,
                nblocks > 0 ==> image@.len() > 0,
                bw == (width + 7) / 8,
                bh == (height + 7) / 8,
                nblocks == bw * bh,
                n <= nblocks,
                -1024 <= preds.0 <= 1024,
                -1024 <= preds.1 <= 1024,
                -1024 <= preds.2 <= 1024,
                match scan_state(img, width as nat, 3, bpp as nat, qt, n as nat) {
                    Some(st) => emits(o0, p0, self.writer.out(), self.writer.pending(), st.0)
                        && st.1 == seq![preds.0 as int, preds.1 as int, preds.2 as int],
                    None => false,
                },
            decreases nblocks - n,
        {
            let ghost st = scan_state(img, width as nat, 3, bpp as nat, qt, n as nat).unwrap();
            let (x0, y0) = JpegEncoder::block_origin(n, bw, bh, width, height);
            let ghost o1 = self.writer.out();
            let ghost p1 = self.writer.pending();
            proof {
                assert(blocks_across(width as nat) == bw);
                assert(scan_state(img, width as nat, 3, bpp as nat, qt, (n + 1) as nat) == scan_step(
                    img,
                    width as nat,
                    3,
                    bpp as nat,
                    qt,
                    n as nat,
                    st,
                ));
                assert(st.1[0] == preds.0 && st.1[1] == preds.1 && st.1[2] == preds.2);
            }
            match self.write_rgb_blocks(image, width, bpp, x0, y0, preds) {
                Ok(dcs) => {
                    proof {
                        let b0 = block_at(img, width as nat, 3, bpp as nat, qt, n as nat, 0);
                        let b1 = block_at(img, width as nat, 3, bpp as nat, qt, n as nat, 1);
                        let b2 = block_at(img, width as nat, 3, bpp as nat, qt, n as nat, 2);
                        let c0 = block_code(b0, st.1[0], luma_dc_lut(), luma_ac_lut()).unwrap();
                        let c1 = block_code(b1, st.1[1], chroma_dc_lut(), chroma_ac_lut()).unwrap();
                        let c2 = block_code(b2, st.1[2], chroma_dc_lut(), chroma_ac_lut()).unwrap();
                        lemma_emits_trans(
                            o0,
                            p0,
                            o1,
                            p1,
                            self.writer.out(),
                            self.writer.pending(),
                            st.0,
                            c0 + c1 + c2,
                        );
                        assert(st.0 + (c0 + c1 + c2) =~= st.0 + c0 + c1 + c2);
                    }
                    preds = dcs;
                },
                Err(e) => {
                    proof {
                        lemma_scan_none(
                            img,
                            width as nat,
                            3,
                            bpp as nat,
                            qt,
                            (n + 1) as nat,
                            (bw * bh) as nat,
                        );
                        assert(blocks_across(width as nat) * blocks_down(height as nat) == bw * bh);
                    }
                    return Err(e);
                },
            }
            n += 1;
        }
        proof {
            assert(blocks_across(width as nat) * blocks_down(height as nat) == bw * bh);
        }
        Ok(())
    }

    /// Writes SOI and the segments before the scan data.
    #[verifier::rlimit(40)]
    fn write_headers(&mut self, c: Color, width: u16, height: u16, ncomp: usize)
        requires
            old(self).wf(),
            ncomp == num_components(c),
        ensures
            final(self).wf(),
            final(self).tables@ == old(self).tables@,
            final(self).writer.pending() == old(self).writer.pending(),
            final(self).writer.out() == old(self).writer.out() + segments_bytes(
                header_segments(c, width, height, old(self).tables@),
            ),
    {
        let ghost qt = self.tables@;
        let ghost o_start = self.writer.out();
        let ghost mut segs: Seq<(u8, Option<Seq<u8>>)> = Seq::empty();
        let ghost cs = std_components().take(ncomp as int);
        self.writer.write_segment(SOI, None);
        proof {
            segs = segs.push((SOI, None));
            assert(segments_bytes(segs) == segments_bytes(segs.drop_last()) + segment_bytes(SOI, None));
            assert(segs.drop_last() =~= Seq::<(u8, Option<Seq<u8>>)>::empty());
            assert(self.writer.out() =~= o_start + segments_bytes(segs));
        }
        let mut buf: Vec<u8> = Vec::new();
        build_jfif_header(&mut buf);
        self.writer.write_segment(APP0, Some(buf.as_slice()));
        proof {
            let prev = segs;
            segs = segs.push((APP0, Some(jfif_payload())));
            assert(segs.drop_last() =~= prev);
            assert(self.writer.out() =~= o_start + segments_bytes(segs));
        }
        build_frame_header(
            &mut buf,
            8,
            width,
            height,
            self.components.as_slice(),
            ncomp,
        );
        self.writer.write_segment(SOF0, Some(buf.as_slice()));
        proof {
            let prev = segs;
            segs = segs.push((SOF0, Some(frame_payload(8, width, height, cs))));
            assert(segs.drop_last() =~= prev);
            assert(self.writer.out() =~= o_start + segments_bytes(segs));
        }
        build_quantization_segment(&mut buf, 0, self.tables.as_slice(), 0);
        self.writer.write_segment(DQT, Some(buf.as_slice()));
        proof {
            let prev = segs;
            segs = segs.push((DQT, Some(quantization_payload(0, qt.subrange(0, 64)))));
            assert(segs.drop_last() =~= prev);
            assert(self.writer.out() =~= o_start + segments_bytes(segs));
        }
        if ncomp == 3 {
            build_quantization_segment(&mut buf, 1, self.tables.as_slice(), 64);
            self.writer.write_segment(DQT, Some(buf.as_slice()));
            proof {
                let prev = segs;
                segs = segs.push((DQT, Some(quantization_payload(1, qt.subrange(64, 128)))));
                assert(segs.drop_last() =~= prev);
                assert(self.writer.out() =~= o_start + segments_bytes(segs));
            }
        }
        proof {
            lemma_std_counts();
        }
        let luma_dc_c = luma_dc_counts();
        let luma_dc_v = luma_dc_values();
        build_huffman_segment(&mut buf, 0, 0, luma_dc_c.as_slice(), luma_dc_v.as_slice());
        self.writer.write_segment(DHT, Some(buf.as_slice()));
        proof {
            let prev = segs;
            segs = segs.push(
                (DHT, Some(huffman_payload(0, 0, std_luma_dc_counts(), std_luma_dc_values()))),
            );
            assert(segs.drop_last() =~= prev);
            assert(self.writer.out() =~= o_start + segments_bytes(segs));
        }
        let luma_ac_c = luma_ac_counts();
        let luma_ac_v = luma_ac_values();
        build_huffman_segment(&mut buf, 1, 0, luma_ac_c.as_slice(), luma_ac_v.as_slice());
        self.writer.write_segment(DHT, Some(buf.as_slice()));
        proof {
            let prev = segs;
            segs = segs.push(
                (DHT, Some(huffman_payload(1, 0, std_luma_ac_counts(), std_luma_ac_values()))),
            );
            assert(segs.drop_last() =~= prev);
            assert(self.writer.out() =~= o_start + segments_bytes(segs));
        }
        if ncomp == 3 {
            let chroma_dc_c = chroma_dc_counts();
            let chroma_dc_v = chroma_dc_values();
            build_huffman_segment(&mut buf, 0, 1, chroma_dc_c.as_slice(), chroma_dc_v.as_slice());
            self.writer.write_segment(DHT, Some(buf.as_slice()));
            proof {
                let prev = segs;
                segs = segs.push(
                    (
                        DHT,
                        Some(huffman_payload(0, 1, std_chroma_dc_counts(), std_chroma_dc_values())),
                    ),
                );
                assert(segs.drop_last() =~= prev);
                assert(self.writer.out() =~= o_start + segments_bytes(segs));
            }
            let chroma_ac_c = chroma_ac_counts();
            let chroma_ac_v = chroma_ac_values();
            build_huffman_segment(&mut buf, 1, 1, chroma_ac_c.as_slice(), chroma_ac_v.as_slice());
            self.writer.write_segment(DHT, Some(buf.as_slice()));
            proof {
                let prev = segs;
                segs = segs.push(
                    (
                        DHT,
                        Some(huffman_payload(1, 1, std_chroma_ac_counts(), std_chroma_ac_values())),
                    ),
                );
                assert(segs.drop_last() =~= prev);
                assert(self.writer.out() =~= o_start + segments_bytes(segs));
            }
        }
        build_scan_header(&mut buf, self.components.as_slice(), ncomp);
        self.writer.write_segment(SOS, Some(buf.as_slice()));
        proof {
            let prev = segs;
            segs = segs.push((SOS, Some(scan_payload(cs))));
            assert(segs.drop_last() =~= prev);
            assert(self.writer.out() =~= o_start + segments_bytes(segs));
            assert(segs =~= header_segments(c, width, height, qt));
        }
    }

    /// Encodes the image `image` that has dimensions `width` and `height`
    /// and color ```c```
    ///
    /// Every component is sampled at full resolution.
    #[verifier::rlimit(40)]
    pub fn encode(&mut self, image: &[u8], width: u32, height: u32, c: Color) -> (r: Result<
        (),
        EncodeError,
    >)
        requires
            old(self).wf(),
        ensures
            final(self).wf(),
            final(self).qtables() == old(self).qtables(),
            width > 0xFFFF || height > 0xFFFF ==> r == Err::<(), EncodeError>(
                EncodeError::DimensionTooLarge,
            ) && final(self).out() == old(self).out(),
            width <= 0xFFFF && height <= 0xFFFF && image@.len() < width * height * bytes_per_pixel(c)
                ==> r == Err::<(), EncodeError>(EncodeError::ImageTooSmall) && final(self).out()
                == old(self).out(),
            width <= 0xFFFF && height <= 0xFFFF && image@.len() >= width * height * bytes_per_pixel(c)
                ==> match scan_bits(
                image@,
                width as nat,
                height as nat,
                num_components(c),
                bytes_per_pixel(c),
                old(self).qtables(),
            ) {
                Some(bits) => r == Ok::<(), EncodeError>(()) && final(self).out() == old(self).out()
                    + jpeg_stream(c, width as u16, height as u16, old(self).qtables(), bits),
                None => r == Err::<(), EncodeError>(EncodeError::BadHuffmanValue),
            },
    {
        if width > 0xFFFF || height > 0xFFFF {
            return Err(EncodeError::DimensionTooLarge);
        }
        let bpp: u64 = match c {
            Color::RGB => 3,
            Color::RGBA => 4,
            Color::Gray => 1,
            Color::GrayA => 2,
        };
        let ncomp: usize = match c {
            Color::RGB | Color::RGBA => 3,
            Color::Gray | Color::GrayA => 1,
        };
        proof {
            assert(width as u64 * height as u64 <= 0xFFFF * 0xFFFF) by (nonlinear_arith)
                requires
                    width <= 0xFFFF,
                    height <= 0xFFFF,
            ;
            assert(width as u64 * height as u64 * bpp <= 0xFFFF * 0xFFFF * 4) by (nonlinear_arith)
                requires
                    width <= 0xFFFF,
                    height <= 0xFFFF,
                    bpp <= 4,
            ;
        }
        if (image.len() as u64) < width as u64 * height as u64 * bpp {
            return Err(EncodeError::ImageTooSmall);
        }
        let ghost qt = self.tables@;
        let ghost o_start = self.writer.out();
        self.writer.reset();
        self.write_headers(c, width as u16, height as u16, ncomp);
        let ghost o_h = self.writer.out();
        let ghost p_h = self.writer.pending();
        let res = match c {
            Color::RGB => self.encode_rgb(image, width as u64, height as u64, 3),
            Color::RGBA => self.encode_rgb(image, width as u64, height as u64, 4),
            Color::Gray => self.encode_gray(image, width as u64, height as u64, 1),
            Color::GrayA => self.encode_gray(image, width as u64, height as u64, 2),
        };
        match res {
            Ok(()) => {},
            Err(_) => {
                return Err(EncodeError::BadHuffmanValue);
            },
        }
        let ghost o_s = self.writer.out();
        let ghost p_s = self.writer.pending();
        self.writer.pad_byte();
        proof {
            let bits = scan_bits(
                image@,
                width as nat,
                height as nat,
                num_components(c),
                bytes_per_pixel(c),
                qt,
            ).unwrap();
            lemma_emits_trans(
                o_h,
                p_h,
                o_s,
                p_s,
                self.writer.out(),
                self.writer.pending(),
                bits,
                bits_msb(0x7F, 7),
            );
            assert(p_h + (bits + bits_msb(0x7F, 7)) =~= bits + bits_msb(0x7F, 7));
        }
        self.writer.write_segment(EOI, None);
        proof {
            let bits = scan_bits(
                image@,
                width as nat,
                height as nat,
                num_components(c),
                bytes_per_pixel(c),
                qt,
            ).unwrap();
            assert(self.writer.out() =~= o_start + jpeg_stream(
                c,
                width as u16,
                height as u16,
                qt,
                bits,
            ));
        }
        Ok(())
    }
}

} // verus!
verus! {

/// The table identifiers (first payload byte) of the segments with `marker`, in order.
pub open spec fn table_ids(segs: Seq<(u8, Option<Seq<u8>>)>, marker: u8) -> Seq<u8>
    decreases segs.len(),
{
    if segs.len() == 0 {
        Seq::empty()
    } else {
        let rest = table_ids(segs.drop_last(), marker);
        if segs.last().0 == marker && segs.last().1 is Some {
            rest.push(segs.last().1.unwrap()[0])
        } else {
            rest
        }
    }
}

/// A DHT payload whose 16 code-length counts add up to the number of values after them.
pub open spec fn dht_consistent(d: Seq<u8>) -> bool {
    d.len() >= 17 && crate::huffman::sum_counts(d.subrange(1, 17)) == d.len() - 17
}

proof fn lemma_segments_bytes_append(
    a: Seq<(u8, Option<Seq<u8>>)>,
    b: Seq<(u8, Option<Seq<u8>>)>,
)
    ensures
        segments_bytes(a + b) == segments_bytes(a) + segments_bytes(b),
    decreases b.len(),
{
    if b.len() == 0 {
        assert(a + b =~= a);
        assert(segments_bytes(a) + segments_bytes(b) =~= segments_bytes(a));
    } else {
        assert((a + b).drop_last() =~= a + b.drop_last());
        lemma_segments_bytes_append(a, b.drop_last());
        assert(segments_bytes(a + b) =~= segments_bytes(a) + segments_bytes(b));
    }
}

/// Structure of every encoded stream: it begins with SOI (FF D8) and ends
/// with EOI (FF D9); every header segment with a payload carries the length
/// of that payload plus two; in the entropy-coded data each 0xFF is
/// followed by a stuffed 0x00.
pub proof fn lemma_stream_structure(c: Color, width: u16, height: u16, qt: Seq<u8>, bits: Seq<bool>)
    requires
        qt.len() == 128,
    ensures
        ({
            let s = jpeg_stream(c, width, height, qt, bits);
            let all = bits + bits_msb(0x7F, 7);
            let segs = header_segments(c, width, height, qt);
            &&& s.len() >= 4
            &&& s[0] == 0xFF && s[1] == 0xD8
            &&& s[s.len() - 2] == 0xFF && s[s.len() - 1] == 0xD9
            &&& s == segments_bytes(segs) + entropy_bytes(all.take(8 * (all.len() as int / 8)))
                + seq![0xFFu8, 0xD9u8]
            &&& crate::bitstream::is_escaped(entropy_bytes(all.take(8 * (all.len() as int / 8))))
            &&& forall|k: int|
                0 <= k < segs.len() && #[trigger] segs[k].1 is Some ==> {
                    let d = segs[k].1.unwrap();
                    let b = segment_bytes(segs[k].0, segs[k].1);
                    &&& d.len() + 2 < 0x10000
                    &&& b[2] as int * 256 + b[3] as int == d.len() + 2
                }
        }),
{
    let segs = header_segments(c, width, height, qt);
    let all = bits + bits_msb(0x7F, 7);
    let e = entropy_bytes(all.take(8 * (all.len() as int / 8)));
    crate::bitstream::lemma_stuff_escaped(crate::bitstream::pack_bytes(all.take(8 * (all.len() as int / 8))));
    lemma_segments_bytes_append(seq![segs[0]], segs.skip(1));
    assert(seq![segs[0]] + segs.skip(1) =~= segs);
    assert(seq![segs[0]].drop_last() =~= Seq::<(u8, Option<Seq<u8>>)>::empty());
    let one = seq![segs[0]];
    assert(segs[0] == (SOI, None::<Seq<u8>>));
    assert(one.last() == segs[0]);
    assert(segments_bytes(one.drop_last()) == Seq::<u8>::empty());
    assert(segments_bytes(one) == segments_bytes(one.drop_last()) + segment_bytes(SOI, None));
    assert(segments_bytes(one) =~= seq![0xFFu8, 0xD8u8]);
    let s = jpeg_stream(c, width, height, qt, bits);
    assert(s =~= seq![0xFFu8, 0xD8u8] + segments_bytes(segs.skip(1)) + e + seq![0xFFu8, 0xD9u8]);
    assert forall|k: int| 0 <= k < segs.len() && #[trigger] segs[k].1 is Some implies {
        let d = segs[k].1.unwrap();
        let b = segment_bytes(segs[k].0, segs[k].1);
        &&& d.len() + 2 < 0x10000
        &&& b[2] as int * 256 + b[3] as int == d.len() + 2
    } by {
        lemma_header_payload_short(c, width, height, qt, k);
    };
}

proof fn lemma_header_payload_short(c: Color, width: u16, height: u16, qt: Seq<u8>, k: int)
    requires
        qt.len() == 128,
        0 <= k < header_segments(c, width, height, qt).len(),
        header_segments(c, width, height, qt)[k].1 is Some,
    ensures
        header_segments(c, width, height, qt)[k].1.unwrap().len() <= 200,
{
    let segs = header_segments(c, width, height, qt);
    let cs = std_components().take(num_components(c) as int);
    crate::segments::lemma_frame_len(cs);
    crate::segments::lemma_scan_len(cs);
    assert(std_luma_ac_values().len() == 162);
    assert(std_chroma_ac_values().len() == 162);
}

/// The DHT segments of every header are consistent: the 16 declared
/// code-length counts add up to the number of values that follow.
pub proof fn lemma_dht_consistent(c: Color, width: u16, height: u16, qt: Seq<u8>, k: int)
    requires
        0 <= k < header_segments(c, width, height, qt).len(),
        header_segments(c, width, height, qt)[k].0 == DHT,
    ensures
        header_segments(c, width, height, qt)[k].1 is Some,
        dht_consistent(header_segments(c, width, height, qt)[k].1.unwrap()),
{
    lemma_std_counts();
    let d1 = huffman_payload(0, 0, std_luma_dc_counts(), std_luma_dc_values());
    let d2 = huffman_payload(1, 0, std_luma_ac_counts(), std_luma_ac_values());
    let d3 = huffman_payload(0, 1, std_chroma_dc_counts(), std_chroma_dc_values());
    let d4 = huffman_payload(1, 1, std_chroma_ac_counts(), std_chroma_ac_values());
    assert(d1.subrange(1, 17) =~= std_luma_dc_counts());
    assert(d2.subrange(1, 17) =~= std_luma_ac_counts());
    assert(d3.subrange(1, 17) =~= std_chroma_dc_counts());
    assert(d4.subrange(1, 17) =~= std_chroma_ac_counts());
}

/// A grayscale header holds one DQT (table 0) and two DHT segments (DC and
/// AC of table 0) and nothing for chroma; a color header holds the DQT of
/// tables 0 and 1 and the DHT of DC/AC for table 0 and for table 1.
pub proof fn lemma_header_tables(c: Color, width: u16, height: u16, qt: Seq<u8>)
    ensures
        num_components(c) == 1 ==> table_ids(header_segments(c, width, height, qt), DQT) == seq![
            0x00u8,
        ] && table_ids(header_segments(c, width, height, qt), DHT) == seq![0x00u8, 0x10u8],
        num_components(c) == 3 ==> table_ids(header_segments(c, width, height, qt), DQT) == seq![
            0x00u8,
            0x01u8,
        ] && table_ids(header_segments(c, width, height, qt), DHT) == seq![
            0x00u8,
            0x10u8,
            0x01u8,
            0x11u8,
        ],
{
    let segs = header_segments(c, width, height, qt);
    reveal_with_fuel(table_ids, 12);
    if num_components(c) == 1 {
        assert(segs.len() == 7);
        assert(segs.drop_last() =~= segs.subrange(0, 6));
        assert(segs.subrange(0, 6).drop_last() =~= segs.subrange(0, 5));
        assert(segs.subrange(0, 5).drop_last() =~= segs.subrange(0, 4));
        assert(segs.subrange(0, 4).drop_last() =~= segs.subrange(0, 3));
        assert(segs.subrange(0, 3).drop_last() =~= segs.subrange(0, 2));
        assert(segs.subrange(0, 2).drop_last() =~= segs.subrange(0, 1));
        assert(segs.subrange(0, 1).drop_last() =~= segs.subrange(0, 0));
        assert(table_ids(segs, DQT) =~= seq![0x00u8]);
        assert(table_ids(segs, DHT) =~= seq![0x00u8, 0x10u8]);
    } else {
        assert(segs.len() == 10);
        assert(segs.drop_last() =~= segs.subrange(0, 9));
        assert(segs.subrange(0, 9).drop_last() =~= segs.subrange(0, 8));
        assert(segs.subrange(0, 8).drop_last() =~= segs.subrange(0, 7));
        assert(segs.subrange(0, 7).drop_last() =~= segs.subrange(0, 6));
        assert(segs.subrange(0, 6).drop_last() =~= segs.subrange(0, 5));
        assert(segs.subrange(0, 5).drop_last() =~= segs.subrange(0, 4));
        assert(segs.subrange(0, 4).drop_last() =~= segs.subrange(0, 3));
        assert(segs.subrange(0, 3).drop_last() =~= segs.subrange(0, 2));
        assert(segs.subrange(0, 2).drop_last() =~= segs.subrange(0, 1));
        assert(segs.subrange(0, 1).drop_last() =~= segs.subrange(0, 0));
        assert(table_ids(segs, DQT) =~= seq![0x00u8, 0x01u8]);
        assert(table_ids(segs, DHT) =~= seq![0x00u8, 0x10u8, 0x01u8, 0x11u8]);
    }
}

/// The DC predictors after `n` block positions are the DC values of block
/// `n - 1` (all 0 before the first block).
proof fn lemma_scan_predictors(
    img: Seq<u8>,
    width: nat,
    ncomp: nat,
    bpp: nat,
    qt: Seq<u8>,
    n: nat,
    comp: int,
)
    requires
        scan_state(img, width, ncomp, bpp, qt, n) is Some,
        ncomp == 1 ==> comp == 0,
        ncomp == 3 ==> 0 <= comp < 3,
        ncomp == 1 || ncomp == 3,
    ensures
        scan_state(img, width, ncomp, bpp, qt, n).unwrap().1.len() == 3,
        scan_state(img, width, ncomp, bpp, qt, n).unwrap().1[comp] == if n == 0 {
            0
        } else {
            block_at(img, width, ncomp, bpp, qt, (n - 1) as nat, comp)[0] as int
        },
    decreases n,
{
    if n > 0 {
        let prev = scan_state(img, width, ncomp, bpp, qt, (n - 1) as nat);
        if prev is Some {
            lemma_scan_predictors(img, width, ncomp, bpp, qt, (n - 1) as nat, comp);
        }
    }
}

/// The DC difference that block position `n` codes for a component: its DC
/// value itself at the first position (the predictor starts at 0), else its
/// change from the previous position. So after the first of a run of
/// identical blocks, each codes a DC difference of 0.
pub proof fn lemma_dc_prediction(
    img: Seq<u8>,
    width: nat,
    ncomp: nat,
    bpp: nat,
    qt: Seq<u8>,
    n: nat,
    comp: int,
)
    requires
        scan_state(img, width, ncomp, bpp, qt, n) is Some,
        ncomp == 1 ==> comp == 0,
        ncomp == 3 ==> 0 <= comp < 3,
        ncomp == 1 || ncomp == 3,
    ensures
        ({
            let cur = block_at(img, width, ncomp, bpp, qt, n, comp);
            let pred = scan_state(img, width, ncomp, bpp, qt, n).unwrap().1[comp];
            &&& n == 0 ==> cur[0] as int - pred == cur[0] as int
            &&& n > 0 && cur == block_at(img, width, ncomp, bpp, qt, (n - 1) as nat, comp)
                ==> cur[0] as int - pred == 0
        }),
{
    lemma_scan_predictors(img, width, ncomp, bpp, qt, n, comp);
}

} // verus!
