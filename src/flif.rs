//! Camera frames stored as FLIF files or raw PNM files, read from their bytes.
use vstd::prelude::*;
use crate::conversions::{HEIGHT, WIDTH};

verus! {

/// What the FLIF decoder makes of a file: width, height, channels, bytes
/// per channel, frames and the pixel bytes; none where it fails.
pub uninterp spec fn flif_decoded(data: Seq<u8>) -> Option<(u32, u32, u8, u8, u32, Seq<u8>)>;

/// Relies on flif::Flif::decode: decodes a FLIF file held in memory. The
/// outcome depends on the bytes alone; a decoded image has one frame of one
/// byte per channel (`Decoder::decode_image` refuses all others).
#[verifier::external_body]
fn decode_flif(data: &[u8]) -> (r: Option<(u32, u32, u8, u8, u32, Vec<u8>)>)
    ensures
        match r {
            Some(t) => flif_decoded(data@) == Some((t.0, t.1, t.2, t.3, t.4, t.5@)) && t.3 == 1
                && t.4 == 1,
            None => flif_decoded(data@) is None,
        },
{
    match flif::Flif::decode(data) {
        Ok(image) => {
            let h = image.info().header;
            let raw = image.into_raw().into_vec();
            Some((h.width, h.height, h.channels as u8, h.bytes_per_channel as u8, h.num_frames, raw))
        },
        Err(_) => None,
    }
}

/// The FLIF decoder could not decode the data.
#[derive(Debug, Clone, Copy, PartialEq, Eq)]
pub struct DecodingError;

/// A decoded FLIF image: its header values and its pixels.
pub struct FlifDecoder {
    width: u32,
    height: u32,
    chans: u8,
    depth: u8,
    images: u32,
    data: Vec<u8>,
}

impl FlifDecoder {
    pub closed spec fn spec_width(&self) -> u32 {
        self.width
    }

    pub closed spec fn spec_height(&self) -> u32 {
        self.height
    }

    pub closed spec fn spec_channels(&self) -> u8 {
        self.chans
    }

    pub closed spec fn spec_depth(&self) -> u8 {
        self.depth
    }

    pub closed spec fn spec_frames(&self) -> u32 {
        self.images
    }

    pub closed spec fn spec_data(&self) -> Seq<u8> {
        self.data@
    }

    /// Decodes a FLIF file held in memory; the depth is given in bits per channel.
    pub fn new(data: &[u8]) -> (r: Result<FlifDecoder, DecodingError>)
        ensures
            match flif_decoded(data@) {
                Some(t) => r matches Ok(d) && d.spec_width() == t.0 && d.spec_height() == t.1
                    && d.spec_channels() == t.2 && d.spec_depth() == 8 * t.3 && d.spec_frames()
                    == t.4 && d.spec_data() == t.5,
                None => r is Err,
            },
    {
        match decode_flif(data) {
            Some((width, height, chans, bpc, frames, pixels)) => Ok(
                FlifDecoder {
                    width,
                    height,
                    chans,
                    depth: bpc * 8,
                    images: frames,
                    data: pixels,
                },
            ),
            None => Err(DecodingError),
        }
    }

    pub fn width(&self) -> (r: u32)
        ensures
            r == self.spec_width(),
    {
        self.width
    }

    pub fn height(&self) -> (r: u32)
        ensures
            r == self.spec_height(),
    {
        self.height
    }

    pub fn channels(&self) -> (r: u8)
        ensures
            r == self.spec_channels(),
    {
        self.chans
    }

    pub fn depth(&self) -> (r: u8)
        ensures
            r == self.spec_depth(),
    {
        self.depth
    }

    pub fn frames(&self) -> (r: u32)
        ensures
            r == self.spec_frames(),
    {
        self.images
    }

    /// The pixels of frame `n` of an image of 8-bit gray samples.
    pub fn get_image_data(&self, n: usize) -> (r: Vec<u8>)
        requires
            n < self.spec_frames(),
            self.spec_channels() == 1,
            self.spec_depth() == 8,
        ensures
            r@ == self.spec_data(),
    {
        self.data.clone()
    }
}

/// Why a camera frame could not be read.
#[derive(Debug, Clone, Copy, PartialEq, Eq)]
pub enum FrameError {
    /// The FLIF decoder refused the data.
    Decoding,
    /// The image is not one frame of 2448 x 2048 gray samples of 8 bits.
    UnexpectedProperties,
}

/// The pixels of a camera frame, where `flif_decoded` gives one.
pub open spec fn frame_of(data: Seq<u8>) -> Result<Seq<u8>, FrameError> {
    match flif_decoded(data) {
        None => Err(FrameError::Decoding),
        Some(t) => if t.0 == WIDTH && t.1 == HEIGHT && 8 * t.3 == 8 && t.2 == 1 && t.4 == 1 {
            Ok(t.5)
        } else {
            Err(FrameError::UnexpectedProperties)
        },
    }
}

/// Decodes a FLIF camera frame: one frame of 2448 x 2048 gray samples of 8 bits.
pub fn read_flif_inner(data: &[u8]) -> (r: Result<Vec<u8>, FrameError>)
    ensures
        match frame_of(data@) {
            Ok(p) => r matches Ok(v) && v@ == p,
            Err(e) => r == Err::<Vec<u8>, FrameError>(e),
        },
{
    let dec = match FlifDecoder::new(data) {
        Ok(d) => d,
        Err(_) => {
            return Err(FrameError::Decoding);
        },
    };
    let (width, height) = (dec.width(), dec.height());
    let (depth, frames) = (dec.depth(), dec.frames());
    let channels = dec.channels();
    if width == 2448 && height == 2048 && depth == 8 && channels == 1 && frames == 1 {
        Ok(dec.get_image_data(0))
    } else {
        Err(FrameError::UnexpectedProperties)
    }
}

/// The header of a raw camera frame file: binary gray PNM of 2448 x 2048.
pub open spec fn raw_pnm_header() -> Seq<u8> {
    seq![
        0x50u8, 0x35, 0x0A, 0x32, 0x34, 0x34, 0x38, 0x20, 0x32, 0x30, 0x34, 0x38, 0x0A, 0x32, 0x35,
        0x35, 0x0A,
    ]
}

/// The samples of a raw camera frame file, where it is one.
pub open spec fn raw_pnm_frame(data: Seq<u8>) -> Option<Seq<u8>> {
    if data.len() >= 17 && data.take(17) == raw_pnm_header() && data.len() - 17 == WIDTH * HEIGHT {
        Some(data.skip(17))
    } else {
        None
    }
}

/// Reads a raw camera frame from the bytes of a PNM file: the fixed header,
/// then 2448 x 2048 samples.
pub fn load_raw_pnm(data: &[u8]) -> (r: Result<Vec<u8>, FrameError>)
    ensures
        match raw_pnm_frame(data@) {
            Some(f) => r matches Ok(v) && v@ == f,
            None => r == Err::<Vec<u8>, FrameError>(FrameError::UnexpectedProperties),
        },
{
    let header: [u8; 17] = [
        0x50, 0x35, 0x0A, 0x32, 0x34, 0x34, 0x38, 0x20, 0x32, 0x30, 0x34, 0x38, 0x0A, 0x32, 0x35,
        0x35, 0x0A,
    ];
    proof {
        assert(header@ =~= raw_pnm_header());
    }
    if data.len() < 17 || data.len() - 17 != WIDTH * HEIGHT {
        return Err(FrameError::UnexpectedProperties);
    }
    let mut i: usize = 0;
    while i < 17
        invariant
            i <= 17,
            data@.len() >= 17,
            header@ == raw_pnm_header(),
            forall|j: int| 0 <= j < i ==> data@[j] == header@[j],
        decreases 17 - i,
    {
        if data[i] != header[i] {
            proof {
                assert(data@.take(17)[i as int] != raw_pnm_header()[i as int]);
            }
            return Err(FrameError::UnexpectedProperties);
        }
        i += 1;
    }
    proof {
        assert(data@.take(17) =~= raw_pnm_header());
    }
    let mut out: Vec<u8> = Vec::new();
    let mut k: usize = 17;
    while k < data.len()
        invariant
            17 <= k <= data@.len(),
            out@ == data@.subrange(17, k as int),
        decreases data@.len() - k,
    {
        out.push(data[k]);
        k += 1;
        proof {
            assert(data@.subrange(17, k as int) =~= data@.subrange(17, k - 1).push(data@[k - 1]));
        }
    }
    proof {
        assert(data@.subrange(17, data@.len() as int) =~= data@.skip(17));
    }
    Ok(out)
}

/// Reads a raw camera frame from a FLIF file of its RGBA form (one frame of
/// 1224 x 1024 pixels, 8 bits per channel), back in raw Bayer layout.
pub fn load_flif(data: &[u8]) -> (r: Result<Vec<u8>, FrameError>)
    ensures
        flif_decoded(data@) is None ==> r == Err::<Vec<u8>, FrameError>(FrameError::Decoding),
        r is Ok ==> ({
            let t = flif_decoded(data@).unwrap();
            &&& t.0 == WIDTH / 2 && t.1 == HEIGHT / 2 && t.2 == 4 && t.5.len() == WIDTH * HEIGHT
            &&& r.unwrap()@.len() == WIDTH * HEIGHT
            &&& forall|y: int, x: int, dy: int, dx: int|
                0 <= y < HEIGHT / 2 && 0 <= x < WIDTH / 2 && 0 <= dy < 2 && 0 <= dx < 2
                    ==> #[trigger] r.unwrap()@[(2 * y + dy) * WIDTH + 2 * x + dx]
                    == crate::conversions::raw_cell_byte(t.5, x, y, dy, dx)
        }),
        flif_decoded(data@) matches Some(t) ==> (r is Ok <==> (t.0 == WIDTH / 2 && t.1 == HEIGHT
            / 2 && t.2 == 4 && t.5.len() == WIDTH * HEIGHT)),
{
    let dec = match FlifDecoder::new(data) {
        Ok(d) => d,
        Err(_) => {
            return Err(FrameError::Decoding);
        },
    };
    let rgba = dec.data.clone();
    if dec.width != 1224 || dec.height != 1024 || dec.chans != 4 || rgba.len() != WIDTH * HEIGHT {
        return Err(FrameError::UnexpectedProperties);
    }
    let mut raw: Vec<u8> = Vec::new();
    let mut i: usize = 0;
    while i < WIDTH * HEIGHT
        invariant
            i <= WIDTH * HEIGHT,
            raw@.len() == i,
        decreases WIDTH * HEIGHT - i,
    {
        raw.push(0);
        i += 1;
    }
    crate::conversions::rgba2raw(rgba.as_slice(), raw.as_mut_slice());
    Ok(raw)
}

/// The raw Bayer frame that `rgba2raw` makes from an RGBA frame, byte by byte.
pub open spec fn raw_of_rgba(rgba: Seq<u8>) -> Seq<u8> {
    Seq::new(
        (WIDTH * HEIGHT) as nat,
        |i: int|
            {
                let row = i / WIDTH as int;
                let col = i % WIDTH as int;
                crate::conversions::raw_cell_byte(rgba, col / 2, row / 2, row % 2, col % 2)
            },
    )
}

proof fn lemma_raw_of_rgba(rgba: Seq<u8>, raw: Seq<u8>)
    requires
        raw.len() == WIDTH * HEIGHT,
        forall|y: int, x: int, dy: int, dx: int|
            0 <= y < HEIGHT / 2 && 0 <= x < WIDTH / 2 && 0 <= dy < 2 && 0 <= dx < 2
                ==> #[trigger] raw[(2 * y + dy) * WIDTH + 2 * x + dx]
                == crate::conversions::raw_cell_byte(rgba, x, y, dy, dx),
    ensures
        raw == raw_of_rgba(rgba),
{
    assert forall|i: int| 0 <= i < raw.len() implies #[trigger] raw[i] == raw_of_rgba(rgba)[i] by {
        let row = i / 2448;
        let col = i % 2448;
        assert(i == row * 2448 + col);
        assert(0 <= row < 2048);
        let y = row / 2;
        let dy = row % 2;
        let x = col / 2;
        let dx = col % 2;
        assert(row == 2 * y + dy);
        assert(col == 2 * x + dx);
        assert((2 * y + dy) * 2448 + 2 * x + dx == i);
        assert(raw[(2 * y + dy) * WIDTH + 2 * x + dx] == crate::conversions::raw_cell_byte(
            rgba,
            x,
            y,
            dy,
            dx,
        ));
    };
    assert(raw =~= raw_of_rgba(rgba));
}

/// Whether a raw PNM frame and a FLIF frame in RGBA form hold the same
/// data: the RGBA frame, back in raw layout and turned by half a turn,
/// equals the PNM frame.
pub fn compare(pnm_data: &[u8], flif_data: &[u8]) -> (r: Result<bool, FrameError>)
    ensures
        raw_pnm_frame(pnm_data@) is None ==> r == Err::<bool, FrameError>(
            FrameError::UnexpectedProperties,
        ),
        r matches Ok(b) ==> ({
            let t = flif_decoded(flif_data@).unwrap();
            &&& raw_pnm_frame(pnm_data@) is Some
            &&& b == (raw_pnm_frame(pnm_data@).unwrap() == raw_of_rgba(t.5).reverse())
        }),
        raw_pnm_frame(pnm_data@) is Some ==> (r is Ok <==> (flif_decoded(flif_data@) matches Some(
            t,
        ) && t.0 == WIDTH / 2 && t.1 == HEIGHT / 2 && t.2 == 4 && t.5.len() == WIDTH * HEIGHT)),
{
    let pnm_frame = load_raw_pnm(pnm_data)?;
    let mut flif_frame = load_flif(flif_data)?;
    proof {
        let t = flif_decoded(flif_data@).unwrap();
        lemma_raw_of_rgba(t.5, flif_frame@);
    }
    crate::conversions::raw_flip(flif_frame.as_mut_slice());
    let ghost pf = raw_pnm_frame(pnm_data@).unwrap();
    let ghost ff = raw_of_rgba(flif_decoded(flif_data@).unwrap().5).reverse();
    let mut i: usize = 0;
    while i < pnm_frame.len()
        invariant
            raw_pnm_frame(pnm_data@) is Some,
            pf == raw_pnm_frame(pnm_data@).unwrap(),
            flif_decoded(flif_data@) matches Some(t) && t.0 == WIDTH / 2 && t.1 == HEIGHT / 2 && t.2
                == 4 && t.5.len() == WIDTH * HEIGHT,
            ff == raw_of_rgba(flif_decoded(flif_data@).unwrap().5).reverse(),
            pnm_frame@ == pf,
            flif_frame@ == ff,
            pnm_frame@.len() == WIDTH * HEIGHT,
            flif_frame@.len() == WIDTH * HEIGHT,
            i <= pnm_frame@.len(),
            forall|j: int| 0 <= j < i ==> pnm_frame@[j] == flif_frame@[j],
        decreases pnm_frame@.len() - i,
    {
        if pnm_frame[i] != flif_frame[i] {
            proof {
                assert(pnm_frame@[i as int] != flif_frame@[i as int]);
                assert(pf != ff);
            }
            return Ok(false);
        }
        i += 1;
    }
    proof {
        assert(pnm_frame@ =~= flif_frame@);
    }
    Ok(true)
}

/// Number of decoding attempts before a frame that looks flat is accepted.
pub const N_TRY: usize = 5;

/// Reads a camera frame from FLIF data, decoding again while the result
/// is flat (every byte equal to the first), which marks a failed decode, at
/// most `N_TRY + 1` times; the last attempt is returned as it is.
pub fn read_flif(data: &[u8]) -> (r: Result<Vec<u8>, FrameError>)
    ensures
        match frame_of(data@) {
            Ok(p) => r matches Ok(v) && v@ == p,
            Err(e) => r == Err::<Vec<u8>, FrameError>(e),
        },
{
    let mut i: usize = 0;
    while i < N_TRY
        invariant
            i <= N_TRY,
        decreases N_TRY - i,
    {
        let img_data = match read_flif_inner(data) {
            Ok(v) => v,
            Err(e) => {
                return Err(e);
            },
        };
        if !all_equal(&img_data) {
            return Ok(img_data);
        }
        i += 1;
    }
    read_flif_inner(data)
}

/// Whether every byte equals the first (true of an empty buffer).
pub fn all_equal(v: &Vec<u8>) -> (r: bool)
    ensures
        r == (forall|i: int| 0 <= i < v@.len() ==> #[trigger] v@[i] == v@[0]),
{
    if v.len() == 0 {
        return true;
    }
    let v0 = v[0];
    let mut i: usize = 1;
    while i < v.len()
        invariant
            1 <= i <= v@.len(),
            v0 == v@[0],
            forall|j: int| 0 <= j < i ==> #[trigger] v@[j] == v0,
        decreases v@.len() - i,
    {
        if v[i] != v0 {
            return false;
        }
        i += 1;
    }
    true
}

} // verus!
