use jpeg_decoder::Decoder;
use oscar::quantize::build_quant_tables;
use oscar::sampling::{rgb_to_ycbcr, value_at};
use oscar::transform::fdct;
use oscar::{Color, EncodeError, JpegEncoder};
use std::io::Cursor;

fn encode(img: &[u8], w: u32, h: u32, c: Color, q: u8) -> Vec<u8> {
    let mut out = Vec::new();
    {
        let mut encoder = JpegEncoder::new_with_quality(&mut out, q);
        encoder.encode(img, w, h, c).expect("Could not encode image");
    }
    out
}

/// Marker segments before the scan data: (marker, payload).
fn segments(data: &[u8]) -> Vec<(u8, Vec<u8>)> {
    let mut segs = Vec::new();
    assert_eq!(&data[0..2], &[0xFF, 0xD8]);
    let mut i = 2;
    loop {
        assert_eq!(data[i], 0xFF);
        let marker = data[i + 1];
        let len = (data[i + 2] as usize) * 256 + data[i + 3] as usize;
        segs.push((marker, data[i + 4..i + 2 + len].to_vec()));
        i += 2 + len;
        if marker == 0xDA {
            return segs;
        }
    }
}

fn scan_data(data: &[u8]) -> Vec<u8> {
    let mut i = 2;
    loop {
        let marker = data[i + 1];
        let len = (data[i + 2] as usize) * 256 + data[i + 3] as usize;
        i += 2 + len;
        if marker == 0xDA {
            return data[i..data.len() - 2].to_vec();
        }
    }
}

#[test]
fn roundtrip_sanity_check() {
    // create a 1x1 8-bit image buffer containing a single red pixel
    let img = [255u8, 0, 0];

    // encode it into a memory buffer
    let mut encoded_img = Vec::new();
    {
        let mut encoder = JpegEncoder::new_with_quality(&mut encoded_img, 100);
        encoder
            .encode(&img, 1, 1, Color::RGB)
            .expect("Could not encode image");
    }

    // decode it from the memory buffer
    {
        let mut decoder = Decoder::new(Cursor::new(&encoded_img));
        let decoded = decoder.decode().expect("Could not decode image");
        assert_eq!(3, decoded.len());
        assert!(decoded[0] > 0x80);
        assert!(decoded[1] < 0x80);
        assert!(decoded[2] < 0x80);
    }
}

#[test]
fn grayscale_roundtrip_sanity_check() {
    // create a 2x2 8-bit image buffer containing a white diagonal
    let img = [255u8, 0, 0, 255];

    // encode it into a memory buffer
    let mut encoded_img = Vec::new();
    {
        let mut encoder = JpegEncoder::new_with_quality(&mut encoded_img, 100);
        encoder
            .encode(&img, 2, 2, Color::Gray)
            .expect("Could not encode image");
    }

    // decode it from the memory buffer
    {
        let mut decoder = Decoder::new(Cursor::new(&encoded_img));
        let decoded = decoder.decode().expect("Could not decode image");
        assert_eq!(4, decoded.len());
        assert!(decoded[0] > 0x80);
        assert!(decoded[1] < 0x80);
        assert!(decoded[2] < 0x80);
        assert!(decoded[3] > 0x80);
    }
}

#[test]
fn roundtrip_gradient_within_bound() {
    let (w, h) = (19u32, 13u32);
    let mut img = Vec::new();
    for y in 0..h {
        for x in 0..w {
            img.push((x * 10) as u8);
            img.push((y * 15) as u8);
            img.push(((x + y) * 6) as u8);
        }
    }
    let data = encode(&img, w, h, Color::RGB, 100);
    let decoded = Decoder::new(Cursor::new(&data)).decode().unwrap();
    assert_eq!(decoded.len(), img.len());
    for (a, b) in img.iter().zip(decoded.iter()) {
        assert!((*a as i32 - *b as i32).abs() <= 12, "{} vs {}", a, b);
    }
}

#[test]
fn roundtrip_gray_alpha_drops_alpha() {
    let img = [200u8, 1, 200, 2, 200, 3, 200, 4];
    let data = encode(&img, 2, 2, Color::GrayA, 100);
    let decoded = Decoder::new(Cursor::new(&data)).decode().unwrap();
    assert_eq!(decoded.len(), 4);
    for v in decoded {
        assert!((v as i32 - 200).abs() <= 2);
    }
}

#[test]
fn identical_blocks_decode_identically() {
    // four identical 8x8 blocks: after the first, each codes a DC difference of 0
    let img = vec![77u8; 32 * 8];
    let data = encode(&img, 32, 8, Color::Gray, 90);
    let decoded = Decoder::new(Cursor::new(&data)).decode().unwrap();
    assert_eq!(decoded.len(), 32 * 8);
    for v in decoded {
        assert!((v as i32 - 77).abs() <= 1);
    }
}

#[test]
fn stream_begins_and_ends_with_markers() {
    let data = encode(&[10u8, 20, 30, 40, 50, 60], 2, 1, Color::RGB, 75);
    assert_eq!(&data[0..4], &[0xFF, 0xD8, 0xFF, 0xE0]);
    assert_eq!(&data[data.len() - 2..], &[0xFF, 0xD9]);
    let segs = segments(&data);
    assert_eq!(segs[0].0, 0xE0);
    assert_eq!(
        segs[0].1,
        vec![0x4A, 0x46, 0x49, 0x46, 0x00, 0x01, 0x02, 0x00, 0x00, 0x01, 0x00, 0x01, 0x00, 0x00]
    );
    // frame header: precision 8, height 1, width 2, three components
    assert_eq!(segs[1].0, 0xC0);
    assert_eq!(
        segs[1].1,
        vec![8, 0, 1, 0, 2, 3, 1, 0x11, 0, 2, 0x11, 1, 3, 0x11, 1]
    );
    let sos = segs.last().unwrap();
    assert_eq!(sos.1, vec![3, 1, 0x00, 2, 0x11, 3, 0x11, 0, 63, 0]);
}

#[test]
fn entropy_data_is_stuffed() {
    let mut img = Vec::new();
    for i in 0..(37 * 23 * 3) {
        img.push(((i * 7919) % 256) as u8);
    }
    let data = encode(&img, 37, 23, Color::RGB, 100);
    let scan = scan_data(&data);
    assert!(!scan.is_empty());
    for i in 0..scan.len() {
        if scan[i] == 0xFF {
            assert!(i + 1 < scan.len());
            assert_eq!(scan[i + 1], 0x00);
        }
    }
}

#[test]
fn dht_counts_match_values() {
    let data = encode(&[1u8, 2, 3], 1, 1, Color::RGB, 50);
    let dhts: Vec<Vec<u8>> = segments(&data)
        .into_iter()
        .filter(|s| s.0 == 0xC4)
        .map(|s| s.1)
        .collect();
    assert_eq!(dhts.len(), 4);
    for d in dhts {
        let sum: usize = d[1..17].iter().map(|v| *v as usize).sum();
        assert_eq!(sum, d.len() - 17);
    }
}

#[test]
fn grayscale_has_no_chroma_tables() {
    let data = encode(&[9u8; 16], 4, 4, Color::Gray, 75);
    let segs = segments(&data);
    let dqt: Vec<u8> = segs.iter().filter(|s| s.0 == 0xDB).map(|s| s.1[0]).collect();
    let dht: Vec<u8> = segs.iter().filter(|s| s.0 == 0xC4).map(|s| s.1[0]).collect();
    assert_eq!(dqt, vec![0x00]);
    assert_eq!(dht, vec![0x00, 0x10]);
}

#[test]
fn color_has_luma_and_chroma_tables() {
    let data = encode(&[9u8; 64], 4, 4, Color::RGBA, 75);
    let segs = segments(&data);
    let dqt: Vec<u8> = segs.iter().filter(|s| s.0 == 0xDB).map(|s| s.1[0]).collect();
    let dht: Vec<u8> = segs.iter().filter(|s| s.0 == 0xC4).map(|s| s.1[0]).collect();
    assert_eq!(dqt, vec![0x00, 0x01]);
    assert_eq!(dht, vec![0x00, 0x10, 0x01, 0x11]);
}

#[test]
fn dqt_is_zigzag_ordered_scaled_table() {
    let mut out = Vec::new();
    {
        let mut encoder = JpegEncoder::new(&mut out);
        encoder.encode(&[0u8], 1, 1, Color::Gray).unwrap();
    }
    let segs = segments(&out);
    let dqt = &segs.iter().find(|s| s.0 == 0xDB).unwrap().1;
    assert_eq!(dqt.len(), 65);
    // quality 75 halves the standard table: 16, 11, 12 -> 8, 6, 6
    assert_eq!(&dqt[0..4], &[0, 8, 6, 6]);
}

#[test]
fn quality_tables_are_monotone() {
    for q in 1u8..100 {
        let a = build_quant_tables(q);
        let b = build_quant_tables(q + 1);
        for i in 0..128 {
            assert!(b[i] <= a[i]);
        }
    }
}

#[test]
fn quality_extremes_clamp_entries() {
    assert!(build_quant_tables(100).iter().all(|v| *v == 1));
    assert!(build_quant_tables(0).iter().all(|v| *v == 255));
    assert_eq!(build_quant_tables(0), build_quant_tables(1));
    assert_eq!(build_quant_tables(200), build_quant_tables(100));
    // quality 50 keeps the standard tables
    let t = build_quant_tables(50);
    assert_eq!(&t[0..8], &[16, 11, 10, 16, 24, 40, 51, 61]);
    assert_eq!(&t[64..68], &[17, 18, 24, 47]);
}

#[test]
fn table_construction_is_idempotent() {
    for q in [1u8, 30, 75, 100] {
        assert_eq!(build_quant_tables(q), build_quant_tables(q));
    }
    let mut a = Vec::new();
    let mut b = Vec::new();
    {
        let mut e = JpegEncoder::new_with_quality(&mut a, 42);
        e.encode(&[5u8; 3], 1, 1, Color::RGB).unwrap();
    }
    {
        let mut e = JpegEncoder::new_with_quality(&mut b, 42);
        e.encode(&[5u8; 3], 1, 1, Color::RGB).unwrap();
    }
    assert_eq!(a, b);
}

#[test]
fn short_buffer_is_rejected() {
    let mut out = Vec::new();
    let mut encoder = JpegEncoder::new(&mut out);
    assert_eq!(encoder.encode(&[1u8, 2, 3], 2, 1, Color::RGB), Err(EncodeError::ImageTooSmall));
    drop(encoder);
    assert!(out.is_empty());
}

#[test]
fn oversized_dimension_is_rejected() {
    let mut out = Vec::new();
    let mut encoder = JpegEncoder::new(&mut out);
    assert_eq!(
        encoder.encode(&[0u8; 4], 70000, 1, Color::Gray),
        Err(EncodeError::DimensionTooLarge)
    );
}

#[test]
fn empty_image_has_headers_only() {
    let data = encode(&[], 0, 0, Color::Gray, 75);
    let segs = segments(&data);
    assert_eq!(segs.len(), 6);
    assert!(scan_data(&data).is_empty());
    assert_eq!(&data[data.len() - 2..], &[0xFF, 0xD9]);
}

#[test]
fn second_encode_writes_a_full_stream() {
    let mut out = Vec::new();
    {
        let mut e = JpegEncoder::new(&mut out);
        e.encode(&[1u8, 2, 3, 4], 2, 2, Color::Gray).unwrap();
        e.encode(&[1u8, 2, 3, 4], 2, 2, Color::Gray).unwrap();
    }
    let half = out.len() / 2;
    assert_eq!(out.len() % 2, 0);
    assert_eq!(&out[..half], &out[half..]);
}

#[test]
fn color_transform_values() {
    assert_eq!(rgb_to_ycbcr(255, 0, 0), (76, 84, 255));
    assert_eq!(rgb_to_ycbcr(255, 255, 255), (255, 128, 128));
    assert_eq!(rgb_to_ycbcr(0, 0, 0), (0, 128, 128));
    assert_eq!(rgb_to_ycbcr(0, 0, 255), (29, 255, 107));
}

#[test]
fn sampling_past_the_end_repeats_last_byte() {
    let s = [3u8, 4, 5];
    assert_eq!(value_at(&s, 0), 3);
    assert_eq!(value_at(&s, 2), 5);
    assert_eq!(value_at(&s, 3), 5);
    assert_eq!(value_at(&s, 1000), 5);
}

#[test]
fn fdct_of_flat_blocks() {
    let mid = fdct(&[128u8; 64]);
    assert!(mid.iter().all(|v| *v == 0));
    let white = fdct(&[255u8; 64]);
    assert_eq!(white[0], 8128);
    assert!(white[1..].iter().all(|v| *v == 0));
    let black = fdct(&[0u8; 64]);
    assert_eq!(black[0], -8192);
}
