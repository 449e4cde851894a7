use oscar::conversions::{HEIGHT, WIDTH};
use oscar::flif::{
    all_equal, compare, load_flif, load_raw_pnm, read_flif, read_flif_inner, DecodingError, FlifDecoder,
    FrameError,
};
use oscar::names::parse_unsigned_exec;
use oscar::options::{Format, FormatOpt, OptionsError, ScaleError, parse_scale};
use oscar::stereo::{pair_frames, PairCounts};
use oscar::timestamp::{get_timestamp, parse_timestamp, Timestamp, TimestampError};

#[test]
fn timestamp_from_frame_path() {
    assert_eq!(
        get_timestamp("/data/left/1528370000123_456789.flif"),
        Ok(Timestamp { unix: 1528370000123, os: 456789 })
    );
    assert_eq!(get_timestamp("7_8.flif"), Ok(Timestamp { unix: 7, os: 8 }));
    assert_eq!(get_timestamp("+7_8.flif"), Ok(Timestamp { unix: 7, os: 8 }));
}

#[test]
fn timestamp_errors() {
    assert_eq!(get_timestamp("/data/1_2.png"), Err(TimestampError::NotFlif));
    assert_eq!(get_timestamp("/data/1_2"), Err(TimestampError::NotFlif));
    assert_eq!(get_timestamp("/data/1_2_3.flif"), Err(TimestampError::BadPattern));
    assert_eq!(get_timestamp("/data/12.flif"), Err(TimestampError::BadPattern));
    assert_eq!(get_timestamp("/data/a_2.flif"), Err(TimestampError::BadPattern));
    assert_eq!(get_timestamp("/data/_2.flif"), Err(TimestampError::BadPattern));
    assert_eq!(
        get_timestamp("/data/1_18446744073709551616.flif"),
        Err(TimestampError::BadPattern)
    );
    assert_eq!(
        get_timestamp("/data/1_18446744073709551615.flif"),
        Ok(Timestamp { unix: 1, os: u64::MAX })
    );
}

#[test]
fn stem_parsing() {
    assert_eq!(parse_timestamp(b"10_20"), Some(Timestamp { unix: 10, os: 20 }));
    assert_eq!(parse_timestamp(b"10-20"), None);
    assert_eq!(parse_timestamp(b""), None);
}

#[test]
fn unsigned_parsing_matches_std() {
    for s in ["0", "42", "+42", "255", "256", "", "+", "-1", "1a", "007"] {
        let ours = parse_unsigned_exec(s.as_bytes(), 255);
        let std = s.parse::<u8>().ok().map(|v| v as u64);
        assert_eq!(ours, std, "{}", s);
    }
}

#[test]
fn scale_factors() {
    assert_eq!(parse_scale(b"1"), Ok(1));
    assert_eq!(parse_scale(b"16"), Ok(16));
    assert_eq!(parse_scale(b"3"), Err(ScaleError::Unsupported));
    assert_eq!(parse_scale(b"32"), Err(ScaleError::Unsupported));
    assert_eq!(parse_scale(b"x"), Err(ScaleError::Invalid));
    assert_eq!(parse_scale(b"300"), Err(ScaleError::Invalid));
}

#[test]
fn format_names() {
    assert_eq!(Format::from_name(b"pnm"), Ok(Format::Pnm));
    assert_eq!(Format::from_name(b"png"), Ok(Format::Png));
    assert_eq!(Format::from_name(b"jpeg"), Ok(Format::Jpeg));
    assert!(Format::from_name(b"jpg").is_err());
    assert_eq!(Format::default(), Format::Pnm);
}

#[test]
fn scale_needs_demosaic() {
    let mut opt = FormatOpt { demosaic: false, histeq: false, format: Format::Png, scale: 2, quality: 90 };
    assert_eq!(opt.check(), Err(OptionsError::ScaleWithoutDemosaic));
    opt.demosaic = true;
    assert_eq!(opt.check(), Ok(()));
    opt.demosaic = false;
    opt.scale = 1;
    assert_eq!(opt.check(), Ok(()));
}

#[test]
fn garbage_is_not_flif() {
    assert_eq!(FlifDecoder::new(&[1, 2, 3, 4]).err(), Some(DecodingError));
    assert_eq!(read_flif_inner(&[0u8; 10]), Err(FrameError::Decoding));
    assert_eq!(read_flif(b"not a flif file"), Err(FrameError::Decoding));
}

#[test]
fn flat_buffers() {
    assert!(all_equal(&vec![]));
    assert!(all_equal(&vec![3, 3, 3]));
    assert!(!all_equal(&vec![3, 3, 4]));
}

#[test]
fn raw_pnm_frame_is_read() {
    let mut file = b"P5\n2448 2048\n255\n".to_vec();
    let body: Vec<u8> = (0..WIDTH * HEIGHT).map(|n| (n % 251) as u8).collect();
    file.extend_from_slice(&body);
    assert_eq!(load_raw_pnm(&file), Ok(body.clone()));
    let mut bad = file.clone();
    bad[1] = b'6';
    assert_eq!(load_raw_pnm(&bad), Err(FrameError::UnexpectedProperties));
    assert_eq!(load_raw_pnm(&file[..file.len() - 1]), Err(FrameError::UnexpectedProperties));
    assert_eq!(load_raw_pnm(b"P5"), Err(FrameError::UnexpectedProperties));
}

#[test]
fn rgba_flif_garbage_is_refused() {
    assert_eq!(load_flif(b"FLIF garbage"), Err(FrameError::Decoding));
}

#[test]
fn compare_needs_both_frames() {
    assert_eq!(compare(b"P5", b"x"), Err(FrameError::UnexpectedProperties));
    let mut pnm = b"P5\n2448 2048\n255\n".to_vec();
    pnm.extend(std::iter::repeat(0u8).take(WIDTH * HEIGHT));
    assert_eq!(compare(&pnm, b"not flif"), Err(FrameError::Decoding));
}

#[test]
fn frames_pair_by_position() {
    let t = |unix: u64, os: u64| Some(Timestamp { unix, os });
    let left = vec![t(1, 100), None, t(3, 166)];
    let right = vec![t(1, 104), t(2, 133)];
    let (pairs, counts) = pair_frames(&left, &right, false, false).unwrap();
    assert_eq!(pairs, vec![(t(1, 100), t(1, 104)), (None, t(2, 133)), (t(3, 166), None)]);
    assert_eq!(counts, PairCounts { full: 1, partial: 2, empty: 0 });
    let (pairs, _) = pair_frames(&left, &right, true, false).unwrap();
    assert_eq!(pairs, vec![(t(1, 100), t(1, 104))]);
    let empty_left = vec![None];
    let (pairs, counts) = pair_frames(&empty_left, &vec![None], false, true).unwrap();
    assert!(pairs.is_empty());
    assert_eq!(counts.empty, 1);
}

#[test]
fn misaligned_frames_are_refused() {
    let left = vec![Some(Timestamp { unix: 1, os: 100 })];
    let right = vec![Some(Timestamp { unix: 1, os: 110 })];
    assert!(pair_frames(&left, &right, false, false).is_none());
    let right = vec![Some(Timestamp { unix: 1, os: 109 })];
    assert!(pair_frames(&left, &right, false, false).is_some());
}
