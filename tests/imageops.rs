use oscar::imageops::{concat_images, histeq, resize};

#[test]
fn concat_gray_rows_side_by_side() {
    let left = [1u8, 2, 3, 4, 5, 6];
    let right = [7u8, 8, 9, 10, 11, 12];
    let out = concat_images(&left, &right, 3, 2, false);
    assert_eq!(out, vec![1, 2, 3, 7, 8, 9, 4, 5, 6, 10, 11, 12]);
}

#[test]
fn concat_color_rows_side_by_side() {
    let left = [1u8, 1, 1, 2, 2, 2];
    let right = [3u8, 3, 3, 4, 4, 4];
    let out = concat_images(&left, &right, 1, 2, true);
    assert_eq!(out, vec![1, 1, 1, 3, 3, 3, 2, 2, 2, 4, 4, 4]);
}

#[test]
fn concat_empty() {
    assert!(concat_images(&[], &[], 0, 5, true).is_empty());
}

#[test]
fn resize_averages_squares() {
    // 4x2 RGB image, scale 2 -> 2x1
    let mut data = Vec::new();
    for v in [10u8, 20, 30, 40, 50, 60, 70, 81] {
        data.extend_from_slice(&[v, v / 2, 255 - v]);
    }
    let out = resize(&data, 4, 2, 2);
    // first square: pixels 0, 1 (row 0) and 4, 5 (row 1)
    let s0 = (10 + 20 + 50 + 60) / 4;
    let s1 = (30 + 40 + 70 + 81) / 4;
    assert_eq!(out.len(), 6);
    assert_eq!(out[0], s0 as u8);
    assert_eq!(out[3], s1 as u8);
    assert_eq!(out[1], ((5 + 10 + 25 + 30) / 4) as u8);
    assert_eq!(out[5], ((225 + 215 + 185 + 174) / 4) as u8);
}

#[test]
fn resize_flat_image_keeps_value() {
    let data = vec![123u8; 3 * 32 * 16];
    let out = resize(&data, 32, 16, 16);
    assert_eq!(out, vec![123u8; 3 * 2]);
}

#[test]
fn histeq_spreads_levels() {
    // 255 pixels, the first half dark, the rest bright
    let mut data = Vec::new();
    for p in 0..255 {
        let v = if p < 128 { 10u8 } else { 200u8 };
        data.extend_from_slice(&[v, v, v]);
    }
    histeq(&mut data);
    // unit = 255 / 255 = 1; level 10 has 128 pixels at or below, level 200 all 255
    assert!(data[..128 * 3].iter().all(|v| *v == 128));
    assert!(data[128 * 3..].iter().all(|v| *v == 255));
}
