use oscar::conversions::{raw2rgba_flip, raw_flip, rgba2raw, HEIGHT, WIDTH};

fn test_image() -> Vec<u8> {
    (0..WIDTH * HEIGHT).map(|n| (n % 256) as u8).collect()
}

#[test]
fn test_flip() {
    let orig = test_image();
    let mut buf = orig.clone();
    raw_flip(&mut buf);
    assert!(buf != orig);
    raw_flip(&mut buf);
    assert!(buf == orig);
}

#[test]
fn test_conversions() {
    let orig = test_image();
    let mut buf1 = vec![0u8; WIDTH * HEIGHT];
    let mut buf2 = vec![0u8; WIDTH * HEIGHT];
    raw2rgba_flip(&orig, &mut buf1);
    rgba2raw(&buf1, &mut buf2);
    raw_flip(&mut buf2);
    assert_eq!(orig, buf2);
}

#[test]
fn flip_reverses_the_frame() {
    let orig = test_image();
    let mut buf = orig.clone();
    raw_flip(&mut buf);
    assert_eq!(buf[0], orig[WIDTH * HEIGHT - 1]);
    assert_eq!(buf[WIDTH * HEIGHT - 1], orig[0]);
    assert_eq!(buf[12345], orig[WIDTH * HEIGHT - 1 - 12345]);
}

#[test]
fn rgba_pixel_of_last_cell() {
    let mut src = vec![0u8; WIDTH * HEIGHT];
    let p = WIDTH * HEIGHT - 1;
    src[p] = 10; // B
    src[p - 1] = 20; // G1
    src[p - WIDTH] = 5; // G2
    src[p - 1 - WIDTH] = 40; // R
    let mut dst = vec![0u8; WIDTH * HEIGHT];
    raw2rgba_flip(&src, &mut dst);
    assert_eq!(&dst[0..4], &[40, 20, 10, 5u8.wrapping_sub(20).wrapping_add(0x80)]);
}
