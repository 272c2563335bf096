use ror_core::{binary_to_rgb, BinaryImage32x64, Image32x64, Pixel};

#[test]
fn new_canvas_is_blank_256_bytes() {
    let c = BinaryImage32x64::new();
    assert_eq!(c.to_bytes(), vec![0u8; 256]);
    for y in 0..64 {
        for x in 0..32 {
            assert!(!c.get_pixel(x, y));
        }
    }
}

#[test]
fn bits_are_packed_msb_first_row_major() {
    let mut c = BinaryImage32x64::new();
    c.set_pixel(0, 0, true);
    assert_eq!(c.data[0], 0x80);
    c.set_pixel(7, 0, true);
    assert_eq!(c.data[0], 0x81);
    c.set_pixel(8, 0, true);
    assert_eq!(c.data[1], 0x80);
    c.set_pixel(0, 1, true);
    assert_eq!(c.data[4], 0x80);
    c.set_pixel(31, 63, true);
    assert_eq!(c.data[255], 0x01);
    assert!(c.get_pixel(31, 63));
    assert!(!c.get_pixel(30, 63));
}

#[test]
fn clearing_a_cell_leaves_its_neighbours() {
    let mut c = BinaryImage32x64::new();
    for x in 0..8 {
        c.set_pixel(x, 5, true);
    }
    assert_eq!(c.data[20], 0xFF);
    c.set_pixel(3, 5, false);
    assert_eq!(c.data[20], 0xEF);
    assert!(!c.get_pixel(3, 5));
    assert!(c.get_pixel(2, 5));
    assert!(c.get_pixel(4, 5));
}

#[test]
fn out_of_bounds_access_is_ignored() {
    let mut c = BinaryImage32x64::new();
    c.set_pixel(32, 0, true);
    c.set_pixel(0, 64, true);
    c.set_pixel(u64::MAX, u64::MAX, true);
    assert_eq!(c.to_bytes(), vec![0u8; 256]);
    let full = BinaryImage32x64::from_bytes(&[0xFFu8; 256]);
    assert!(!full.get_pixel(32, 0));
    assert!(!full.get_pixel(0, 64));
    assert!(!full.get_pixel(1000, 1000));
    assert!(full.get_pixel(31, 63));
}

#[test]
fn bytes_round_trip() {
    let mut c = BinaryImage32x64::new();
    for i in 0..64 {
        c.set_pixel((i * 7) % 32, i, true);
    }
    let bytes = c.to_bytes();
    assert_eq!(bytes.len(), 256);
    let d = BinaryImage32x64::from_bytes(&bytes);
    assert_eq!(d, c);
    assert_eq!(d.to_bytes(), bytes);
    let raw: Vec<u8> = (0..256).map(|i| (i * 37 % 256) as u8).collect();
    assert_eq!(BinaryImage32x64::from_bytes(&raw).to_bytes(), raw);
}

#[test]
fn pixel_channels() {
    let p = Pixel::new(255, 217, 102);
    assert_eq!(p, Pixel { r: 255, g: 217, b: 102 });
    assert_eq!(p.to_rgb_array(), [255, 217, 102]);
}

#[test]
fn rgb_image_access_and_bytes() {
    let bg = Pixel::new(1, 2, 3);
    let fg = Pixel::new(9, 8, 7);
    let mut img = Image32x64::new(bg);
    assert_eq!(img.pixels.len(), 2048);
    img.set_pixel(5, 6, fg);
    img.set_pixel(32, 0, fg);
    assert_eq!(img.get_pixel(5, 6), Some(fg));
    assert_eq!(img.get_pixel(6, 5), Some(bg));
    assert_eq!(img.get_pixel(32, 0), None);
    assert_eq!(img.get_pixel(0, 64), None);
    let bytes = img.to_bytes();
    assert_eq!(bytes.len(), 6144);
    assert_eq!(&bytes[0..3], &[1, 2, 3]);
    let at = 3 * (6 * 32 + 5);
    assert_eq!(&bytes[at..at + 3], &[9, 8, 7]);
}

#[test]
fn colouring_follows_the_bits() {
    let mut c = BinaryImage32x64::new();
    c.set_pixel(0, 0, true);
    c.set_pixel(31, 63, true);
    c.set_pixel(10, 20, true);
    let fg = Pixel::new(255, 217, 102);
    let bg = Pixel::new(255, 0, 129);
    let img = binary_to_rgb(&c, fg, bg);
    for y in 0..64 {
        for x in 0..32 {
            let expected = if c.get_pixel(x, y) { fg } else { bg };
            assert_eq!(img.get_pixel(x, y), Some(expected));
        }
    }
    assert_eq!(img.get_pixel(10, 20), Some(fg));
    assert_eq!(img.get_pixel(11, 20), Some(bg));
}

#[test]
fn chunks_reassemble_in_order() {
    let mut chunks = [[0u8; 32]; 8];
    for (c, chunk) in chunks.iter_mut().enumerate() {
        for (k, b) in chunk.iter_mut().enumerate() {
            *b = (c * 32 + k) as u8 ^ 0xA5;
        }
    }
    let canvas = BinaryImage32x64::from_chunks(&chunks);
    let bytes = canvas.to_bytes();
    assert_eq!(bytes.len(), 256);
    for i in 0..256 {
        assert_eq!(bytes[i], (i as u8) ^ 0xA5);
    }
    assert_eq!(canvas, BinaryImage32x64::from_bytes(&chunks.concat()));
}
