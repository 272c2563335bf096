use ror_core::derive_parameters;

#[test]
fn zero_key_gives_smallest_counts() {
    let key = [0u8; 32];
    assert_eq!(derive_parameters(&key), (3, 100));
}

#[test]
fn all_ones_key_gives_ten_walks() {
    let key = [0xFFu8; 32];
    let (walks, steps) = derive_parameters(&key);
    assert_eq!(0xFFFF_FFFFu32 % 201, 99);
    assert_eq!(walks, 3 + (0xFFFF_FFFFu32 % 8) as u64);
    assert_eq!(walks, 10);
    assert_eq!(steps, 100 + (0xFFFF_FFFFu32 % 201) as u64);
    assert_eq!(steps, 199);
}

#[test]
fn counts_read_little_endian_words() {
    let mut key = [0u8; 32];
    // walks word 0x0000_0105 = 261, 261 % 8 = 5
    key[0] = 0x05;
    key[1] = 0x01;
    // steps word 0x0100_0000 = 16777216, % 201 = 148
    key[7] = 0x01;
    assert_eq!(16_777_216u32 % 201, 148);
    assert_eq!(derive_parameters(&key), (8, 248));
}

#[test]
fn only_first_eight_bytes_count() {
    let mut a = [7u8; 32];
    let mut b = [7u8; 32];
    for i in 8..32 {
        a[i] = i as u8;
        b[i] = 255 - i as u8;
    }
    assert_eq!(derive_parameters(&a), derive_parameters(&b));
}

#[test]
fn counts_stay_in_range() {
    let mut seed: u32 = 12345;
    for _ in 0..500 {
        let mut key = [0u8; 32];
        for byte in key.iter_mut() {
            seed = seed.wrapping_mul(1_103_515_245).wrapping_add(12_345);
            *byte = (seed >> 16) as u8;
        }
        let (walks, steps) = derive_parameters(&key);
        assert!((3..=10).contains(&walks));
        assert!((100..=300).contains(&steps));
    }
}
